//! Which buffers exist when a request is performed.

use crate::backend::{
    own_numbers, setup_plan, CudaBackend, PlaquettePairData, WilsonLoopData,
};
use crate::device::{Buffer, HostModel, Kernel, KernelArg, OpModel};
use crate::lattice::SiteIndex;
use crate::measure::scratch_plan;
use crate::sizes::{all_sites, half_sites, normal_area, rng_len, spanning_planes};
use crate::updates::{sweep_plan, update_plan};
use crate::wilson::{loops_plan, probs_launch};
use vstd::prelude::*;

verus! {

/// The argument names no buffer outside of `have`.
pub open spec fn arg_within(arg: KernelArg, have: Set<Buffer>) -> bool {
    match arg {
        KernelArg::Read(b) => have.contains(b),
        KernelArg::Write(b) => have.contains(b),
        _ => true,
    }
}

/// The request can be performed when the buffers in `have` exist.
pub open spec fn possible(op: OpModel, have: Set<Buffer>) -> bool {
    match op {
        OpModel::Upload { buffer, .. } => have.contains(buffer),
        OpModel::Clear { buffer } => have.contains(buffer),
        OpModel::FillUniform { buffer } => have.contains(buffer),
        OpModel::Download { buffer, .. } => have.contains(buffer),
        OpModel::Keep { from, .. } => have.contains(from),
        OpModel::Run(launch) => forall|i: int|
            0 <= i < launch.args.len() ==> arg_within(#[trigger] launch.args[i], have),
        OpModel::AllocZeros { .. } => true,
        OpModel::SeedRng { .. } => true,
        OpModel::Synchronize => true,
    }
}

/// The buffers that exist after a request.
pub open spec fn after_op(op: OpModel, have: Set<Buffer>) -> Set<Buffer> {
    match op {
        OpModel::AllocZeros { buffer, .. } => have.insert(buffer),
        OpModel::Keep { from, to } => have.remove(from).insert(to),
        _ => have,
    }
}

/// The buffers that exist after a list of requests.
pub open spec fn after_all(ops: Seq<OpModel>, have: Set<Buffer>) -> Set<Buffer>
    decreases ops.len(),
{
    if ops.len() == 0 {
        have
    } else {
        after_op(ops.last(), after_all(ops.drop_last(), have))
    }
}

/// No request of the list names a buffer that does not exist when its turn comes.
pub open spec fn all_possible(ops: Seq<OpModel>, have: Set<Buffer>) -> bool
    decreases ops.len(),
{
    ops.len() > 0 ==> all_possible(ops.drop_last(), have) && possible(
        ops.last(),
        after_all(ops.drop_last(), have),
    )
}

/// The buffers of a backend that was set up.
pub open spec fn setup_buffers() -> Set<Buffer> {
    set![
        Buffer::State,
        Buffer::Potential,
        Buffer::PotentialRedirect,
        Buffer::EdgePotential,
        Buffer::EdgePotentialRedirect,
        Buffer::WindingChemicalPotential,
        Buffer::Rng,
    ]
}

/// Lists can be performed one after the other.
proof fn lemma_one_after_the_other(a: Seq<OpModel>, b: Seq<OpModel>, have: Set<Buffer>)
    requires
        all_possible(a, have),
        all_possible(b, after_all(a, have)),
    ensures
        all_possible(a + b, have),
        after_all(a + b, have) == after_all(b, after_all(a, have)),
    decreases b.len(),
{
    if b.len() == 0 {
        assert(a + b =~= a);
    } else {
        assert((a + b).drop_last() =~= a + b.drop_last());
        assert((a + b).last() == b.last());
        lemma_one_after_the_other(a, b.drop_last(), have);
    }
}

/// A list with one more request.
proof fn lemma_push(ops: Seq<OpModel>, op: OpModel, have: Set<Buffer>)
    requires
        all_possible(ops, have),
        possible(op, after_all(ops, have)),
    ensures
        all_possible(ops.push(op), have),
        after_all(ops.push(op), have) == after_op(op, after_all(ops, have)),
{
    assert(ops.push(op).drop_last() =~= ops);
}

/// A buffer that is made and filled.
proof fn lemma_push_filled(
    ops: Seq<OpModel>,
    buffer: Buffer,
    len: usize,
    data: HostModel,
    have: Set<Buffer>,
)
    requires
        all_possible(ops, have),
    ensures
        ({
            let more = ops.push(OpModel::AllocZeros { buffer, len }).push(
                OpModel::Upload { buffer, data },
            );
            all_possible(more, have) && after_all(more, have) == after_all(ops, have).insert(buffer)
        }),
{
    let alloc = OpModel::AllocZeros { buffer, len };
    lemma_push(ops, alloc, have);
    lemma_push(ops.push(alloc), OpModel::Upload { buffer, data }, have);
}

/// Setting up makes all buffers that it fills.
pub proof fn law_setup_makes_its_buffers(
    n: usize,
    b: SiteIndex,
    vn_len: usize,
    edge_vn_len: usize,
    state: Option<Seq<i32>>,
    has_chemical_potential: bool,
    seed: u64,
)
    ensures
        ({
            let ops = setup_plan(n, b, vn_len, edge_vn_len, state, has_chemical_potential, seed);
            all_possible(ops, set![]) && after_all(ops, set![]) == setup_buffers()
        }),
{
    let none = Set::<Buffer>::empty();
    let ops = setup_plan(n, b, vn_len, edge_vn_len, state, has_chemical_potential, seed);
    let mut s = Seq::<OpModel>::empty();
    let alloc = OpModel::AllocZeros { buffer: Buffer::State, len: (all_sites(n, b) * 6) as usize };
    lemma_push(s, alloc, none);
    s = s.push(alloc);
    match state {
        Some(v) => {
            let upload = OpModel::Upload { buffer: Buffer::State, data: HostModel::I32(v) };
            lemma_push(s, upload, none);
            s = s.push(upload);
        },
        None => {},
    }
    lemma_push_filled(s, Buffer::Potential, vn_len, HostModel::FromCaller, none);
    s = s.push(OpModel::AllocZeros { buffer: Buffer::Potential, len: vn_len }).push(
        OpModel::Upload { buffer: Buffer::Potential, data: HostModel::FromCaller },
    );
    lemma_push_filled(s, Buffer::EdgePotential, edge_vn_len, HostModel::FromCaller, none);
    s = s.push(OpModel::AllocZeros { buffer: Buffer::EdgePotential, len: edge_vn_len }).push(
        OpModel::Upload { buffer: Buffer::EdgePotential, data: HostModel::FromCaller },
    );
    let winding = Buffer::WindingChemicalPotential;
    let alloc = OpModel::AllocZeros { buffer: winding, len: n };
    lemma_push(s, alloc, none);
    s = s.push(alloc);
    if has_chemical_potential {
        let upload = OpModel::Upload { buffer: winding, data: HostModel::FromCaller };
        lemma_push(s, upload, none);
        s = s.push(upload);
    }
    let own = HostModel::U32(own_numbers(n));
    let len = (n as u32) as usize;
    lemma_push_filled(s, Buffer::PotentialRedirect, len, own, none);
    s = s.push(OpModel::AllocZeros { buffer: Buffer::PotentialRedirect, len }).push(
        OpModel::Upload { buffer: Buffer::PotentialRedirect, data: own },
    );
    lemma_push_filled(s, Buffer::EdgePotentialRedirect, len, own, none);
    s = s.push(OpModel::AllocZeros { buffer: Buffer::EdgePotentialRedirect, len }).push(
        OpModel::Upload { buffer: Buffer::EdgePotentialRedirect, data: own },
    );
    let consumers = rng_len(n, b) as usize;
    lemma_push_filled(s, Buffer::Rng, consumers, HostModel::Zeros(consumers), none);
    s = s.push(OpModel::AllocZeros { buffer: Buffer::Rng, len: consumers }).push(
        OpModel::Upload { buffer: Buffer::Rng, data: HostModel::Zeros(consumers) },
    );
    lemma_push(s, OpModel::SeedRng { seed }, none);
    s = s.push(OpModel::SeedRng { seed });
    assert(s =~= ops);
    assert(after_all(s, none) =~= setup_buffers());
}

/// An update uses the buffers that the set up makes, and leaves them as they are.
proof fn lemma_update(kernel: Kernel, args: Seq<KernelArg>, threads: int)
    requires
        forall|i: int| 0 <= i < args.len() ==> arg_within(#[trigger] args[i], setup_buffers()),
    ensures
        all_possible(update_plan(kernel, args, threads), setup_buffers()),
        after_all(update_plan(kernel, args, threads), setup_buffers()) == setup_buffers(),
{
    let have = setup_buffers();
    let ops = update_plan(kernel, args, threads);
    let none = Seq::<OpModel>::empty();
    lemma_push(none, ops[0], have);
    lemma_push(none.push(ops[0]), ops[1], have);
    assert(none.push(ops[0]).push(ops[1]) =~= ops);
}

/// Every update can be performed on a backend that was set up, and needs nothing but the
/// buffers that the set up makes.
pub proof fn law_updates_find_their_buffers(
    state: &CudaBackend,
    kind: u16,
    offset: bool,
    fourth: u16,
    local: Seq<(u16, bool)>,
    charge: Seq<(u16, bool)>,
)
    ensures
        all_possible(state.local_update_plan(kind, offset), setup_buffers()),
        all_possible(state.charge_update_plan(kind, offset), setup_buffers()),
        all_possible(state.plane_shift_plan(kind, offset), setup_buffers()),
        all_possible(state.matter_update_plan(kind, fourth), setup_buffers()),
        all_possible(state.global_update_plan(), setup_buffers()),
        all_possible(
            sweep_plan(local, |k: (u16, bool)| state.local_update_plan(k.0, k.1)),
            setup_buffers(),
        ),
        all_possible(
            sweep_plan(charge, |k: (u16, bool)| state.charge_update_plan(k.0, k.1)),
            setup_buffers(),
        ),
{
    lemma_single_updates(state, kind, offset);
    let f = |k: (u16, bool)| state.local_update_plan(k.0, k.1);
    assert forall|k: (u16, bool)| all_possible(#[trigger] f(k), setup_buffers()) && after_all(
        f(k),
        setup_buffers(),
    ) == setup_buffers() by {
        lemma_single_updates(state, k.0, k.1);
    }
    lemma_sweep(local, f);
    let g = |k: (u16, bool)| state.charge_update_plan(k.0, k.1);
    assert forall|k: (u16, bool)| all_possible(#[trigger] g(k), setup_buffers()) && after_all(
        g(k),
        setup_buffers(),
    ) == setup_buffers() by {
        lemma_single_updates(state, k.0, k.1);
    }
    lemma_sweep(charge, g);
    let matter = state.matter_update_plan(kind, fourth)[1]->Run_0.args;
    lemma_update(Kernel::UpdateMatterLoops, matter, all_sites(state.nreplicas, state.bounds) / 4);
    let global = state.global_update_plan()[1]->Run_0.args;
    lemma_update(
        Kernel::GlobalUpdateSweep,
        global,
        state.nreplicas * spanning_planes(state.bounds),
    );
}

/// What single updates need and leave.
proof fn lemma_single_updates(state: &CudaBackend, kind: u16, offset: bool)
    ensures
        all_possible(state.local_update_plan(kind, offset), setup_buffers()),
        after_all(state.local_update_plan(kind, offset), setup_buffers()) == setup_buffers(),
        all_possible(state.charge_update_plan(kind, offset), setup_buffers()),
        after_all(state.charge_update_plan(kind, offset), setup_buffers()) == setup_buffers(),
        all_possible(state.plane_shift_plan(kind, offset), setup_buffers()),
        after_all(state.plane_shift_plan(kind, offset), setup_buffers()) == setup_buffers(),
{
    let local = state.local_update_plan(kind, offset)[1]->Run_0.args;
    lemma_update(
        Kernel::SingleLocalUpdatePlaquettes,
        local,
        state.nreplicas * half_sites(state.bounds),
    );
    let charge = state.charge_update_plan(kind, offset)[1]->Run_0.args;
    lemma_update(Kernel::ChargeUpdate, charge, state.nreplicas * half_sites(state.bounds));
    let shift = state.plane_shift_plan(kind, offset)[1]->Run_0.args;
    lemma_update(Kernel::PlaneShiftUpdate, shift, normal_area(state.bounds, kind as int) / 2);
}

/// A sweep needs what its updates need.
proof fn lemma_sweep(kinds: Seq<(u16, bool)>, update: spec_fn((u16, bool)) -> Seq<OpModel>)
    requires
        forall|k: (u16, bool)| all_possible(#[trigger] update(k), setup_buffers()) && after_all(
            update(k),
            setup_buffers(),
        ) == setup_buffers(),
    ensures
        all_possible(sweep_plan(kinds, update), setup_buffers()),
        after_all(sweep_plan(kinds, update), setup_buffers()) == setup_buffers(),
    decreases kinds.len(),
{
    if kinds.len() > 0 {
        lemma_sweep(kinds.drop_last(), update);
        lemma_one_after_the_other(
            sweep_plan(kinds.drop_last(), update),
            update(kinds.last()),
            setup_buffers(),
        );
    }
}

/// A measurement of Wilson loops makes the buffers that its calculations need.
pub proof fn law_wilson_loops_find_their_buffers(
    state: &CudaBackend,
    kernel: Kernel,
    loops: Seq<u32>,
    data: WilsonLoopData,
    probs: usize,
)
    ensures
        ({
            let (place, plaquette_type) = match data {
                WilsonLoopData::AspectRatios { plaquette_type, .. } => (
                    Buffer::AspectRatios,
                    plaquette_type,
                ),
                WilsonLoopData::IncrementOnSquares { plaquette_type, .. } => (
                    Buffer::Increments,
                    plaquette_type,
                ),
            };
            let ops = loops_plan(kernel, state, loops, place, plaquette_type, probs);
            &&& all_possible(ops, setup_buffers())
            &&& possible(
                OpModel::Run(probs_launch(state, data)),
                after_all(ops, setup_buffers()),
            )
            &&& possible(
                OpModel::Clear { buffer: Buffer::Probs },
                after_all(ops, setup_buffers()),
            )
        }),
{
    let (place, plaquette_type) = match data {
        WilsonLoopData::AspectRatios { plaquette_type, .. } => (
            Buffer::AspectRatios,
            plaquette_type,
        ),
        WilsonLoopData::IncrementOnSquares { plaquette_type, .. } => (
            Buffer::Increments,
            plaquette_type,
        ),
    };
    let have = setup_buffers();
    let ops = loops_plan(kernel, state, loops, place, plaquette_type, probs);
    let mut s = Seq::<OpModel>::empty();
    lemma_push(s, ops[0], have);
    s = s.push(ops[0]);
    lemma_push(s, ops[1], have);
    s = s.push(ops[1]);
    lemma_push(s, ops[2], have);
    s = s.push(ops[2]);
    lemma_push(s, ops[3], have);
    s = s.push(ops[3]);
    lemma_push(s, ops[4], have);
    s = s.push(ops[4]);
    lemma_push(s, ops[5], have);
    s = s.push(ops[5]);
    assert(s =~= ops);
}

/// A measurement with one launch on the state.
proof fn lemma_scratch(kernel: Kernel, args: Seq<KernelArg>, threads: int, len: int)
    requires
        forall|i: int|
            0 <= i < args.len() ==> arg_within(
                #[trigger] args[i],
                setup_buffers().insert(Buffer::ScratchI32),
            ),
    ensures
        all_possible(scratch_plan(kernel, args, threads, len), setup_buffers()),
{
    let have = setup_buffers();
    let none = Seq::<OpModel>::empty();
    let ops = scratch_plan(kernel, args, threads, len);
    lemma_push(none, ops[0], have);
    lemma_push(none.push(ops[0]), ops[1], have);
    lemma_push(none.push(ops[0]).push(ops[1]), ops[2], have);
    assert(none.push(ops[0]).push(ops[1]).push(ops[2]) =~= ops);
}

/// Every measurement can be performed on a backend that was set up, and needs nothing but
/// the buffers that the set up makes.
pub proof fn law_measurements_find_their_buffers(
    state: &CudaBackend,
    kernel: Kernel,
    size: int,
    bins: int,
    plaquette_type: u16,
)
    ensures
        all_possible(state.edge_plan(), setup_buffers()),
        all_possible(state.flow_plan(), setup_buffers()),
        all_possible(state.corner_plan(plaquette_type), setup_buffers()),
        all_possible(state.winding_plan(), setup_buffers()),
        all_possible(state.count_plan(kernel, size, bins), setup_buffers()),
        all_possible(state.action_plan(), setup_buffers()),
{
    let have = setup_buffers();
    let none = Seq::<OpModel>::empty();
    let all = all_sites(state.nreplicas, state.bounds);
    let edge = state.edge_plan()[1]->Run_0.args;
    lemma_scratch(Kernel::CalculateEdgeSums, edge, all * 4, all * 4);
    let flow = state.flow_plan()[1]->Run_0.args;
    lemma_scratch(Kernel::CalculateMatterFlowThroughCoords, flow, all, all);
    let corner = state.corner_plan(plaquette_type)[1]->Run_0.args;
    lemma_scratch(Kernel::CalculateMatterCornersForPlaquettes, corner, all, all * 4);
    let winding = state.winding_plan()[1]->Run_0.args;
    lemma_scratch(Kernel::SumWinding, winding, state.nreplicas * 6, state.nreplicas * 6);
    let counts = state.count_plan(kernel, size, bins);
    lemma_push(none, counts[0], have);
    lemma_push(none.push(counts[0]), counts[1], have);
    lemma_push(none.push(counts[0]).push(counts[1]), counts[2], have);
    lemma_push(none.push(counts[0]).push(counts[1]).push(counts[2]), counts[3], have);
    assert(none.push(counts[0]).push(counts[1]).push(counts[2]).push(counts[3]) =~= counts);
    let action = state.action_plan();
    let mut s = none;
    lemma_push(s, action[0], have);
    s = s.push(action[0]);
    lemma_push(s, action[1], have);
    s = s.push(action[1]);
    lemma_push(s, action[2], have);
    s = s.push(action[2]);
    lemma_push(s, action[3], have);
    s = s.push(action[3]);
    lemma_push(s, action[4], have);
    s = s.push(action[4]);
    lemma_push(s, action[5], have);
    s = s.push(action[5]);
    assert(s =~= action);
}

/// Counting pairs needs the table besides the buffers that the set up makes.
pub proof fn law_pair_counts_find_their_buffers(
    state: &CudaBackend,
    pairs: PlaquettePairData,
    plaquette_type: u32,
)
    ensures
        possible(
            OpModel::Run(state.pair_launch(pairs, plaquette_type)),
            setup_buffers().insert(Buffer::PairCounts),
        ),
{
}

} // verus!
