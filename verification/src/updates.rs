//! Updates of the state.
//!
//! Every update fills the buffer of random numbers and then launches a kernel.

use crate::backend::{charge_types, local_types, told_of_lattice, CudaBackend};
use crate::device::{
    begins_with, covers, launch_model, law_launch_is_what_was_asked, names_just, names_only_flag,
    names_only_short, plan, threads_of, Buffer, DeviceOp, Kernel, KernelArg, Launch, LaunchModel,
    OpModel,
};
use crate::lattice::{extent, spanned, SiteIndex};
use crate::random::{random_flag, shuffle};
use crate::sizes::{all_sites, half_sites, lemma_sizes, normal_area, rng_len, spanning_planes};
use vstd::prelude::*;

verus! {

/// An update: new random numbers, then a launch of `threads` threads.
pub open spec fn update_plan(kernel: Kernel, args: Seq<KernelArg>, threads: int) -> Seq<OpModel> {
    seq![
        OpModel::FillUniform { buffer: Buffer::Rng },
        OpModel::Run(launch_model(kernel, args, (threads as usize) as u32)),
    ]
}

/// The updates of a list, one after the other.
pub open spec fn sweep_plan(
    kinds: Seq<(u16, bool)>,
    update: spec_fn((u16, bool)) -> Seq<OpModel>,
) -> Seq<OpModel>
    decreases kinds.len(),
{
    if kinds.len() == 0 {
        seq![]
    } else {
        sweep_plan(kinds.drop_last(), update) + update(kinds.last())
    }
}

/// The plane of a matter update and its offset in one number.
pub open spec fn packed_type(plaquette_type: u16, offset: u16) -> u16 {
    (plaquette_type << 2u16) | offset
}

/// A plane and an offset below four can be read back from the number that holds both.
pub proof fn law_packed_type_can_be_read(plaquette_type: u16, offset: u16)
    requires
        plaquette_type < 0x4000,
        offset < 4,
    ensures
        packed_type(plaquette_type, offset) >> 2u16 == plaquette_type,
        packed_type(plaquette_type, offset) & 3 == offset,
{
    assert(((plaquette_type << 2u16) | offset) >> 2u16 == plaquette_type && ((plaquette_type
        << 2u16) | offset) & 3 == offset) by (bit_vector)
        requires
            plaquette_type < 0x4000,
            offset < 4,
    ;
}

/// The buffer of random numbers has one for each thread of every update: of the local and
/// charge updates, of the global updates, of a plane shift, and of the matter updates.
pub proof fn law_random_numbers_suffice(state: &CudaBackend, p: int)
    requires
        state.wf(),
        0 <= p < 6,
    ensures
        state.nreplicas * half_sites(state.bounds) <= rng_len(state.nreplicas, state.bounds),
        state.nreplicas * spanning_planes(state.bounds) <= rng_len(state.nreplicas, state.bounds),
        normal_area(state.bounds, p) / 2 <= rng_len(state.nreplicas, state.bounds),
        all_sites(state.nreplicas, state.bounds) / 4 <= rng_len(state.nreplicas, state.bounds),
{
    let b = state.bounds;
    lemma_sizes(state.nreplicas, b);
    assert(0 <= normal_area(b, p) <= spanning_planes(b));
    let m = state.nreplicas as int;
    let (t, x, y, z) = (b.t as int, b.x as int, b.y as int, b.z as int);
    let k = t / 2;
    let w = k * x * y * z;
    assert(t * x * y * z == 2 * w) by (nonlinear_arith)
        requires
            t == 2 * k,
            w == k * x * y * z,
    ;
    assert(m * (2 * w) == 2 * (m * w)) by (nonlinear_arith);
}

/// An update consists of new random numbers and a launch of this kernel.
pub open spec fn is_update(ops: Seq<OpModel>, kernel: Kernel) -> bool {
    &&& ops.len() == 2
    &&& ops[0] == OpModel::FillUniform { buffer: Buffer::Rng }
    &&& ops[1] matches OpModel::Run(l) && l.kernel == kernel
}

/// The launch of an update.
pub open spec fn launch_in(ops: Seq<OpModel>) -> LaunchModel {
    ops[1]->Run_0
}

/// Two launches differ in nothing but the plane or volume and the offset that they name.
pub open spec fn same_but_kind(a: LaunchModel, b: LaunchModel) -> bool {
    &&& a.kernel == b.kernel
    &&& a.config == b.config
    &&& a.args.len() == b.args.len()
    &&& forall|i: int|
        0 <= i < a.args.len() && !((#[trigger] a.args[i]) is Short) && !(a.args[i] is Flag)
            ==> a.args[i] == b.args[i]
}

/// The local update of a volume and an offset launches the local kernel with just this
/// volume and this offset, on the state, the plaquette potential and the random numbers, with
/// one thread for every two sites. Another kind makes no other difference.
pub proof fn law_local_update_names_its_kind(
    state: &CudaBackend,
    volume: u16,
    offset: bool,
    other: (u16, bool),
)
    requires
        state.wf(),
    ensures
        ({
            let ops = state.local_update_plan(volume, offset);
            let l = launch_in(ops);
            let b = state.bounds;
            &&& is_update(ops, Kernel::SingleLocalUpdatePlaquettes)
            &&& names_only_short(l.args, volume)
            &&& names_only_flag(l.args, offset)
            &&& names_just(
                l.args,
                set![Buffer::State, Buffer::Potential, Buffer::PotentialRedirect, Buffer::Rng],
            )
            &&& l.args.len() == 12
            &&& begins_with(
                l.args,
                seq![
                    KernelArg::Read(Buffer::State),
                    KernelArg::Read(Buffer::Potential),
                    KernelArg::Read(Buffer::PotentialRedirect),
                    KernelArg::Size(state.potential_size),
                    KernelArg::Read(Buffer::Rng),
                    KernelArg::Short(volume),
                    KernelArg::Flag(offset),
                ],
            )
            &&& told_of_lattice(l.args, state)
            &&& state.nreplicas * b.t * b.x * b.y * b.z <= 2 * u32::MAX ==> state.nreplicas * b.t
                * b.x * b.y * b.z <= 2 * threads_of(l) < state.nreplicas * b.t * b.x * b.y * b.z
                + 2 * 1024
            &&& same_but_kind(l, launch_in(state.local_update_plan(other.0, other.1)))
        }),
{
    let ops = state.local_update_plan(volume, offset);
    let l = launch_in(ops);
    let n = state.nreplicas;
    let b = state.bounds;
    lemma_sizes(n, b);
    lemma_halves(n, b);
    law_launch_is_what_was_asked(l.kernel, l.args, (n * half_sites(b)) as u32);
    let k = l.args;
    assert(k[0] == KernelArg::Read(Buffer::State));
    assert(k[1] == KernelArg::Read(Buffer::Potential));
    assert(k[2] == KernelArg::Read(Buffer::PotentialRedirect));
    assert(k[3] == KernelArg::Size(state.potential_size));
    assert(k[4] == KernelArg::Read(Buffer::Rng));
    assert(k[5] == KernelArg::Short(volume));
    assert(k[6] == KernelArg::Flag(offset));
}

/// The charge update of a plane and an offset launches the charge kernel with just this
/// plane and this offset, on the state, both potentials and the random numbers, with one
/// thread for every two sites. Another kind makes no other difference.
pub proof fn law_charge_update_names_its_kind(
    state: &CudaBackend,
    plaquette_type: u16,
    offset: bool,
    other: (u16, bool),
)
    requires
        state.wf(),
    ensures
        ({
            let ops = state.charge_update_plan(plaquette_type, offset);
            let l = launch_in(ops);
            let b = state.bounds;
            &&& is_update(ops, Kernel::ChargeUpdate)
            &&& names_only_short(l.args, plaquette_type)
            &&& names_only_flag(l.args, offset)
            &&& names_just(
                l.args,
                set![
                    Buffer::State,
                    Buffer::EdgePotential,
                    Buffer::EdgePotentialRedirect,
                    Buffer::Potential,
                    Buffer::PotentialRedirect,
                    Buffer::Rng,
                ],
            )
            &&& l.args.len() == 15
            &&& begins_with(
                l.args,
                seq![
                    KernelArg::Read(Buffer::State),
                    KernelArg::Read(Buffer::EdgePotential),
                    KernelArg::Read(Buffer::EdgePotentialRedirect),
                    KernelArg::Size(state.edge_potential_size),
                    KernelArg::Read(Buffer::Potential),
                    KernelArg::Read(Buffer::PotentialRedirect),
                    KernelArg::Size(state.potential_size),
                    KernelArg::Read(Buffer::Rng),
                    KernelArg::Short(plaquette_type),
                    KernelArg::Flag(offset),
                ],
            )
            &&& told_of_lattice(l.args, state)
            &&& state.nreplicas * b.t * b.x * b.y * b.z <= 2 * u32::MAX ==> state.nreplicas * b.t
                * b.x * b.y * b.z <= 2 * threads_of(l) < state.nreplicas * b.t * b.x * b.y * b.z
                + 2 * 1024
            &&& same_but_kind(l, launch_in(state.charge_update_plan(other.0, other.1)))
        }),
{
    let ops = state.charge_update_plan(plaquette_type, offset);
    let l = launch_in(ops);
    let n = state.nreplicas;
    let b = state.bounds;
    lemma_sizes(n, b);
    lemma_halves(n, b);
    law_launch_is_what_was_asked(l.kernel, l.args, (n * half_sites(b)) as u32);
    let k = l.args;
    assert(k[0] == KernelArg::Read(Buffer::State));
    assert(k[1] == KernelArg::Read(Buffer::EdgePotential));
    assert(k[2] == KernelArg::Read(Buffer::EdgePotentialRedirect));
    assert(k[3] == KernelArg::Size(state.edge_potential_size));
    assert(k[4] == KernelArg::Read(Buffer::Potential));
    assert(k[5] == KernelArg::Read(Buffer::PotentialRedirect));
    assert(k[6] == KernelArg::Size(state.potential_size));
    assert(k[7] == KernelArg::Read(Buffer::Rng));
    assert(k[8] == KernelArg::Short(plaquette_type));
    assert(k[9] == KernelArg::Flag(offset));
}

/// The shift of every other plane of a type launches the shift kernel with just this plane
/// and this offset, on the state, the plaquette potential and the random numbers, with one
/// thread for every two planes: as many planes as it takes to fill the lattice, each with as
/// many sites as its two directions have. Another offset makes no other difference.
pub proof fn law_plane_shift_names_its_kind(
    state: &CudaBackend,
    plaquette_type: u16,
    offset: bool,
)
    requires
        state.wf(),
        plaquette_type < 6,
    ensures
        ({
            let ops = state.plane_shift_plan(plaquette_type, offset);
            let l = launch_in(ops);
            let b = state.bounds;
            let (u, v) = spanned(plaquette_type as int);
            let sites = b.t * b.x * b.y * b.z;
            let plane = extent(b, u) * extent(b, v);
            &&& is_update(ops, Kernel::PlaneShiftUpdate)
            &&& names_only_short(l.args, plaquette_type)
            &&& names_only_flag(l.args, offset)
            &&& names_just(
                l.args,
                set![Buffer::State, Buffer::Potential, Buffer::PotentialRedirect, Buffer::Rng],
            )
            &&& l.args.len() == 12
            &&& begins_with(
                l.args,
                seq![
                    KernelArg::Write(Buffer::State),
                    KernelArg::Read(Buffer::Potential),
                    KernelArg::Read(Buffer::PotentialRedirect),
                    KernelArg::Size(state.potential_size),
                    KernelArg::Read(Buffer::Rng),
                    KernelArg::Short(plaquette_type),
                    KernelArg::Flag(offset),
                ],
            )
            &&& told_of_lattice(l.args, state)
            &&& 0 < sites <= 2 * u32::MAX * plane ==> sites <= (2 * threads_of(l)) * plane < sites
                + (2 * 1024) * plane
            &&& same_but_kind(l, launch_in(state.plane_shift_plan(plaquette_type, !offset)))
        }),
{
    let ops = state.plane_shift_plan(plaquette_type, offset);
    let l = launch_in(ops);
    let b = state.bounds;
    let p = plaquette_type as int;
    lemma_sizes(state.nreplicas, b);
    let area = normal_area(b, p);
    assert(0 <= area <= spanning_planes(b));
    let (u, v) = spanned(p);
    let sites = b.t * b.x * b.y * b.z;
    let plane = extent(b, u) * extent(b, v);
    lemma_planes_fill_the_lattice(b, p);
    lemma_even_area(b, p);
    if 0 < sites <= 2 * u32::MAX * plane {
        let most = 2 * u32::MAX;
        assert(plane > 0 && area <= most) by (nonlinear_arith)
            requires
                plane >= 0,
                0 < area * plane <= most * plane,
        ;
        law_launch_is_what_was_asked(l.kernel, l.args, (area / 2) as u32);
        let threads = threads_of(l);
        assert(area * plane <= (2 * threads) * plane < area * plane + (2 * 1024) * plane)
            by (nonlinear_arith)
            requires
                plane > 0,
                area <= 2 * threads < area + 2 * 1024,
        ;
    }
    let k = l.args;
    assert(k[0] == KernelArg::Write(Buffer::State));
    assert(k[1] == KernelArg::Read(Buffer::Potential));
    assert(k[2] == KernelArg::Read(Buffer::PotentialRedirect));
    assert(k[3] == KernelArg::Size(state.potential_size));
    assert(k[4] == KernelArg::Read(Buffer::Rng));
    assert(k[5] == KernelArg::Short(plaquette_type));
    assert(k[6] == KernelArg::Flag(offset));
}

/// The planes of a type fill the lattice.
proof fn lemma_planes_fill_the_lattice(b: SiteIndex, p: int)
    requires
        0 <= p < 6,
    ensures
        ({
            let (u, v) = spanned(p);
            let plane = extent(b, u) * extent(b, v);
            &&& plane >= 0
            &&& normal_area(b, p) * plane == b.t * b.x * b.y * b.z
        }),
{
    let (t, x, y, z) = (b.t as int, b.x as int, b.y as int, b.z as int);
    assert(t * x >= 0 && t * y >= 0 && t * z >= 0 && x * y >= 0 && x * z >= 0 && y * z >= 0)
        by (nonlinear_arith)
        requires
            t >= 0,
            x >= 0,
            y >= 0,
            z >= 0,
    ;
    assert((y * z) * (t * x) == t * x * y * z) by (nonlinear_arith);
    assert((x * z) * (t * y) == t * x * y * z) by (nonlinear_arith);
    assert((x * y) * (t * z) == t * x * y * z) by (nonlinear_arith);
    assert((t * z) * (x * y) == t * x * y * z) by (nonlinear_arith);
    assert((t * y) * (x * z) == t * x * y * z) by (nonlinear_arith);
    assert((t * x) * (y * z) == t * x * y * z) by (nonlinear_arith);
}

/// The number of planes of a type is even.
proof fn lemma_even_area(b: SiteIndex, p: int)
    requires
        0 <= p < 6,
        b.t % 2 == 0,
        b.x % 2 == 0,
        b.y % 2 == 0,
    ensures
        normal_area(b, p) == 2 * (normal_area(b, p) / 2),
{
    let (t, x, y, z) = (b.t as int, b.x as int, b.y as int, b.z as int);
    let (i, j, k) = (t / 2, x / 2, y / 2);
    assert((2 * k) * z == 2 * (k * z)) by (nonlinear_arith);
    assert((2 * j) * z == 2 * (j * z)) by (nonlinear_arith);
    assert((2 * j) * y == 2 * (j * y)) by (nonlinear_arith);
    assert((2 * i) * z == 2 * (i * z)) by (nonlinear_arith);
    assert((2 * i) * y == 2 * (i * y)) by (nonlinear_arith);
    assert((2 * i) * x == 2 * (i * x)) by (nonlinear_arith);
}

/// The global update launches its kernel on the state, the plaquette potential, the chemical
/// potential and the random numbers, with a thread for every plane that spans the lattice: in
/// every replica the planes through the sites of each of the six pairs of directions.
pub proof fn law_global_update_takes_all_planes(state: &CudaBackend)
    requires
        state.wf(),
        state.nreplicas * spanning_planes(state.bounds) <= u32::MAX,
    ensures
        ({
            let ops = state.global_update_plan();
            let l = launch_in(ops);
            let b = state.bounds;
            &&& is_update(ops, Kernel::GlobalUpdateSweep)
            &&& names_just(
                l.args,
                set![
                    Buffer::State,
                    Buffer::Potential,
                    Buffer::WindingChemicalPotential,
                    Buffer::PotentialRedirect,
                    Buffer::Rng,
                ],
            )
            &&& l.args.len() == 11
            &&& begins_with(
                l.args,
                seq![
                    KernelArg::Write(Buffer::State),
                    KernelArg::Read(Buffer::Potential),
                    KernelArg::Read(Buffer::WindingChemicalPotential),
                    KernelArg::Read(Buffer::PotentialRedirect),
                    KernelArg::Size(state.potential_size),
                    KernelArg::Read(Buffer::Rng),
                ],
            )
            &&& told_of_lattice(l.args, state)
            &&& covers(
                l,
                state.nreplicas * (b.t * b.x) + state.nreplicas * (b.t * b.y) + state.nreplicas * (
                b.t * b.z) + state.nreplicas * (b.x * b.y) + state.nreplicas * (b.x * b.z)
                    + state.nreplicas * (b.y * b.z),
            )
        }),
{
    let l = launch_in(state.global_update_plan());
    let b = state.bounds;
    let n = state.nreplicas as int;
    lemma_sizes(state.nreplicas, b);
    law_launch_is_what_was_asked(l.kernel, l.args, (n * spanning_planes(b)) as u32);
    let (t, x, y, z) = (b.t as int, b.x as int, b.y as int, b.z as int);
    let (tx, ty, tz, xy, xz, yz) = (t * x, t * y, t * z, x * y, x * z, y * z);
    assert(spanning_planes(b) == tx + ty + tz + xy + xz + yz) by (nonlinear_arith)
        requires
            spanning_planes(b) == t * (x + y + z) + x * (y + z) + y * z,
            tx == t * x,
            ty == t * y,
            tz == t * z,
            xy == x * y,
            xz == x * z,
            yz == y * z,
    ;
    assert(n * (tx + ty + tz + xy + xz + yz) == n * tx + n * ty + n * tz + n * xy + n * xz + n
        * yz) by (nonlinear_arith);
    let k = l.args;
    assert(k[0] == KernelArg::Write(Buffer::State));
    assert(k[1] == KernelArg::Read(Buffer::Potential));
    assert(k[2] == KernelArg::Read(Buffer::WindingChemicalPotential));
    assert(k[3] == KernelArg::Read(Buffer::PotentialRedirect));
    assert(k[4] == KernelArg::Size(state.potential_size));
    assert(k[5] == KernelArg::Read(Buffer::Rng));
}

/// The matter update of a plane and an offset launches the matter kernel with one number
/// from which both can be read, on the state, the plaquette potential, the chemical potential
/// and the random numbers, with one thread for every four sites.
pub proof fn law_matter_update_names_its_kind(
    state: &CudaBackend,
    plaquette_type: u16,
    offset: u16,
)
    requires
        state.wf(),
        plaquette_type < 0x4000,
        offset < 4,
        all_sites(state.nreplicas, state.bounds) <= u32::MAX,
    ensures
        ({
            let ops = state.matter_update_plan(plaquette_type, offset);
            let l = launch_in(ops);
            let b = state.bounds;
            &&& is_update(ops, Kernel::UpdateMatterLoops)
            &&& exists|number: u16| #[trigger]
                names_only_short(l.args, number) && number >> 2u16 == plaquette_type && number & 3
                    == offset
            &&& names_just(
                l.args,
                set![
                    Buffer::State,
                    Buffer::Potential,
                    Buffer::WindingChemicalPotential,
                    Buffer::PotentialRedirect,
                    Buffer::Rng,
                ],
            )
            &&& l.args.len() == 12
            &&& begins_with(
                l.args,
                seq![
                    KernelArg::Read(Buffer::State),
                    KernelArg::Read(Buffer::Potential),
                    KernelArg::Read(Buffer::WindingChemicalPotential),
                    KernelArg::Read(Buffer::PotentialRedirect),
                    KernelArg::Size(state.potential_size),
                    KernelArg::Read(Buffer::Rng),
                ],
            )
            &&& told_of_lattice(l.args, state)
            &&& state.nreplicas * b.t * b.x * b.y * b.z <= 4 * threads_of(l) < state.nreplicas * b.t
                * b.x * b.y * b.z + 4 * 1024
        }),
{
    let l = launch_in(state.matter_update_plan(plaquette_type, offset));
    let n = state.nreplicas;
    let b = state.bounds;
    lemma_sizes(n, b);
    lemma_halves(n, b);
    lemma_fourths(n, b);
    law_packed_type_can_be_read(plaquette_type, offset);
    law_launch_is_what_was_asked(l.kernel, l.args, (all_sites(n, b) / 4) as u32);
    let k = l.args;
    assert(k[0] == KernelArg::Read(Buffer::State));
    assert(k[1] == KernelArg::Read(Buffer::Potential));
    assert(k[2] == KernelArg::Read(Buffer::WindingChemicalPotential));
    assert(k[3] == KernelArg::Read(Buffer::PotentialRedirect));
    assert(k[4] == KernelArg::Size(state.potential_size));
    assert(k[5] == KernelArg::Read(Buffer::Rng));
    assert(k[6] == KernelArg::Short(packed_type(plaquette_type, offset)));
    assert(names_only_short(l.args, packed_type(plaquette_type, offset)));
}

/// A fourth of the sites of all replicas, four times.
proof fn lemma_fourths(n: usize, b: SiteIndex)
    requires
        b.t % 2 == 0,
        b.x % 2 == 0,
    ensures
        4 * (all_sites(n, b) / 4) == all_sites(n, b),
{
    let m = n as int;
    let (t, x, y, z) = (b.t as int, b.x as int, b.y as int, b.z as int);
    let (i, j) = (t / 2, x / 2);
    let w = m * i * j * y * z;
    assert(m * t * x * y * z == 4 * w) by (nonlinear_arith)
        requires
            t == 2 * i,
            x == 2 * j,
            w == m * i * j * y * z,
    ;
}

/// Half of the sites of all replicas, twice.
proof fn lemma_halves(n: usize, b: SiteIndex)
    requires
        b.t % 2 == 0,
    ensures
        2 * (n * half_sites(b)) == all_sites(n, b),
{
    let m = n as int;
    let (t, x, y, z) = (b.t as int, b.x as int, b.y as int, b.z as int);
    let k = t / 2;
    let w = k * x * y * z;
    assert(t * x * y * z == 2 * w) by (nonlinear_arith)
        requires
            t == 2 * k,
            w == k * x * y * z,
    ;
    assert(m * t * x * y * z == m * (t * x * y * z)) by (nonlinear_arith);
    assert(m * (2 * w) == 2 * (m * w)) by (nonlinear_arith);
}

/// The request launches this kernel with just this plane or volume and this offset.
pub open spec fn launches_kind(op: OpModel, kernel: Kernel, kind: (u16, bool)) -> bool {
    op matches OpModel::Run(l) && l.kernel == kernel && names_only_short(l.args, kind.0)
        && names_only_flag(l.args, kind.1)
}

/// The requests launch the kernel once with each of the given kinds, each time after new
/// random numbers, and launch nothing else.
pub open spec fn launches_each_once(
    ops: Seq<OpModel>,
    kernel: Kernel,
    given: spec_fn((u16, bool)) -> bool,
) -> bool {
    &&& forall|kind: (u16, bool)| #[trigger]
        given(kind) ==> exists|i: int|
            0 <= i < ops.len() && launches_kind(#[trigger] ops[i], kernel, kind)
    &&& forall|kind: (u16, bool), i: int, j: int|
        0 <= i < ops.len() && 0 <= j < ops.len() && #[trigger] launches_kind(ops[i], kernel, kind)
            && #[trigger] launches_kind(ops[j], kernel, kind) ==> i == j
    &&& forall|i: int|
        0 <= i < ops.len() && (#[trigger] ops[i]) is Run ==> {
            &&& i > 0
            &&& ops[i - 1] == OpModel::FillUniform { buffer: Buffer::Rng }
            &&& exists|kind: (u16, bool)| #[trigger]
                given(kind) && launches_kind(ops[i], kernel, kind)
        }
}

/// What a sweep is made of.
proof fn lemma_sweep_at(
    kinds: Seq<(u16, bool)>,
    update: spec_fn((u16, bool)) -> Seq<OpModel>,
    kernel: Kernel,
)
    requires
        forall|kind: (u16, bool)| is_update(#[trigger] update(kind), kernel),
    ensures
        sweep_plan(kinds, update).len() == 2 * kinds.len(),
        forall|i: int|
            #![trigger kinds[i]]
            0 <= i < kinds.len() ==> sweep_plan(kinds, update)[2 * i] == update(kinds[i])[0]
                && sweep_plan(kinds, update)[2 * i + 1] == update(kinds[i])[1],
    decreases kinds.len(),
{
    if kinds.len() > 0 {
        let front = kinds.drop_last();
        lemma_sweep_at(front, update, kernel);
        assert(is_update(update(kinds.last()), kernel));
        assert forall|i: int|
            #![trigger kinds[i]]
            0 <= i < kinds.len() implies sweep_plan(kinds, update)[2 * i] == update(kinds[i])[0]
            && sweep_plan(kinds, update)[2 * i + 1] == update(kinds[i])[1] by {
            if i < kinds.len() - 1 {
                assert(front[i] == kinds[i]);
            }
        }
    }
}

/// A sweep over a list in which nothing occurs twice launches each of the list once.
proof fn lemma_sweep_launches_each_once(
    kinds: Seq<(u16, bool)>,
    update: spec_fn((u16, bool)) -> Seq<OpModel>,
    kernel: Kernel,
    given: spec_fn((u16, bool)) -> bool,
)
    requires
        kinds.no_duplicates(),
        forall|kind: (u16, bool)| #[trigger] kinds.contains(kind) <==> given(kind),
        forall|kind: (u16, bool)|
            is_update(#[trigger] update(kind), kernel) && launches_kind(
                update(kind)[1],
                kernel,
                kind,
            ),
    ensures
        launches_each_once(sweep_plan(kinds, update), kernel, given),
{
    let ops = sweep_plan(kinds, update);
    lemma_sweep_at(kinds, update, kernel);
    assert forall|kind: (u16, bool)| #[trigger] given(kind) implies exists|i: int|
        0 <= i < ops.len() && launches_kind(#[trigger] ops[i], kernel, kind) by {
        assert(kinds.contains(kind));
        let j = choose|j: int| 0 <= j < kinds.len() && kinds[j] == kind;
        assert(ops[2 * j + 1] == update(kind)[1]);
    }
    assert forall|i: int| 0 <= i < ops.len() && (#[trigger] ops[i]) is Run implies {
        &&& i % 2 == 1
        &&& ops[i - 1] == OpModel::FillUniform { buffer: Buffer::Rng }
        &&& given(kinds[i / 2])
        &&& launches_kind(ops[i], kernel, kinds[i / 2])
    } by {
        let j = i / 2;
        assert(kinds.contains(kinds[j]));
        assert(is_update(update(kinds[j]), kernel));
        assert(ops[2 * j] == update(kinds[j])[0]);
        assert(ops[2 * j + 1] == update(kinds[j])[1]);
    }
    assert forall|kind: (u16, bool), i: int, j: int|
        0 <= i < ops.len() && 0 <= j < ops.len() && #[trigger] launches_kind(ops[i], kernel, kind)
            && #[trigger] launches_kind(ops[j], kernel, kind) implies i == j by {
        assert(ops[i] is Run && ops[j] is Run);
        assert(launches_kind(ops[i], kernel, kinds[i / 2]));
        assert(launches_kind(ops[j], kernel, kinds[j / 2]));
        lemma_one_kind(ops[i], kernel, kind, kinds[i / 2]);
        lemma_one_kind(ops[j], kernel, kind, kinds[j / 2]);
    }
}

/// A launch names one kind.
proof fn lemma_one_kind(op: OpModel, kernel: Kernel, a: (u16, bool), b: (u16, bool))
    requires
        launches_kind(op, kernel, a),
        launches_kind(op, kernel, b),
    ensures
        a == b,
{
    let args = op->Run_0.args;
    let i = choose|i: int| 0 <= i < args.len() && args[i] == KernelArg::Short(a.0);
    assert(args[i] == KernelArg::Short(b.0));
    let j = choose|j: int| 0 <= j < args.len() && args[j] == KernelArg::Flag(a.1);
    assert(args[j] == KernelArg::Flag(b.1));
}

/// A charge sweep, in whatever order the backend has put the updates, launches the charge
/// kernel once with each of the planes `tx`, `ty` and `xy` and each of the two offsets, and
/// launches nothing else.
pub proof fn law_charge_sweep_launches_each_once(state: &CudaBackend, order: &CudaBackend)
    requires
        state.wf(),
        order.wf(),
    ensures
        ({
            let ops = sweep_plan(
                order.charge_update_types@,
                |kind: (u16, bool)| state.charge_update_plan(kind.0, kind.1),
            );
            &&& ops.len() == 12
            &&& launches_each_once(
                ops,
                Kernel::ChargeUpdate,
                |kind: (u16, bool)| kind.0 == 0 || kind.0 == 1 || kind.0 == 3,
            )
        }),
{
    let kinds = order.charge_update_types@;
    let update = |kind: (u16, bool)| state.charge_update_plan(kind.0, kind.1);
    let given = |kind: (u16, bool)| kind.0 == 0 || kind.0 == 1 || kind.0 == 3;
    assert forall|kind: (u16, bool)|
        is_update(#[trigger] update(kind), Kernel::ChargeUpdate) && launches_kind(
            update(kind)[1],
            Kernel::ChargeUpdate,
            kind,
        ) by {
        law_charge_update_names_its_kind(state, kind.0, kind.1, kind);
    }
    assert(charge_types().no_duplicates());
    lemma_same_elements(charge_types(), kinds);
    assert forall|kind: (u16, bool)| #[trigger] kinds.contains(kind) <==> given(kind) by {
        assert(charge_types().contains(kind) == kinds.contains(kind));
        if given(kind) {
            law_charge_sweep_runs_each_once(kinds, kind.0, kind.1);
        }
    }
    lemma_sweep_launches_each_once(kinds, update, Kernel::ChargeUpdate, given);
    lemma_sweep_at(kinds, update, Kernel::ChargeUpdate);
}

/// A local sweep, in whatever order the backend has put the updates, launches the local
/// kernel once with each of the four volumes and each of the two offsets, and launches
/// nothing else.
pub proof fn law_local_sweep_launches_each_once(state: &CudaBackend, order: &CudaBackend)
    requires
        state.wf(),
        order.wf(),
    ensures
        ({
            let ops = sweep_plan(
                order.local_update_types@,
                |kind: (u16, bool)| state.local_update_plan(kind.0, kind.1),
            );
            &&& ops.len() == 16
            &&& launches_each_once(
                ops,
                Kernel::SingleLocalUpdatePlaquettes,
                |kind: (u16, bool)| kind.0 < 4,
            )
        }),
{
    let kinds = order.local_update_types@;
    let update = |kind: (u16, bool)| state.local_update_plan(kind.0, kind.1);
    let given = |kind: (u16, bool)| kind.0 < 4;
    let kernel = Kernel::SingleLocalUpdatePlaquettes;
    assert forall|kind: (u16, bool)|
        is_update(#[trigger] update(kind), kernel) && launches_kind(
            update(kind)[1],
            kernel,
            kind,
        ) by {
        law_local_update_names_its_kind(state, kind.0, kind.1, kind);
    }
    assert(local_types().no_duplicates());
    lemma_same_elements(local_types(), kinds);
    assert forall|kind: (u16, bool)| #[trigger] kinds.contains(kind) <==> given(kind) by {
        assert(local_types().contains(kind) == kinds.contains(kind));
        if given(kind) {
            law_local_sweep_runs_each_once(kinds, kind.0, kind.1);
        }
    }
    lemma_sweep_launches_each_once(kinds, update, kernel, given);
    lemma_sweep_at(kinds, update, kernel);
}

/// A plane shift, whichever half comes first, launches the shift kernel once with each of
/// the two offsets of its plane, and launches nothing else.
pub proof fn law_plane_shift_launches_both_halves(
    state: &CudaBackend,
    plaquette_type: u16,
    first: bool,
)
    requires
        state.wf(),
        plaquette_type < 6,
    ensures
        launches_each_once(
            state.plane_shift_plan(plaquette_type, first) + state.plane_shift_plan(
                plaquette_type,
                !first,
            ),
            Kernel::PlaneShiftUpdate,
            |kind: (u16, bool)| kind.0 == plaquette_type,
        ),
{
    let kinds = seq![(plaquette_type, first), (plaquette_type, !first)];
    let update = |kind: (u16, bool)| state.plane_shift_plan(kind.0, kind.1);
    let given = |kind: (u16, bool)| kind.0 == plaquette_type;
    let kernel = Kernel::PlaneShiftUpdate;
    assert forall|kind: (u16, bool)|
        is_update(#[trigger] update(kind), kernel) && launches_kind(
            update(kind)[1],
            kernel,
            kind,
        ) by {
        let k = launch_in(update(kind)).args;
        assert(k[5] == KernelArg::Short(kind.0));
        assert(k[6] == KernelArg::Flag(kind.1));
    }
    assert forall|kind: (u16, bool)| #[trigger] kinds.contains(kind) <==> given(kind) by {
        assert(kinds[0] == (plaquette_type, first));
        assert(kinds[1] == (plaquette_type, !first));
        if given(kind) {
            if kind.1 == first {
                assert(kinds[0] == kind);
            } else {
                assert(kinds[1] == kind);
            }
        }
    }
    lemma_sweep_launches_each_once(kinds, update, kernel, given);
    assert(kinds.drop_last() =~= seq![(plaquette_type, first)]);
    assert(kinds.drop_last().drop_last() =~= Seq::<(u16, bool)>::empty());
    reveal_with_fuel(sweep_plan, 3);
    assert(sweep_plan(kinds, update) =~= state.plane_shift_plan(plaquette_type, first)
        + state.plane_shift_plan(plaquette_type, !first));
}

/// A sweep in any order of the local updates runs each of them once.
pub proof fn law_local_sweep_runs_each_once(kinds: Seq<(u16, bool)>, volume: u16, offset: bool)
    requires
        kinds.to_multiset() == local_types().to_multiset(),
        volume < 4,
    ensures
        kinds.len() == 8,
        kinds.no_duplicates(),
        kinds.contains((volume, offset)),
{
    let all = local_types();
    assert(all.no_duplicates());
    let i = 2 * volume + (if offset {
        1int
    } else {
        0int
    });
    assert(all[i] == (volume, offset));
    lemma_same_elements(all, kinds);
    assert(all.contains((volume, offset)));
}

/// A sweep in any order of the charge updates runs each of them once.
pub proof fn law_charge_sweep_runs_each_once(
    kinds: Seq<(u16, bool)>,
    plaquette_type: u16,
    offset: bool,
)
    requires
        kinds.to_multiset() == charge_types().to_multiset(),
        plaquette_type == 0 || plaquette_type == 1 || plaquette_type == 3,
    ensures
        kinds.len() == 6,
        kinds.no_duplicates(),
        kinds.contains((plaquette_type, offset)),
{
    let all = charge_types();
    assert(all.no_duplicates());
    let place = if plaquette_type == 3 {
        2int
    } else {
        plaquette_type as int
    };
    let i = 2 * place + (if offset {
        1int
    } else {
        0int
    });
    assert(all[i] == (plaquette_type, offset));
    lemma_same_elements(all, kinds);
    assert(all.contains((plaquette_type, offset)));
}

/// Lists with the same elements, equally often, are equally long, and if nothing occurs
/// twice in one then nothing does in the other.
proof fn lemma_same_elements(a: Seq<(u16, bool)>, b: Seq<(u16, bool)>)
    requires
        a.to_multiset() == b.to_multiset(),
        a.no_duplicates(),
    ensures
        a.len() == b.len(),
        b.no_duplicates(),
        forall|k: (u16, bool)| #[trigger] a.contains(k) == b.contains(k),
{
    broadcast use vstd::seq_lib::group_to_multiset_ensures;

    a.lemma_multiset_has_no_duplicates();
    assert(a.to_multiset().len() == a.len() && b.to_multiset().len() == b.len());
    assert forall|k: (u16, bool)| #[trigger] b.to_multiset().contains(k) implies
        b.to_multiset().count(k) == 1 by {
        assert(a.to_multiset().contains(k));
    }
    b.lemma_multiset_has_no_duplicates_conv();
    assert forall|k: (u16, bool)| #[trigger] a.contains(k) == b.contains(k) by {
        assert(a.contains(k) <==> a.to_multiset().count(k) > 0);
        assert(b.contains(k) <==> b.to_multiset().count(k) > 0);
    }
}

fn update(kernel: Kernel, args: Vec<KernelArg>, threads: usize) -> (r: Vec<DeviceOp>)
    ensures
        plan(r@) == update_plan(kernel, args@, threads as int),
{
    let r = vec![
        DeviceOp::FillUniform { buffer: Buffer::Rng },
        DeviceOp::Run(Launch::new(kernel, args, threads)),
    ];
    assert(plan(r@) =~= update_plan(kernel, args@, threads as int));
    r
}

impl CudaBackend {
    /// The local update of one parity of the volumes of one type.
    pub open spec fn local_update_plan(&self, volume_type: u16, offset: bool) -> Seq<OpModel> {
        update_plan(
            Kernel::SingleLocalUpdatePlaquettes,
            seq![
                KernelArg::Read(Buffer::State),
                KernelArg::Read(Buffer::Potential),
                KernelArg::Read(Buffer::PotentialRedirect),
                KernelArg::Size(self.potential_size),
                KernelArg::Read(Buffer::Rng),
                KernelArg::Short(volume_type),
                KernelArg::Flag(offset),
            ] + self.site_args(),
            self.nreplicas * half_sites(self.bounds),
        )
    }

    /// The charge update of one parity of the planes of one type.
    pub open spec fn charge_update_plan(&self, plaquette_type: u16, offset: bool) -> Seq<OpModel> {
        update_plan(
            Kernel::ChargeUpdate,
            seq![
                KernelArg::Read(Buffer::State),
                KernelArg::Read(Buffer::EdgePotential),
                KernelArg::Read(Buffer::EdgePotentialRedirect),
                KernelArg::Size(self.edge_potential_size),
                KernelArg::Read(Buffer::Potential),
                KernelArg::Read(Buffer::PotentialRedirect),
                KernelArg::Size(self.potential_size),
                KernelArg::Read(Buffer::Rng),
                KernelArg::Short(plaquette_type),
                KernelArg::Flag(offset),
            ] + self.site_args(),
            self.nreplicas * half_sites(self.bounds),
        )
    }

    /// The shift of every other plane of one type.
    pub open spec fn plane_shift_plan(&self, plaquette_type: u16, offset: bool) -> Seq<OpModel> {
        update_plan(
            Kernel::PlaneShiftUpdate,
            seq![
                KernelArg::Write(Buffer::State),
                KernelArg::Read(Buffer::Potential),
                KernelArg::Read(Buffer::PotentialRedirect),
                KernelArg::Size(self.potential_size),
                KernelArg::Read(Buffer::Rng),
                KernelArg::Short(plaquette_type),
                KernelArg::Flag(offset),
            ] + self.site_args(),
            normal_area(self.bounds, plaquette_type as int) / 2,
        )
    }

    /// The update of all planes that span the lattice.
    pub open spec fn global_update_plan(&self) -> Seq<OpModel> {
        update_plan(
            Kernel::GlobalUpdateSweep,
            seq![
                KernelArg::Write(Buffer::State),
                KernelArg::Read(Buffer::Potential),
                KernelArg::Read(Buffer::WindingChemicalPotential),
                KernelArg::Read(Buffer::PotentialRedirect),
                KernelArg::Size(self.potential_size),
                KernelArg::Read(Buffer::Rng),
            ] + self.site_args(),
            self.nreplicas * spanning_planes(self.bounds),
        )
    }

    /// The matter update of one fourth of the planes of one type.
    pub open spec fn matter_update_plan(&self, plaquette_type: u16, offset: u16) -> Seq<OpModel> {
        update_plan(
            Kernel::UpdateMatterLoops,
            seq![
                KernelArg::Read(Buffer::State),
                KernelArg::Read(Buffer::Potential),
                KernelArg::Read(Buffer::WindingChemicalPotential),
                KernelArg::Read(Buffer::PotentialRedirect),
                KernelArg::Size(self.potential_size),
                KernelArg::Read(Buffer::Rng),
                KernelArg::Short(packed_type(plaquette_type, offset)),
            ] + self.site_args(),
            all_sites(self.nreplicas, self.bounds) / 4,
        )
    }

    /// Nothing but the order of the local and charge updates differs from `before`.
    pub open spec fn same_but_order(&self, before: CudaBackend) -> bool {
        *self == (CudaBackend {
            local_update_types: self.local_update_types,
            charge_update_types: self.charge_update_types,
            ..before
        })
    }

    /// The requests of a local update of one parity of the volumes of one type.
    pub fn run_single_local_update_single(&self, volume_type: u16, offset: bool) -> (r: Vec<
        DeviceOp,
    >)
        requires
            self.wf(),
        ensures
            plan(r@) == self.local_update_plan(volume_type, offset),
            is_update(plan(r@), Kernel::SingleLocalUpdatePlaquettes),
            launches_kind(plan(r@)[1], Kernel::SingleLocalUpdatePlaquettes, (volume_type, offset)),
    {
        proof {
            lemma_sizes(self.nreplicas, self.bounds);
            law_local_update_names_its_kind(self, volume_type, offset, (volume_type, offset));
        }
        let n = self.simultaneous_local_updates();
        let args = self.with_sites(
            vec![
                KernelArg::Read(Buffer::State),
                KernelArg::Read(Buffer::Potential),
                KernelArg::Read(Buffer::PotentialRedirect),
                KernelArg::Size(self.potential_size),
                KernelArg::Read(Buffer::Rng),
                KernelArg::Short(volume_type),
                KernelArg::Flag(offset),
            ],
        );
        update(Kernel::SingleLocalUpdatePlaquettes, args, n)
    }

    /// The requests of all local updates, in a random order, which the backend keeps.
    pub fn run_local_update_sweep(&mut self) -> (r: Vec<DeviceOp>)
        requires
            old(self).wf(),
        ensures
            final(self).wf(),
            final(self).same_but_order(*old(self)),
            final(self).charge_update_types == old(self).charge_update_types,
            plan(r@) == sweep_plan(
                final(self).local_update_types@,
                |kind: (u16, bool)| old(self).local_update_plan(kind.0, kind.1),
            ),
            launches_each_once(
                plan(r@),
                Kernel::SingleLocalUpdatePlaquettes,
                |kind: (u16, bool)| kind.0 < 4,
            ),
    {
        shuffle(&mut self.local_update_types);
        let r = self.sweep(self.local_update_types.as_slice(), false);
        proof {
            let f = |kind: (u16, bool)| self.kind_plan(kind, false);
            let g = |kind: (u16, bool)| old(self).local_update_plan(kind.0, kind.1);
            assert(f =~= g);
            law_local_sweep_launches_each_once(old(self), self);
        }
        r
    }

    /// The update of a kind: a charge update or a local update.
    spec fn kind_plan(&self, kind: (u16, bool), charge: bool) -> Seq<OpModel> {
        if charge {
            self.charge_update_plan(kind.0, kind.1)
        } else {
            self.local_update_plan(kind.0, kind.1)
        }
    }

    /// The requests of the charge updates or the local updates of a list.
    fn sweep(&self, kinds: &[(u16, bool)], charge: bool) -> (r: Vec<DeviceOp>)
        requires
            self.wf(),
        ensures
            plan(r@) == sweep_plan(
                kinds@,
                |kind: (u16, bool)| self.kind_plan(kind, charge),
            ),
    {
        let ghost f = |kind: (u16, bool)| self.kind_plan(kind, charge);
        let mut r: Vec<DeviceOp> = Vec::new();
        let mut i: usize = 0;
        assert(plan(r@) =~= sweep_plan(kinds@.take(0), f));
        while i < kinds.len()
            invariant
                i <= kinds@.len(),
                self.wf(),
                f == (|kind: (u16, bool)| self.kind_plan(kind, charge)),
                plan(r@) == sweep_plan(kinds@.take(i as int), f),
            decreases kinds@.len() - i,
        {
            let (kind, offset) = kinds[i];
            let ghost before = r@;
            let mut ops = if charge {
                self.run_charge_update(kind, offset)
            } else {
                self.run_single_local_update_single(kind, offset)
            };
            let ghost new_ops = ops@;
            r.append(&mut ops);
            proof {
                let done = kinds@.take(i + 1);
                assert(done.drop_last() =~= kinds@.take(i as int));
                assert(plan(r@) =~= plan(before) + plan(new_ops));
                assert(f(done.last()) == self.kind_plan((kind, offset), charge));
            }
            i += 1;
        }
        assert(kinds@.take(i as int) =~= kinds@);
        r
    }

    /// The requests of a charge update of one parity of the planes of one type.
    pub fn run_charge_update(&self, plaquette_type: u16, offset: bool) -> (r: Vec<DeviceOp>)
        requires
            self.wf(),
        ensures
            plan(r@) == self.charge_update_plan(plaquette_type, offset),
            is_update(plan(r@), Kernel::ChargeUpdate),
            launches_kind(plan(r@)[1], Kernel::ChargeUpdate, (plaquette_type, offset)),
    {
        proof {
            lemma_sizes(self.nreplicas, self.bounds);
            law_charge_update_names_its_kind(
                self,
                plaquette_type,
                offset,
                (plaquette_type, offset),
            );
        }
        let n = self.simultaneous_local_updates();
        let args = self.with_sites(
            vec![
                KernelArg::Read(Buffer::State),
                KernelArg::Read(Buffer::EdgePotential),
                KernelArg::Read(Buffer::EdgePotentialRedirect),
                KernelArg::Size(self.edge_potential_size),
                KernelArg::Read(Buffer::Potential),
                KernelArg::Read(Buffer::PotentialRedirect),
                KernelArg::Size(self.potential_size),
                KernelArg::Read(Buffer::Rng),
                KernelArg::Short(plaquette_type),
                KernelArg::Flag(offset),
            ],
        );
        update(Kernel::ChargeUpdate, args, n)
    }

    /// The requests of all charge updates, in a random order, which the backend keeps.
    pub fn run_charge_update_sweep(&mut self) -> (r: Vec<DeviceOp>)
        requires
            old(self).wf(),
        ensures
            final(self).wf(),
            final(self).same_but_order(*old(self)),
            final(self).local_update_types == old(self).local_update_types,
            plan(r@) == sweep_plan(
                final(self).charge_update_types@,
                |kind: (u16, bool)| old(self).charge_update_plan(kind.0, kind.1),
            ),
            launches_each_once(
                plan(r@),
                Kernel::ChargeUpdate,
                |kind: (u16, bool)| kind.0 == 0 || kind.0 == 1 || kind.0 == 3,
            ),
    {
        shuffle(&mut self.charge_update_types);
        let r = self.sweep(self.charge_update_types.as_slice(), true);
        proof {
            let f = |kind: (u16, bool)| self.kind_plan(kind, true);
            let g = |kind: (u16, bool)| old(self).charge_update_plan(kind.0, kind.1);
            assert(f =~= g);
            law_charge_sweep_launches_each_once(old(self), self);
        }
        r
    }

    /// The requests of an update of all planes that span the lattice.
    pub fn run_global_update_sweep(&self) -> (r: Vec<DeviceOp>)
        requires
            self.wf(),
        ensures
            plan(r@) == self.global_update_plan(),
    {
        let update_planes = self.global_updates_planes();
        let args = self.with_sites(
            vec![
                KernelArg::Write(Buffer::State),
                KernelArg::Read(Buffer::Potential),
                KernelArg::Read(Buffer::WindingChemicalPotential),
                KernelArg::Read(Buffer::PotentialRedirect),
                KernelArg::Size(self.potential_size),
                KernelArg::Read(Buffer::Rng),
            ],
        );
        update(Kernel::GlobalUpdateSweep, args, update_planes)
    }

    /// The requests of a shift of all planes of one type, one half after the other, either
    /// half first.
    pub fn run_plane_shift(&self, plaquette_type: u16) -> (r: Vec<DeviceOp>)
        requires
            self.wf(),
            plaquette_type < 6,
        ensures
            exists|b: bool|
                plan(r@) == #[trigger] self.plane_shift_plan(plaquette_type, b)
                    + self.plane_shift_plan(plaquette_type, !b),
            launches_each_once(
                plan(r@),
                Kernel::PlaneShiftUpdate,
                |kind: (u16, bool)| kind.0 == plaquette_type,
            ),
    {
        let b = random_flag();
        let mut r = self.run_plane_shift_with_offset(plaquette_type, b);
        let ghost first = r@;
        let mut ops = self.run_plane_shift_with_offset(plaquette_type, !b);
        let ghost second = ops@;
        r.append(&mut ops);
        assert(plan(r@) =~= plan(first) + plan(second));
        proof {
            law_plane_shift_launches_both_halves(self, plaquette_type, b);
        }
        r
    }

    /// The requests of a shift of every other plane of one type.
    pub fn run_plane_shift_with_offset(&self, plaquette_type: u16, offset: bool) -> (r: Vec<
        DeviceOp,
    >)
        requires
            self.wf(),
            plaquette_type < 6,
        ensures
            plan(r@) == self.plane_shift_plan(plaquette_type, offset),
            is_update(plan(r@), Kernel::PlaneShiftUpdate),
            launches_kind(plan(r@)[1], Kernel::PlaneShiftUpdate, (plaquette_type, offset)),
    {
        let (t, x, y, z) = (self.bounds.t, self.bounds.x, self.bounds.y, self.bounds.z);
        proof {
            law_plane_shift_names_its_kind(self, plaquette_type, offset);
            lemma_sizes(self.nreplicas, self.bounds);
            assert(forall|p: int|
                0 <= p < 6 ==> 0 <= #[trigger] normal_area(self.bounds, p) <= usize::MAX);
            assert(normal_area(self.bounds, 0) == y * z);
            assert(normal_area(self.bounds, 1) == x * z);
            assert(normal_area(self.bounds, 2) == x * y);
            assert(normal_area(self.bounds, 3) == t * z);
            assert(normal_area(self.bounds, 4) == t * y);
            assert(normal_area(self.bounds, 5) == t * x);
        }
        let planes: [usize; 6] = [y * z, x * z, x * y, t * z, t * y, t * x];
        let needed_threads = planes[plaquette_type as usize] / 2;
        let args = self.with_sites(
            vec![
                KernelArg::Write(Buffer::State),
                KernelArg::Read(Buffer::Potential),
                KernelArg::Read(Buffer::PotentialRedirect),
                KernelArg::Size(self.potential_size),
                KernelArg::Read(Buffer::Rng),
                KernelArg::Short(plaquette_type),
                KernelArg::Flag(offset),
            ],
        );
        update(Kernel::PlaneShiftUpdate, args, needed_threads)
    }

    /// The requests of a matter update of one fourth of the planes of one type.
    pub fn run_single_matter_update_single(&self, plaquette_type: u16, offset: u16) -> (r: Vec<
        DeviceOp,
    >)
        requires
            self.wf(),
        ensures
            plan(r@) == self.matter_update_plan(plaquette_type, offset),
    {
        proof {
            lemma_sizes(self.nreplicas, self.bounds);
        }
        let n = self.nreplicas * self.bounds.volume() / 4;
        let plaquette_type_and_offset = (plaquette_type << 2u16) | offset;
        let args = self.with_sites(
            vec![
                KernelArg::Read(Buffer::State),
                KernelArg::Read(Buffer::Potential),
                KernelArg::Read(Buffer::WindingChemicalPotential),
                KernelArg::Read(Buffer::PotentialRedirect),
                KernelArg::Size(self.potential_size),
                KernelArg::Read(Buffer::Rng),
                KernelArg::Short(plaquette_type_and_offset),
            ],
        );
        update(Kernel::UpdateMatterLoops, args, n)
    }
}

} // verus!
