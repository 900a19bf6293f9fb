//! Histograms and actions.

use crate::arrays::{nonzero_product, shape_valid, valid_shape, CountArray, IntArray};
use crate::backend::{told_of_lattice, CudaBackend};
use crate::device::{
    begins_with, covers, launch_model, law_launch_is_what_was_asked, names_just, plan, Buffer,
    DeviceOp, Kernel, KernelArg, Launch, LaunchModel, OpModel,
};
use crate::dual_state::lattice_dims;
use crate::histogram::{
    bins_sum, can_count_rows, count_rows, counts_fit, law_counts_of_small_rows_fit, occurrences,
    row_of, values_binned,
};
use crate::lattice::{
    edge_sum, edge_terms, plaquettes_along, prefix_sum, Dimension, SiteIndex,
};
use crate::measure::{lemma_lattice_product, row_len};
use crate::redirect::{redirect_rows, RedirectArrays};
use crate::sizes::{all_sites, lemma_drop_factor, lemma_sizes};
use vstd::prelude::*;

verus! {

/// The number of values that a plaquette with `potential_size` potentials can have.
pub open spec fn plaquette_bins(potential_size: usize) -> int {
    2 * potential_size - 1
}

/// The largest flux through an edge.
pub open spec fn largest_flux(potential_size: usize) -> int {
    6 * (potential_size - 1)
}

/// The number of values that the flux through an edge can have.
pub open spec fn edge_bins(potential_size: usize) -> int {
    2 * largest_flux(potential_size) + 1
}

/// A launch that adds up blocks of the buffer of counts.
pub open spec fn fold_launch(threads: int, steps: int) -> LaunchModel {
    launch_model(
        Kernel::SumIntBuffer,
        seq![
            KernelArg::Write(Buffer::ScratchU32),
            KernelArg::Size(threads as usize),
            KernelArg::Size(steps as usize),
        ],
        (threads as usize) as u32,
    )
}

/// A launch that adds up blocks of the buffer of actions.
pub open spec fn sum_launch(threads: int, steps: int) -> LaunchModel {
    launch_model(
        Kernel::SumBuffer,
        seq![
            KernelArg::Write(Buffer::ScratchFloat),
            KernelArg::Size(threads as usize),
            KernelArg::Size(steps as usize),
        ],
        (threads as usize) as u32,
    )
}

/// The threads that add up the counts take all of them: each adds up one number from every
/// block of its replica.
pub proof fn law_counts_are_folded_whole(n: int, t: int, x: int, bins: int)
    ensures
        (n * bins) * (t * x) == (n * t * x) * bins,
{
    assert((n * bins) * (t * x) == (n * t * x) * bins) by (nonlinear_arith);
}

/// Adding up the actions along the second and the first coordinate and along time leaves
/// one number per replica.
pub proof fn law_one_action_is_left_per_replica(n: int, t: int, x: int, y: int)
    requires
        n >= 0,
        t > 0,
        x > 0,
        y > 0,
    ensures
        n * t * x * y / y == n * t * x,
        n * t * x / x == n * t,
        n * t / t == n,
{
    assert(0 <= n * t && 0 <= n * t * x) by (nonlinear_arith)
        requires
            n >= 0,
            t > 0,
            x > 0,
    ;
    lemma_drop_factor(n * t * x, y);
    lemma_drop_factor(n * t, x);
    lemma_drop_factor(n, t);
}

/// The request adds up a buffer of `from` numbers to `to` numbers: a thread for every number
/// that is left, each of which adds up as many as make all of them.
pub open spec fn adds_up(op: OpModel, kernel: Kernel, buffer: Buffer, from: int, to: int) -> bool {
    &&& op matches OpModel::Run(l) && {
        &&& l.kernel == kernel
        &&& covers(l, to)
        &&& l.args.len() == 3
        &&& l.args[0] == KernelArg::Write(buffer)
        &&& l.args[1] matches KernelArg::Size(threads) && threads == to
        &&& l.args[2] matches KernelArg::Size(steps) && to * steps == from
    }
}

/// The actions are added up whole. There is a partial sum for every replica, time and first
/// two coordinates, and a thread that fills each of them; they are then added up to one for
/// every replica, time and first coordinate, to one for every replica and time, and to one
/// for every replica, and these are read.
pub proof fn law_actions_are_added_up_whole(state: &CudaBackend)
    requires
        state.wf(),
        state.nreplicas * state.bounds.t * state.bounds.x * state.bounds.y <= u32::MAX,
        state.bounds.t > 0,
        state.bounds.x > 0,
        state.bounds.y > 0,
    ensures
        ({
            let ops = state.action_plan();
            let (n, t, x, y) = (
                state.nreplicas,
                state.bounds.t,
                state.bounds.x,
                state.bounds.y,
            );
            let scratch = Buffer::ScratchFloat;
            &&& ops.len() == 6
            &&& ops[0] matches OpModel::AllocZeros { buffer, len } && buffer == scratch && len == n
                * t * x * y
            &&& ops[1] matches OpModel::Run(l) && {
                &&& l.kernel == Kernel::PartialSumEnergies
                &&& ops[0] matches OpModel::AllocZeros { buffer, len } && covers(l, len as int)
                &&& names_just(
                    l.args,
                    set![
                        Buffer::State,
                        scratch,
                        Buffer::Potential,
                        Buffer::WindingChemicalPotential,
                        Buffer::PotentialRedirect,
                    ],
                )
                &&& l.args.len() == 11
                &&& begins_with(
                    l.args,
                    seq![
                        KernelArg::Read(Buffer::State),
                        KernelArg::Write(scratch),
                        KernelArg::Read(Buffer::Potential),
                        KernelArg::Read(Buffer::WindingChemicalPotential),
                        KernelArg::Read(Buffer::PotentialRedirect),
                        KernelArg::Size(state.potential_size),
                    ],
                )
                &&& told_of_lattice(l.args, state)
            }
            &&& adds_up(ops[2], Kernel::SumBuffer, scratch, n * t * x * y, n * t * x)
            &&& adds_up(ops[3], Kernel::SumBuffer, scratch, n * t * x, n * t)
            &&& adds_up(ops[4], Kernel::SumBuffer, scratch, n * t, n as int)
            &&& ops[5] == (OpModel::Download { buffer: scratch, len: n })
        }),
{
    let ops = state.action_plan();
    let (n, t, x, y) = (
        state.nreplicas as int,
        state.bounds.t as int,
        state.bounds.x as int,
        state.bounds.y as int,
    );
    assert(0 <= n * t <= n * t * x && n <= n * t) by (nonlinear_arith)
        requires
            n >= 0,
            t >= 1,
            x >= 1,
    ;
    assert(n * t * x <= n * t * x * y) by (nonlinear_arith)
        requires
            0 <= n * t * x,
            y >= 1,
    ;
    let l = ops[1]->Run_0;
    law_launch_is_what_was_asked(l.kernel, l.args, (n * t * x * y) as u32);
    law_launch_is_what_was_asked(Kernel::SumBuffer, ops[2]->Run_0.args, (n * t * x) as u32);
    law_launch_is_what_was_asked(Kernel::SumBuffer, ops[3]->Run_0.args, (n * t) as u32);
    law_launch_is_what_was_asked(Kernel::SumBuffer, ops[4]->Run_0.args, n as u32);
    let k = l.args;
    assert(k[0] == KernelArg::Read(Buffer::State));
    assert(k[1] == KernelArg::Write(Buffer::ScratchFloat));
    assert(k[2] == KernelArg::Read(Buffer::Potential));
    assert(k[3] == KernelArg::Read(Buffer::WindingChemicalPotential));
    assert(k[4] == KernelArg::Read(Buffer::PotentialRedirect));
    assert(k[5] == KernelArg::Size(state.potential_size));
}

/// The counts are added up whole: the request for `bins` counts per replica makes a table for
/// every replica, time and first coordinate, with a thread for each of these tables, adds
/// them up to one table per replica, and reads these.
pub open spec fn counts_whole(
    ops: Seq<OpModel>,
    state: &CudaBackend,
    kernel: Kernel,
    size: int,
    bins: int,
) -> bool {
    let (n, t, x) = (state.nreplicas, state.bounds.t, state.bounds.x);
    let scratch = Buffer::ScratchU32;
    &&& ops.len() == 4
    &&& ops[0] matches OpModel::AllocZeros { buffer, len } && buffer == scratch && len == (n * t
        * x) * bins
    &&& ops[1] matches OpModel::Run(l) && {
        &&& l.kernel == kernel
        &&& covers(l, n * t * x)
        &&& names_just(l.args, set![Buffer::State, scratch])
        &&& begins_with(l.args, seq![KernelArg::Write(Buffer::State), KernelArg::Write(scratch)])
        &&& l.args[2] matches KernelArg::Size(own) && own == size
        &&& l.args.len() == 8
        &&& told_of_lattice(l.args, state)
    }
    &&& adds_up(ops[2], Kernel::SumIntBuffer, scratch, (n * t * x) * bins, n * bins)
    &&& ops[3] matches OpModel::Download { buffer, len } && buffer == scratch && len == n * bins
}

/// Counting adds up the counts whole, the values of plaquettes as well as the fluxes: there
/// are `2 p - 1` values of a plaquette with `p` potentials, and `12 (p - 1) + 1` fluxes, the
/// largest of which the kernel is told.
pub proof fn law_counts_are_added_up_whole(state: &CudaBackend)
    requires
        state.wf(),
        state.potential_size > 0,
        state.tables_small(),
    ensures
        counts_whole(
            state.count_plan(
                Kernel::PartialCountPlaquettes,
                state.potential_size as int,
                plaquette_bins(state.potential_size),
            ),
            state,
            Kernel::PartialCountPlaquettes,
            state.potential_size as int,
            2 * state.potential_size - 1,
        ),
        counts_whole(
            state.count_plan(
                Kernel::PartialCountEdges,
                largest_flux(state.potential_size),
                edge_bins(state.potential_size),
            ),
            state,
            Kernel::PartialCountEdges,
            6 * (state.potential_size - 1),
            12 * (state.potential_size - 1) + 1,
        ),
{
    let p = state.potential_size as int;
    let (n, t, x) = (state.nreplicas as int, state.bounds.t as int, state.bounds.x as int);
    assert(0 < n * t && 0 < n * t * x) by (nonlinear_arith)
        requires
            n >= 1,
            t >= 1,
            x >= 1,
    ;
    assert(12 * p <= (n * t * x) * (12 * p)) by (nonlinear_arith)
        requires
            0 < n * t * x,
            p > 0,
    ;
    lemma_counts_whole(state, Kernel::PartialCountPlaquettes, p, 2 * p - 1);
    lemma_counts_whole(state, Kernel::PartialCountEdges, 6 * (p - 1), 12 * (p - 1) + 1);
}

/// Tables that can be numbered with 32 bits can be made.
pub proof fn law_small_tables_fit(state: &CudaBackend)
    requires
        state.wf(),
        state.potential_size > 0,
        state.tables_small(),
    ensures
        state.tables_fit(plaquette_bins(state.potential_size)),
        state.tables_fit(edge_bins(state.potential_size)),
{
    let p = state.potential_size as int;
    let (n, t, x) = (state.nreplicas as int, state.bounds.t as int, state.bounds.x as int);
    assert(t >= 2 && x >= 2);
    assert(4 * n <= n * t * x) by (nonlinear_arith)
        requires
            n >= 1,
            t >= 2,
            x >= 2,
    ;
    assert((4 * n) * (12 * p) <= (n * t * x) * (12 * p)) by (nonlinear_arith)
        requires
            4 * n <= n * t * x,
            p > 0,
    ;
    lemma_table_fits(state, 2 * p - 1);
    lemma_table_fits(state, 12 * (p - 1) + 1);
}

/// A table of not too many counts can be made.
proof fn lemma_table_fits(state: &CudaBackend, bins: int)
    requires
        state.nreplicas > 0,
        0 < bins <= 12 * state.potential_size,
        (4 * state.nreplicas) * (12 * state.potential_size) <= u32::MAX,
        0 <= state.nreplicas * state.bounds.t * state.bounds.x,
        (state.nreplicas * state.bounds.t * state.bounds.x) * (12 * state.potential_size)
            <= u32::MAX,
    ensures
        state.tables_fit(bins),
{
    let n = state.nreplicas as int;
    let m = state.nreplicas * state.bounds.t * state.bounds.x;
    let most = 12 * state.potential_size;
    assert(n * bins <= n * most && m * bins <= m * most && 4 * (n * most) == (4 * n) * most && most
        <= n * most) by (nonlinear_arith)
        requires
            n >= 1,
            m >= 0,
            0 < bins <= most,
    ;
    let dims = seq![state.nreplicas, bins as usize];
    assert(dims.drop_last() =~= seq![state.nreplicas]);
    reveal_with_fuel(nonzero_product, 3);
    let one = seq![state.nreplicas];
    assert(one.drop_last() =~= Seq::<usize>::empty());
    assert(one.last() == state.nreplicas);
    assert(nonzero_product(one) == 1nat * (state.nreplicas as nat));
    assert(dims.last() == bins);
    assert(nonzero_product(dims) == n * bins);
}

/// The plaquettes and the fluxes of a lattice that is not too large can be counted on the host
/// when plaquettes are less than the number of potentials in size, and fluxes six times as
/// large at most.
pub proof fn law_small_values_can_be_counted(
    state: &CudaBackend,
    plaquettes: IntArray,
    edges: IntArray,
)
    requires
        state.wf(),
        state.tables_small(),
        0 < state.potential_size <= 0x800_0000,
        row_len(state.bounds, 6) <= u32::MAX,
        plaquettes.dims() == lattice_dims(state.nreplicas, state.bounds, 6),
        plaquettes.elems().len() == all_sites(state.nreplicas, state.bounds) * 6,
        edges.dims() == lattice_dims(state.nreplicas, state.bounds, 4),
        edges.elems().len() == all_sites(state.nreplicas, state.bounds) * 4,
        forall|i: int|
            0 <= i < plaquettes.elems().len() ==> -state.potential_size
                < #[trigger] plaquettes.elems()[i] < state.potential_size,
        forall|i: int|
            0 <= i < edges.elems().len() ==> -6 * (state.potential_size - 1)
                <= #[trigger] edges.elems()[i] <= 6 * (state.potential_size - 1),
    ensures
        state.plaquettes_countable(plaquettes),
        state.edges_countable(edges),
{
    let b = state.bounds;
    law_small_tables_fit(state);
    lemma_sizes(state.nreplicas, b);
    state.lemma_rows(6);
    state.lemma_rows(4);
    let v = b.t * b.x * b.y * b.z;
    assert(row_len(b, 4) == v * 4 && row_len(b, 6) == v * 6);
    law_counts_of_small_rows_fit(plaquettes.elems(), state.nreplicas as int, row_len(b, 6));
    law_counts_of_small_rows_fit(edges.elems(), state.nreplicas as int, row_len(b, 4));
}

/// What counting asks of the device adds up the counts whole.
proof fn lemma_counts_whole(state: &CudaBackend, kernel: Kernel, size: int, bins: int)
    requires
        state.wf(),
        state.tables_small(),
        0 <= size <= usize::MAX,
        0 < bins <= 12 * state.potential_size,
    ensures
        counts_whole(state.count_plan(kernel, size, bins), state, kernel, size, bins),
{
    let ops = state.count_plan(kernel, size, bins);
    let (n, t, x) = (state.nreplicas as int, state.bounds.t as int, state.bounds.x as int);
    let most = 12 * state.potential_size;
    assert(0 < n * t && n * t <= n * t * x && 0 < t * x) by (nonlinear_arith)
        requires
            n >= 1,
            t >= 1,
            x >= 1,
    ;
    assert(n * t * x * bins <= (n * t * x) * most && n * t * x <= n * t * x * bins)
        by (nonlinear_arith)
        requires
            0 < n * t * x,
            0 < bins <= most,
    ;
    law_counts_are_folded_whole(n, t, x, bins);
    assert(0 <= n * bins <= (n * bins) * (t * x) && t * x <= (n * bins) * (t * x))
        by (nonlinear_arith)
        requires
            n >= 1,
            bins >= 1,
            t * x >= 1,
    ;
    let l = ops[1]->Run_0;
    law_launch_is_what_was_asked(kernel, l.args, (n * t * x) as u32);
    law_launch_is_what_was_asked(Kernel::SumIntBuffer, ops[2]->Run_0.args, (n * bins) as u32);
    let k = l.args;
    assert(k[0] == KernelArg::Write(Buffer::State));
    assert(k[1] == KernelArg::Write(Buffer::ScratchU32));
    assert(k[2] == KernelArg::Size(size as usize));
}

/// There is a bin for every value that a plaquette with `p` potentials can have, which is
/// less than `p` in size, and for no other.
pub proof fn law_plaquette_bins_are_the_values(p: usize, v: int)
    requires
        0 < p <= i32::MAX,
    ensures
        0 <= v + plaquette_center(p) < plaquette_bins(p) <==> -p < v < p,
{
}

/// There is a bin for every flux that plaquettes with `p` potentials can make through an
/// edge, and the first and the last bin are those of fluxes that they do make.
pub proof fn law_edge_bins_are_the_fluxes(
    f: spec_fn(SiteIndex, int) -> int,
    p: usize,
    s: SiteIndex,
    d: Dimension,
    b: SiteIndex,
)
    requires
        0 < p,
        6 * p <= i32::MAX,
        s.within(b),
        forall|q: SiteIndex, j: int| -p < #[trigger] f(q, j) < p,
        b.t >= 2,
        b.x >= 2,
        b.y >= 2,
        b.z >= 2,
    ensures
        0 <= edge_sum(f, s, d, b) + edge_center(p) < edge_bins(p),
        exists|g: spec_fn(SiteIndex, int) -> int|
            (forall|q: SiteIndex, j: int| -p < #[trigger] g(q, j) < p) && #[trigger] edge_sum(
                g,
                s,
                d,
                b,
            ) + edge_center(p) == 0,
        exists|g: spec_fn(SiteIndex, int) -> int|
            (forall|q: SiteIndex, j: int| -p < #[trigger] g(q, j) < p) && #[trigger] edge_sum(
                g,
                s,
                d,
                b,
            ) + edge_center(p) == edge_bins(p) - 1,
{
    reveal_with_fuel(prefix_sum, 7);
    let terms = edge_terms(f, s, d, b);
    assert(forall|k: int| 0 <= k < 6 ==> -p < #[trigger] terms[k] < p);
    assert(prefix_sum(terms, 6) == terms[0] + terms[1] + terms[2] + terms[3] + terms[4]
        + terms[5]);
    let along = plaquettes_along(s, d, b);
    let high = |q: SiteIndex, j: int|
        if (q == along[0].0 && j == along[0].1) || (q == along[1].0 && j == along[1].1) || (q
            == along[2].0 && j == along[2].1) {
            p - 1
        } else {
            1 - p
        };
    let low = |q: SiteIndex, j: int| -high(q, j);
    let ups = edge_terms(high, s, d, b);
    assert(prefix_sum(ups, 6) == ups[0] + ups[1] + ups[2] + ups[3] + ups[4] + ups[5]);
    let downs = edge_terms(low, s, d, b);
    assert(prefix_sum(downs, 6) == downs[0] + downs[1] + downs[2] + downs[3] + downs[4]
        + downs[5]);
    assert(edge_sum(low, s, d, b) + edge_center(p) == 0);
    assert(edge_sum(high, s, d, b) + edge_center(p) == edge_bins(p) - 1);
}

/// `counts` holds how often each value from `-center` on occurs in each row of `values`.
pub open spec fn is_histogram(
    counts: Seq<u32>,
    values: Seq<i32>,
    n: int,
    row: int,
    center: int,
    bins: int,
) -> bool {
    &&& counts.len() == n * bins
    &&& forall|r: int, b: int|
        #![trigger counts[r * bins + b]]
        0 <= r < n && 0 <= b < bins ==> counts[r * bins + b] == occurrences(
            row_of(values, row, r),
            b - center,
        )
    &&& forall|r: int| 0 <= r < n ==> #[trigger] bins_sum(counts, bins, r, bins) == row
}

/// There is one histogram: a table of the device that is the histogram of the values is the
/// table that the host counts.
pub proof fn law_histograms_agree(
    first: Seq<u32>,
    second: Seq<u32>,
    values: Seq<i32>,
    n: int,
    row: int,
    center: int,
    bins: int,
)
    requires
        is_histogram(first, values, n, row, center, bins),
        is_histogram(second, values, n, row, center, bins),
        n >= 0,
        bins > 0,
    ensures
        first == second,
{
    assert forall|i: int| 0 <= i < first.len() implies first[i] == second[i] by {
        let (r, b) = (i / bins, i % bins);
        assert(0 <= r < n && 0 <= b < bins && i == r * bins + b) by (nonlinear_arith)
            requires
                0 <= i < n * bins,
                bins > 0,
                r == i / bins,
                b == i % bins,
        ;
        assert(first[r * bins + b] == second[r * bins + b]);
    }
    assert(first =~= second);
}

/// The value that the bins of a plaquette table are centred on, the number of potentials
/// being cut to 32 bits.
pub open spec fn plaquette_center(potential_size: usize) -> int {
    (potential_size as i32) - 1
}

/// The value that the bins of an edge table are centred on, the largest flux being cut to
/// 32 bits.
pub open spec fn edge_center(potential_size: usize) -> int {
    ((largest_flux(potential_size) as usize) as i32) as int
}

/// No value plus `offset` is larger than an `i32` can be.
pub open spec fn offsets_fit(values: Seq<i32>, offset: int) -> bool {
    forall|i: int| 0 <= i < values.len() ==> #[trigger] values[i] + offset <= i32::MAX
}

/// Whether every value has a bin, and no value plus `offset` is larger than an `i32` can be.
fn are_binned(values: &[i32], center: i64, bins: usize, offset: i32) -> (r: bool)
    ensures
        r == (values_binned(values@, center as int, bins as int) && offsets_fit(
            values@,
            offset as int,
        )),
{
    let mut i: usize = 0;
    while i < values.len()
        invariant
            i <= values@.len(),
            forall|j: int| 0 <= j < i ==> 0 <= #[trigger] values@[j] + center < bins,
            forall|j: int| 0 <= j < i ==> #[trigger] values@[j] + offset <= i32::MAX,
        decreases values@.len() - i,
    {
        let bin: i128 = values[i] as i128 + center as i128;
        if bin < 0 || bin >= bins as i128 {
            assert(!(0 <= values@[i as int] + center < bins));
            return false;
        }
        if values[i] as i64 + offset as i64 > i32::MAX as i64 {
            assert(!(values@[i as int] + offset <= i32::MAX));
            return false;
        }
        i += 1;
    }
    true
}

impl CudaBackend {
    /// A table of `bins` counts for every replica has a size.
    pub open spec fn table_fits(&self, bins: int) -> bool {
        &&& 0 <= bins <= usize::MAX
        &&& self.nreplicas * bins <= usize::MAX
        &&& shape_valid(seq![self.nreplicas, bins as usize])
    }

    /// Tables of `bins` counts for every replica, time and first coordinate have a size.
    pub open spec fn tables_fit(&self, bins: int) -> bool {
        &&& self.table_fits(bins)
        &&& self.nreplicas * self.bounds.t * self.bounds.x * bins <= usize::MAX
    }

    /// The lattice is not empty, and the tables of counts for every replica, time and first
    /// coordinate can be numbered with 32 bits.
    pub open spec fn tables_small(&self) -> bool {
        &&& self.bounds.t > 0
        &&& self.bounds.x > 0
        &&& (self.nreplicas * self.bounds.t * self.bounds.x) * (12 * self.potential_size)
            <= u32::MAX
    }

    /// The values of `plaquettes` can be counted on the host.
    pub open spec fn plaquettes_countable(&self, plaquettes: IntArray) -> bool {
        let p = self.potential_size;
        &&& p > 0
        &&& 2 * p <= usize::MAX
        &&& self.table_fits(plaquette_bins(p))
        &&& values_binned(plaquettes.elems(), plaquette_center(p), plaquette_bins(p))
        &&& offsets_fit(plaquettes.elems(), (p as i32) as int)
        &&& counts_fit(plaquettes.elems(), self.nreplicas as int, row_len(self.bounds, 6))
    }

    /// The values of `edges` can be counted on the host.
    pub open spec fn edges_countable(&self, edges: IntArray) -> bool {
        let p = self.potential_size;
        &&& p > 0
        &&& self.table_fits(edge_bins(p))
        &&& values_binned(edges.elems(), edge_center(p), edge_bins(p))
        &&& offsets_fit(edges.elems(), edge_center(p))
        &&& counts_fit(edges.elems(), self.nreplicas as int, row_len(self.bounds, 4))
    }

    fn can_have_table(&self, bins: usize) -> (r: bool)
        ensures
            r == self.table_fits(bins as int),
    {
        let shape: [usize; 2] = [self.nreplicas, bins];
        assert(shape@ =~= seq![self.nreplicas, bins]);
        self.nreplicas.checked_mul(bins).is_some() && valid_shape(shape.as_slice())
    }

    /// Whether the values of `plaquettes` can be counted on the host.
    pub fn can_count_plaquettes_on_host(&self, plaquettes: &IntArray) -> (r: bool)
        requires
            self.wf(),
            plaquettes.dims() == lattice_dims(self.nreplicas, self.bounds, 6),
        ensures
            r == self.plaquettes_countable(*plaquettes),
    {
        let (t, x, y, z) = (self.bounds.t, self.bounds.x, self.bounds.y, self.bounds.z);
        let bins = match self.potential_size.checked_mul(2) {
            Some(n) => if n > 0 {
                n - 1
            } else {
                return false;
            },
            None => {
                return false;
            },
        };
        if !self.can_have_table(bins) {
            return false;
        }
        proof {
            lemma_sizes(self.nreplicas, self.bounds);
            lemma_lattice_product(self.nreplicas, self.bounds, 6);
            self.lemma_rows(6);
        }
        let values = plaquettes.as_slice();
        let size = self.potential_size as i32;
        let center = size as i64 - 1;
        are_binned(values, center, bins, size) && can_count_rows(
            values,
            self.nreplicas,
            t * x * y * z * 6,
            center,
            bins,
        )
    }

    /// Whether the values of `edges` can be counted on the host.
    pub fn can_count_edges_on_host(&self, edges: &IntArray) -> (r: bool)
        requires
            self.wf(),
            edges.dims() == lattice_dims(self.nreplicas, self.bounds, 4),
        ensures
            r == self.edges_countable(*edges),
    {
        let (t, x, y, z) = (self.bounds.t, self.bounds.x, self.bounds.y, self.bounds.z);
        if self.potential_size == 0 {
            return false;
        }
        let max_edge_sum = match (self.potential_size - 1).checked_mul(6) {
            Some(n) => n,
            None => {
                return false;
            },
        };
        let hist_size = match max_edge_sum.checked_mul(2) {
            Some(n) => match n.checked_add(1) {
                Some(m) => m,
                None => {
                    return false;
                },
            },
            None => {
                return false;
            },
        };
        if !self.can_have_table(hist_size) {
            return false;
        }
        proof {
            lemma_sizes(self.nreplicas, self.bounds);
            lemma_lattice_product(self.nreplicas, self.bounds, 4);
            self.lemma_rows(4);
        }
        let values = edges.as_slice();
        let center = max_edge_sum as i32;
        are_binned(values, center as i64, hist_size, center) && can_count_rows(
            values,
            self.nreplicas,
            t * x * y * z * 4,
            center as i64,
            hist_size,
        )
    }

    fn can_have_tables(&self, bins: usize) -> (r: bool)
        requires
            self.wf(),
        ensures
            r == self.tables_fit(bins as int),
    {
        let threads = self.nreplicas * self.bounds.t * self.bounds.x;
        self.can_have_table(bins) && threads.checked_mul(bins).is_some()
    }

    /// Whether the values of the plaquettes can be counted.
    pub fn can_count_plaquettes(&self) -> (r: bool)
        requires
            self.wf(),
        ensures
            r == (self.potential_size > 0 && 2 * self.potential_size <= usize::MAX
                && self.tables_fit(plaquette_bins(self.potential_size))),
    {
        match self.potential_size.checked_mul(2) {
            Some(n) => n > 0 && self.can_have_tables(n - 1),
            None => false,
        }
    }

    /// Whether the values of the flux through the edges can be counted.
    pub fn can_count_edges(&self) -> (r: bool)
        requires
            self.wf(),
        ensures
            r == (self.potential_size > 0 && self.tables_fit(edge_bins(self.potential_size))),
    {
        if self.potential_size == 0 {
            return false;
        }
        match (self.potential_size - 1).checked_mul(12) {
            Some(n) => match n.checked_add(1) {
                Some(bins) => self.can_have_tables(bins),
                None => false,
            },
            None => false,
        }
    }

    /// What counting asks of the device: a table for every replica and every pair of time
    /// and first coordinate, which is then added up to one table per replica.
    pub open spec fn count_plan(&self, kernel: Kernel, size: int, bins: int) -> Seq<OpModel> {
        let n = self.nreplicas;
        let b = self.bounds;
        seq![
            OpModel::AllocZeros {
                buffer: Buffer::ScratchU32,
                len: (n * b.t * b.x * bins) as usize,
            },
            OpModel::Run(
                launch_model(
                    kernel,
                    seq![
                        KernelArg::Write(Buffer::State),
                        KernelArg::Write(Buffer::ScratchU32),
                        KernelArg::Size(size as usize),
                    ] + self.site_args(),
                    ((n * b.t * b.x) as usize) as u32,
                ),
            ),
            OpModel::Run(fold_launch(n * bins, b.t * b.x)),
            OpModel::Download { buffer: Buffer::ScratchU32, len: (n * bins) as usize },
        ]
    }

    fn count_ops(&self, kernel: Kernel, size: usize, bins: usize) -> (r: Vec<DeviceOp>)
        requires
            self.wf(),
            self.nreplicas * self.bounds.t * self.bounds.x * bins <= usize::MAX,
            self.nreplicas * bins <= usize::MAX,
        ensures
            plan(r@) == self.count_plan(kernel, size as int, bins as int),
    {
        let (t, x) = (self.bounds.t, self.bounds.x);
        proof {
            lemma_sizes(self.nreplicas, self.bounds);
        }
        let threads = self.nreplicas * t * x;
        let args = self.with_sites(
            vec![
                KernelArg::Write(Buffer::State),
                KernelArg::Write(Buffer::ScratchU32),
                KernelArg::Size(size),
            ],
        );
        let threads_to_sum = self.nreplicas * bins;
        let num_steps = t * x;
        let fold_args = vec![
            KernelArg::Write(Buffer::ScratchU32),
            KernelArg::Size(threads_to_sum),
            KernelArg::Size(num_steps),
        ];
        assert(fold_args@ =~= fold_launch(threads_to_sum as int, num_steps as int).args);
        let r = vec![
            DeviceOp::AllocZeros { buffer: Buffer::ScratchU32, len: threads * bins },
            DeviceOp::Run(Launch::new(kernel, args, threads)),
            DeviceOp::Run(Launch::new(Kernel::SumIntBuffer, fold_args, threads_to_sum)),
            DeviceOp::Download { buffer: Buffer::ScratchU32, len: threads_to_sum },
        ];
        assert(plan(r@) =~= self.count_plan(kernel, size as int, bins as int));
        r
    }

    fn table(&self, output: Vec<u32>, bins: usize) -> (r: CountArray)
        requires
            output@.len() == self.nreplicas * bins,
            shape_valid(seq![self.nreplicas, bins]),
        ensures
            r.dims() == seq![self.nreplicas, bins],
            r.elems() == output@,
    {
        let shape: [usize; 2] = [self.nreplicas, bins];
        proof {
            lemma_lattice_product(self.nreplicas, self.bounds, bins);
            assert(shape@ =~= seq![self.nreplicas, bins]);
        }
        CountArray::from_shape_vec(shape.as_slice(), output).unwrap()
    }

    /// The requests that count the values of the plaquettes.
    pub fn fetch_plaquette_counts(&self) -> (r: Vec<DeviceOp>)
        requires
            self.wf(),
            self.potential_size > 0,
            2 * self.potential_size <= usize::MAX,
            self.tables_fit(plaquette_bins(self.potential_size)),
        ensures
            plan(r@) == self.count_plan(
                Kernel::PartialCountPlaquettes,
                self.potential_size as int,
                plaquette_bins(self.potential_size),
            ),
            self.tables_small() ==> counts_whole(
                plan(r@),
                self,
                Kernel::PartialCountPlaquettes,
                self.potential_size as int,
                2 * self.potential_size - 1,
            ),
    {
        proof {
            if self.tables_small() {
                law_counts_are_added_up_whole(self);
            }
        }
        self.count_ops(
            Kernel::PartialCountPlaquettes,
            self.potential_size,
            2 * self.potential_size - 1,
        )
    }

    /// How often each value of a plaquette occurs, by state and value.
    pub fn get_plaquette_counts(&self, output: Vec<u32>) -> (r: CountArray)
        requires
            self.potential_size > 0,
            2 * self.potential_size <= usize::MAX,
            output@.len() == self.nreplicas * plaquette_bins(self.potential_size),
            shape_valid(
                seq![self.nreplicas, plaquette_bins(self.potential_size) as usize],
            ),
        ensures
            r.dims() == seq![self.nreplicas, plaquette_bins(self.potential_size) as usize],
            r.elems() == output@,
    {
        self.table(output, 2 * self.potential_size - 1)
    }

    /// How often each value of a plaquette occurs, counted on the host.
    pub fn count_plaquettes_on_host(&self, plaquettes: &IntArray) -> (r: CountArray)
        requires
            self.wf(),
            plaquettes.dims() == lattice_dims(self.nreplicas, self.bounds, 6),
            self.plaquettes_countable(*plaquettes),
        ensures
            r.dims() == seq![self.nreplicas, plaquette_bins(self.potential_size) as usize],
            is_histogram(
                r.elems(),
                plaquettes.elems(),
                self.nreplicas as int,
                row_len(self.bounds, 6),
                plaquette_center(self.potential_size),
                plaquette_bins(self.potential_size),
            ),
    {
        let (t, x, y, z) = (self.bounds.t, self.bounds.x, self.bounds.y, self.bounds.z);
        proof {
            lemma_sizes(self.nreplicas, self.bounds);
            lemma_lattice_product(self.nreplicas, self.bounds, 6);
            self.lemma_rows(6);
        }
        let bins = 2 * self.potential_size - 1;
        let values = plaquettes.as_slice();
        let center = (self.potential_size as i32) as i64 - 1;
        let counts = count_rows(values, self.nreplicas, t * x * y * z * 6, center, bins);
        self.table(counts, bins)
    }

    /// The rows of all replicas make all numbers.
    proof fn lemma_rows(&self, m: int)
        requires
            self.wf(),
        ensures
            self.nreplicas * row_len(self.bounds, m) == all_sites(self.nreplicas, self.bounds) * m,
    {
        lemma_sizes(self.nreplicas, self.bounds);
        let b = self.bounds;
        let (n, v) = (self.nreplicas as int, b.t * b.x * b.y * b.z);
        assert(n * (v * m) == n * v * m) by (nonlinear_arith);
    }

    /// The requests that count the values of the flux through the edges.
    pub fn fetch_edge_counts(&self) -> (r: Vec<DeviceOp>)
        requires
            self.wf(),
            self.potential_size > 0,
            self.tables_fit(edge_bins(self.potential_size)),
        ensures
            plan(r@) == self.count_plan(
                Kernel::PartialCountEdges,
                largest_flux(self.potential_size),
                edge_bins(self.potential_size),
            ),
            self.tables_small() ==> counts_whole(
                plan(r@),
                self,
                Kernel::PartialCountEdges,
                6 * (self.potential_size - 1),
                12 * (self.potential_size - 1) + 1,
            ),
    {
        proof {
            if self.tables_small() {
                law_counts_are_added_up_whole(self);
            }
        }
        let max_edge_sum = 6 * (self.potential_size - 1);
        let hist_size = 2 * max_edge_sum + 1;
        self.count_ops(Kernel::PartialCountEdges, max_edge_sum, hist_size)
    }

    /// How often each value of the flux through an edge occurs, by state and value.
    pub fn get_edge_counts(&self, output: Vec<u32>) -> (r: CountArray)
        requires
            self.potential_size > 0,
            edge_bins(self.potential_size) <= usize::MAX,
            output@.len() == self.nreplicas * edge_bins(self.potential_size),
            shape_valid(seq![self.nreplicas, edge_bins(self.potential_size) as usize]),
        ensures
            r.dims() == seq![self.nreplicas, edge_bins(self.potential_size) as usize],
            r.elems() == output@,
    {
        let max_edge_sum = 6 * (self.potential_size - 1);
        self.table(output, 2 * max_edge_sum + 1)
    }

    /// How often each value of the flux through an edge occurs, counted on the host.
    pub fn get_edge_counts_cpu(&self, edges: &IntArray) -> (r: CountArray)
        requires
            self.wf(),
            edges.dims() == lattice_dims(self.nreplicas, self.bounds, 4),
            self.edges_countable(*edges),
        ensures
            r.dims() == seq![self.nreplicas, edge_bins(self.potential_size) as usize],
            is_histogram(
                r.elems(),
                edges.elems(),
                self.nreplicas as int,
                row_len(self.bounds, 4),
                edge_center(self.potential_size),
                edge_bins(self.potential_size),
            ),
    {
        let (t, x, y, z) = (self.bounds.t, self.bounds.x, self.bounds.y, self.bounds.z);
        proof {
            lemma_sizes(self.nreplicas, self.bounds);
            lemma_lattice_product(self.nreplicas, self.bounds, 4);
            self.lemma_rows(4);
        }
        let max_edge_sum = 6 * (self.potential_size - 1);
        let hist_size = 2 * max_edge_sum + 1;
        let values = edges.as_slice();
        let counts = count_rows(
            values,
            self.nreplicas,
            t * x * y * z * 4,
            (max_edge_sum as i32) as i64,
            hist_size,
        );
        self.table(counts, hist_size)
    }

    /// What measuring the actions asks of the device: a number for every replica, time and
    /// first two coordinates, which are then added up along each of these.
    pub open spec fn action_plan(&self) -> Seq<OpModel> {
        let n = self.nreplicas;
        let b = self.bounds;
        seq![
            OpModel::AllocZeros {
                buffer: Buffer::ScratchFloat,
                len: (n * b.t * b.x * b.y) as usize,
            },
            OpModel::Run(
                launch_model(
                    Kernel::PartialSumEnergies,
                    seq![
                        KernelArg::Read(Buffer::State),
                        KernelArg::Write(Buffer::ScratchFloat),
                        KernelArg::Read(Buffer::Potential),
                        KernelArg::Read(Buffer::WindingChemicalPotential),
                        KernelArg::Read(Buffer::PotentialRedirect),
                        KernelArg::Size(self.potential_size),
                    ] + self.site_args(),
                    ((n * b.t * b.x * b.y) as usize) as u32,
                ),
            ),
            OpModel::Run(sum_launch(n * b.t * b.x, b.y as int)),
            OpModel::Run(sum_launch(n * b.t, b.x as int)),
            OpModel::Run(sum_launch(n as int, b.t as int)),
            OpModel::Download { buffer: Buffer::ScratchFloat, len: n },
        ]
    }

    /// The requests that measure the actions.
    pub fn fetch_action_per_replica(&self) -> (r: Vec<DeviceOp>)
        requires
            self.wf(),
            self.bounds.t > 0,
            self.bounds.x > 0,
            self.bounds.y > 0,
        ensures
            plan(r@) == self.action_plan(),
    {
        let (t, x, y) = (self.bounds.t, self.bounds.x, self.bounds.y);
        let mut threads_to_sum = self.nreplicas * t * x * y;
        let args = self.with_sites(
            vec![
                KernelArg::Read(Buffer::State),
                KernelArg::Write(Buffer::ScratchFloat),
                KernelArg::Read(Buffer::Potential),
                KernelArg::Read(Buffer::WindingChemicalPotential),
                KernelArg::Read(Buffer::PotentialRedirect),
                KernelArg::Size(self.potential_size),
            ],
        );
        let mut r = vec![
            DeviceOp::AllocZeros { buffer: Buffer::ScratchFloat, len: threads_to_sum },
            DeviceOp::Run(Launch::new(Kernel::PartialSumEnergies, args, threads_to_sum)),
        ];
        let steps: [usize; 3] = [y, x, t];
        let ghost n = self.nreplicas as int;
        let ghost left = seq![n * t * x * y, n * t * x, n * t, n];
        let ghost all = self.action_plan();
        proof {
            law_one_action_is_left_per_replica(n, t as int, x as int, y as int);
        }
        assert(plan(r@) =~= all.take(2));
        let mut i: usize = 0;
        while i < 3
            invariant
                i <= 3,
                steps@ == seq![y, x, t],
                t > 0,
                x > 0,
                y > 0,
                left == seq![n * t * x * y, n * t * x, n * t, n],
                left[0] / (y as int) == left[1],
                left[1] / (x as int) == left[2],
                left[2] / (t as int) == left[3],
                threads_to_sum == left[i as int],
                n == self.nreplicas,
                t == self.bounds.t,
                x == self.bounds.x,
                y == self.bounds.y,
                all == self.action_plan(),
                plan(r@) == all.take(2 + i),
            decreases 3 - i,
        {
            let n = steps[i];
            threads_to_sum = threads_to_sum / n;
            let args = vec![
                KernelArg::Write(Buffer::ScratchFloat),
                KernelArg::Size(threads_to_sum),
                KernelArg::Size(n),
            ];
            assert(args@ =~= sum_launch(threads_to_sum as int, n as int).args);
            let ghost before = r@;
            r.push(DeviceOp::Run(Launch::new(Kernel::SumBuffer, args, threads_to_sum)));
            assert(plan(r@) =~= plan(before).push(
                OpModel::Run(sum_launch(threads_to_sum as int, n as int)),
            ));
            assert(all[2 + i] == OpModel::Run(sum_launch(threads_to_sum as int, n as int)));
            assert(plan(r@) =~= all.take(2 + (i + 1)));
            i += 1;
        }
        let ghost before = r@;
        r.push(DeviceOp::Download { buffer: Buffer::ScratchFloat, len: self.nreplicas });
        assert(plan(r@) =~= plan(before).push(
            OpModel::Download { buffer: Buffer::ScratchFloat, len: self.nreplicas },
        ));
        assert(plan(r@) =~= all);
        r
    }

    /// The actions by potential.
    pub fn get_action_per_replica<T: Copy>(&self, energies: Vec<T>) -> (r: Vec<T>)
        requires
            self.wf(),
            energies@.len() == self.nreplicas,
        ensures
            r@.len() == energies@.len(),
            forall|i: int|
                0 <= i < energies@.len() ==> r@[self.map()[i]] == #[trigger] energies@[i],
            match self.potential_redirect_array {
                RedirectArrays::Identity => r@ == energies@,
                RedirectArrays::Redirect { redirect, .. } => forall|i: int|
                    0 <= i < energies@.len() ==> r@[redirect.elems()[i] as int]
                        == #[trigger] energies@[i],
            },
    {
        let redirect = self.potential_redirect_array.get_redirect();
        let r = redirect_rows(energies, self.nreplicas, 1, redirect);
        proof {
            let map = self.map();
            assert forall|i: int| 0 <= i < energies@.len() implies r@[map[i]]
                == #[trigger] energies@[i] by {
                assert(r@[map[i] * 1 + 0] == energies@[i * 1 + 0]);
            }
        }
        r
    }
}

} // verus!
