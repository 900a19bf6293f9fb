//! Measurements on the state.
//!
//! A method whose name starts with `fetch` gives the requests of a measurement; the one
//! that starts with `get` takes what the device sent back. Where the device computes one
//! row per state, the rows are put in the order of the potentials.

use crate::arrays::{index_in, product, row_major, shape_valid, IntArray};
use crate::backend::{setup_plan, told_of_lattice, CudaBackend};
use crate::device::{
    covers, launch_model, law_launch_is_what_was_asked, names_just, names_only_short, plan, Buffer,
    DeviceOp, HostModel, Kernel, KernelArg, Launch, OpModel,
};
use crate::dual_state::{lattice_dims, site_value};
use crate::lattice::SiteIndex;
use crate::mesh::lemma_row_major;
use crate::redirect::{redirect_rows, rows_moved, RedirectArrays};
use crate::sizes::{all_sites, lemma_sizes};
use vstd::prelude::*;

verus! {

/// The number of elements of an array with one more axis.
pub proof fn lemma_product_push(dims: Seq<usize>, d: usize)
    ensures
        product(dims.push(d)) == product(dims) * d,
{
    assert(dims.push(d).drop_last() =~= dims);
}

/// The number of elements of arrays with numbers for every site.
pub proof fn lemma_lattice_product(n: usize, b: SiteIndex, m: usize)
    ensures
        product(seq![n]) == n,
        product(seq![n, m]) == n * m,
        product(seq![n, b.t, b.x, b.y, b.z]) == all_sites(n, b),
        product(lattice_dims(n, b, m)) == all_sites(n, b) * m,
{
    let d0 = Seq::<usize>::empty();
    assert(product(d0) == 1);
    lemma_product_push(d0, n);
    assert(d0.push(n) =~= seq![n]);
    assert(product(seq![n]) == n);
    lemma_product_push(seq![n], m);
    assert(seq![n].push(m) =~= seq![n, m]);
    lemma_product_push(seq![n], b.t);
    assert(seq![n].push(b.t) =~= seq![n, b.t]);
    lemma_product_push(seq![n, b.t], b.x);
    assert(seq![n, b.t].push(b.x) =~= seq![n, b.t, b.x]);
    lemma_product_push(seq![n, b.t, b.x], b.y);
    assert(seq![n, b.t, b.x].push(b.y) =~= seq![n, b.t, b.x, b.y]);
    lemma_product_push(seq![n, b.t, b.x, b.y], b.z);
    assert(seq![n, b.t, b.x, b.y].push(b.z) =~= seq![n, b.t, b.x, b.y, b.z]);
    lemma_product_push(seq![n, b.t, b.x, b.y, b.z], m);
    assert(seq![n, b.t, b.x, b.y, b.z].push(m) =~= lattice_dims(n, b, m));
}

/// The number of elements that `m` numbers for every site make per replica.
pub open spec fn row_len(b: SiteIndex, m: int) -> int {
    b.t * b.x * b.y * b.z * m
}

/// A place in a row stays in its row when the row gets another axis.
proof fn lemma_one_more_axis(r: int, row: int, p: int, d: int, c: int)
    ensures
        (r * row + p) * d + c == r * (row * d) + (p * d + c),
{
    assert((r * row + p) * d == r * (row * d) + p * d) by (nonlinear_arith);
}

/// The place of an element in an array with numbers for every site: the row of its
/// replica, and a place in the row that does not depend on the replica.
proof fn lemma_place_in_row(n: usize, b: SiteIndex, m: usize, r: int, s: SiteIndex, k: int)
    requires
        0 <= r < n,
        s.within(b),
        0 <= k < m,
    ensures
        ({
            let rest = seq![s.t as int, s.x as int, s.y as int, s.z as int, k];
            let j = row_major(seq![b.t, b.x, b.y, b.z, m], rest);
            &&& row_major(lattice_dims(n, b, m), seq![r] + rest) == r * row_len(b, m as int) + j
            &&& 0 <= j < row_len(b, m as int)
        }),
{
    let tail = seq![b.t, b.x, b.y, b.z, m];
    let rest = seq![s.t as int, s.x as int, s.y as int, s.z as int, k];
    let j = row_major(tail, rest);
    let dims = lattice_dims(n, b, m);
    let index = seq![r] + rest;
    reveal_with_fuel(row_major, 7);
    let (c1, c2, c3, c4) = (s.t as int, s.x as int, s.y as int, s.z as int);
    let (x, y, z, l) = (b.x as int, b.y as int, b.z as int, m as int);
    let t = b.t as int;
    assert(dims.drop_last() =~= seq![n, b.t, b.x, b.y, b.z]);
    assert(index.drop_last() =~= seq![r, c1, c2, c3, c4]);
    assert(dims.drop_last().drop_last() =~= seq![n, b.t, b.x, b.y]);
    assert(index.drop_last().drop_last() =~= seq![r, c1, c2, c3]);
    assert(dims.drop_last().drop_last().drop_last() =~= seq![n, b.t, b.x]);
    assert(index.drop_last().drop_last().drop_last() =~= seq![r, c1, c2]);
    assert(dims.drop_last().drop_last().drop_last().drop_last() =~= seq![n, b.t]);
    assert(index.drop_last().drop_last().drop_last().drop_last() =~= seq![r, c1]);
    assert(dims.drop_last().drop_last().drop_last().drop_last().drop_last() =~= seq![n]);
    assert(index.drop_last().drop_last().drop_last().drop_last().drop_last() =~= seq![r]);
    assert(row_major(seq![n], seq![r]) == r) by {
        assert(seq![n].drop_last() =~= Seq::<usize>::empty());
    }
    assert(row_major(seq![n, b.t], seq![r, c1]) == r * t + c1);
    assert(row_major(seq![n, b.t, b.x], seq![r, c1, c2]) == (r * t + c1) * x + c2);
    assert(row_major(seq![n, b.t, b.x, b.y], seq![r, c1, c2, c3]) == ((r * t + c1) * x + c2) * y
        + c3);
    let whole = ((((r * t + c1) * x + c2) * y + c3) * z + c4) * l + k;
    assert(row_major(dims, index) == whole);
    assert(tail.drop_last() =~= seq![b.t, b.x, b.y, b.z]);
    assert(rest.drop_last() =~= seq![c1, c2, c3, c4]);
    assert(tail.drop_last().drop_last() =~= seq![b.t, b.x, b.y]);
    assert(rest.drop_last().drop_last() =~= seq![c1, c2, c3]);
    assert(tail.drop_last().drop_last().drop_last() =~= seq![b.t, b.x]);
    assert(rest.drop_last().drop_last().drop_last() =~= seq![c1, c2]);
    assert(tail.drop_last().drop_last().drop_last().drop_last() =~= seq![b.t]);
    assert(rest.drop_last().drop_last().drop_last().drop_last() =~= seq![c1]);
    assert(row_major(seq![b.t], seq![c1]) == c1) by {
        assert(seq![b.t].drop_last() =~= Seq::<usize>::empty());
    }
    assert(row_major(seq![b.t, b.x], seq![c1, c2]) == c1 * x + c2);
    assert(row_major(seq![b.t, b.x, b.y], seq![c1, c2, c3]) == (c1 * x + c2) * y + c3);
    let part = (((c1 * x + c2) * y + c3) * z + c4) * l + k;
    assert(j == part);
    let row = t * x * y * z * l;
    lemma_one_more_axis(r, t, c1, x, c2);
    lemma_one_more_axis(r, t * x, c1 * x + c2, y, c3);
    lemma_one_more_axis(r, t * x * y, (c1 * x + c2) * y + c3, z, c4);
    lemma_one_more_axis(r, t * x * y * z, ((c1 * x + c2) * y + c3) * z + c4, l, k);
    assert(whole == r * row + part);
    assert(index_in(tail, rest));
    lemma_row_major(tail, rest);
    lemma_lattice_product(b.t, SiteIndex { t: b.x, x: b.y, y: b.z, z: m }, 1);
    assert(tail =~= seq![b.t, b.x, b.y, b.z, m]);
}

/// Reading by potential: what the array for the potentials holds at the place of a
/// state's potential is what the device computed for the state.
pub proof fn law_replicas_are_moved_whole(
    raw: IntArray,
    moved: IntArray,
    n: usize,
    b: SiteIndex,
    m: usize,
    map: Seq<int>,
    r: int,
    s: SiteIndex,
    k: int,
)
    requires
        raw.dims() == lattice_dims(n, b, m),
        moved.dims() == lattice_dims(n, b, m),
        map.len() == n,
        forall|i: int| 0 <= i < n ==> 0 <= #[trigger] map[i] < n,
        rows_moved(moved.elems(), raw.elems(), row_len(b, m as int), map),
        0 <= r < n,
        s.within(b),
        0 <= k < m,
    ensures
        site_value(moved, map[r], s, k) == site_value(raw, r, s, k),
{
    let rest = seq![s.t as int, s.x as int, s.y as int, s.z as int, k];
    lemma_place_in_row(n, b, m, r, s, k);
    lemma_place_in_row(n, b, m, map[r], s, k);
    assert(seq![r] + rest =~= seq![r, s.t as int, s.x as int, s.y as int, s.z as int, k]);
    assert(seq![map[r]] + rest =~= seq![
        map[r],
        s.t as int,
        s.x as int,
        s.y as int,
        s.z as int,
        k,
    ]);
    let j = row_major(seq![b.t, b.x, b.y, b.z, m], rest);
    assert(moved.elems()[map[r] * row_len(b, m as int) + j] == raw.elems()[r * row_len(
        b,
        m as int,
    ) + j]);
}

/// The request leaves the buffer of the state alone.
pub open spec fn leaves_state(op: OpModel) -> bool {
    match op {
        OpModel::AllocZeros { buffer, .. } => buffer != Buffer::State,
        OpModel::Upload { buffer, .. } => buffer != Buffer::State,
        OpModel::Clear { buffer } => buffer != Buffer::State,
        OpModel::FillUniform { buffer } => buffer != Buffer::State,
        OpModel::Run(_) => false,
        OpModel::Keep { from, to } => from != Buffer::State && to != Buffer::State,
        OpModel::SeedRng { .. } => true,
        OpModel::Download { .. } => true,
        OpModel::Synchronize => true,
    }
}

/// What requests leave in the buffer of the state, where copies from the host alone decide
/// it.
pub open spec fn state_contents(ops: Seq<OpModel>) -> Option<Seq<i32>>
    decreases ops.len(),
{
    if ops.len() == 0 {
        None
    } else {
        let before = state_contents(ops.drop_last());
        let op = ops.last();
        if leaves_state(op) {
            before
        } else {
            match (op, before) {
                (OpModel::AllocZeros { len, .. }, _) => Some(Seq::new(len as nat, |i: int| 0i32)),
                (
                    OpModel::Upload { data: HostModel::I32(s), .. },
                    Some(c),
                ) => if s.len() <= c.len() {
                    Some(s + c.skip(s.len() as int))
                } else {
                    None
                },
                _ => None,
            }
        }
    }
}

/// Requests that leave the state alone can be left out.
proof fn lemma_state_contents_of_front(front: Seq<OpModel>, back: Seq<OpModel>)
    requires
        forall|i: int| 0 <= i < back.len() ==> leaves_state(#[trigger] back[i]),
    ensures
        state_contents(front + back) == state_contents(front),
    decreases back.len(),
{
    if back.len() == 0 {
        assert(front + back =~= front);
    } else {
        assert((front + back).drop_last() =~= front + back.drop_last());
        assert((front + back).last() == back[back.len() - 1]);
        lemma_state_contents_of_front(front, back.drop_last());
    }
}

/// What is read of a backend just set up is the state that it was set up with, zeros where
/// that has no plaquettes.
pub proof fn law_setup_state_is_read_back(
    backend: &CudaBackend,
    vn_len: usize,
    edge_vn_len: usize,
    state: Option<Seq<i32>>,
    has_chemical_potential: bool,
    seed: u64,
    read: IntArray,
)
    requires
        backend.fresh(
            backend.nreplicas,
            backend.bounds,
            backend.potential_size,
            backend.edge_potential_size,
        ),
        state matches Some(s) ==> s.len() <= all_sites(backend.nreplicas, backend.bounds) * 6,
        state_contents(
            setup_plan(
                backend.nreplicas,
                backend.bounds,
                vn_len,
                edge_vn_len,
                state,
                has_chemical_potential,
                seed,
            ),
        ) matches Some(c) ==> backend.by_potential(c, row_len(backend.bounds, 6), read),
    ensures
        ({
            let all = (all_sites(backend.nreplicas, backend.bounds) * 6) as nat;
            match state {
                Some(s) => read.elems() == s + Seq::new((all - s.len()) as nat, |i: int| 0i32),
                None => read.elems() == Seq::new(all, |i: int| 0i32),
            }
        }),
{
    let (n, b) = (backend.nreplicas, backend.bounds);
    let ops = setup_plan(n, b, vn_len, edge_vn_len, state, has_chemical_potential, seed);
    lemma_sizes(n, b);
    let all = (all_sites(n, b) * 6) as usize;
    let alloc = seq![OpModel::AllocZeros { buffer: Buffer::State, len: all }];
    assert(alloc.drop_last() =~= Seq::<OpModel>::empty());
    let zeros = Seq::new(all as nat, |i: int| 0i32);
    assert(state_contents(alloc) == Some(zeros));
    match state {
        Some(s) => {
            let upload = OpModel::Upload { buffer: Buffer::State, data: HostModel::I32(s) };
            let front = alloc.push(upload);
            assert(front.drop_last() =~= alloc);
            let rest = Seq::new((all - s.len()) as nat, |i: int| 0i32);
            assert(zeros.skip(s.len() as int) =~= rest);
            assert(state_contents(front) == Some(s + rest));
            let back = ops.skip(2);
            assert(front + back =~= ops);
            lemma_state_contents_of_front(front, back);
        },
        None => {
            let back = ops.skip(1);
            assert(alloc + back =~= ops);
            lemma_state_contents_of_front(alloc, back);
        },
    }
}

/// What measuring on the state asks of the device: a new buffer of `len` numbers, a launch
/// that fills it, and the numbers.
pub open spec fn scratch_plan(
    kernel: Kernel,
    args: Seq<KernelArg>,
    threads: int,
    len: int,
) -> Seq<OpModel> {
    seq![
        OpModel::AllocZeros { buffer: Buffer::ScratchI32, len: len as usize },
        OpModel::Run(launch_model(kernel, args, (threads as usize) as u32)),
        OpModel::Download { buffer: Buffer::ScratchI32, len: len as usize },
    ]
}

fn scratch_ops(kernel: Kernel, args: Vec<KernelArg>, threads: usize, len: usize) -> (r: Vec<
    DeviceOp,
>)
    ensures
        plan(r@) == scratch_plan(kernel, args@, threads as int, len as int),
{
    let r = vec![
        DeviceOp::AllocZeros { buffer: Buffer::ScratchI32, len },
        DeviceOp::Run(Launch::new(kernel, args, threads)),
        DeviceOp::Download { buffer: Buffer::ScratchI32, len },
    ];
    assert(plan(r@) =~= scratch_plan(kernel, args@, threads as int, len as int));
    r
}

/// The rows of a measurement are put where the potentials of their states are.
pub proof fn law_rows_are_read_by_potential(
    state: &CudaBackend,
    output: Seq<i32>,
    row: int,
    read: IntArray,
    i: int,
    j: int,
)
    requires
        state.wf(),
        state.by_potential(output, row, read),
        0 <= i < state.nreplicas,
        0 <= j < row,
    ensures
        match state.potential_redirect_array {
            RedirectArrays::Identity => read.elems()[i * row + j] == output[i * row + j],
            RedirectArrays::Redirect { redirect, .. } => read.elems()[redirect.elems()[i] * row + j]
                == output[i * row + j],
        },
{
    assert(read.elems()[state.map()[i] * row + j] == output[i * row + j]);
}

/// The requests measure on the state: they make a buffer of `len` numbers, launch the kernel
/// on the state and this buffer with `threads` threads, and read the buffer whole.
pub open spec fn measures(
    ops: Seq<OpModel>,
    state: &CudaBackend,
    kernel: Kernel,
    threads: int,
    len: int,
) -> bool {
    let scratch = Buffer::ScratchI32;
    &&& ops.len() == 3
    &&& ops[0] matches OpModel::AllocZeros { buffer, len: made } && buffer == scratch && made == len
    &&& ops[1] matches OpModel::Run(l) && {
        &&& l.kernel == kernel
        &&& threads <= u32::MAX ==> covers(l, threads)
        &&& l.args[1] == KernelArg::Write(scratch)
        &&& names_just(l.args, set![Buffer::State, scratch])
        &&& told_of_lattice(l.args, state)
    }
    &&& ops[2] matches OpModel::Download { buffer, len: read } && buffer == scratch && read == len
}

/// Measurements fill their buffer and read it whole: the flux with a thread and a number for
/// every edge, the flow of matter with a thread and a number for every site, the corners with
/// a thread for every site and four numbers, of the plane that was asked for and no other,
/// and the windings with a thread and a number for every plane of every replica.
pub proof fn law_measurements_are_read_whole(state: &CudaBackend, plaquette_type: u16)
    requires
        state.wf(),
        state.nreplicas * 6 <= usize::MAX,
    ensures
        ({
            let b = state.bounds;
            let sites = state.nreplicas * b.t * b.x * b.y * b.z;
            let corners = state.corner_plan(plaquette_type);
            &&& measures(state.edge_plan(), state, Kernel::CalculateEdgeSums, 4 * sites, 4 * sites)
            &&& state.edge_plan()[1]->Run_0.args.len() == 7
            &&& measures(
                state.flow_plan(),
                state,
                Kernel::CalculateMatterFlowThroughCoords,
                sites,
                sites,
            )
            &&& state.flow_plan()[1]->Run_0.args.len() == 7
            &&& measures(
                corners,
                state,
                Kernel::CalculateMatterCornersForPlaquettes,
                sites,
                4 * sites,
            )
            &&& names_only_short(corners[1]->Run_0.args, plaquette_type)
            &&& corners[1]->Run_0.args[2] == KernelArg::Short(plaquette_type)
            &&& corners[1]->Run_0.args.len() == 8
            &&& measures(
                state.winding_plan(),
                state,
                Kernel::SumWinding,
                6 * state.nreplicas,
                6 * state.nreplicas,
            )
            &&& state.winding_plan()[1]->Run_0.args.len() == 7
        }),
{
    let n = state.nreplicas;
    let b = state.bounds;
    lemma_sizes(n, b);
    let sites = all_sites(n, b);
    let edges = state.edge_plan()[1]->Run_0;
    let flow = state.flow_plan()[1]->Run_0;
    let corners = state.corner_plan(plaquette_type)[1]->Run_0;
    let winding = state.winding_plan()[1]->Run_0;
    law_launch_is_what_was_asked(edges.kernel, edges.args, ((sites * 4) as usize) as u32);
    law_launch_is_what_was_asked(flow.kernel, flow.args, (sites as usize) as u32);
    law_launch_is_what_was_asked(corners.kernel, corners.args, (sites as usize) as u32);
    law_launch_is_what_was_asked(winding.kernel, winding.args, ((n * 6) as usize) as u32);
    let (s, w) = (KernelArg::Read(Buffer::State), KernelArg::Write(Buffer::ScratchI32));
    assert(edges.args[0] == s && edges.args[1] == w);
    assert(flow.args[0] == s && flow.args[1] == w);
    assert(corners.args[0] == s && corners.args[1] == w);
    assert(corners.args[2] == KernelArg::Short(plaquette_type));
    assert(winding.args[0] == KernelArg::Write(Buffer::State) && winding.args[1] == w);
}

impl CudaBackend {
    /// What the host makes of one row per state: an array with the given axes, the rows in
    /// the order of the potentials.
    pub open spec fn by_potential(&self, output: Seq<i32>, row: int, r: IntArray) -> bool {
        &&& rows_moved(r.elems(), output, row, self.map())
        &&& self.potential_redirect_array is Identity ==> r.elems() == output
    }

    /// The measurement of the flux through every edge.
    pub open spec fn edge_plan(&self) -> Seq<OpModel> {
        scratch_plan(
            Kernel::CalculateEdgeSums,
            seq![KernelArg::Read(Buffer::State), KernelArg::Write(Buffer::ScratchI32)]
                + self.site_args(),
            all_sites(self.nreplicas, self.bounds) * 4,
            all_sites(self.nreplicas, self.bounds) * 4,
        )
    }

    /// The measurement of the flow of matter through every site.
    pub open spec fn flow_plan(&self) -> Seq<OpModel> {
        scratch_plan(
            Kernel::CalculateMatterFlowThroughCoords,
            seq![KernelArg::Read(Buffer::State), KernelArg::Write(Buffer::ScratchI32)]
                + self.site_args(),
            all_sites(self.nreplicas, self.bounds),
            all_sites(self.nreplicas, self.bounds),
        )
    }

    /// The measurement of the corners of matter loops at the plaquettes of a type.
    pub open spec fn corner_plan(&self, plaquette_type: u16) -> Seq<OpModel> {
        scratch_plan(
            Kernel::CalculateMatterCornersForPlaquettes,
            seq![
                KernelArg::Read(Buffer::State),
                KernelArg::Write(Buffer::ScratchI32),
                KernelArg::Short(plaquette_type),
            ] + self.site_args(),
            all_sites(self.nreplicas, self.bounds),
            all_sites(self.nreplicas, self.bounds) * 4,
        )
    }

    /// The measurement of the winding numbers.
    pub open spec fn winding_plan(&self) -> Seq<OpModel> {
        scratch_plan(
            Kernel::SumWinding,
            seq![KernelArg::Write(Buffer::State), KernelArg::Write(Buffer::ScratchI32)]
                + self.site_args(),
            self.nreplicas * 6,
            self.nreplicas * 6,
        )
    }

    fn array_by_potential(&self, output: Vec<i32>, row: usize, shape: &[usize]) -> (r: IntArray)
        requires
            self.wf(),
            output@.len() == self.nreplicas * row,
            product(shape@) == self.nreplicas * row,
            shape_valid(shape@),
        ensures
            r.dims() == shape@,
            self.by_potential(output@, row as int, r),
    {
        let redirect = self.potential_redirect_array.get_redirect();
        let moved = redirect_rows(output, self.nreplicas, row, redirect);
        IntArray::from_shape_vec(shape, moved).unwrap()
    }

    fn lattice_array(&self, output: Vec<i32>, m: usize) -> (r: IntArray)
        requires
            self.wf(),
            m <= 6,
            output@.len() == all_sites(self.nreplicas, self.bounds) * m,
            shape_valid(lattice_dims(self.nreplicas, self.bounds, m)),
        ensures
            r.dims() == lattice_dims(self.nreplicas, self.bounds, m),
            self.by_potential(output@, row_len(self.bounds, m as int), r),
    {
        let (t, x, y, z) = (self.bounds.t, self.bounds.x, self.bounds.y, self.bounds.z);
        let shape: [usize; 6] = [self.nreplicas, t, x, y, z, m];
        proof {
            lemma_sizes(self.nreplicas, self.bounds);
            lemma_lattice_product(self.nreplicas, self.bounds, m);
            assert(shape@ =~= lattice_dims(self.nreplicas, self.bounds, m));
            let (n, v, l) = (self.nreplicas as int, t * x * y * z, m as int);
            assert(n * (v * l) == n * v * l && 0 <= v * l <= v * 6) by (nonlinear_arith)
                requires
                    v >= 0,
                    0 <= l <= 6,
            ;
        }
        self.array_by_potential(output, t * x * y * z * m, shape.as_slice())
    }

    /// The requests that read all plaquettes.
    pub fn fetch_plaquettes(&self) -> (r: Vec<DeviceOp>)
        requires
            self.wf(),
        ensures
            plan(r@) == seq![
                OpModel::Download {
                    buffer: Buffer::State,
                    len: (all_sites(self.nreplicas, self.bounds) * 6) as usize,
                },
            ],
            plan(r@).len() == 1,
            plan(r@)[0] matches OpModel::Download { buffer, len } && buffer == Buffer::State && len
                == self.nreplicas * self.bounds.t * self.bounds.x * self.bounds.y * self.bounds.z
                * 6,
    {
        let (t, x, y, z) = (self.bounds.t, self.bounds.x, self.bounds.y, self.bounds.z);
        proof {
            lemma_sizes(self.nreplicas, self.bounds);
        }
        let r = vec![
            DeviceOp::Download { buffer: Buffer::State, len: self.nreplicas * t * x * y * z * 6 },
        ];
        assert(plan(r@) =~= seq![
            OpModel::Download {
                buffer: Buffer::State,
                len: (all_sites(self.nreplicas, self.bounds) * 6) as usize,
            },
        ]);
        r
    }

    /// All plaquettes by potential, site and plane.
    pub fn get_plaquettes(&self, output: Vec<i32>) -> (r: IntArray)
        requires
            self.wf(),
            output@.len() == all_sites(self.nreplicas, self.bounds) * 6,
            shape_valid(lattice_dims(self.nreplicas, self.bounds, 6)),
        ensures
            r.dims() == lattice_dims(self.nreplicas, self.bounds, 6),
            self.by_potential(output@, row_len(self.bounds, 6), r),
    {
        self.lattice_array(output, 6)
    }

    fn edge_sums(&self, edge_buffer: Buffer, plaquette_buffer: Buffer) -> (r: (
        Vec<KernelArg>,
        usize,
    ))
        requires
            self.wf(),
        ensures
            r.0@ == seq![KernelArg::Read(plaquette_buffer), KernelArg::Write(edge_buffer)]
                + self.site_args(),
            r.1 == all_sites(self.nreplicas, self.bounds) * 4,
    {
        let (t, x, y, z) = (self.bounds.t, self.bounds.x, self.bounds.y, self.bounds.z);
        proof {
            lemma_sizes(self.nreplicas, self.bounds);
        }
        let num_edges = self.nreplicas * t * x * y * z * 4;
        let args = self.with_sites(
            vec![KernelArg::Read(plaquette_buffer), KernelArg::Write(edge_buffer)],
        );
        (args, num_edges)
    }

    /// The requests that compute the flux through every edge in a buffer, from the
    /// plaquettes in another.
    pub fn calculate_edge_violations(&self, edge_buffer: Buffer, plaquette_buffer: Buffer) -> (r:
        Vec<DeviceOp>)
        requires
            self.wf(),
        ensures
            plan(r@) == seq![
                OpModel::Run(
                    launch_model(
                        Kernel::CalculateEdgeSums,
                        seq![KernelArg::Read(plaquette_buffer), KernelArg::Write(edge_buffer)]
                            + self.site_args(),
                        ((all_sites(self.nreplicas, self.bounds) * 4) as usize) as u32,
                    ),
                ),
            ],
            plan(r@)[0] matches OpModel::Run(l) && l.args.contains(
                KernelArg::Read(plaquette_buffer),
            ) && l.args.contains(KernelArg::Write(edge_buffer)) && names_just(
                l.args,
                set![plaquette_buffer, edge_buffer],
            ),
            plaquette_buffer == Buffer::State && edge_buffer == Buffer::ScratchI32 ==> plan(r@)[0]
                == self.edge_plan()[1],
    {
        let (args, num_edges) = self.edge_sums(edge_buffer, plaquette_buffer);
        let ghost given = args@;
        assert(given[0] == KernelArg::Read(plaquette_buffer));
        assert(given[1] == KernelArg::Write(edge_buffer));
        let r = vec![DeviceOp::Run(Launch::new(Kernel::CalculateEdgeSums, args, num_edges))];
        assert(plan(r@) =~= seq![
            OpModel::Run(
                launch_model(
                    Kernel::CalculateEdgeSums,
                    seq![KernelArg::Read(plaquette_buffer), KernelArg::Write(edge_buffer)]
                        + self.site_args(),
                    ((all_sites(self.nreplicas, self.bounds) * 4) as usize) as u32,
                ),
            ),
        ]);
        r
    }

    /// The requests that measure the flux through every edge.
    pub fn fetch_edge_violations(&self) -> (r: Vec<DeviceOp>)
        requires
            self.wf(),
        ensures
            plan(r@) == self.edge_plan(),
    {
        let (args, num_edges) = self.edge_sums(Buffer::ScratchI32, Buffer::State);
        scratch_ops(Kernel::CalculateEdgeSums, args, num_edges, num_edges)
    }

    /// The flux through every edge by potential, site and direction.
    pub fn get_edge_violations(&self, output: Vec<i32>) -> (r: IntArray)
        requires
            self.wf(),
            output@.len() == all_sites(self.nreplicas, self.bounds) * 4,
            shape_valid(lattice_dims(self.nreplicas, self.bounds, 4)),
        ensures
            r.dims() == lattice_dims(self.nreplicas, self.bounds, 4),
            self.by_potential(output@, row_len(self.bounds, 4), r),
    {
        self.lattice_array(output, 4)
    }

    /// The requests that measure the flow of matter through every site.
    pub fn fetch_matter_flow_per_coordinate(&self) -> (r: Vec<DeviceOp>)
        requires
            self.wf(),
        ensures
            plan(r@) == self.flow_plan(),
    {
        let (t, x, y, z) = (self.bounds.t, self.bounds.x, self.bounds.y, self.bounds.z);
        proof {
            lemma_sizes(self.nreplicas, self.bounds);
        }
        let num_sites = self.nreplicas * t * x * y * z;
        let args = self.with_sites(
            vec![KernelArg::Read(Buffer::State), KernelArg::Write(Buffer::ScratchI32)],
        );
        scratch_ops(Kernel::CalculateMatterFlowThroughCoords, args, num_sites, num_sites)
    }

    /// The flow of matter through every site, by potential and site.
    pub fn get_matter_flow_per_coordinate(&self, output: Vec<i32>) -> (r: IntArray)
        requires
            self.wf(),
            output@.len() == all_sites(self.nreplicas, self.bounds),
            shape_valid(
                seq![self.nreplicas, self.bounds.t, self.bounds.x, self.bounds.y, self.bounds.z],
            ),
        ensures
            r.dims() == seq![
                self.nreplicas,
                self.bounds.t,
                self.bounds.x,
                self.bounds.y,
                self.bounds.z,
            ],
            self.by_potential(output@, row_len(self.bounds, 1), r),
    {
        let (t, x, y, z) = (self.bounds.t, self.bounds.x, self.bounds.y, self.bounds.z);
        let shape: [usize; 5] = [self.nreplicas, t, x, y, z];
        proof {
            lemma_sizes(self.nreplicas, self.bounds);
            lemma_lattice_product(self.nreplicas, self.bounds, 1);
            assert(shape@ =~= seq![self.nreplicas, t, x, y, z]);
        }
        self.array_by_potential(output, t * x * y * z, shape.as_slice())
    }

    /// The requests that measure the corners of matter loops at the plaquettes of a type.
    pub fn fetch_matter_corner_per_plaquette(&self, plaquette_type: u16) -> (r: Vec<DeviceOp>)
        requires
            self.wf(),
        ensures
            plan(r@) == self.corner_plan(plaquette_type),
    {
        let (t, x, y, z) = (self.bounds.t, self.bounds.x, self.bounds.y, self.bounds.z);
        proof {
            lemma_sizes(self.nreplicas, self.bounds);
        }
        let num_sites = self.nreplicas * t * x * y * z;
        let args = self.with_sites(
            vec![
                KernelArg::Read(Buffer::State),
                KernelArg::Write(Buffer::ScratchI32),
                KernelArg::Short(plaquette_type),
            ],
        );
        scratch_ops(
            Kernel::CalculateMatterCornersForPlaquettes,
            args,
            num_sites,
            num_sites * 4,
        )
    }

    /// The corners of matter loops by potential, site and corner.
    pub fn get_matter_corner_per_plaquette(&self, output: Vec<i32>) -> (r: IntArray)
        requires
            self.wf(),
            output@.len() == all_sites(self.nreplicas, self.bounds) * 4,
            shape_valid(lattice_dims(self.nreplicas, self.bounds, 4)),
        ensures
            r.dims() == lattice_dims(self.nreplicas, self.bounds, 4),
            self.by_potential(output@, row_len(self.bounds, 4), r),
    {
        self.lattice_array(output, 4)
    }

    /// The requests that measure the winding numbers.
    pub fn fetch_winding_per_replica(&self) -> (r: Vec<DeviceOp>)
        requires
            self.nreplicas * 6 <= usize::MAX,
        ensures
            plan(r@) == self.winding_plan(),
    {
        let threads_to_sum = self.nreplicas * 6;
        let args = self.with_sites(
            vec![KernelArg::Write(Buffer::State), KernelArg::Write(Buffer::ScratchI32)],
        );
        scratch_ops(Kernel::SumWinding, args, threads_to_sum, threads_to_sum)
    }

    /// The winding numbers by potential and plane.
    pub fn get_winding_per_replica(&self, output: Vec<i32>) -> (r: IntArray)
        requires
            self.wf(),
            output@.len() == self.nreplicas * 6,
            shape_valid(seq![self.nreplicas, 6usize]),
        ensures
            r.dims() == seq![self.nreplicas, 6usize],
            self.by_potential(output@, 6, r),
    {
        let shape: [usize; 2] = [self.nreplicas, 6];
        proof {
            lemma_lattice_product(self.nreplicas, self.bounds, 6);
            assert(shape@ =~= seq![self.nreplicas, 6usize]);
        }
        self.array_by_potential(output, 6, shape.as_slice())
    }
}

} // verus!
