//! The host side of the simulation.

use crate::arrays::ints;
use crate::device::{
    config_with_block, ends_in_sizes, law_launch_covers, plan, Buffer, DeviceOp, HostData,
    HostModel, KernelArg, LaunchConfig, OpModel,
};
use crate::dual_state::DualState;
use crate::error::{decimal_list, list_chars, CudaError};
use crate::lattice::SiteIndex;
use crate::random::choose_seed;
use crate::redirect::{
    completed, followed_by, identity, in_order, ints_of, is_permutation, permutes,
    RedirectArrays,
};
use crate::sizes::{
    all_sites, fits, half_sites, law_plaquettes_fit_suffices, lemma_planes, lemma_sizes, rng_len,
    sizes_fit, spanning_planes,
};
use crate::tempering::{
    count_of, decided, law_step_exchanges_accepted_pairs, lemma_full_permutation, logged,
    no_counts, ordered, pair_counts, propose_swaps, proposed, swaps_disjoint, swaps_within,
    undo_rejected, undoing, PairCounts, TemperingTracker,
};
use vstd::prelude::*;

verus! {

/// A measurement of Wilson loops that is under way.
#[derive(Clone, Copy, Debug, PartialEq, Eq, Structural)]
pub enum WilsonLoopData {
    /// Every replica holds a rectangular loop.
    AspectRatios {
        /// The plane of the loops.
        plaquette_type: u16,
        /// How often the transition probabilities were added up.
        times_run: usize,
    },
    /// Every replica holds a nearly square loop.
    IncrementOnSquares {
        /// The plane of the loops.
        plaquette_type: u16,
        /// How often the transition probabilities were added up.
        times_run: usize,
    },
}

/// The limits of the table in which pairs of plaquettes are counted.
#[derive(Clone, Copy, Debug, PartialEq, Eq, Structural)]
pub struct PlaquettePairData {
    /// The largest absolute value that is counted.
    pub max_abs_value: u32,
    /// The largest distance that is counted.
    pub max_distance: u32,
}

impl PlaquettePairData {
    /// The number of values that are counted.
    pub open spec fn values(self) -> int {
        2 * self.max_abs_value + 1
    }

    /// The number of counts for `n` replicas.
    pub open spec fn len(self, n: usize) -> int {
        n * self.max_distance * 6 * (self.values() * self.values())
    }

    /// The number of pairs of values fits in 32 bits, and the number of counts, with all
    /// numbers on the way to it, in a machine word.
    pub open spec fn fits(self, n: usize) -> bool {
        &&& self.values() * self.values() <= u32::MAX
        &&& n * self.max_distance * 6 <= usize::MAX
        &&& self.len(n) <= usize::MAX
    }
}

/// The host side of the simulation: what is known of the device's buffers, and the
/// decisions about what the device does next.
pub struct CudaBackend {
    /// The number of replicas.
    pub nreplicas: usize,
    /// The extent of the lattice.
    pub bounds: SiteIndex,
    /// The number of values of a plaquette potential.
    pub potential_size: usize,
    /// The number of values of an edge potential.
    pub edge_potential_size: usize,
    /// The plaquette potential of each state.
    pub potential_redirect_array: RedirectArrays,
    /// The edge potential of each state.
    pub edge_potential_redirect_array: RedirectArrays,
    /// The kinds of local updates.
    pub local_update_types: Vec<(u16, bool)>,
    /// The kinds of charge updates.
    pub charge_update_types: Vec<(u16, bool)>,
    /// The counts of exchanges, while they are tracked.
    pub parallel_tempering_debug: Option<TemperingTracker>,
    /// The measurement of Wilson loops, while there is one.
    pub wilson_loop_probs: Option<WilsonLoopData>,
    /// The counts of pairs of plaquettes, once there are any.
    pub plaquette_pair_accumulator: Option<PlaquettePairData>,
}

/// The number of replicas and the extents of the lattice come last among the arguments.
pub open spec fn told_of_lattice(args: Seq<KernelArg>, state: &CudaBackend) -> bool {
    let b = state.bounds;
    ends_in_sizes(args, seq![state.nreplicas, b.t, b.x, b.y, b.z])
}

/// Some direction has an odd extent.
pub open spec fn has_odd(b: SiteIndex) -> bool {
    b.t % 2 == 1 || b.x % 2 == 1 || b.y % 2 == 1 || b.z % 2 == 1
}

/// Both parities of the given types.
pub open spec fn both_parities(types: Seq<u16>) -> Seq<(u16, bool)> {
    Seq::new(2 * types.len(), |i: int| (types[i / 2], i % 2 == 1))
}

/// The local updates: both parities of every volume.
pub open spec fn local_types() -> Seq<(u16, bool)> {
    both_parities(seq![0u16, 1u16, 2u16, 3u16])
}

/// The charge updates: both parities of the planes `tx`, `ty` and `xy`.
pub open spec fn charge_types() -> Seq<(u16, bool)> {
    both_parities(seq![0u16, 1u16, 3u16])
}

/// The plaquettes of a state, if there is one.
pub open spec fn elems_of(state: Option<DualState>) -> Option<Seq<i32>> {
    match state {
        Some(s) => Some(s.plaquettes.elems()),
        None => None,
    }
}

/// The numbers below `n`, which is cut to 32 bits, in order.
pub open spec fn own_numbers(n: usize) -> Seq<u32> {
    Seq::new((n as u32) as nat, |i: int| i as u32)
}

/// The requests that set up the device's memory.
pub open spec fn setup_plan(
    n: usize,
    b: SiteIndex,
    vn_len: usize,
    edge_vn_len: usize,
    state: Option<Seq<i32>>,
    has_chemical_potential: bool,
    seed: u64,
) -> Seq<OpModel> {
    let consumers = rng_len(n, b) as usize;
    seq![OpModel::AllocZeros { buffer: Buffer::State, len: (all_sites(n, b) * 6) as usize }] + (
    match state {
        Some(s) => seq![OpModel::Upload { buffer: Buffer::State, data: HostModel::I32(s) }],
        None => seq![],
    }) + seq![
        OpModel::AllocZeros { buffer: Buffer::Potential, len: vn_len },
        OpModel::Upload { buffer: Buffer::Potential, data: HostModel::FromCaller },
        OpModel::AllocZeros { buffer: Buffer::EdgePotential, len: edge_vn_len },
        OpModel::Upload { buffer: Buffer::EdgePotential, data: HostModel::FromCaller },
        OpModel::AllocZeros { buffer: Buffer::WindingChemicalPotential, len: n },
    ] + (if has_chemical_potential {
        seq![
            OpModel::Upload {
                buffer: Buffer::WindingChemicalPotential,
                data: HostModel::FromCaller,
            },
        ]
    } else {
        seq![]
    }) + seq![
        OpModel::AllocZeros { buffer: Buffer::PotentialRedirect, len: (n as u32) as usize },
        OpModel::Upload {
            buffer: Buffer::PotentialRedirect,
            data: HostModel::U32(own_numbers(n)),
        },
        OpModel::AllocZeros { buffer: Buffer::EdgePotentialRedirect, len: (n as u32) as usize },
        OpModel::Upload {
            buffer: Buffer::EdgePotentialRedirect,
            data: HostModel::U32(own_numbers(n)),
        },
        OpModel::AllocZeros { buffer: Buffer::Rng, len: consumers },
        OpModel::Upload { buffer: Buffer::Rng, data: HostModel::Zeros(consumers) },
        OpModel::SeedRng { seed },
    ]
}

/// A request of a setup: zeros for a buffer of the right length, or what belongs into a buffer.
pub open spec fn sets_up(
    op: OpModel,
    n: usize,
    b: SiteIndex,
    vn_len: usize,
    edge_vn_len: usize,
    state: Option<Seq<i32>>,
    has_chemical_potential: bool,
    seed: u64,
) -> bool {
    let sites = n * b.t * b.x * b.y * b.z;
    let planes = n * (b.t * b.x + b.t * b.y + b.t * b.z + b.x * b.y + b.x * b.z + b.y * b.z);
    match op {
        OpModel::AllocZeros { buffer, len } => match buffer {
            Buffer::State => len == 6 * sites,
            Buffer::Potential => len == vn_len,
            Buffer::EdgePotential => len == edge_vn_len,
            Buffer::WindingChemicalPotential => len == n,
            Buffer::PotentialRedirect => len == n,
            Buffer::EdgePotentialRedirect => len == n,
            Buffer::Rng => {
                &&& 2 * len >= sites
                &&& len >= planes
                &&& 2 * len == sites || len == planes
            },
            _ => false,
        },
        OpModel::Upload { buffer, data } => match buffer {
            Buffer::State => state matches Some(s) && data == HostModel::I32(s),
            Buffer::Potential => data is FromCaller,
            Buffer::EdgePotential => data is FromCaller,
            Buffer::WindingChemicalPotential => has_chemical_potential && data is FromCaller,
            Buffer::PotentialRedirect => data matches HostModel::U32(v) && v.len() == n && (forall|
                i: int,
            |
                0 <= i < n ==> #[trigger] v[i] == i),
            Buffer::EdgePotentialRedirect => data matches HostModel::U32(v) && v.len() == n && (
            forall|i: int| 0 <= i < n ==> #[trigger] v[i] == i),
            Buffer::Rng => data is Zeros,
            _ => false,
        },
        OpModel::SeedRng { seed: given } => given == seed,
        _ => false,
    }
}

/// The requests make the buffer, and put something into it if they are to.
pub open spec fn fills(ops: Seq<OpModel>, buffer: Buffer, upload: bool) -> bool {
    &&& exists|i: int|
        0 <= i < ops.len() && (#[trigger] ops[i] matches OpModel::AllocZeros { buffer: made, .. }
            && made == buffer)
    &&& upload <==> exists|i: int|
        0 <= i < ops.len() && (#[trigger] ops[i] matches OpModel::Upload { buffer: filled, .. }
            && filled == buffer)
}

/// A setup gives every buffer its length and its contents. There are six plaquettes for every
/// site, random numbers for half of the sites or for all planes that span the lattice,
/// whichever are more, every state starts with its own potential, and the generator is seeded
/// with the given seed. A buffer is filled right after it is made.
pub proof fn law_setup_fills_the_buffers(
    n: usize,
    b: SiteIndex,
    vn_len: usize,
    edge_vn_len: usize,
    state: Option<Seq<i32>>,
    has_chemical_potential: bool,
    seed: u64,
)
    requires
        0 < n <= u32::MAX,
        sizes_fit(n, b),
        !has_odd(b),
    ensures
        ({
            let ops = setup_plan(n, b, vn_len, edge_vn_len, state, has_chemical_potential, seed);
            &&& forall|i: int|
                0 <= i < ops.len() ==> sets_up(
                    #[trigger] ops[i],
                    n,
                    b,
                    vn_len,
                    edge_vn_len,
                    state,
                    has_chemical_potential,
                    seed,
                )
            &&& forall|i: int|
                0 <= i < ops.len() && (#[trigger] ops[i] matches OpModel::Upload { .. }) ==> {
                    &&& i > 0
                    &&& ops[i - 1] matches OpModel::AllocZeros { buffer, .. } && buffer
                        == ops[i]->Upload_buffer
                }
            &&& forall|i: int|
                0 <= i < ops.len() && (#[trigger] ops[i] matches OpModel::Upload {
                    data: HostModel::Zeros(zeros),
                    ..
                }) ==> (ops[i - 1] matches OpModel::AllocZeros { len, .. } && ops[i]->Upload_data
                    == HostModel::Zeros(len))
            &&& fills(ops, Buffer::State, state is Some)
            &&& fills(ops, Buffer::Potential, true)
            &&& fills(ops, Buffer::EdgePotential, true)
            &&& fills(ops, Buffer::WindingChemicalPotential, has_chemical_potential)
            &&& fills(ops, Buffer::PotentialRedirect, true)
            &&& fills(ops, Buffer::EdgePotentialRedirect, true)
            &&& fills(ops, Buffer::Rng, true)
            &&& ops.last() == (OpModel::SeedRng { seed })
        }),
{
    let ops = setup_plan(n, b, vn_len, edge_vn_len, state, has_chemical_potential, seed);
    lemma_sizes(n, b);
    let m = n as int;
    let (t, x, y, z) = (b.t as int, b.x as int, b.y as int, b.z as int);
    let k = t / 2;
    let w = k * x * y * z;
    assert(t * x * y * z == 2 * w) by (nonlinear_arith)
        requires
            t == 2 * k,
            w == k * x * y * z,
    ;
    assert(m * (2 * w) == 2 * (m * w)) by (nonlinear_arith);
    assert(t * (x + y + z) + x * (y + z) + y * z == t * x + t * y + t * z + x * y + x * z + y * z)
        by (nonlinear_arith);
    let a = if state is Some {
        1int
    } else {
        0int
    };
    let c = if has_chemical_potential {
        1int
    } else {
        0int
    };
    assert(ops[0] is AllocZeros);
    assert(state is Some ==> ops[1] is Upload);
    assert(ops[1 + a] is AllocZeros && ops[2 + a] is Upload);
    assert(ops[3 + a] is AllocZeros && ops[4 + a] is Upload);
    assert(ops[5 + a] is AllocZeros);
    assert(has_chemical_potential ==> ops[6 + a] is Upload);
    assert(ops[6 + a + c] is AllocZeros && ops[7 + a + c] is Upload);
    assert(ops[8 + a + c] is AllocZeros && ops[9 + a + c] is Upload);
    assert(ops[10 + a + c] is AllocZeros && ops[11 + a + c] is Upload);
}

/// What setting up a backend comes to: an error when some extent is odd or there are no
/// replicas, and otherwise a fresh backend with the requests that set up the device.
pub open spec fn set_up(
    r: Result<(CudaBackend, Vec<DeviceOp>), CudaError>,
    bounds: SiteIndex,
    vn_shape: (usize, usize),
    edge_vn_shape: (usize, usize),
    state: Option<Seq<i32>>,
    has_chemical_potential: bool,
    seed: u64,
) -> bool {
    match r {
        Err(e) => {
            ||| has_odd(bounds) && e.is_value(
                "Expected all dims to be even, found: "@ + list_chars(
                    seq![bounds.t, bounds.x, bounds.y, bounds.z],
                ),
            )
            ||| !has_odd(bounds) && vn_shape.0 == 0 && e.is_value(
                "Replica number must be larger than 0"@,
            )
        },
        Ok((backend, ops)) => {
            &&& !has_odd(bounds)
            &&& vn_shape.0 > 0
            &&& backend.fresh(vn_shape.0, bounds, vn_shape.1, edge_vn_shape.1)
            &&& plan(ops@) == setup_plan(
                vn_shape.0,
                bounds,
                (vn_shape.0 * vn_shape.1) as usize,
                (edge_vn_shape.0 * edge_vn_shape.1) as usize,
                state,
                has_chemical_potential,
                seed,
            )
        },
    }
}

/// The counts after the first `k` swaps were logged.
pub open spec fn log_all(
    m: Map<(usize, usize), (usize, usize)>,
    swaps: Seq<(usize, usize)>,
    accepted: Seq<bool>,
    k: int,
) -> Map<(usize, usize), (usize, usize)>
    decreases k,
{
    if k <= 0 {
        m
    } else {
        logged(
            log_all(m, swaps, accepted, k - 1),
            swaps[k - 1].0,
            swaps[k - 1].1,
            accepted[k - 1],
        )
    }
}

/// How many of the first `k` swaps exchange `a` and `b`, named in either order, and were
/// accepted if only those are asked for.
pub open spec fn exchanges_of(
    swaps: Seq<(usize, usize)>,
    accepted: Seq<bool>,
    k: int,
    a: usize,
    b: usize,
    accepted_only: bool,
) -> int
    decreases k,
{
    if k <= 0 {
        0
    } else {
        let (first, second) = swaps[k - 1];
        let of_pair = (first == a && second == b) || (first == b && second == a);
        exchanges_of(swaps, accepted, k - 1, a, b, accepted_only) + (if of_pair && (accepted_only
            ==> accepted[k - 1]) {
            1int
        } else {
            0int
        })
    }
}

/// Logging a list of swaps adds to the successes of a pair the number of its accepted swaps
/// in the list, and to its attempts the number of all its swaps, in whichever order they name
/// the pair. A pair gets an entry, under its smaller number first, when it is swapped.
pub proof fn law_logging_adds_the_swaps_of_a_pair(
    m: Map<(usize, usize), (usize, usize)>,
    swaps: Seq<(usize, usize)>,
    accepted: Seq<bool>,
    k: int,
    a: usize,
    b: usize,
)
    requires
        0 <= k <= swaps.len(),
        k <= accepted.len(),
        a <= b,
        m.dom().contains((a, b)) ==> m[(a, b)].0 + k <= usize::MAX && m[(a, b)].1 + k
            <= usize::MAX,
        k <= usize::MAX,
    ensures
        ({
            let after = log_all(m, swaps, accepted, k);
            let successes = exchanges_of(swaps, accepted, k, a, b, true);
            let attempts = exchanges_of(swaps, accepted, k, a, b, false);
            &&& 0 <= successes <= attempts <= k
            &&& after.dom().contains((a, b)) <==> m.dom().contains((a, b)) || attempts > 0
            &&& m.dom().contains((a, b)) ==> after[(a, b)].0 == m[(a, b)].0 + successes && after[(
                a,
                b,
            )].1 == m[(a, b)].1 + attempts
            &&& !m.dom().contains((a, b)) && attempts > 0 ==> after[(a, b)].0 == successes
                && after[(a, b)].1 == attempts
            &&& a < b ==> (after.dom().contains((b, a)) <==> m.dom().contains((b, a)))
        }),
    decreases k,
{
    if k > 0 {
        law_logging_adds_the_swaps_of_a_pair(m, swaps, accepted, k - 1, a, b);
    }
}

/// After any list of decided swaps on counts without entries, the successes of a pair are the
/// number of its accepted swaps, and its attempts the number of all its swaps, both counted
/// over the list in either order of the pair; a pair that was not swapped has no entry, nor
/// has one under its larger number first.
pub proof fn law_counts_are_those_of_the_list(
    swaps: Seq<(usize, usize)>,
    accepted: Seq<bool>,
    a: usize,
    b: usize,
)
    requires
        swaps.len() <= usize::MAX,
        a <= b,
    ensures
        ({
            let k = if swaps.len() <= accepted.len() {
                swaps.len() as int
            } else {
                accepted.len() as int
            };
            let counts = log_all(Map::empty(), swaps, accepted, decided(swaps, accepted));
            let successes = exchanges_of(swaps, accepted, k, a, b, true);
            let attempts = exchanges_of(swaps, accepted, k, a, b, false);
            &&& counts.dom().contains((a, b)) <==> attempts > 0
            &&& attempts > 0 ==> counts[(a, b)].0 == successes && counts[(a, b)].1 == attempts
            &&& a < b ==> !counts.dom().contains((b, a))
        }),
{
    law_logging_adds_the_swaps_of_a_pair(
        Map::empty(),
        swaps,
        accepted,
        decided(swaps, accepted),
        a,
        b,
    );
}

/// A backend can be set up if and only if all extents are even and there are replicas, and
/// then it is what was asked for: it has the replicas and the number of values of the
/// potentials that their shapes say, every state has its own potential, and nothing is
/// measured or tracked yet.
pub proof fn law_backends_are_as_asked_for(
    r: Result<(CudaBackend, Vec<DeviceOp>), CudaError>,
    b: SiteIndex,
    vn_shape: (usize, usize),
    edge_vn_shape: (usize, usize),
    state: Option<Seq<i32>>,
    has_chemical_potential: bool,
    seed: u64,
    i: int,
)
    requires
        set_up(r, b, vn_shape, edge_vn_shape, state, has_chemical_potential, seed),
    ensures
        r is Ok <==> b.t % 2 == 0 && b.x % 2 == 0 && b.y % 2 == 0 && b.z % 2 == 0 && vn_shape.0 > 0,
        r matches Ok((backend, ops)) ==> {
            &&& backend.nreplicas == vn_shape.0
            &&& backend.bounds == b
            &&& backend.potential_size == vn_shape.1
            &&& backend.edge_potential_size == edge_vn_shape.1
            &&& backend.parallel_tempering_debug is None
            &&& backend.wilson_loop_probs is None
            &&& backend.plaquette_pair_accumulator is None
            &&& 0 <= i < vn_shape.0 ==> backend.map()[i] == i
        },
{
}

/// The requests of a setup make the potentials as long as their shapes say.
pub proof fn law_potentials_are_as_long_as_their_shapes(
    r: Result<(CudaBackend, Vec<DeviceOp>), CudaError>,
    b: SiteIndex,
    vn_shape: (usize, usize),
    edge_vn_shape: (usize, usize),
    state: Option<Seq<i32>>,
    has_chemical_potential: bool,
    seed: u64,
)
    requires
        set_up(r, b, vn_shape, edge_vn_shape, state, has_chemical_potential, seed),
    ensures
        r matches Ok((backend, ops)) ==> {
            &&& plan(ops@).contains(
                OpModel::AllocZeros {
                    buffer: Buffer::Potential,
                    len: (vn_shape.0 * vn_shape.1) as usize,
                },
            )
            &&& plan(ops@).contains(
                OpModel::AllocZeros {
                    buffer: Buffer::EdgePotential,
                    len: (edge_vn_shape.0 * edge_vn_shape.1) as usize,
                },
            )
        },
{
    if let Ok((backend, ops)) = r {
        let a = if state is Some {
            1int
        } else {
            0int
        };
        assert(plan(ops@)[1 + a] == OpModel::AllocZeros {
            buffer: Buffer::Potential,
            len: (vn_shape.0 * vn_shape.1) as usize,
        });
        assert(plan(ops@)[3 + a] == OpModel::AllocZeros {
            buffer: Buffer::EdgePotential,
            len: (edge_vn_shape.0 * edge_vn_shape.1) as usize,
        });
    }
}

/// A backend whose plaquettes can be numbered can be set up, without a state and with one that
/// has a number for each of them.
pub proof fn law_numbered_plaquettes_can_be_set_up(n: usize, b: SiteIndex, state: DualState)
    requires
        b.t > 0,
        b.x > 0,
        b.y > 0,
        b.z > 0,
        n * b.t * b.x * b.y * b.z * 6 <= usize::MAX,
        state.plaquettes.elems().len() == n * b.t * b.x * b.y * b.z * 6,
    ensures
        CudaBackend::setup_fits(n, b, None),
        CudaBackend::setup_fits(n, b, Some(state)),
{
    if n > 0 {
        law_plaquettes_fit_suffices(n, b);
    }
}

/// Whether some direction has an odd extent.
fn odd_extent(b: &SiteIndex) -> (r: bool)
    ensures
        r == has_odd(*b),
{
    b.t % 2 == 1 || b.x % 2 == 1 || b.y % 2 == 1 || b.z % 2 == 1
}

/// Both parities of the given types.
fn parities_of(types: &[u16]) -> (r: Vec<(u16, bool)>)
    requires
        2 * types@.len() <= usize::MAX,
    ensures
        r@ == both_parities(types@),
{
    let mut r: Vec<(u16, bool)> = Vec::new();
    let mut i: usize = 0;
    while i < types.len()
        invariant
            i <= types@.len(),
            2 * types@.len() <= usize::MAX,
            r@ == both_parities(types@).take(2 * i),
        decreases types@.len() - i,
    {
        r.push((types[i], false));
        r.push((types[i], true));
        assert(r@ =~= both_parities(types@).take(2 * (i + 1)));
        i += 1;
    }
    assert(both_parities(types@).take(2 * i) =~= both_parities(types@));
    r
}

impl CudaBackend {
    /// The sizes fit, the extents are even, the redirections are permutations, and the
    /// updates are all there.
    pub open spec fn wf(&self) -> bool {
        &&& self.nreplicas > 0
        &&& sizes_fit(self.nreplicas, self.bounds)
        &&& !has_odd(self.bounds)
        &&& self.potential_redirect_array.wf(self.nreplicas as nat)
        &&& self.edge_potential_redirect_array is Identity
        &&& self.local_update_types@.to_multiset() == local_types().to_multiset()
        &&& self.charge_update_types@.to_multiset() == charge_types().to_multiset()
        &&& self.parallel_tempering_debug matches Some(tracker) ==> tracker.wf()
        &&& self.plaquette_pair_accumulator matches Some(pairs) ==> pairs.fits(self.nreplicas)
    }

    /// The number of replicas and the extent of the lattice, as kernels take them.
    pub open spec fn site_args(&self) -> Seq<KernelArg> {
        seq![
            KernelArg::Size(self.nreplicas),
            KernelArg::Size(self.bounds.t),
            KernelArg::Size(self.bounds.x),
            KernelArg::Size(self.bounds.y),
            KernelArg::Size(self.bounds.z),
        ]
    }

    /// Puts the number of replicas and the extent of the lattice behind other arguments.
    pub fn with_sites(&self, head: Vec<KernelArg>) -> (r: Vec<KernelArg>)
        ensures
            r@ == head@ + self.site_args(),
    {
        let mut r = head;
        r.push(KernelArg::Size(self.nreplicas));
        r.push(KernelArg::Size(self.bounds.t));
        r.push(KernelArg::Size(self.bounds.x));
        r.push(KernelArg::Size(self.bounds.y));
        r.push(KernelArg::Size(self.bounds.z));
        assert(r@ =~= head@ + self.site_args());
        r
    }

    /// The potential of each state.
    pub open spec fn map(&self) -> Seq<int> {
        self.potential_redirect_array.map(self.nreplicas as nat)
    }

    /// Nothing but the redirection differs from `before`.
    pub open spec fn same_but_redirect(&self, before: CudaBackend) -> bool {
        *self == (CudaBackend {
            potential_redirect_array: self.potential_redirect_array,
            ..before
        })
    }

    /// A backend just set up.
    pub open spec fn fresh(
        &self,
        n: usize,
        b: SiteIndex,
        potential_size: usize,
        edge_potential_size: usize,
    ) -> bool {
        &&& self.wf()
        &&& self.nreplicas == n
        &&& self.bounds == b
        &&& self.potential_size == potential_size
        &&& self.edge_potential_size == edge_potential_size
        &&& self.potential_redirect_array is Identity
        &&& self.local_update_types@ == local_types()
        &&& self.charge_update_types@ == charge_types()
        &&& self.parallel_tempering_debug is None
        &&& self.wilson_loop_probs is None
        &&& self.plaquette_pair_accumulator is None
    }

    /// The sizes of a backend that can be set up fit, and its state has no more plaquettes
    /// than the lattice.
    pub open spec fn setup_fits(n: usize, bounds: SiteIndex, state: Option<DualState>) -> bool {
        !has_odd(bounds) && n > 0 ==> sizes_fit(n, bounds) && (state matches Some(s)
            ==> s.plaquettes.elems().len() <= all_sites(n, bounds) * 6)
    }

    /// Whether a backend with `n` replicas and this state is not too large.
    pub fn can_set_up(n: usize, bounds: SiteIndex, state: &Option<DualState>) -> (r: bool)
        ensures
            r == Self::setup_fits(n, bounds, *state),
    {
        if odd_extent(&bounds) || n == 0 {
            return true;
        }
        if !fits(n, &bounds) {
            return false;
        }
        proof {
            lemma_sizes(n, bounds);
        }
        match state {
            Some(s) => s.plaquettes.as_slice().len() <= n * bounds.t * bounds.x * bounds.y
                * bounds.z * 6,
            None => true,
        }
    }

    /// A backend for a lattice with the extent `bounds`, and the requests that set up the
    /// device. The shapes of the potentials are their numbers of replicas and values.
    pub fn with_seed(
        bounds: SiteIndex,
        vn_shape: (usize, usize),
        edge_vn_shape: (usize, usize),
        dual_initial_state: Option<DualState>,
        has_chemical_potential: bool,
        seed: u64,
    ) -> (r: Result<(Self, Vec<DeviceOp>), CudaError>)
        requires
            vn_shape.0 * vn_shape.1 <= usize::MAX,
            edge_vn_shape.0 * edge_vn_shape.1 <= usize::MAX,
            Self::setup_fits(vn_shape.0, bounds, dual_initial_state),
        ensures
            set_up(
                r,
                bounds,
                vn_shape,
                edge_vn_shape,
                elems_of(dual_initial_state),
                has_chemical_potential,
                seed,
            ),
    {
        let (t, x, y, z) = (bounds.t, bounds.x, bounds.y, bounds.z);
        if odd_extent(&bounds) {
            let mut msg = String::from_str("Expected all dims to be even, found: ");
            let extents: [usize; 4] = [t, x, y, z];
            let list = decimal_list(extents.as_slice());
            assert(extents@ =~= seq![bounds.t, bounds.x, bounds.y, bounds.z]);
            msg.append(list.as_str());
            return CudaError::value_error(msg);
        }
        let nreplicas = vn_shape.0;
        if nreplicas == 0 {
            return CudaError::value_error(
                String::from_str("Replica number must be larger than 0"),
            );
        }
        proof {
            lemma_sizes(nreplicas, bounds);
        }
        let num_plaquettes = nreplicas * t * x * y * z * 6;
        let mut ops: Vec<DeviceOp> = Vec::new();
        ops.push(DeviceOp::AllocZeros { buffer: Buffer::State, len: num_plaquettes });
        let ghost given = elems_of(dual_initial_state);
        if let Some(state) = dual_initial_state {
            let mut data: Vec<i32> = Vec::new();
            data.extend_from_slice(state.plaquettes.as_slice());
            assert(data@ =~= state.plaquettes.elems());
            ops.push(DeviceOp::Upload { buffer: Buffer::State, data: HostData::I32(data) });
        }
        ops.push(
            DeviceOp::AllocZeros { buffer: Buffer::Potential, len: vn_shape.0 * vn_shape.1 },
        );
        ops.push(DeviceOp::Upload { buffer: Buffer::Potential, data: HostData::FromCaller });
        ops.push(
            DeviceOp::AllocZeros {
                buffer: Buffer::EdgePotential,
                len: edge_vn_shape.0 * edge_vn_shape.1,
            },
        );
        ops.push(DeviceOp::Upload { buffer: Buffer::EdgePotential, data: HostData::FromCaller });
        ops.push(
            DeviceOp::AllocZeros { buffer: Buffer::WindingChemicalPotential, len: nreplicas },
        );
        if has_chemical_potential {
            ops.push(
                DeviceOp::Upload {
                    buffer: Buffer::WindingChemicalPotential,
                    data: HostData::FromCaller,
                },
            );
        }
        let vn_redirect = in_order(nreplicas as u32);
        assert(vn_redirect@ =~= own_numbers(nreplicas));
        ops.push(
            DeviceOp::AllocZeros { buffer: Buffer::PotentialRedirect, len: vn_redirect.len() },
        );
        ops.push(
            DeviceOp::Upload {
                buffer: Buffer::PotentialRedirect,
                data: HostData::U32(vn_redirect),
            },
        );
        let edge_vn_redirect = in_order(nreplicas as u32);
        assert(edge_vn_redirect@ =~= own_numbers(nreplicas));
        ops.push(
            DeviceOp::AllocZeros {
                buffer: Buffer::EdgePotentialRedirect,
                len: edge_vn_redirect.len(),
            },
        );
        ops.push(
            DeviceOp::Upload {
                buffer: Buffer::EdgePotentialRedirect,
                data: HostData::U32(edge_vn_redirect),
            },
        );
        let local_updates = Self::calculate_simultaneous_local_updates(nreplicas, &bounds);
        let num_spanning_planes = Self::calculate_global_updates_planes(nreplicas, &bounds);
        let num_rng_consumers = if local_updates >= num_spanning_planes {
            local_updates
        } else {
            num_spanning_planes
        };
        ops.push(DeviceOp::AllocZeros { buffer: Buffer::Rng, len: num_rng_consumers });
        ops.push(
            DeviceOp::Upload { buffer: Buffer::Rng, data: HostData::Zeros(num_rng_consumers) },
        );
        ops.push(DeviceOp::SeedRng { seed });
        assert(plan(ops@) =~= setup_plan(
            nreplicas,
            bounds,
            (vn_shape.0 * vn_shape.1) as usize,
            (edge_vn_shape.0 * edge_vn_shape.1) as usize,
            given,
            has_chemical_potential,
            seed,
        ));

        let volume_types: [u16; 4] = [0, 1, 2, 3];
        let plane_types: [u16; 3] = [0, 1, 3];
        let local_update_types = parities_of(volume_types.as_slice());
        let charge_update_types = parities_of(plane_types.as_slice());
        assert(volume_types@ =~= seq![0u16, 1u16, 2u16, 3u16]);
        assert(plane_types@ =~= seq![0u16, 1u16, 3u16]);
        let backend = CudaBackend {
            nreplicas,
            bounds,
            potential_size: vn_shape.1,
            edge_potential_size: edge_vn_shape.1,
            potential_redirect_array: RedirectArrays::Identity,
            edge_potential_redirect_array: RedirectArrays::Identity,
            local_update_types,
            charge_update_types,
            parallel_tempering_debug: None,
            wilson_loop_probs: None,
            plaquette_pair_accumulator: None,
        };
        Ok((backend, ops))
    }

    /// The number of local updates that run at once.
    pub fn simultaneous_local_updates(&self) -> (r: usize)
        requires
            self.wf(),
        ensures
            r == self.nreplicas * half_sites(self.bounds),
    {
        Self::calculate_simultaneous_local_updates(self.nreplicas, &self.bounds)
    }

    /// The number of local updates of `nreplicas` replicas that run at once.
    pub fn calculate_simultaneous_local_updates(nreplicas: usize, bounds: &SiteIndex) -> (r: usize)
        requires
            nreplicas > 0,
            sizes_fit(nreplicas, *bounds),
        ensures
            r == nreplicas * half_sites(*bounds),
    {
        proof {
            lemma_sizes(nreplicas, *bounds);
        }
        nreplicas * Self::calculate_simultaneous_local_updates_per_replica(bounds)
    }

    /// The number of local updates of one replica that run at once.
    pub fn calculate_simultaneous_local_updates_per_replica(bounds: &SiteIndex) -> (r: usize)
        requires
            bounds.t * bounds.x <= usize::MAX,
            bounds.t * bounds.x * bounds.y <= usize::MAX,
            bounds.t * bounds.x * bounds.y * bounds.z <= usize::MAX,
        ensures
            r == half_sites(*bounds),
            2 * r <= bounds.t * bounds.x * bounds.y * bounds.z <= 2 * r + 1,
    {
        bounds.t * bounds.x * bounds.y * bounds.z / 2
    }

    /// The number of planes that global updates run on at once.
    pub fn global_updates_planes(&self) -> (r: usize)
        requires
            self.wf(),
        ensures
            r == self.nreplicas * spanning_planes(self.bounds),
    {
        Self::calculate_global_updates_planes(self.nreplicas, &self.bounds)
    }

    /// The number of planes of `nreplicas` replicas that global updates run on at once.
    pub fn calculate_global_updates_planes(nreplicas: usize, bounds: &SiteIndex) -> (r: usize)
        requires
            nreplicas > 0,
            sizes_fit(nreplicas, *bounds),
        ensures
            r == nreplicas * spanning_planes(*bounds),
    {
        proof {
            lemma_sizes(nreplicas, *bounds);
        }
        nreplicas * Self::calculate_global_updates_planes_per_replica(bounds)
    }

    /// The number of planes that span one replica.
    pub fn calculate_global_updates_planes_per_replica(bounds: &SiteIndex) -> (r: usize)
        requires
            bounds.x + bounds.y + bounds.z <= usize::MAX,
            spanning_planes(*bounds) <= usize::MAX,
        ensures
            r == spanning_planes(*bounds),
            r == bounds.t * bounds.x + bounds.t * bounds.y + bounds.t * bounds.z + bounds.x
                * bounds.y + bounds.x * bounds.z + bounds.y * bounds.z,
    {
        proof {
            lemma_planes(*bounds);
            let (t, x, y, z) = (
                bounds.t as int,
                bounds.x as int,
                bounds.y as int,
                bounds.z as int,
            );
            assert(t * (x + y + z) + x * (y + z) + y * z == t * x + t * y + t * z + x * y + x * z
                + y * z) by (nonlinear_arith);
        }
        bounds.t * (bounds.x + bounds.y + bounds.z) + bounds.x * (bounds.y + bounds.z) + bounds.y
            * bounds.z
    }

    /// A backend for a lattice with the extent `bounds`, and the requests that set up the
    /// device. Without a seed the device's random generator gets a random one.
    pub fn new(
        bounds: SiteIndex,
        vn_shape: (usize, usize),
        edge_vn_shape: (usize, usize),
        dual_initial_state: Option<DualState>,
        seed: Option<u64>,
        has_chemical_potential: bool,
    ) -> (r: Result<(Self, Vec<DeviceOp>), CudaError>)
        requires
            vn_shape.0 * vn_shape.1 <= usize::MAX,
            edge_vn_shape.0 * edge_vn_shape.1 <= usize::MAX,
            Self::setup_fits(vn_shape.0, bounds, dual_initial_state),
        ensures
            exists|s: u64|
                (seed matches Some(given) ==> s == given) && #[trigger] set_up(
                    r,
                    bounds,
                    vn_shape,
                    edge_vn_shape,
                    elems_of(dual_initial_state),
                    has_chemical_potential,
                    s,
                ),
    {
        let seed = choose_seed(seed);
        Self::with_seed(
            bounds,
            vn_shape,
            edge_vn_shape,
            dual_initial_state,
            has_chemical_potential,
            seed,
        )
    }

    /// The threads of a launch over `n` elements, in blocks of the given size if there is
    /// one.
    pub fn get_launch_config(n: u32, block_size: Option<u32>) -> (r: LaunchConfig)
        requires
            block_size matches Some(x) ==> x > 0 && n + x - 1 <= u32::MAX,
        ensures
            r == config_with_block(
                n,
                match block_size {
                    Some(x) => x,
                    None => 1024,
                },
            ),
            n <= r.grid_dim.0 * r.grid_dim.1 * r.grid_dim.2 * r.block_dim.0 < n + r.block_dim.0,
            r.block_dim == (
                match block_size {
                    Some(x) => x,
                    None => 1024u32,
                },
                1u32,
                1u32,
            ),
    {
        proof {
            law_launch_covers(
                n,
                match block_size {
                    Some(x) => x,
                    None => 1024,
                },
            );
        }
        LaunchConfig::with_block_size(n, block_size)
    }

    /// The requests that replace the plaquette potentials.
    pub fn set_vns(&self) -> (r: Vec<DeviceOp>)
        ensures
            plan(r@) == seq![
                OpModel::Upload { buffer: Buffer::Potential, data: HostModel::FromCaller },
            ],
    {
        let r = vec![DeviceOp::Upload { buffer: Buffer::Potential, data: HostData::FromCaller }];
        assert(plan(r@) =~= seq![
            OpModel::Upload { buffer: Buffer::Potential, data: HostModel::FromCaller },
        ]);
        r
    }

    /// The requests that wait for the device.
    pub fn wait_for_gpu(&self) -> (r: Vec<DeviceOp>)
        ensures
            plan(r@) == seq![OpModel::Synchronize],
    {
        let r = vec![DeviceOp::Synchronize];
        assert(plan(r@) =~= seq![OpModel::Synchronize]);
        r
    }

    /// Starts tracking exchanges anew, or stops it.
    pub fn set_parallel_tracking(&mut self, on: bool)
        requires
            old(self).wf(),
        ensures
            final(self).wf(),
            final(self).same_but_tracking(*old(self)),
            match final(self).parallel_tempering_debug {
                Some(tracker) => on && tracker@ == no_counts(),
                None => !on,
            },
    {
        if on {
            self.parallel_tempering_debug = Some(TemperingTracker::default());
        } else {
            self.parallel_tempering_debug = None;
        }
    }

    /// Nothing but the tracking of exchanges differs from `before`.
    pub open spec fn same_but_tracking(&self, before: CudaBackend) -> bool {
        *self == (CudaBackend {
            parallel_tempering_debug: self.parallel_tempering_debug,
            ..before
        })
    }

    /// Successes and attempts of exchanges by pair, while they are tracked.
    pub fn get_parallel_tracking(&self) -> (r: Option<&PairCounts>)
        ensures
            match self.parallel_tempering_debug {
                Some(tracker) => r matches Some(m) && pair_counts(*m) == tracker@,
                None => r is None,
            },
    {
        match &self.parallel_tempering_debug {
            Some(tracker) => Some(tracker.get_map()),
            None => None,
        }
    }

    /// The redirection after the replicas are permuted, and the requests that tell the
    /// device. [`CudaBackend::states_permuted`] completes the permutation.
    pub fn permute_states(&mut self, permutation: &[usize]) -> (r: (Vec<u32>, Vec<DeviceOp>))
        requires
            old(self).wf(),
            old(self).nreplicas <= u32::MAX,
            permutes(permutation@, old(self).nreplicas as nat),
        ensures
            final(self).wf(),
            final(self).map() == old(self).map(),
            final(self).same_but_redirect(*old(self)),
            r.0@.len() == old(self).nreplicas,
            is_permutation(ints_of(r.0@)),
            ints_of(r.0@) == followed_by(
                old(self).map(),
                completed(permutation@, old(self).nreplicas as nat),
            ),
            forall|s: int|
                0 <= s < old(self).nreplicas && old(self).map()[s] < permutation@.len()
                    ==> #[trigger] r.0@[s] == permutation@[old(self).map()[s]],
            plan(r.1@) == seq![
                OpModel::Upload {
                    buffer: Buffer::PotentialRedirect,
                    data: HostModel::U32(r.0@),
                },
            ],
    {
        let new_redirect = self.potential_redirect_array.permuted(self.nreplicas, permutation);
        proof {
            let map = old(self).map();
            assert forall|s: int| 0 <= s < self.nreplicas && map[s] < permutation@.len() implies
                #[trigger] new_redirect@[s] == permutation@[map[s]] by {
                assert(ints_of(new_redirect@)[s] == new_redirect@[s]);
                assert(is_permutation(map) && 0 <= map[s] < map.len());
            }
        }
        let data = new_redirect.clone();
        assert(data@ =~= new_redirect@);
        let ops = vec![
            DeviceOp::Upload { buffer: Buffer::PotentialRedirect, data: HostData::U32(data) },
        ];
        assert(plan(ops@) =~= seq![
            OpModel::Upload {
                buffer: Buffer::PotentialRedirect,
                data: HostModel::U32(new_redirect@),
            },
        ]);
        (new_redirect, ops)
    }

    /// Takes over a redirection that the device knows.
    pub fn states_permuted(&mut self, new_redirect: Vec<u32>)
        requires
            old(self).wf(),
            old(self).nreplicas <= u32::MAX,
            new_redirect@.len() == old(self).nreplicas,
            is_permutation(ints_of(new_redirect@)),
        ensures
            final(self).wf(),
            final(self).map() == ints_of(new_redirect@),
            final(self).potential_redirect_array is Identity <==> ints_of(new_redirect@)
                == identity(old(self).nreplicas as nat),
            final(self).same_but_redirect(*old(self)),
    {
        self.potential_redirect_array = RedirectArrays::settled(new_redirect);
    }

    /// The permutation that applies all proposed swaps. [`CudaBackend::settle_swaps`]
    /// gives the one that undoes those that are rejected.
    pub fn parallel_tempering_step(&self, swaps: &[(usize, usize)]) -> (perm: Vec<usize>)
        requires
            swaps_within(swaps@, self.nreplicas as nat),
        ensures
            perm@.len() == self.nreplicas,
            ints(perm@) == proposed(self.nreplicas as nat, swaps@, swaps@.len() as int),
            swaps_disjoint(swaps@) ==> permutes(perm@, self.nreplicas as nat) && completed(
                perm@,
                self.nreplicas as nat,
            ) == ints(perm@),
    {
        let perm = propose_swaps(self.nreplicas, swaps);
        proof {
            if swaps_disjoint(swaps@) {
                law_step_exchanges_accepted_pairs(self.nreplicas as nat, swaps@, seq![]);
                lemma_full_permutation(perm@);
            }
        }
        perm
    }

    /// The permutation that undoes the swaps that were not accepted. The decisions are
    /// counted while exchanges are tracked.
    pub fn settle_swaps(
        &mut self,
        perm: Vec<usize>,
        swaps: &[(usize, usize)],
        accepted: &[bool],
    ) -> (r: Vec<usize>)
        requires
            old(self).wf(),
            perm@.len() == old(self).nreplicas,
            swaps_within(swaps@, old(self).nreplicas as nat),
            ints(perm@) == proposed(old(self).nreplicas as nat, swaps@, swaps@.len() as int),
            old(self).parallel_tempering_debug matches Some(tracker) ==> forall|key: (usize, usize)|
                #[trigger] count_of(tracker@, key).1 + swaps@.len() <= usize::MAX,
        ensures
            final(self).wf(),
            final(self).same_but_tracking(*old(self)),
            ints(r@) == undoing(
                old(self).nreplicas as nat,
                swaps@,
                accepted@,
                decided(swaps@, accepted@),
            ),
            swaps_disjoint(swaps@) ==> permutes(r@, old(self).nreplicas as nat) && completed(
                r@,
                old(self).nreplicas as nat,
            ) == ints(r@),
            match old(self).parallel_tempering_debug {
                Some(before) => final(self).parallel_tempering_debug matches Some(after) && after@
                    == log_all(before@, swaps@, accepted@, decided(swaps@, accepted@)),
                None => final(self).parallel_tempering_debug is None,
            },
    {
        let r = undo_rejected(perm, swaps, accepted);
        proof {
            let n = self.nreplicas as nat;
            if swaps_disjoint(swaps@) {
                law_step_exchanges_accepted_pairs(n, swaps@, accepted@);
                lemma_full_permutation(r@);
            }
        }
        let mut debug = self.parallel_tempering_debug.take();
        if let Some(tracker) = &mut debug {
            let ghost before = tracker@;
            let mut k: usize = 0;
            while k < swaps.len() && k < accepted.len()
                invariant
                    k <= swaps@.len(),
                    k <= accepted@.len(),
                    tracker.wf(),
                    tracker@ == log_all(before, swaps@, accepted@, k as int),
                    forall|key: (usize, usize)|
                        #[trigger] count_of(tracker@, key).1 + (swaps@.len() - k) <= usize::MAX,
                decreases swaps@.len() - k,
            {
                let (a, b) = swaps[k];
                let ghost m = tracker@;
                assert(count_of(m, ordered(a, b)).1 + (swaps@.len() - k) <= usize::MAX);
                tracker.log(a, b, accepted[k]);
                assert forall|key: (usize, usize)| #[trigger] count_of(tracker@, key).1 + (
                swaps@.len() - (k + 1)) <= usize::MAX by {
                    assert(count_of(m, key).1 + (swaps@.len() - k) <= usize::MAX);
                }
                k += 1;
            }
        }
        self.parallel_tempering_debug = debug;
        r
    }
}

} // verus!
