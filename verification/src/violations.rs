//! Edges through which there is flux.

use crate::arrays::{index_in, ints, product, row_major, IntArray};
use crate::backend::CudaBackend;
use crate::dual_state::{
    bounds_of, lattice_dims, lemma_edge_sum_agrees, made_of_volumes, replica_field, site_of,
    site_sum, site_value, value_at,
};
use crate::lattice::{
    dimension_of, edge_sum, edge_sum_fits, edge_terms, law_a_plaquette_has_four_edges,
    law_flux_adds_up, law_flux_cancels, law_plaquettes_next_to_an_edge_have_flux,
    law_steps_undo_each_other, law_surfaces_are_closed, plaquettes_against, plaquettes_along,
    prefix_sum, spanned, stepped, surface, Dimension, NDDualGraph, SiteIndex,
};
use crate::measure::{law_replicas_are_moved_whole, lemma_lattice_product, row_len};
use crate::mesh::{lemma_row_major, lemma_unravel, mesh_point, unravel};
use crate::redirect::{is_permutation, lemma_permutation_reaches, rows_moved};
use crate::sizes::{all_sites, lemma_sizes};
use crate::sums::lemma_sum_over_sites_equal;
use vstd::prelude::*;

verus! {

/// An edge: its replica, its site and its direction.
pub type Edge = (usize, SiteIndex, Dimension);

/// The edge with number `i` of all replicas, in the order of replica, site and direction.
pub open spec fn edge_at(n: usize, b: SiteIndex, i: int) -> Edge {
    let u = unravel(lattice_dims(n, b, 4), i);
    (u[0] as usize, site_of(u), dimension_of(u[5]))
}

/// The flux through an edge.
pub open spec fn flux(state: IntArray, b: SiteIndex, e: Edge) -> int {
    edge_sum(replica_field(state, e.0 as int), e.1, e.2, b)
}

/// An edge with the plaquettes around it, those traversed along the edge first.
pub open spec fn surroundings(b: SiteIndex, e: Edge) -> (Edge, Seq<(SiteIndex, usize)>) {
    (e, plaquettes_along(e.1, e.2, b) + plaquettes_against(e.1, e.2, b))
}

/// The edges with flux among the first `k`, in order, with the plaquettes around them.
pub open spec fn violations(state: IntArray, n: usize, b: SiteIndex, k: int) -> Seq<
    (Edge, Seq<(SiteIndex, usize)>),
>
    decreases k,
{
    if k <= 0 {
        seq![]
    } else {
        let before = violations(state, n, b, k - 1);
        let e = edge_at(n, b, k - 1);
        if flux(state, b, e) != 0 {
            before.push(surroundings(b, e))
        } else {
            before
        }
    }
}

/// The list of edges in an exec list.
pub open spec fn edges_of(list: Seq<(Edge, Vec<(SiteIndex, usize)>)>) -> Seq<
    (Edge, Seq<(SiteIndex, usize)>),
> {
    list.map_values(|v: (Edge, Vec<(SiteIndex, usize)>)| (v.0, v.1@))
}

/// The flux through every edge can be added up within `i32`.
pub open spec fn all_flux_fits(state: IntArray, n: usize, b: SiteIndex) -> bool {
    forall|r: int, s: SiteIndex, d: Dimension|
        0 <= r < n && s.within(b) ==> #[trigger] edge_sum_fits(replica_field(state, r), s, d, b)
}

/// The flux through an edge can be added up within `i32`.
spec fn flux_fits_number(state: IntArray, b: SiteIndex, e: Edge) -> bool {
    edge_sum_fits(replica_field(state, e.0 as int), e.1, e.2, b)
}

/// Every number belongs to an edge of the lattice.
proof fn lemma_edges_within(n: usize, b: SiteIndex)
    ensures
        forall|i: int|
            0 <= i < product(lattice_dims(n, b, 4)) ==> (#[trigger] edge_at(n, b, i)).0 < n
                && edge_at(n, b, i).1.within(b),
{
    let dims = lattice_dims(n, b, 4);
    assert forall|i: int| 0 <= i < product(dims) implies (#[trigger] edge_at(n, b, i)).0 < n
        && edge_at(n, b, i).1.within(b) by {
        lemma_unravel(dims, i);
        let u = unravel(dims, i);
        assert(forall|k: int| 0 <= k < 6 ==> 0 <= #[trigger] u[k] < dims[k]);
        assert(u[0] < n && u[1] < b.t && u[2] < b.x && u[3] < b.y && u[4] < b.z);
    }
}

/// The number of an edge.
proof fn lemma_edge_number(n: usize, b: SiteIndex, e: Edge) -> (i: int)
    requires
        e.0 < n,
        e.1.within(b),
    ensures
        0 <= i < product(lattice_dims(n, b, 4)),
        edge_at(n, b, i) == e,
{
    let dims = lattice_dims(n, b, 4);
    let (r, s, d) = e;
    let k: int = match d {
        Dimension::T => 0,
        Dimension::X => 1,
        Dimension::Y => 2,
        Dimension::Z => 3,
    };
    let index = seq![r as int, s.t as int, s.x as int, s.y as int, s.z as int, k];
    assert(index_in(dims, index));
    lemma_row_major(dims, index);
    row_major(dims, index)
}

/// The list names an edge if and only if there is flux through it, once, and with it the
/// plaquettes around it.
pub proof fn law_list_holds_edges_with_flux(state: IntArray, n: usize, b: SiteIndex)
    ensures
        ({
            let list = violations(state, n, b, all_sites(n, b) * 4);
            &&& forall|r: usize, s: SiteIndex, d: Dimension|
                r < n && s.within(b) ==> (#[trigger] flux(state, b, (r, s, d)) != 0
                    <==> list.contains(surroundings(b, (r, s, d))))
            &&& forall|i: int, j: int|
                0 <= i < j < list.len() ==> (#[trigger] list[i]).0 != (#[trigger] list[j]).0
            &&& list.len() == 0 <==> forall|r: usize, s: SiteIndex, d: Dimension|
                r < n && s.within(b) ==> #[trigger] flux(state, b, (r, s, d)) == 0
        }),
{
    let total = all_sites(n, b) * 4;
    lemma_lattice_product(n, b, 4);
    let list = violations(state, n, b, total);
    lemma_violations(state, n, b, total);
    assert forall|r: usize, s: SiteIndex, d: Dimension| r < n && s.within(b) implies (
    #[trigger] flux(state, b, (r, s, d)) != 0 <==> list.contains(
        surroundings(b, (r, s, d)),
    )) by {
        let e = (r, s, d);
        if flux(state, b, e) != 0 {
            let i = lemma_edge_number(n, b, e);
            assert(flux(state, b, edge_at(n, b, i)) != 0);
        }
        if list.contains(surroundings(b, e)) {
            let j = choose|j: int| 0 <= j < list.len() && list[j] == surroundings(b, e);
            assert(flux(state, b, list[j].0) != 0);
        }
    }
    if list.len() == 0 {
        assert forall|r: usize, s: SiteIndex, d: Dimension|
            r < n && s.within(b) implies #[trigger] flux(state, b, (r, s, d)) == 0 by {
            assert(!list.contains(surroundings(b, (r, s, d))));
        }
    } else {
        assert(flux(state, b, list[0].0) != 0);
        let e = list[0].0;
        assert(flux(state, b, (e.0, e.1, e.2)) != 0);
    }
}

/// What is listed around an edge: the three plaquettes that put their own value through it,
/// and then the three that put the opposite value through it.
pub proof fn law_surroundings_have_flux(b: SiteIndex, e: Edge, i: int)
    requires
        e.1.within(b),
        0 <= i < 6,
        b.t >= 2,
        b.x >= 2,
        b.y >= 2,
        b.z >= 2,
    ensures
        ({
            let (own, around) = surroundings(b, e);
            let (at, p) = around[i];
            let single = |q: SiteIndex, j: int|
                if q == at && j == p {
                    1int
                } else {
                    0
                };
            &&& own == e
            &&& around.len() == 6
            &&& around.no_duplicates()
            &&& at.within(b)
            &&& p < 6
            &&& edge_sum(single, e.1, e.2, b) == if i < 3 {
                1int
            } else {
                -1int
            }
        }),
{
    let around = surroundings(b, e).1;
    let along = plaquettes_along(e.1, e.2, b);
    let against = plaquettes_against(e.1, e.2, b);
    assert(forall|k: int| 0 <= k < 3 ==> around[k] == #[trigger] along[k]);
    assert(forall|k: int| 0 <= k < 3 ==> around[3 + k] == #[trigger] against[k]);
    law_steps_undo_each_other(e.1, Dimension::T, b);
    law_steps_undo_each_other(e.1, Dimension::X, b);
    law_steps_undo_each_other(e.1, Dimension::Y, b);
    law_steps_undo_each_other(e.1, Dimension::Z, b);
    let (at, p) = around[i];
    assert(at.within(b) && p < 6);
    law_plaquettes_next_to_an_edge_have_flux(at, p, e.1, e.2, b);
    if i < 3 {
        assert(along[i] == (at, p));
    } else {
        assert(against[i - 3] == (at, p));
    }
    assert forall|j: int, k: int| 0 <= j < 6 && 0 <= k < 6 && j != k implies around[j]
        != around[k] by {
        law_plaquettes_next_to_an_edge_have_flux(around[j].0, around[j].1, e.1, e.2, b);
        if j < 3 {
            assert(along.contains(along[j]));
            if k >= 3 {
                assert(against.contains(against[k - 3]));
            }
        } else {
            assert(against.contains(against[j - 3]));
            if k < 3 {
                assert(along.contains(along[k]));
            }
        }
    }
}

/// The place of an edge when all edges are numbered by replica, time, the three coordinates
/// and direction, the last running fastest.
pub open spec fn edge_place(b: SiteIndex, e: Edge) -> int {
    let d: int = match e.2 {
        Dimension::T => 0,
        Dimension::X => 1,
        Dimension::Y => 2,
        Dimension::Z => 3,
    };
    ((((e.0 * b.t + e.1.t) * b.x + e.1.x) * b.y + e.1.y) * b.z + e.1.z) * 4 + d
}

/// The edge with number `i` is the one at the place `i`.
pub proof fn law_edges_are_numbered_in_order(n: usize, b: SiteIndex, i: int)
    requires
        0 <= i < all_sites(n, b) * 4,
    ensures
        edge_place(b, edge_at(n, b, i)) == i,
        edge_at(n, b, i).0 < n,
        edge_at(n, b, i).1.within(b),
{
    let dims = lattice_dims(n, b, 4);
    lemma_lattice_product(n, b, 4);
    lemma_unravel(dims, i);
    lemma_edges_within(n, b);
    let u = unravel(dims, i);
    assert(forall|k: int| 0 <= k < 6 ==> 0 <= #[trigger] u[k] < dims[k]);
    assert(u[0] < n && u[1] < b.t && u[2] < b.x && u[3] < b.y && u[4] < b.z && u[5] < 4);
    assert(u =~= seq![u[0], u[1], u[2], u[3], u[4], u[5]]);
    reveal_with_fuel(row_major, 7);
    assert(dims.drop_last() =~= seq![n, b.t, b.x, b.y, b.z]);
    assert(u.drop_last() =~= seq![u[0], u[1], u[2], u[3], u[4]]);
    assert(dims.drop_last().drop_last() =~= seq![n, b.t, b.x, b.y]);
    assert(u.drop_last().drop_last() =~= seq![u[0], u[1], u[2], u[3]]);
    assert(dims.drop_last().drop_last().drop_last() =~= seq![n, b.t, b.x]);
    assert(u.drop_last().drop_last().drop_last() =~= seq![u[0], u[1], u[2]]);
    assert(dims.drop_last().drop_last().drop_last().drop_last() =~= seq![n, b.t]);
    assert(u.drop_last().drop_last().drop_last().drop_last() =~= seq![u[0], u[1]]);
    assert(dims.drop_last().drop_last().drop_last().drop_last().drop_last() =~= seq![n]);
    assert(u.drop_last().drop_last().drop_last().drop_last().drop_last() =~= seq![u[0]]);
    assert(row_major(seq![n], seq![u[0]]) == u[0]) by {
        assert(seq![n].drop_last() =~= Seq::<usize>::empty());
    }
    assert(row_major(seq![n, b.t], seq![u[0], u[1]]) == u[0] * b.t + u[1]);
    assert(row_major(seq![n, b.t, b.x], seq![u[0], u[1], u[2]]) == (u[0] * b.t + u[1]) * b.x
        + u[2]);
    assert(row_major(seq![n, b.t, b.x, b.y], seq![u[0], u[1], u[2], u[3]]) == ((u[0] * b.t + u[1])
        * b.x + u[2]) * b.y + u[3]);
    assert(row_major(dims.drop_last(), u.drop_last()) == (((u[0] * b.t + u[1]) * b.x + u[2]) * b.y
        + u[3]) * b.z + u[4]);
}

/// The list is in the order of the edges' places.
pub proof fn law_list_is_in_order(state: IntArray, n: usize, b: SiteIndex, i: int, j: int)
    requires
        0 <= i < j < violations(state, n, b, all_sites(n, b) * 4).len(),
    ensures
        ({
            let list = violations(state, n, b, all_sites(n, b) * 4);
            edge_place(b, list[i].0) < edge_place(b, list[j].0)
        }),
{
    lemma_places_grow(state, n, b, all_sites(n, b) * 4);
}

/// The places of the edges in the list grow.
proof fn lemma_places_grow(state: IntArray, n: usize, b: SiteIndex, k: int)
    requires
        k <= all_sites(n, b) * 4,
    ensures
        ({
            let list = violations(state, n, b, k);
            &&& forall|i: int| 0 <= i < list.len() ==> edge_place(b, (#[trigger] list[i]).0) < k
            &&& forall|i: int, j: int|
                0 <= i < j < list.len() ==> edge_place(b, (#[trigger] list[i]).0) < edge_place(
                    b,
                    (#[trigger] list[j]).0,
                )
        }),
    decreases k,
{
    if k > 0 {
        lemma_places_grow(state, n, b, k - 1);
        law_edges_are_numbered_in_order(n, b, k - 1);
        let before = violations(state, n, b, k - 1);
        let list = violations(state, n, b, k);
        assert(forall|i: int| 0 <= i < before.len() ==> #[trigger] list[i] == before[i]);
    }
}

/// A single plaquette that is not zero makes the list of its four edges: those in its first
/// direction `u` at its site and one step on in its second direction `v`, and those in `v` at
/// its site and one step on in `u`.
pub proof fn law_a_plaquette_violates_four_edges(
    state: IntArray,
    n: usize,
    b: SiteIndex,
    r: usize,
    at: SiteIndex,
    p: int,
    w: int,
    e: Edge,
)
    requires
        r < n,
        at.within(b),
        0 <= p < 6,
        w != 0,
        forall|other: int, q: SiteIndex, j: int|
            0 <= other < n && q.within(b) && 0 <= j < 6 ==> #[trigger] site_value(
                state,
                other,
                q,
                j,
            ) == (if other == r && q == at && j == p {
                w
            } else {
                0
            }),
        e.0 < n,
        e.1.within(b),
        b.t >= 2,
        b.x >= 2,
        b.y >= 2,
        b.z >= 2,
    ensures
        ({
            let list = violations(state, n, b, all_sites(n, b) * 4);
            let (u, v) = spanned(p);
            (exists|i: int| 0 <= i < list.len() && (#[trigger] list[i]).0 == e) <==> e.0 == r && (
            (e.2 == u && (e.1 == at || e.1 == stepped(at, v, b))) || (e.2 == v && (e.1 == at || e.1
                == stepped(at, u, b))))
        }),
{
    let list = violations(state, n, b, all_sites(n, b) * 4);
    law_list_holds_edges_with_flux(state, n, b);
    lemma_lattice_product(n, b, 4);
    lemma_violations(state, n, b, all_sites(n, b) * 4);
    let field = replica_field(state, e.0 as int);
    let single = |q: SiteIndex, j: int|
        if q == at && j == p {
            w
        } else {
            0
        };
    let nothing = |q: SiteIndex, j: int|
        if q == at && j == p {
            0int
        } else {
            0
        };
    if e.0 == r {
        assert forall|q: SiteIndex, j: int| q.within(b) && 0 <= j < 6 implies #[trigger] field(q, j)
            == single(q, j) by {
            assert(site_value(state, e.0 as int, q, j) == single(q, j));
        }
        lemma_edge_sum_agrees(field, single, e.1, e.2, b);
        law_a_plaquette_has_four_edges(at, p, w, e.1, e.2, b);
    } else {
        assert forall|q: SiteIndex, j: int| q.within(b) && 0 <= j < 6 implies #[trigger] field(q, j)
            == nothing(q, j) by {
            assert(site_value(state, e.0 as int, q, j) == nothing(q, j));
        }
        lemma_edge_sum_agrees(field, nothing, e.1, e.2, b);
        law_a_plaquette_has_four_edges(at, p, 0, e.1, e.2, b);
    }
    let own = (e.0, e.1, e.2);
    assert(own == e);
    assert(flux(state, b, own) != 0 <==> list.contains(surroundings(b, own)));
    if list.contains(surroundings(b, e)) {
        let i = choose|i: int| 0 <= i < list.len() && list[i] == surroundings(b, e);
        assert(list[i].0 == e);
    }
    if exists|i: int| 0 <= i < list.len() && (#[trigger] list[i]).0 == e {
        let i = choose|i: int| 0 <= i < list.len() && (#[trigger] list[i]).0 == e;
        assert(flux(state, b, list[i].0) != 0);
    }
}

/// A state made of the surfaces of volumes has an empty list.
pub proof fn law_volumes_leave_no_violations(
    volumes: IntArray,
    state: IntArray,
    n: usize,
    b: SiteIndex,
)
    requires
        volumes.dims() == lattice_dims(n, b, 4),
        made_of_volumes(state, volumes),
    ensures
        violations(state, n, b, all_sites(n, b) * 4).len() == 0,
{
    assert forall|r: usize, s: SiteIndex, d: Dimension|
        r < n && s.within(b) implies #[trigger] flux(state, b, (r, s, d)) == 0 by {
        assert(bounds_of(volumes.dims()) == b);
        let c = replica_field(volumes, r as int);
        let f = replica_field(state, r as int);
        let g = |q: SiteIndex, p: int| surface(c, q, p, b);
        assert forall|q: SiteIndex, p: int| q.within(b) && 0 <= p < 6 implies #[trigger] f(q, p)
            == g(q, p) by {
            assert(site_value(state, r as int, q, p) == surface(c, q, p, b));
        }
        lemma_edge_sum_agrees(f, g, s, d, b);
        law_surfaces_are_closed(c, s, d, b);
    }
    law_list_holds_edges_with_flux(state, n, b);
}

/// What the list holds of the first `k` edges.
proof fn lemma_violations(state: IntArray, n: usize, b: SiteIndex, k: int)
    requires
        0 <= k <= product(lattice_dims(n, b, 4)),
    ensures
        ({
            let list = violations(state, n, b, k);
            &&& forall|j: int|
                0 <= j < list.len() ==> {
                    let v = #[trigger] list[j];
                    &&& flux(state, b, v.0) != 0
                    &&& v == surroundings(b, v.0)
                    &&& v.0.0 < n
                    &&& v.0.1.within(b)
                    &&& exists|i: int| 0 <= i < k && v.0 == #[trigger] edge_at(n, b, i)
                }
            &&& forall|i: int, j: int|
                0 <= i < j < list.len() ==> (#[trigger] list[i]).0 != (#[trigger] list[j]).0
            &&& forall|i: int|
                0 <= i < k && flux(state, b, #[trigger] edge_at(n, b, i)) != 0 ==> list.contains(
                    surroundings(b, edge_at(n, b, i)),
                )
        }),
    decreases k,
{
    if k > 0 {
        lemma_violations(state, n, b, k - 1);
        lemma_edges_within(n, b);
        let before = violations(state, n, b, k - 1);
        let list = violations(state, n, b, k);
        assert forall|i: int| 0 <= i < k && flux(state, b, #[trigger] edge_at(n, b, i)) != 0 implies
            list.contains(surroundings(b, edge_at(n, b, i))) by {
            let v = surroundings(b, edge_at(n, b, i));
            if i == k - 1 {
                assert(list[list.len() - 1] == v);
            } else {
                let j = choose|j: int| 0 <= j < before.len() && before[j] == v;
                assert(list[j] == v);
            }
        }
        assert forall|j: int| 0 <= j < list.len() implies exists|i: int|
            0 <= i < k && (#[trigger] list[j]).0 == #[trigger] edge_at(n, b, i) by {
            if j < before.len() {
                let i = choose|i: int| 0 <= i < k - 1 && before[j].0 == #[trigger] edge_at(n, b, i);
                assert(list[j].0 == edge_at(n, b, i));
            } else {
                assert(list[j].0 == edge_at(n, b, k - 1));
            }
        }
        assert forall|i: int, j: int| 0 <= i < j < list.len() implies (#[trigger] list[i]).0 != (
        #[trigger] list[j]).0 by {
            if j == before.len() {
                let l = choose|l: int| 0 <= l < k - 1 && before[i].0 == #[trigger] edge_at(n, b, l);
                lemma_edges_differ(n, b, l, k - 1);
            } else {
                assert(before[i].0 != before[j].0);
            }
        }
    }
}

/// Edges with different numbers are different.
proof fn lemma_edges_differ(n: usize, b: SiteIndex, i: int, j: int)
    requires
        0 <= i < j < product(lattice_dims(n, b, 4)),
    ensures
        edge_at(n, b, i) != edge_at(n, b, j),
{
    let dims = lattice_dims(n, b, 4);
    lemma_unravel(dims, i);
    lemma_unravel(dims, j);
    let (u, w) = (unravel(dims, i), unravel(dims, j));
    assert(forall|k: int| 0 <= k < 6 ==> 0 <= #[trigger] u[k] < dims[k]);
    assert(forall|k: int| 0 <= k < 6 ==> 0 <= #[trigger] w[k] < dims[k]);
    if edge_at(n, b, i) == edge_at(n, b, j) {
        assert(u[0] == w[0] && u[1] == w[1] && u[2] == w[2] && u[3] == w[3] && u[4] == w[4] && u[5]
            == w[5]);
        assert(u =~= w);
    }
}

/// How many of the first `k` numbers are not zero.
pub open spec fn nonzero_count(values: Seq<i32>, k: int) -> nat
    decreases k,
{
    if k <= 0 {
        0
    } else {
        nonzero_count(values, k - 1) + (if values[k - 1] != 0 {
            1nat
        } else {
            0nat
        })
    }
}

/// `edges` holds the flux through every edge by replica, site and direction.
pub open spec fn holds_flux(edges: IntArray, state: IntArray, n: usize, b: SiteIndex) -> bool {
    &&& edges.dims() == lattice_dims(n, b, 4)
    &&& forall|r: int, s: SiteIndex, d: int|
        0 <= r < n && s.within(b) && 0 <= d < 4 ==> #[trigger] site_value(edges, r, s, d) == flux(
            state,
            b,
            (r as usize, s, dimension_of(d)),
        )
}

/// The list agrees with an array of the flux through every edge: it names an edge if and
/// only if its number is not zero, and it is as long as there are such numbers.
pub proof fn law_list_agrees_with_edge_sums(
    state: IntArray,
    edges: IntArray,
    n: usize,
    b: SiteIndex,
)
    requires
        holds_flux(edges, state, n, b),
    ensures
        ({
            let list = violations(state, n, b, all_sites(n, b) * 4);
            &&& list.len() == nonzero_count(edges.elems(), all_sites(n, b) * 4)
            &&& forall|r: int, s: SiteIndex, d: int|
                0 <= r < n && s.within(b) && 0 <= d < 4 ==> (#[trigger] site_value(edges, r, s, d)
                    != 0 <==> exists|j: int|
                    0 <= j < list.len() && (#[trigger] list[j]).0 == (
                        r as usize,
                        s,
                        dimension_of(d),
                    ))
        }),
{
    let total = all_sites(n, b) * 4;
    let list = violations(state, n, b, total);
    lemma_lattice_product(n, b, 4);
    lemma_list_length(state, edges, n, b, total);
    lemma_violations(state, n, b, total);
    assert forall|r: int, s: SiteIndex, d: int| 0 <= r < n && s.within(b) && 0 <= d < 4 implies (
    #[trigger] site_value(edges, r, s, d) != 0 <==> exists|j: int|
        0 <= j < list.len() && (#[trigger] list[j]).0 == (r as usize, s, dimension_of(d))) by {
        let e = (r as usize, s, dimension_of(d));
        assert(site_value(edges, r, s, d) == flux(state, b, e));
        if flux(state, b, e) != 0 {
            let i = lemma_edge_number(n, b, e);
            assert(flux(state, b, edge_at(n, b, i)) != 0);
            let j = choose|j: int| 0 <= j < list.len() && list[j] == surroundings(b, e);
            assert(list[j].0 == e);
        }
    }
}

/// Of a state made of the surfaces of volumes an array of the flux through every edge holds
/// nothing but zeros.
pub proof fn law_edge_sums_of_volumes_vanish(
    volumes: IntArray,
    state: IntArray,
    edges: IntArray,
    n: usize,
    b: SiteIndex,
)
    requires
        volumes.dims() == lattice_dims(n, b, 4),
        made_of_volumes(state, volumes),
        holds_flux(edges, state, n, b),
    ensures
        forall|i: int| 0 <= i < all_sites(n, b) * 4 ==> #[trigger] edges.elems()[i] == 0,
{
    let total = all_sites(n, b) * 4;
    lemma_lattice_product(n, b, 4);
    assert(bounds_of(volumes.dims()) == b);
    law_volumes_leave_no_violations(volumes, state, n, b);
    law_list_agrees_with_edge_sums(state, edges, n, b);
    assert forall|i: int| 0 <= i < total implies #[trigger] edges.elems()[i] == 0 by {
        lemma_nonzero_count_grows(edges.elems(), i + 1, total);
    }
}

/// More numbers do not make fewer of them different from zero.
proof fn lemma_nonzero_count_grows(values: Seq<i32>, k: int, l: int)
    requires
        k <= l,
    ensures
        nonzero_count(values, k) <= nonzero_count(values, l),
    decreases l - k,
{
    if k < l && l > 0 {
        lemma_nonzero_count_grows(values, k, l - 1);
    }
}

/// The place of an edge in an array of the flux through every edge.
proof fn lemma_flux_at(edges: IntArray, state: IntArray, n: usize, b: SiteIndex, i: int)
    requires
        holds_flux(edges, state, n, b),
        0 <= i < product(lattice_dims(n, b, 4)),
    ensures
        edges.elems()[i] == flux(state, b, edge_at(n, b, i)),
{
    let dims = lattice_dims(n, b, 4);
    lemma_unravel(dims, i);
    let u = unravel(dims, i);
    assert(forall|l: int| 0 <= l < 6 ==> 0 <= #[trigger] u[l] < dims[l]);
    let s = site_of(u);
    assert(u[0] < n && u[1] < b.t && u[2] < b.x && u[3] < b.y && u[4] < b.z && u[5] < 4);
    assert(u =~= seq![u[0], s.t as int, s.x as int, s.y as int, s.z as int, u[5]]);
    assert(site_value(edges, u[0], s, u[5]) == flux(state, b, edge_at(n, b, i)));
}

/// The edge sums of plaquettes added up are the edge sums added up.
pub proof fn law_edge_sums_add_up(
    first: IntArray,
    second: IntArray,
    both: IntArray,
    edges_of_first: IntArray,
    edges_of_second: IntArray,
    edges_of_both: IntArray,
    n: usize,
    b: SiteIndex,
)
    requires
        first.dims() == lattice_dims(n, b, 6),
        second.dims() == lattice_dims(n, b, 6),
        both.dims() == lattice_dims(n, b, 6),
        forall|i: int|
            0 <= i < all_sites(n, b) * 6 ==> #[trigger] both.elems()[i] == first.elems()[i]
                + second.elems()[i],
        holds_flux(edges_of_first, first, n, b),
        holds_flux(edges_of_second, second, n, b),
        holds_flux(edges_of_both, both, n, b),
    ensures
        forall|i: int|
            0 <= i < all_sites(n, b) * 4 ==> #[trigger] edges_of_both.elems()[i]
                == edges_of_first.elems()[i] + edges_of_second.elems()[i],
{
    let dims = lattice_dims(n, b, 6);
    lemma_lattice_product(n, b, 4);
    lemma_lattice_product(n, b, 6);
    lemma_edges_within(n, b);
    assert forall|i: int| 0 <= i < all_sites(n, b) * 4 implies #[trigger] edges_of_both.elems()[i]
        == edges_of_first.elems()[i] + edges_of_second.elems()[i] by {
        lemma_flux_at(edges_of_first, first, n, b, i);
        lemma_flux_at(edges_of_second, second, n, b, i);
        lemma_flux_at(edges_of_both, both, n, b, i);
        let (r, s, d) = edge_at(n, b, i);
        let f = replica_field(first, r as int);
        let g = replica_field(second, r as int);
        let h = replica_field(both, r as int);
        let sum = |q: SiteIndex, p: int| f(q, p) + g(q, p);
        assert forall|q: SiteIndex, p: int| q.within(b) && 0 <= p < 6 implies #[trigger] h(q, p)
            == sum(q, p) by {
            let index = seq![r as int, q.t as int, q.x as int, q.y as int, q.z as int, p];
            assert(index_in(dims, index));
            lemma_row_major(dims, index);
            let j = row_major(dims, index);
            assert(both.elems()[j] == first.elems()[j] + second.elems()[j]);
        }
        lemma_edge_sum_agrees(h, sum, s, d, b);
        law_flux_adds_up(f, g, s, d, b);
    }
}

/// The edge sums of a replica add up to zero in every direction.
pub proof fn law_edge_sums_cancel(
    edges: IntArray,
    state: IntArray,
    n: usize,
    b: SiteIndex,
    r: int,
    d: int,
)
    requires
        holds_flux(edges, state, n, b),
        0 <= r < n,
        0 <= d < 4,
    ensures
        site_sum(edges, r, d, b) == 0,
{
    let field = replica_field(state, r);
    let direction = dimension_of(d);
    let f = |s: SiteIndex| site_value(edges, r, s, d);
    let g = |s: SiteIndex| edge_sum(field, s, direction, b);
    assert forall|s: SiteIndex| s.within(b) implies #[trigger] f(s) == g(s) by {
        assert(site_value(edges, r, s, d) == flux(state, b, (r as usize, s, direction)));
    }
    lemma_sum_over_sites_equal(b, f, g);
    law_flux_cancels(field, direction, b);
}

/// If the device's edge sums are the flux of its plaquettes, state by state, then those read
/// by potential are the flux of the plaquettes read by potential.
pub proof fn law_flux_is_read_by_potential(
    raw_state: IntArray,
    raw_edges: IntArray,
    state: IntArray,
    edges: IntArray,
    n: usize,
    b: SiteIndex,
    map: Seq<int>,
)
    requires
        raw_state.dims() == lattice_dims(n, b, 6),
        state.dims() == lattice_dims(n, b, 6),
        edges.dims() == lattice_dims(n, b, 4),
        holds_flux(raw_edges, raw_state, n, b),
        map.len() == n,
        is_permutation(map),
        rows_moved(state.elems(), raw_state.elems(), row_len(b, 6), map),
        rows_moved(edges.elems(), raw_edges.elems(), row_len(b, 4), map),
    ensures
        holds_flux(edges, state, n, b),
{
    assert forall|r: int, s: SiteIndex, d: int|
        0 <= r < n && s.within(b) && 0 <= d < 4 implies #[trigger] site_value(edges, r, s, d)
        == flux(state, b, (r as usize, s, dimension_of(d))) by {
        lemma_permutation_reaches(map, r);
        let k = choose|k: int| 0 <= k < map.len() && #[trigger] map[k] == r;
        law_replicas_are_moved_whole(raw_edges, edges, n, b, 4, map, k, s, d);
        let f = replica_field(raw_state, k);
        let g = replica_field(state, r);
        assert forall|q: SiteIndex, p: int| q.within(b) && 0 <= p < 6 implies #[trigger] f(q, p)
            == g(q, p) by {
            law_replicas_are_moved_whole(raw_state, state, n, b, 6, map, k, q, p);
        }
        lemma_edge_sum_agrees(f, g, s, dimension_of(d), b);
        assert(site_value(raw_edges, k, s, d) == flux(
            raw_state,
            b,
            (k as usize, s, dimension_of(d)),
        ));
    }
}

/// The list of the first `k` edges is as long as there are numbers that are not zero.
proof fn lemma_list_length(state: IntArray, edges: IntArray, n: usize, b: SiteIndex, k: int)
    requires
        holds_flux(edges, state, n, b),
        0 <= k <= product(lattice_dims(n, b, 4)),
    ensures
        violations(state, n, b, k).len() == nonzero_count(edges.elems(), k),
    decreases k,
{
    if k > 0 {
        lemma_list_length(state, edges, n, b, k - 1);
        lemma_flux_at(edges, state, n, b, k - 1);
    }
}

/// Adds the values of plaquettes to a sum, or takes them from it.
fn add_values(
    state: &IntArray,
    r: usize,
    list: &Vec<(SiteIndex, usize)>,
    negative: bool,
    start: i32,
    Ghost(terms): Ghost<Seq<int>>,
    Ghost(from): Ghost<int>,
) -> (sum: i32)
    requires
        state.dims().len() == 6,
        state.dims()[5] == 6,
        r < state.dims()[0],
        list@.len() == 3,
        from == 0 || from == 3,
        terms.len() == 6,
        start == prefix_sum(terms, from),
        forall|k: int|
            0 <= k < 3 ==> (#[trigger] list@[k]).0.within(bounds_of(state.dims())) && list@[k].1
                < 6,
        forall|k: int|
            0 <= k < 3 ==> terms[from + k] == (if negative {
                -site_value(*state, r as int, (#[trigger] list@[k]).0, list@[k].1 as int)
            } else {
                site_value(*state, r as int, list@[k].0, list@[k].1 as int)
            }),
        forall|k: int| 0 <= k < 6 ==> i32::MIN <= #[trigger] terms[k] <= i32::MAX,
        forall|k: int| 0 <= k <= 6 ==> i32::MIN <= #[trigger] prefix_sum(terms, k) <= i32::MAX,
    ensures
        sum == prefix_sum(terms, from + 3),
{
    let mut sum = start;
    let mut k: usize = 0;
    while k < 3
        invariant
            k <= 3,
            state.dims().len() == 6,
            state.dims()[5] == 6,
            r < state.dims()[0],
            list@.len() == 3,
            from == 0 || from == 3,
            terms.len() == 6,
            sum == prefix_sum(terms, from + k),
            forall|k: int|
                0 <= k < 3 ==> (#[trigger] list@[k]).0.within(bounds_of(state.dims())) && list@[k].1
                    < 6,
            forall|k: int|
                0 <= k < 3 ==> terms[from + k] == (if negative {
                    -site_value(*state, r as int, (#[trigger] list@[k]).0, list@[k].1 as int)
                } else {
                    site_value(*state, r as int, list@[k].0, list@[k].1 as int)
                }),
            forall|k: int| 0 <= k < 6 ==> i32::MIN <= #[trigger] terms[k] <= i32::MAX,
            forall|k: int| 0 <= k <= 6 ==> i32::MIN <= #[trigger] prefix_sum(terms, k) <= i32::MAX,
        decreases 3 - k,
    {
        let (site, p) = list[k];
        let v = value_at(state, r, &site, p);
        assert(list@[k as int] == (site, p));
        assert(i32::MIN <= terms[from + k] <= i32::MAX);
        assert(i32::MIN <= prefix_sum(terms, from + k + 1) <= i32::MAX);
        assert(prefix_sum(terms, from + k + 1) == prefix_sum(terms, from + k) + terms[from + k]);
        if negative {
            sum = sum + -v;
        } else {
            sum = sum + v;
        }
        k += 1;
    }
    sum
}

/// The plaquettes around an edge, if there is flux through it.
fn violation_at(state: &IntArray, r: usize, s: SiteIndex, d: Dimension, bounds: &SiteIndex) -> (v:
    Option<Vec<(SiteIndex, usize)>>)
    requires
        state.dims().len() == 6,
        state.dims()[5] == 6,
        *bounds == bounds_of(state.dims()),
        r < state.dims()[0],
        s.within(*bounds),
        edge_sum_fits(replica_field(*state, r as int), s, d, *bounds),
    ensures
        match v {
            Some(list) => flux(*state, *bounds, (r, s, d)) != 0 && list@ == surroundings(
                *bounds,
                (r, s, d),
            ).1,
            None => flux(*state, *bounds, (r, s, d)) == 0,
        },
{
    let (poss, negs) = NDDualGraph::plaquettes_next_to_edge(&s, d, bounds);
    let ghost terms = edge_terms(replica_field(*state, r as int), s, d, *bounds);
    let sum = add_values(state, r, &poss, false, 0, Ghost(terms), Ghost(0));
    let sum = add_values(state, r, &negs, true, sum, Ghost(terms), Ghost(3));
    if sum != 0 {
        let mut list = poss;
        let mut negs = negs;
        list.append(&mut negs);
        Some(list)
    } else {
        None
    }
}

/// Whether the flux through an edge can be added up within `i32`.
fn flux_fits_at(state: &IntArray, r: usize, s: SiteIndex, d: Dimension, bounds: &SiteIndex) -> (ok:
    bool)
    requires
        state.dims().len() == 6,
        state.dims()[5] == 6,
        *bounds == bounds_of(state.dims()),
        r < state.dims()[0],
        s.within(*bounds),
    ensures
        ok == edge_sum_fits(replica_field(*state, r as int), s, d, *bounds),
{
    let (poss, negs) = NDDualGraph::plaquettes_next_to_edge(&s, d, bounds);
    let ghost terms = edge_terms(replica_field(*state, r as int), s, d, *bounds);
    let least: i64 = i32::MIN as i64;
    let most: i64 = i32::MAX as i64;
    let mut ok = true;
    let mut sum: i64 = 0;
    let mut k: usize = 0;
    while k < 6
        invariant
            k <= 6,
            state.dims().len() == 6,
            state.dims()[5] == 6,
            *bounds == bounds_of(state.dims()),
            r < state.dims()[0],
            least == i32::MIN,
            most == i32::MAX,
            poss@ == plaquettes_along(s, d, *bounds),
            negs@ == plaquettes_against(s, d, *bounds),
            forall|l: int|
                0 <= l < 3 ==> (#[trigger] poss@[l]).0.within(*bounds) && poss@[l].1 < 6,
            forall|l: int|
                0 <= l < 3 ==> (#[trigger] negs@[l]).0.within(*bounds) && negs@[l].1 < 6,
            terms == edge_terms(replica_field(*state, r as int), s, d, *bounds),
            sum == prefix_sum(terms, k as int),
            -0x8000_0000 * k <= sum <= 0x8000_0000 * k,
            ok == ((forall|l: int| 0 <= l < k ==> i32::MIN <= #[trigger] terms[l] <= i32::MAX) && (
            forall|l: int| 0 <= l <= k ==> i32::MIN <= #[trigger] prefix_sum(terms, l) <= i32::MAX)),
        decreases 6 - k,
    {
        let term: i64 = if k < 3 {
            let (site, p) = poss[k];
            value_at(state, r, &site, p) as i64
        } else {
            let (site, p) = negs[k - 3];
            -(value_at(state, r, &site, p) as i64)
        };
        assert(term == terms[k as int]);
        assert(prefix_sum(terms, k + 1) == prefix_sum(terms, k as int) + terms[k as int]);
        sum = sum + term;
        if term < least || term > most || sum < least || sum > most {
            ok = false;
        }
        k += 1;
    }
    ok
}

impl CudaBackend {
    /// The edge with number `i`.
    fn edge_numbered(&self, i: usize) -> (e: Edge)
        requires
            i < all_sites(self.nreplicas, self.bounds) * 4,
        ensures
            e == edge_at(self.nreplicas, self.bounds, i as int),
            e.0 < self.nreplicas,
            e.1.within(self.bounds),
    {
        let (t, x, y, z) = (self.bounds.t, self.bounds.x, self.bounds.y, self.bounds.z);
        let shape: [usize; 6] = [self.nreplicas, t, x, y, z, 4];
        let ghost dims = lattice_dims(self.nreplicas, self.bounds, 4);
        proof {
            lemma_lattice_product(self.nreplicas, self.bounds, 4);
            assert(shape@ =~= dims);
        }
        let point = mesh_point(shape.as_slice(), i);
        let ghost u = unravel(dims, i as int);
        assert(forall|k: int| 0 <= k < 6 ==> #[trigger] ints(point@)[k] == point@[k]);
        assert(forall|k: int| 0 <= k < 6 ==> 0 <= #[trigger] u[k] < dims[k]);
        let replica = point[0];
        let site = SiteIndex { t: point[1], x: point[2], y: point[3], z: point[4] };
        assert(u[0] == replica && u[1] == site.t && u[2] == site.x && u[3] == site.y && u[4]
            == site.z && u[5] == point@[5]);
        (replica, site, Dimension::from_index(point[5]))
    }

    /// Whether the flux through every edge can be added up within `i32`.
    pub fn flux_fits(&self, state: &IntArray) -> (ok: bool)
        requires
            self.wf(),
            state.dims() == lattice_dims(self.nreplicas, self.bounds, 6),
        ensures
            ok == all_flux_fits(*state, self.nreplicas, self.bounds),
    {
        let (t, x, y, z) = (self.bounds.t, self.bounds.x, self.bounds.y, self.bounds.z);
        proof {
            lemma_sizes(self.nreplicas, self.bounds);
            lemma_lattice_product(self.nreplicas, self.bounds, 4);
        }
        let total = self.nreplicas * t * x * y * z * 4;
        let mut i: usize = 0;
        while i < total
            invariant
                i <= total,
                total == all_sites(self.nreplicas, self.bounds) * 4,
                state.dims() == lattice_dims(self.nreplicas, self.bounds, 6),
                forall|j: int|
                    0 <= j < i ==> flux_fits_number(
                        *state,
                        self.bounds,
                        #[trigger] edge_at(self.nreplicas, self.bounds, j),
                    ),
            decreases total - i,
        {
            let (replica, site, dim) = self.edge_numbered(i);
            if !flux_fits_at(state, replica, site, dim, &self.bounds) {
                assert(!edge_sum_fits(
                    replica_field(*state, replica as int),
                    site,
                    dim,
                    self.bounds,
                ));
                return false;
            }
            i += 1;
        }
        proof {
            assert forall|r: int, s: SiteIndex, d: Dimension|
                0 <= r < self.nreplicas && s.within(self.bounds) implies #[trigger] edge_sum_fits(
                replica_field(*state, r),
                s,
                d,
                self.bounds,
            ) by {
                let j = lemma_edge_number(self.nreplicas, self.bounds, (r as usize, s, d));
                assert(flux_fits_number(
                    *state,
                    self.bounds,
                    edge_at(self.nreplicas, self.bounds, j),
                ));
            }
        }
        true
    }

    /// The edge with number `i`, with the plaquettes around it, if there is flux through it.
    ///
    /// `state` holds the plaquettes as [`CudaBackend::get_plaquettes`] gives them.
    pub fn edge_with_violation(&self, state: &IntArray, i: usize) -> (r: Option<
        (Edge, Vec<(SiteIndex, usize)>),
    >)
        requires
            self.wf(),
            state.dims() == lattice_dims(self.nreplicas, self.bounds, 6),
            all_flux_fits(*state, self.nreplicas, self.bounds),
            i < all_sites(self.nreplicas, self.bounds) * 4,
        ensures
            ({
                let e = edge_at(self.nreplicas, self.bounds, i as int);
                match r {
                    Some(v) => flux(*state, self.bounds, e) != 0 && (v.0, v.1@) == surroundings(
                        self.bounds,
                        e,
                    ),
                    None => flux(*state, self.bounds, e) == 0,
                }
            }),
    {
        let (replica, site, dim) = self.edge_numbered(i);
        assert(edge_sum_fits(replica_field(*state, replica as int), site, dim, self.bounds));
        match violation_at(state, replica, site, dim, &self.bounds) {
            Some(list) => Some(((replica, site, dim), list)),
            None => None,
        }
    }

    /// The edges through which there is flux, with the plaquettes around them.
    ///
    /// `state` holds the plaquettes as [`CudaBackend::get_plaquettes`] gives them.
    pub fn get_edges_with_violations(&self, state: &IntArray) -> (r: Vec<
        (Edge, Vec<(SiteIndex, usize)>),
    >)
        requires
            self.wf(),
            state.dims() == lattice_dims(self.nreplicas, self.bounds, 6),
            all_flux_fits(*state, self.nreplicas, self.bounds),
        ensures
            edges_of(r@) == violations(
                *state,
                self.nreplicas,
                self.bounds,
                all_sites(self.nreplicas, self.bounds) * 4,
            ),
    {
        let (t, x, y, z) = (self.bounds.t, self.bounds.x, self.bounds.y, self.bounds.z);
        proof {
            lemma_sizes(self.nreplicas, self.bounds);
        }
        let total = self.nreplicas * t * x * y * z * 4;
        let mut r: Vec<(Edge, Vec<(SiteIndex, usize)>)> = Vec::new();
        let mut i: usize = 0;
        assert(edges_of(r@) =~= violations(*state, self.nreplicas, self.bounds, 0));
        while i < total
            invariant
                i <= total,
                self.wf(),
                total == all_sites(self.nreplicas, self.bounds) * 4,
                state.dims() == lattice_dims(self.nreplicas, self.bounds, 6),
                all_flux_fits(*state, self.nreplicas, self.bounds),
                edges_of(r@) == violations(*state, self.nreplicas, self.bounds, i as int),
            decreases total - i,
        {
            let ghost before = r@;
            match self.edge_with_violation(state, i) {
                Some(v) => {
                    r.push(v);
                    assert(edges_of(r@) =~= edges_of(before).push((v.0, v.1@)));
                },
                None => {},
            }
            i += 1;
        }
        r
    }
}

} // verus!
