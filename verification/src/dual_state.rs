//! States in the language of integer plaquettes.

use crate::arrays::{
    index_in, ints, nonzero_product, product, row_major, shape_valid, IntArray,
};
use crate::lattice::{
    cube_difference, cube_of_plane, edge_sum, edge_terms, extended, law_a_cube_has_six_faces,
    law_surfaces_add_up, law_surfaces_are_closed, law_surfaces_cancel, lemma_surface_agrees,
    normal_of_plane, plaquettes_against, plaquettes_along, reversed, spanned, stepped, surface,
    Dimension, SiteIndex,
};
use crate::mesh::{
    lemma_product_positive, lemma_row_major, lemma_unravel, mesh_point, unravel,
};
use crate::sums::{lemma_sum_over_sites_equal, sum_over_sites};
use vstd::prelude::*;

verus! {

/// The axes of an array that holds `m` numbers for every site of every replica.
pub open spec fn lattice_dims(replicas: usize, b: SiteIndex, m: usize) -> Seq<usize> {
    seq![replicas, b.t, b.x, b.y, b.z, m]
}

/// The extent of the lattice in an array with these axes.
pub open spec fn bounds_of(dims: Seq<usize>) -> SiteIndex {
    SiteIndex { t: dims[1], x: dims[2], y: dims[3], z: dims[4] }
}

/// The number with index `k` at a site of a replica.
pub open spec fn site_value(a: IntArray, r: int, s: SiteIndex, k: int) -> int {
    a.at6(r, s.t as int, s.x as int, s.y as int, s.z as int, k) as int
}

/// The numbers of one replica, by site and index.
pub open spec fn replica_field(a: IntArray, r: int) -> spec_fn(SiteIndex, int) -> int {
    |s: SiteIndex, k: int| site_value(a, r, s, k)
}

/// The value of a plaquette can be computed from the volumes without leaving `i32`.
pub open spec fn surface_fits(
    c: spec_fn(SiteIndex, int) -> int,
    s: SiteIndex,
    p: int,
    b: SiteIndex,
) -> bool {
    &&& forall|k: int|
        0 <= k < 2 ==> {
            let upper = c(s, cube_of_plane(p, k));
            let lower = c(s.lowered(normal_of_plane(p, k), b), cube_of_plane(p, k));
            &&& i32::MIN <= upper - lower <= i32::MAX
            &&& i32::MIN <= #[trigger] cube_difference(c, s, p, k, b) <= i32::MAX
        }
    &&& i32::MIN <= surface(c, s, p, b) <= i32::MAX
}

/// The surfaces of volumes of up to `2^28` in size can be computed.
pub proof fn law_small_volumes_fit(
    c: spec_fn(SiteIndex, int) -> int,
    s: SiteIndex,
    p: int,
    b: SiteIndex,
)
    requires
        forall|q: SiteIndex, k: int| -0x1000_0000 <= #[trigger] c(q, k) <= 0x1000_0000,
    ensures
        surface_fits(c, s, p, b),
{
}

/// Every plaquette is what the volumes around it make it.
pub open spec fn made_of_volumes(plaquettes: IntArray, volumes: IntArray) -> bool {
    forall|r: int, s: SiteIndex, p: int|
        0 <= r < volumes.dims()[0] && s.within(bounds_of(volumes.dims())) && 0 <= p < 6
            ==> #[trigger] site_value(plaquettes, r, s, p) == surface(
            replica_field(volumes, r),
            s,
            p,
            bounds_of(volumes.dims()),
        )
}

/// The sum over all sites of a replica of the numbers with index `k`.
pub open spec fn site_sum(a: IntArray, r: int, k: int, b: SiteIndex) -> int {
    sum_over_sites(b, |s: SiteIndex| site_value(a, r, s, k))
}

/// Plaquettes made of volumes add up to zero in every plane.
proof fn lemma_planes_cancel(plaquettes: IntArray, volumes: IntArray, r: int, p: int)
    requires
        made_of_volumes(plaquettes, volumes),
        0 <= r < volumes.dims()[0],
        0 <= p < 6,
    ensures
        site_sum(plaquettes, r, p, bounds_of(volumes.dims())) == 0,
{
    let b = bounds_of(volumes.dims());
    let c = replica_field(volumes, r);
    let f = |s: SiteIndex| site_value(plaquettes, r, s, p);
    let g = |s: SiteIndex| surface(c, s, p, b);
    assert forall|s: SiteIndex| s.within(b) implies #[trigger] f(s) == g(s) by {
        assert(site_value(plaquettes, r, s, p) == surface(c, s, p, b));
    }
    lemma_sum_over_sites_equal(b, f, g);
    law_surfaces_cancel(c, p, b);
}

/// The state made of a single volume has the six faces of a cube. A volume that extends in the
/// directions `a`, `m` and `z` and has the number `w` puts `w` on its faces at its own site in
/// the planes `am` and `mz` and `-w` on the one in `az`, the opposite values one step forward
/// along the remaining direction, and zero on all other plaquettes.
pub proof fn law_a_volume_makes_a_cube(
    plaquettes: IntArray,
    volumes: IntArray,
    n: usize,
    b: SiteIndex,
    r: int,
    at: SiteIndex,
    k: int,
    w: int,
    s: SiteIndex,
    p: int,
)
    requires
        volumes.dims() == lattice_dims(n, b, 4),
        made_of_volumes(plaquettes, volumes),
        0 <= r < n,
        at.within(b),
        s.within(b),
        0 <= k < 4,
        0 <= p < 6,
        forall|q: SiteIndex, j: int|
            q.within(b) && 0 <= j < 4 ==> #[trigger] site_value(volumes, r, q, j) == (if q == at
                && j == k {
                w
            } else {
                0
            }),
        b.t >= 2,
        b.x >= 2,
        b.y >= 2,
        b.z >= 2,
    ensures
        ({
            let (a, m, z) = extended(k);
            let here = |sign: int, normal: Dimension|
                if s == at {
                    sign * w
                } else if s == stepped(at, normal, b) {
                    -sign * w
                } else {
                    0
                };
            site_value(plaquettes, r, s, p) == if spanned(p) == (a, m) {
                here(1, z)
            } else if spanned(p) == (a, z) {
                here(-1, m)
            } else if spanned(p) == (m, z) {
                here(1, a)
            } else {
                0
            }
        }),
{
    let field = replica_field(volumes, r);
    let cube = |q: SiteIndex, j: int|
        if q == at && j == k {
            w
        } else {
            0
        };
    assert(bounds_of(volumes.dims()) == b);
    assert forall|q: SiteIndex, j: int| q.within(b) && 0 <= j < 4 implies #[trigger] field(q, j)
        == cube(q, j) by {
        assert(site_value(volumes, r, q, j) == cube(q, j));
    }
    lemma_surface_agrees(field, cube, s, p, b);
    law_a_cube_has_six_faces(at, k, w, s, p, b);
    assert(site_value(plaquettes, r, s, p) == surface(field, s, p, b));
}

/// The plaquettes of volumes added up are the plaquettes added up.
pub proof fn law_plaquettes_of_volumes_add_up(
    first: IntArray,
    second: IntArray,
    both: IntArray,
    plaquettes_of_first: IntArray,
    plaquettes_of_second: IntArray,
    plaquettes_of_both: IntArray,
)
    requires
        first.dims().len() == 6,
        first.dims()[5] == 4,
        second.dims() == first.dims(),
        both.dims() == first.dims(),
        forall|i: int|
            0 <= i < product(first.dims()) ==> #[trigger] both.elems()[i] == first.elems()[i]
                + second.elems()[i],
        plaquettes_of_first.dims() == first.dims().update(5, 6),
        plaquettes_of_second.dims() == first.dims().update(5, 6),
        plaquettes_of_both.dims() == first.dims().update(5, 6),
        made_of_volumes(plaquettes_of_first, first),
        made_of_volumes(plaquettes_of_second, second),
        made_of_volumes(plaquettes_of_both, both),
    ensures
        forall|i: int|
            0 <= i < product(first.dims().update(5, 6))
                ==> #[trigger] plaquettes_of_both.elems()[i] == plaquettes_of_first.elems()[i]
                + plaquettes_of_second.elems()[i],
{
    let dims = first.dims().update(5, 6);
    let b = bounds_of(first.dims());
    assert forall|i: int| 0 <= i < product(dims) implies #[trigger] plaquettes_of_both.elems()[i]
        == plaquettes_of_first.elems()[i] + plaquettes_of_second.elems()[i] by {
        lemma_unravel(dims, i);
        let u = unravel(dims, i);
        assert(forall|k: int| 0 <= k < 6 ==> 0 <= #[trigger] u[k] < dims[k]);
        let (r, s, p) = (u[0], site_of(u), u[5]);
        assert(u[1] < b.t && u[2] < b.x && u[3] < b.y && u[4] < b.z && p < 6);
        assert(u =~= seq![r, s.t as int, s.x as int, s.y as int, s.z as int, p]);
        let (f, g, h) = (replica_field(first, r), replica_field(second, r), replica_field(both, r));
        let sum = |q: SiteIndex, k: int| f(q, k) + g(q, k);
        assert forall|q: SiteIndex, k: int| q.within(b) && 0 <= k < 4 implies #[trigger] h(q, k)
            == sum(q, k) by {
            let index = seq![r, q.t as int, q.x as int, q.y as int, q.z as int, k];
            assert(index_in(first.dims(), index));
            lemma_row_major(first.dims(), index);
            let j = row_major(first.dims(), index);
            assert(both.elems()[j] == first.elems()[j] + second.elems()[j]);
        }
        lemma_surface_agrees(h, sum, s, p, b);
        law_surfaces_add_up(f, g, s, p, b);
        assert(site_value(plaquettes_of_both, r, s, p) == surface(h, s, p, b));
        assert(site_value(plaquettes_of_first, r, s, p) == surface(f, s, p, b));
        assert(site_value(plaquettes_of_second, r, s, p) == surface(g, s, p, b));
    }
}

/// Two assignments that agree on all plaquettes have the same flux through every edge.
pub proof fn lemma_edge_sum_agrees(
    f: spec_fn(SiteIndex, int) -> int,
    g: spec_fn(SiteIndex, int) -> int,
    s: SiteIndex,
    d: Dimension,
    b: SiteIndex,
)
    requires
        s.within(b),
        forall|q: SiteIndex, p: int| q.within(b) && 0 <= p < 6 ==> #[trigger] f(q, p) == g(q, p),
    ensures
        edge_sum(f, s, d, b) == edge_sum(g, s, d, b),
{
    let along = plaquettes_along(s, d, b);
    let against = plaquettes_against(s, d, b);
    assert(forall|k: int| 0 <= k < 3 ==> (#[trigger] along[k]).0.within(b) && along[k].1 < 6);
    assert(forall|k: int| 0 <= k < 3 ==> (#[trigger] against[k]).0.within(b) && against[k].1 < 6);
    assert(edge_terms(f, s, d, b) =~= edge_terms(g, s, d, b));
}

/// The number with index `k` at a site of a replica.
pub fn value_at(a: &IntArray, r: usize, s: &SiteIndex, k: usize) -> (v: i32)
    requires
        a.dims().len() == 6,
        r < a.dims()[0],
        s.within(bounds_of(a.dims())),
        k < a.dims()[5],
    ensures
        v == site_value(*a, r as int, *s, k as int),
{
    let index: [usize; 6] = [r, s.t, s.x, s.y, s.z, k];
    proof {
        let i = ints(index@);
        assert(i =~= seq![r as int, s.t as int, s.x as int, s.y as int, s.z as int, k as int]);
        assert(index_in(a.dims(), i));
    }
    a.get(index.as_slice()).unwrap()
}

/// A state in the language of integer plaquettes.
///
/// The axes are replica, the four coordinates, and the plane.
#[derive(Debug, PartialEq)]
pub struct DualState {
    /// The value of every plaquette.
    pub plaquettes: IntArray,
}

impl Clone for DualState {
    fn clone(&self) -> (r: Self)
        ensures
            r.plaquettes.dims() == self.plaquettes.dims(),
            r.plaquettes.elems() == self.plaquettes.elems(),
    {
        DualState { plaquettes: self.plaquettes.clone() }
    }
}

/// The volumes that a plane borders.
const CUBE_TYPES_FOR_PLANE_TYPE: [[usize; 2]; 6] = [
    [0, 1],
    [0, 2],
    [1, 2],
    [0, 3],
    [1, 3],
    [2, 3],
];

/// The directions in which those volumes extend beyond the plane.
const NORMAL_DIM_FOR_CUBE_PLANEINDEX: [[usize; 2]; 6] = [
    [2, 3],
    [1, 3],
    [1, 2],
    [0, 3],
    [0, 2],
    [0, 1],
];

/// The orientation of each plane on the surface of each volume.
const SIGN_CONVENTION: [[i32; 6]; 4] = [
    [1, -1, 0, 1, 0, 0],
    [1, 0, -1, 0, 1, 0],
    [0, 1, -1, 0, 0, 1],
    [0, 0, 0, 1, -1, 1],
];

impl DualState {
    /// The planes are the last of six axes.
    pub open spec fn wf(&self) -> bool {
        self.plaquettes.dims().len() == 6 && self.plaquettes.dims()[5] == 6
    }

    /// The value of every plaquette.
    pub fn get_plaquettes(&self) -> (r: &IntArray)
        ensures
            *r == self.plaquettes,
    {
        &self.plaquettes
    }

    /// The state with the given plaquettes.
    pub fn new_plaquettes(plaquettes: IntArray) -> (r: Self)
        requires
            plaquettes.dims().len() == 6,
            plaquettes.dims()[5] == 6,
        ensures
            r.plaquettes == plaquettes,
            r.wf(),
    {
        DualState { plaquettes }
    }

    /// The orientation of a plaquette on one of the two volumes of its plane, and the
    /// numbers of that volume at the plaquette and on its other side.
    fn cube_values(
        volumes: &IntArray,
        r: usize,
        s: &SiteIndex,
        p: usize,
        k: usize,
        bounds: &SiteIndex,
    ) -> (v: (i32, i32, i32))
        requires
            volumes.dims().len() == 6,
            volumes.dims()[5] == 4,
            *bounds == bounds_of(volumes.dims()),
            r < volumes.dims()[0],
            s.within(*bounds),
            p < 6,
            k < 2,
        ensures
            v.0 == (if reversed(p as int, k as int) {
                -1int
            } else {
                1int
            }),
            ({
                let c = replica_field(*volumes, r as int);
                let cube = cube_of_plane(p as int, k as int);
                let lowered = s.lowered(normal_of_plane(p as int, k as int), *bounds);
                v.1 == c(*s, cube) && v.2 == c(lowered, cube)
            }),
    {
        let cube_type: usize = CUBE_TYPES_FOR_PLANE_TYPE[p][k];
        let normal: usize = NORMAL_DIM_FOR_CUBE_PLANEINDEX[p][k];
        assert(cube_type == cube_of_plane(p as int, k as int));
        let direction = Dimension::from_index(normal);
        assert(direction == normal_of_plane(p as int, k as int));
        let sign: i32 = SIGN_CONVENTION[cube_type][p];
        let cube_val = value_at(volumes, r, s, cube_type);
        let lowered = s.lower(direction, bounds);
        let lower_cube_val = value_at(volumes, r, &lowered, cube_type);
        (sign, cube_val, lower_cube_val)
    }

    /// What one of the two volumes of a plane adds to a plaquette.
    fn cube_contribution(
        volumes: &IntArray,
        r: usize,
        s: &SiteIndex,
        p: usize,
        k: usize,
        bounds: &SiteIndex,
    ) -> (v: i32)
        requires
            volumes.dims().len() == 6,
            volumes.dims()[5] == 4,
            *bounds == bounds_of(volumes.dims()),
            r < volumes.dims()[0],
            s.within(*bounds),
            p < 6,
            k < 2,
            surface_fits(replica_field(*volumes, r as int), *s, p as int, *bounds),
        ensures
            v == cube_difference(
                replica_field(*volumes, r as int),
                *s,
                p as int,
                k as int,
                *bounds,
            ),
    {
        let (sign, cube_val, lower_cube_val) = Self::cube_values(volumes, r, s, p, k, bounds);
        proof {
            let c = replica_field(*volumes, r as int);
            let d = cube_difference(c, *s, p as int, k as int, *bounds);
            assert(i32::MIN <= d <= i32::MAX);
            assert(sign * (cube_val - lower_cube_val) == d) by (nonlinear_arith)
                requires
                    (sign == 1 && d == cube_val - lower_cube_val) || (sign == -1 && d
                        == lower_cube_val - cube_val),
            ;
        }
        sign * (cube_val - lower_cube_val)
    }

    /// Whether a plaquette can be computed from the volumes without leaving `i32`.
    fn plaquette_fits(
        volumes: &IntArray,
        r: usize,
        s: &SiteIndex,
        p: usize,
        bounds: &SiteIndex,
    ) -> (ok: bool)
        requires
            volumes.dims().len() == 6,
            volumes.dims()[5] == 4,
            *bounds == bounds_of(volumes.dims()),
            r < volumes.dims()[0],
            s.within(*bounds),
            p < 6,
        ensures
            ok == surface_fits(replica_field(*volumes, r as int), *s, p as int, *bounds),
    {
        let ghost c = replica_field(*volumes, r as int);
        let mut sum: i64 = 0;
        let mut k: usize = 0;
        let mut ok = true;
        while k < 2
            invariant
                k <= 2,
                volumes.dims().len() == 6,
                volumes.dims()[5] == 4,
                *bounds == bounds_of(volumes.dims()),
                r < volumes.dims()[0],
                s.within(*bounds),
                p < 6,
                c == replica_field(*volumes, r as int),
                -0x1_0000_0000 * k <= sum <= 0x1_0000_0000 * k,
                sum == (if k >= 1 {
                    cube_difference(c, *s, p as int, 0, *bounds)
                } else {
                    0
                }) + (if k >= 2 {
                    cube_difference(c, *s, p as int, 1, *bounds)
                } else {
                    0
                }),
                ok == (forall|l: int|
                    0 <= l < k ==> {
                        let upper = c(*s, cube_of_plane(p as int, l));
                        let lower = c(
                            s.lowered(normal_of_plane(p as int, l), *bounds),
                            cube_of_plane(p as int, l),
                        );
                        &&& i32::MIN <= upper - lower <= i32::MAX
                        &&& i32::MIN <= #[trigger] cube_difference(c, *s, p as int, l, *bounds)
                            <= i32::MAX
                    }),
            decreases 2 - k,
        {
            let (sign, upper, lower) = Self::cube_values(volumes, r, s, p, k, bounds);
            let difference: i64 = upper as i64 - lower as i64;
            let oriented: i64 = if sign < 0 {
                lower as i64 - upper as i64
            } else {
                difference
            };
            assert(oriented == cube_difference(c, *s, p as int, k as int, *bounds));
            let least: i64 = i32::MIN as i64;
            let most: i64 = i32::MAX as i64;
            if difference < least || difference > most || oriented < least || oriented > most {
                ok = false;
            }
            sum = sum + oriented;
            k += 1;
        }
        ok && i32::MIN as i64 <= sum && sum <= i32::MAX as i64
    }

    /// Whether [`DualState::new_volumes`] can compute all plaquettes without leaving `i32`.
    pub fn volumes_fit(volumes: &IntArray) -> (ok: bool)
        requires
            volumes.dims().len() == 6,
            volumes.dims()[5] == 4,
            shape_valid(volumes.dims().update(5, 6)),
        ensures
            ok == (forall|r: int, s: SiteIndex, p: int|
                0 <= r < volumes.dims()[0] && s.within(bounds_of(volumes.dims())) && 0 <= p < 6
                    ==> #[trigger] surface_fits(
                    replica_field(*volumes, r),
                    s,
                    p,
                    bounds_of(volumes.dims()),
                )),
    {
        let mut shape = volumes.shape();
        shape.set(5, 6);
        let ghost dims = volumes.dims().update(5, 6);
        let bounds = SiteIndex { t: shape[1], x: shape[2], y: shape[3], z: shape[4] };
        let total = size_of_shape(shape.as_slice());
        let mut i: usize = 0;
        while i < total
            invariant
                i <= total,
                total == product(dims),
                shape@ == dims,
                dims == volumes.dims().update(5, 6),
                volumes.dims().len() == 6,
                volumes.dims()[5] == 4,
                bounds == bounds_of(volumes.dims()),
                forall|j: int|
                    0 <= j < i ==> #[trigger] surface_fits_at(*volumes, unravel(dims, j), bounds),
            decreases total - i,
        {
            let point = mesh_point(shape.as_slice(), i);
            let ghost u = unravel(dims, i as int);
            assert(forall|k: int| 0 <= k < 6 ==> #[trigger] ints(point@)[k] == point@[k]);
            assert(forall|k: int| 0 <= k < 6 ==> 0 <= #[trigger] u[k] < dims[k]);
            let (r, p) = (point[0], point[5]);
            let s = SiteIndex { t: point[1], x: point[2], y: point[3], z: point[4] };
            assert(u[0] == r && u[1] == s.t && u[2] == s.x && u[3] == s.y && u[4] == s.z && u[5]
                == p);
            assert(s.within(bounds));
            assert(s == site_of(u));
            if !Self::plaquette_fits(volumes, r, &s, p, &bounds) {
                assert(!surface_fits(replica_field(*volumes, r as int), s, p as int, bounds));
                return false;
            }
            i += 1;
        }
        proof {
            let b = bounds_of(volumes.dims());
            assert forall|r: int, s: SiteIndex, p: int|
                0 <= r < volumes.dims()[0] && s.within(b) && 0 <= p < 6 implies #[trigger] surface_fits(
                replica_field(*volumes, r),
                s,
                p,
                b,
            ) by {
                let index = seq![r, s.t as int, s.x as int, s.y as int, s.z as int, p];
                assert(index_in(dims, index));
                lemma_row_major(dims, index);
                assert(site_of(index) == s);
                assert(surface_fits_at(*volumes, unravel(dims, row_major(dims, index)), bounds));
            }
        }
        true
    }

    /// The state in which every volume contributes its surface as often as `volumes` says.
    ///
    /// Such a state has no flux through any edge.
    pub fn new_volumes(volumes: IntArray) -> (state: Self)
        requires
            volumes.dims().len() == 6,
            volumes.dims()[5] == 4,
            shape_valid(volumes.dims().update(5, 6)),
            forall|r: int, s: SiteIndex, p: int|
                0 <= r < volumes.dims()[0] && s.within(bounds_of(volumes.dims())) && 0 <= p < 6
                    ==> #[trigger] surface_fits(
                    replica_field(volumes, r),
                    s,
                    p,
                    bounds_of(volumes.dims()),
                ),
        ensures
            state.wf(),
            state.plaquettes.dims() == volumes.dims().update(5, 6),
            made_of_volumes(state.plaquettes, volumes),
            forall|r: int, s: SiteIndex, d: Dimension|
                0 <= r < volumes.dims()[0] && s.within(bounds_of(volumes.dims()))
                    ==> #[trigger] edge_sum(
                    replica_field(state.plaquettes, r),
                    s,
                    d,
                    bounds_of(volumes.dims()),
                ) == 0,
            forall|r: int, p: int|
                0 <= r < volumes.dims()[0] && 0 <= p < 6 ==> #[trigger] site_sum(
                    state.plaquettes,
                    r,
                    p,
                    bounds_of(volumes.dims()),
                ) == 0,
    {
        let mut shape = volumes.shape();
        shape.set(5, 6);
        let ghost dims = volumes.dims().update(5, 6);
        let bounds = SiteIndex { t: shape[1], x: shape[2], y: shape[3], z: shape[4] };
        let total = size_of_shape(shape.as_slice());
        let mut plaquettes: Vec<i32> = Vec::new();
        let mut i: usize = 0;
        while i < total
            invariant
                i <= total,
                total == product(dims),
                shape@ == dims,
                dims == volumes.dims().update(5, 6),
                volumes.dims().len() == 6,
                volumes.dims()[5] == 4,
                bounds == bounds_of(volumes.dims()),
                forall|r: int, s: SiteIndex, p: int|
                    0 <= r < volumes.dims()[0] && s.within(bounds) && 0 <= p < 6
                        ==> #[trigger] surface_fits(replica_field(volumes, r), s, p, bounds),
                plaquettes@.len() == i,
                forall|j: int|
                    0 <= j < i ==> #[trigger] plaquettes@[j] == surface_at(
                        volumes,
                        unravel(dims, j),
                        bounds,
                    ),
            decreases total - i,
        {
            let point = mesh_point(shape.as_slice(), i);
            let ghost u = unravel(dims, i as int);
            assert(forall|k: int| 0 <= k < 6 ==> #[trigger] ints(point@)[k] == point@[k]);
            assert(forall|k: int| 0 <= k < 6 ==> 0 <= #[trigger] u[k] < dims[k]);
            let (r, p) = (point[0], point[5]);
            let s = SiteIndex { t: point[1], x: point[2], y: point[3], z: point[4] };
            assert(u[0] == r && u[1] == s.t && u[2] == s.x && u[3] == s.y && u[4] == s.z && u[5]
                == p);
            assert(s.within(bounds));
            assert(s == site_of(u));
            assert(surface_fits(replica_field(volumes, r as int), s, p as int, bounds));
            let first = Self::cube_contribution(&volumes, r, &s, p, 0, &bounds);
            let second = Self::cube_contribution(&volumes, r, &s, p, 1, &bounds);
            plaquettes.push(first + second);
            i += 1;
        }
        let plaquettes = IntArray::from_shape_vec(shape.as_slice(), plaquettes).unwrap();
        proof {
            let b = bounds_of(volumes.dims());
            assert forall|r: int, s: SiteIndex, p: int|
                0 <= r < volumes.dims()[0] && s.within(b) && 0 <= p < 6 implies #[trigger] site_value(
                plaquettes,
                r,
                s,
                p,
            ) == surface(replica_field(volumes, r), s, p, b) by {
                let index = seq![r, s.t as int, s.x as int, s.y as int, s.z as int, p];
                assert(index_in(dims, index));
                lemma_row_major(dims, index);
                assert(site_of(index) == s);
            }
            assert forall|r: int, s: SiteIndex, d: Dimension|
                0 <= r < volumes.dims()[0] && s.within(b) implies #[trigger] edge_sum(
                replica_field(plaquettes, r),
                s,
                d,
                b,
            ) == 0 by {
                let c = replica_field(volumes, r);
                let f = replica_field(plaquettes, r);
                let g = |q: SiteIndex, p: int| surface(c, q, p, b);
                assert forall|q: SiteIndex, p: int| q.within(b) && 0 <= p < 6 implies #[trigger] f(
                    q,
                    p,
                ) == g(q, p) by {
                    assert(site_value(plaquettes, r, q, p) == surface(c, q, p, b));
                }
                lemma_edge_sum_agrees(f, g, s, d, b);
                law_surfaces_are_closed(c, s, d, b);
            }
            assert forall|r: int, p: int|
                0 <= r < volumes.dims()[0] && 0 <= p < 6 implies #[trigger] site_sum(
                plaquettes,
                r,
                p,
                b,
            ) == 0 by {
                lemma_planes_cancel(plaquettes, volumes, r, p);
            }
        }
        Self::new_plaquettes(plaquettes)
    }
}

/// The site in an index of six coordinates.
pub open spec fn site_of(index: Seq<int>) -> SiteIndex {
    SiteIndex {
        t: index[1] as usize,
        x: index[2] as usize,
        y: index[3] as usize,
        z: index[4] as usize,
    }
}

/// The value of the plaquette at an index of six coordinates, from the volumes.
spec fn surface_at(volumes: IntArray, index: Seq<int>, b: SiteIndex) -> int {
    surface(replica_field(volumes, index[0]), site_of(index), index[5], b)
}

/// The plaquette at an index of six coordinates can be computed from the volumes.
spec fn surface_fits_at(volumes: IntArray, index: Seq<int>, b: SiteIndex) -> bool {
    surface_fits(replica_field(volumes, index[0]), site_of(index), index[5], b)
}

/// The number of elements of an array with these axes.
fn size_of_shape(shape: &[usize]) -> (r: usize)
    requires
        shape_valid(shape@),
    ensures
        r == product(shape@),
    decreases shape@.len(),
{
    let n = shape.len();
    if n == 0 {
        1
    } else {
        proof {
            lemma_product_positive(shape@);
            lemma_product_positive(shape@.drop_last());
            assert(shape@.drop_last() =~= shape@.subrange(0, n - 1));
            let q = nonzero_product(shape@.drop_last());
            let d = shape@.last() as nat;
            if d > 0 {
                assert(q <= q * d) by (nonlinear_arith)
                    requires
                        d >= 1,
                ;
            }
        }
        let head = size_of_shape(vstd::slice::slice_subrange(shape, 0, n - 1));
        head * shape[n - 1]
    }
}

} // verus!
