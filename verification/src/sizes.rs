//! The numbers of elements and threads that a lattice needs.

use crate::lattice::SiteIndex;
use vstd::arithmetic::div_mod::lemma_div_by_multiple;
use vstd::prelude::*;

verus! {

/// The number of sites of all replicas.
pub open spec fn all_sites(n: usize, b: SiteIndex) -> int {
    n * b.t * b.x * b.y * b.z
}

/// The number of planes that span a lattice.
pub open spec fn spanning_planes(b: SiteIndex) -> int {
    b.t * (b.x + b.y + b.z) + b.x * (b.y + b.z) + b.y * b.z
}

/// Half of the sites of one replica.
pub open spec fn half_sites(b: SiteIndex) -> int {
    b.t * b.x * b.y * b.z / 2
}

/// The number of sites in the plane normal to the planes of type `p`.
pub open spec fn normal_area(b: SiteIndex, p: int) -> int {
    if p == 0 {
        b.y * b.z
    } else if p == 1 {
        b.x * b.z
    } else if p == 2 {
        b.x * b.y
    } else if p == 3 {
        b.t * b.z
    } else if p == 4 {
        b.t * b.y
    } else {
        b.t * b.x
    }
}

/// The number of random numbers that an update can need at once.
pub open spec fn rng_len(n: usize, b: SiteIndex) -> int {
    let local = n * half_sites(b);
    let global = n * spanning_planes(b);
    if local >= global {
        local
    } else {
        global
    }
}

/// All numbers of elements and threads of `n` replicas fit in a machine word, those on
/// the way to them too.
pub open spec fn sizes_fit(n: usize, b: SiteIndex) -> bool {
    &&& n * b.t <= usize::MAX
    &&& n * b.t * b.x <= usize::MAX
    &&& n * b.t * b.x * b.y <= usize::MAX
    &&& all_sites(n, b) * 6 <= usize::MAX
    &&& b.x + b.y + b.z <= usize::MAX
    &&& n * spanning_planes(b) <= usize::MAX
}

/// Every part of the number of planes is at most the whole.
pub proof fn lemma_planes(b: SiteIndex)
    ensures
        0 <= b.t * (b.x + b.y + b.z) <= spanning_planes(b),
        0 <= b.x * (b.y + b.z) <= spanning_planes(b),
        0 <= b.y * b.z <= spanning_planes(b),
{
    let (t, x, y, z) = (b.t as int, b.x as int, b.y as int, b.z as int);
    assert(0 <= t * (x + y + z) && 0 <= x * (y + z) && 0 <= y * z) by (nonlinear_arith)
        requires
            t >= 0,
            x >= 0,
            y >= 0,
            z >= 0,
    ;
}

/// What follows for single replicas and for parts of the lattice.
pub proof fn lemma_sizes(n: usize, b: SiteIndex)
    requires
        sizes_fit(n, b),
        n > 0,
    ensures
        0 <= all_sites(n, b),
        b.t * b.x <= usize::MAX,
        b.t * b.x * b.y <= usize::MAX,
        0 <= b.t * b.x * b.y * b.z,
        b.t * b.x * b.y * b.z * 6 <= usize::MAX,
        n * (b.t * b.x * b.y * b.z) == all_sites(n, b),
        0 <= n * half_sites(b) <= all_sites(n, b),
        0 <= spanning_planes(b) <= n * spanning_planes(b),
        forall|p: int| 0 <= p < 6 ==> 0 <= #[trigger] normal_area(b, p) <= spanning_planes(b),
{
    let (m, t, x, y, z) = (n as int, b.t as int, b.x as int, b.y as int, b.z as int);
    assert(0 <= t * x <= m * t * x) by (nonlinear_arith)
        requires
            m >= 1,
            t >= 0,
            x >= 0,
    ;
    assert(0 <= t * x * y <= m * t * x * y) by (nonlinear_arith)
        requires
            m >= 1,
            t >= 0,
            x >= 0,
            y >= 0,
    ;
    let v = t * x * y * z;
    assert(0 <= v) by (nonlinear_arith)
        requires
            0 <= t * x * y,
            z >= 0,
            v == t * x * y * z,
    ;
    assert(m * v == m * t * x * y * z) by (nonlinear_arith)
        requires
            v == t * x * y * z,
    ;
    assert(v <= m * v) by (nonlinear_arith)
        requires
            m >= 1,
            v >= 0,
    ;
    let h = v / 2;
    assert(0 <= m * h <= m * v) by (nonlinear_arith)
        requires
            m >= 1,
            0 <= h <= v,
    ;
    lemma_planes(b);
    let s = spanning_planes(b);
    assert(s <= m * s) by (nonlinear_arith)
        requires
            m >= 1,
            s >= 0,
    ;
    assert(0 <= x * z <= x * (y + z) && 0 <= x * y <= x * (y + z)) by (nonlinear_arith)
        requires
            x >= 0,
            y >= 0,
            z >= 0,
    ;
    assert(0 <= t * z <= t * (x + y + z) && 0 <= t * y <= t * (x + y + z) && 0 <= t * x <= t * (x
        + y + z)) by (nonlinear_arith)
        requires
            t >= 0,
            x >= 0,
            y >= 0,
            z >= 0,
    ;
}

/// When no direction is empty it is enough that the plaquettes can be numbered.
pub proof fn law_plaquettes_fit_suffices(n: usize, b: SiteIndex)
    requires
        n > 0,
        b.t > 0,
        b.x > 0,
        b.y > 0,
        b.z > 0,
        all_sites(n, b) * 6 <= usize::MAX,
    ensures
        sizes_fit(n, b),
{
    let (m, t, x, y, z) = (n as int, b.t as int, b.x as int, b.y as int, b.z as int);
    let v = t * x * y * z;
    assert(m * v == m * t * x * y * z) by (nonlinear_arith)
        requires
            v == t * x * y * z,
    ;
    assert(1 <= m * t && m * t * x >= m * t) by (nonlinear_arith)
        requires
            m >= 1,
            t >= 1,
            x >= 1,
    ;
    assert(m * t * x * y >= m * t * x) by (nonlinear_arith)
        requires
            m * t * x >= 1,
            y >= 1,
    ;
    assert(m * t * x * y * z >= m * t * x * y) by (nonlinear_arith)
        requires
            m * t * x * y >= 1,
            z >= 1,
    ;
    assert(t * x <= v && t * y <= v && t * z <= v && x * y <= v && x * z <= v && y * z <= v)
        by (nonlinear_arith)
        requires
            t >= 1,
            x >= 1,
            y >= 1,
            z >= 1,
            v == t * x * y * z,
    {
        let (tx, ty, tz, xy, xz, yz) = (t * x, t * y, t * z, x * y, x * z, y * z);
        assert(tx >= 1 && ty >= 1 && tz >= 1 && xy >= 1 && xz >= 1 && yz >= 1);
        assert(v == tx * yz);
        assert(v == ty * xz);
        assert(v == tz * xy);
        assert(tx * yz >= tx && tx * yz >= yz);
        assert(ty * xz >= ty && ty * xz >= xz);
        assert(tz * xy >= tz && tz * xy >= xy);
    }
    let s = spanning_planes(b);
    assert(s == t * x + t * y + t * z + x * y + x * z + y * z) by (nonlinear_arith)
        requires
            s == t * (x + y + z) + x * (y + z) + y * z,
    ;
    assert(m * s <= m * (6 * v)) by (nonlinear_arith)
        requires
            m >= 1,
            s <= 6 * v,
    ;
    assert(m * (6 * v) == m * v * 6) by (nonlinear_arith);
    assert(x <= x * y && y <= x * y && z <= y * z) by (nonlinear_arith)
        requires
            x >= 1,
            y >= 1,
            z >= 1,
    ;
    assert(v <= m * v) by (nonlinear_arith)
        requires
            m >= 1,
            v >= 1,
    ;
}

/// Whether all numbers for `n` replicas fit in a machine word.
pub fn fits(n: usize, b: &SiteIndex) -> (r: bool)
    ensures
        r == sizes_fit(n, *b),
{
    let (t, x, y, z) = (b.t, b.x, b.y, b.z);
    let sites = match n.checked_mul(t) {
        Some(v) => v,
        None => {
            return false;
        },
    };
    let sites = match sites.checked_mul(x) {
        Some(v) => v,
        None => {
            return false;
        },
    };
    let sites = match sites.checked_mul(y) {
        Some(v) => v,
        None => {
            return false;
        },
    };
    let sites = match sites.checked_mul(z) {
        Some(v) => v,
        None => {
            return false;
        },
    };
    if sites.checked_mul(6).is_none() {
        return false;
    }
    let xyz = match x.checked_add(y) {
        Some(v) => match v.checked_add(z) {
            Some(w) => w,
            None => {
                return false;
            },
        },
        None => {
            return false;
        },
    };
    if n == 0 {
        assert(n * spanning_planes(*b) == 0) by (nonlinear_arith)
            requires
                n == 0,
        ;
        return true;
    }
    proof {
        lemma_planes(*b);
        let s = spanning_planes(*b);
        assert(s <= n * s) by (nonlinear_arith)
            requires
                n >= 1,
                s >= 0,
        ;
    }
    let yz = y + z;
    match (t.checked_mul(xyz), x.checked_mul(yz), y.checked_mul(z)) {
        (Some(a), Some(c), Some(d)) => match a.checked_add(c) {
            Some(v) => match v.checked_add(d) {
                Some(planes) => n.checked_mul(planes).is_some(),
                None => false,
            },
            None => false,
        },
        _ => false,
    }
}

/// Dividing by the last factor of a product removes it.
pub proof fn lemma_drop_factor(a: int, d: int)
    requires
        d > 0,
        a >= 0,
    ensures
        (a * d) / d == a,
{
    lemma_div_by_multiple(a, d);
}

} // verus!
