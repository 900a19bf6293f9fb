//! Sums over the sites of a lattice.

use crate::lattice::{before, Dimension, SiteIndex};
use vstd::prelude::*;

verus! {

/// The sum of `f` over the numbers below `n`.
pub open spec fn sum_below(n: int, f: spec_fn(int) -> int) -> int
    decreases n,
{
    if n <= 0 {
        0
    } else {
        sum_below(n - 1, f) + f(n - 1)
    }
}

/// The site with these coordinates.
pub open spec fn site_at(t: int, x: int, y: int, z: int) -> SiteIndex {
    SiteIndex { t: t as usize, x: x as usize, y: y as usize, z: z as usize }
}

/// The sum of `h` over the sites with the given time and first two coordinates.
pub open spec fn sum_over_z(
    b: SiteIndex,
    h: spec_fn(SiteIndex) -> int,
    t: int,
    x: int,
    y: int,
) -> int {
    sum_below(b.z as int, |z: int| h(site_at(t, x, y, z)))
}

/// The sum of `h` over the sites with the given time and first coordinate.
pub open spec fn sum_over_yz(b: SiteIndex, h: spec_fn(SiteIndex) -> int, t: int, x: int) -> int {
    sum_below(b.y as int, |y: int| sum_over_z(b, h, t, x, y))
}

/// The sum of `h` over the sites with the given time.
pub open spec fn sum_over_xyz(b: SiteIndex, h: spec_fn(SiteIndex) -> int, t: int) -> int {
    sum_below(b.x as int, |x: int| sum_over_yz(b, h, t, x))
}

/// The sum of `h` over all sites of a lattice.
pub open spec fn sum_over_sites(b: SiteIndex, h: spec_fn(SiteIndex) -> int) -> int {
    sum_below(b.t as int, |t: int| sum_over_xyz(b, h, t))
}

/// Sums of equal terms are equal.
proof fn lemma_sum_equal(n: int, f: spec_fn(int) -> int, g: spec_fn(int) -> int)
    requires
        forall|i: int| 0 <= i < n ==> #[trigger] f(i) == g(i),
    ensures
        sum_below(n, f) == sum_below(n, g),
    decreases n,
{
    if n > 0 {
        lemma_sum_equal(n - 1, f, g);
        assert(f(n - 1) == g(n - 1));
    }
}

/// The sum of sums is the sum of both.
proof fn lemma_sum_add(
    n: int,
    f: spec_fn(int) -> int,
    g: spec_fn(int) -> int,
    h: spec_fn(int) -> int,
)
    requires
        forall|i: int| 0 <= i < n ==> #[trigger] h(i) == f(i) + g(i),
    ensures
        sum_below(n, h) == sum_below(n, f) + sum_below(n, g),
    decreases n,
{
    if n > 0 {
        lemma_sum_add(n - 1, f, g, h);
        assert(h(n - 1) == f(n - 1) + g(n - 1));
    }
}

/// The first `k` terms one step back on a circle.
proof fn lemma_sum_back(n: usize, f: spec_fn(int) -> int, g: spec_fn(int) -> int, k: int)
    requires
        1 <= k <= n,
        forall|i: int| 0 <= i < n ==> #[trigger] g(i) == f(before(i as usize, n) as int),
    ensures
        sum_below(k, g) == f(n - 1) + sum_below(k - 1, f),
    decreases k,
{
    assert(g(k - 1) == f(before((k - 1) as usize, n) as int));
    if k > 1 {
        lemma_sum_back(n, f, g, k - 1);
    } else {
        reveal_with_fuel(sum_below, 2);
    }
}

/// A step back on a circle leaves the sum as it is.
proof fn lemma_sum_around(n: usize, f: spec_fn(int) -> int, g: spec_fn(int) -> int)
    requires
        forall|i: int| 0 <= i < n ==> #[trigger] g(i) == f(before(i as usize, n) as int),
    ensures
        sum_below(n as int, g) == sum_below(n as int, f),
{
    if n > 0 {
        lemma_sum_back(n, f, g, n as int);
    }
}

/// Sums of equal terms over all sites are equal.
pub proof fn lemma_sum_over_sites_equal(
    b: SiteIndex,
    f: spec_fn(SiteIndex) -> int,
    g: spec_fn(SiteIndex) -> int,
)
    requires
        forall|s: SiteIndex| s.within(b) ==> #[trigger] f(s) == g(s),
    ensures
        sum_over_sites(b, f) == sum_over_sites(b, g),
{
    let zero = |s: SiteIndex| 0int;
    assert forall|s: SiteIndex| s.within(b) implies #[trigger] f(s) == g(s) + zero(s) by {}
    lemma_sum_over_sites_add(b, g, zero, f);
    assert forall|s: SiteIndex| s.within(b) implies #[trigger] zero(s) == zero(s) + zero(s) by {}
    lemma_sum_over_sites_add(b, zero, zero, zero);
}

/// The sum of sums over all sites is the sum of both.
pub proof fn lemma_sum_over_sites_add(
    b: SiteIndex,
    f: spec_fn(SiteIndex) -> int,
    g: spec_fn(SiteIndex) -> int,
    h: spec_fn(SiteIndex) -> int,
)
    requires
        forall|s: SiteIndex| s.within(b) ==> #[trigger] h(s) == f(s) + g(s),
    ensures
        sum_over_sites(b, h) == sum_over_sites(b, f) + sum_over_sites(b, g),
{
    assert forall|t: int| 0 <= t < b.t implies #[trigger] sum_over_xyz(b, h, t) == sum_over_xyz(
        b,
        f,
        t,
    ) + sum_over_xyz(b, g, t) by {
        assert forall|x: int| 0 <= x < b.x implies #[trigger] sum_over_yz(b, h, t, x)
            == sum_over_yz(b, f, t, x) + sum_over_yz(b, g, t, x) by {
            assert forall|y: int| 0 <= y < b.y implies #[trigger] sum_over_z(b, h, t, x, y)
                == sum_over_z(b, f, t, x, y) + sum_over_z(b, g, t, x, y) by {
                let (fz, gz, hz) = (
                    |z: int| f(site_at(t, x, y, z)),
                    |z: int| g(site_at(t, x, y, z)),
                    |z: int| h(site_at(t, x, y, z)),
                );
                assert forall|z: int| 0 <= z < b.z implies #[trigger] hz(z) == fz(z) + gz(z) by {
                    assert(site_at(t, x, y, z).within(b));
                    assert(h(site_at(t, x, y, z)) == f(site_at(t, x, y, z)) + g(site_at(t, x, y, z)));
                }
                lemma_sum_add(b.z as int, fz, gz, hz);
            }
            lemma_sum_add(
                b.y as int,
                |y: int| sum_over_z(b, f, t, x, y),
                |y: int| sum_over_z(b, g, t, x, y),
                |y: int| sum_over_z(b, h, t, x, y),
            );
        }
        lemma_sum_add(
            b.x as int,
            |x: int| sum_over_yz(b, f, t, x),
            |x: int| sum_over_yz(b, g, t, x),
            |x: int| sum_over_yz(b, h, t, x),
        );
    }
    lemma_sum_add(
        b.t as int,
        |t: int| sum_over_xyz(b, f, t),
        |t: int| sum_over_xyz(b, g, t),
        |t: int| sum_over_xyz(b, h, t),
    );
}

/// A step back in any direction leaves the sum over all sites as it is.
pub proof fn lemma_sum_over_sites_back(
    b: SiteIndex,
    f: spec_fn(SiteIndex) -> int,
    g: spec_fn(SiteIndex) -> int,
    d: Dimension,
)
    requires
        forall|s: SiteIndex| #[trigger] g(s) == f(s.lowered(d, b)),
    ensures
        sum_over_sites(b, g) == sum_over_sites(b, f),
{
    match d {
        Dimension::T => {
            assert forall|t: int| 0 <= t < b.t implies #[trigger] sum_over_xyz(b, g, t)
                == sum_over_xyz(b, f, before(t as usize, b.t) as int) by {
                let u = before(t as usize, b.t) as int;
                assert forall|x: int| 0 <= x < b.x implies #[trigger] sum_over_yz(b, g, t, x)
                    == sum_over_yz(b, f, u, x) by {
                    assert forall|y: int| 0 <= y < b.y implies #[trigger] sum_over_z(b, g, t, x, y)
                        == sum_over_z(b, f, u, x, y) by {
                        assert forall|z: int| 0 <= z < b.z implies #[trigger] g(site_at(t, x, y, z))
                            == f(site_at(u, x, y, z)) by {
                            assert(site_at(t, x, y, z).lowered(d, b) == site_at(u, x, y, z));
                        }
                        lemma_z_equal(b, g, t, x, y, f, u, x, y);
                    }
                    lemma_sum_equal(
                        b.y as int,
                        |y: int| sum_over_z(b, g, t, x, y),
                        |y: int| sum_over_z(b, f, u, x, y),
                    );
                }
                lemma_sum_equal(
                    b.x as int,
                    |x: int| sum_over_yz(b, g, t, x),
                    |x: int| sum_over_yz(b, f, u, x),
                );
            }
            lemma_sum_around(
                b.t,
                |t: int| sum_over_xyz(b, f, t),
                |t: int| sum_over_xyz(b, g, t),
            );
        },
        Dimension::X => {
            assert forall|t: int| 0 <= t < b.t implies #[trigger] sum_over_xyz(b, g, t)
                == sum_over_xyz(b, f, t) by {
                assert forall|x: int| 0 <= x < b.x implies #[trigger] sum_over_yz(b, g, t, x)
                    == sum_over_yz(b, f, t, before(x as usize, b.x) as int) by {
                    let u = before(x as usize, b.x) as int;
                    assert forall|y: int| 0 <= y < b.y implies #[trigger] sum_over_z(b, g, t, x, y)
                        == sum_over_z(b, f, t, u, y) by {
                        assert forall|z: int| 0 <= z < b.z implies #[trigger] g(site_at(t, x, y, z))
                            == f(site_at(t, u, y, z)) by {
                            assert(site_at(t, x, y, z).lowered(d, b) == site_at(t, u, y, z));
                        }
                        lemma_z_equal(b, g, t, x, y, f, t, u, y);
                    }
                    lemma_sum_equal(
                        b.y as int,
                        |y: int| sum_over_z(b, g, t, x, y),
                        |y: int| sum_over_z(b, f, t, u, y),
                    );
                }
                lemma_sum_around(
                    b.x,
                    |x: int| sum_over_yz(b, f, t, x),
                    |x: int| sum_over_yz(b, g, t, x),
                );
            }
            lemma_sum_equal(
                b.t as int,
                |t: int| sum_over_xyz(b, g, t),
                |t: int| sum_over_xyz(b, f, t),
            );
        },
        Dimension::Y => {
            assert forall|t: int| 0 <= t < b.t implies #[trigger] sum_over_xyz(b, g, t)
                == sum_over_xyz(b, f, t) by {
                assert forall|x: int| 0 <= x < b.x implies #[trigger] sum_over_yz(b, g, t, x)
                    == sum_over_yz(b, f, t, x) by {
                    assert forall|y: int| 0 <= y < b.y implies #[trigger] sum_over_z(b, g, t, x, y)
                        == sum_over_z(b, f, t, x, before(y as usize, b.y) as int) by {
                        let u = before(y as usize, b.y) as int;
                        assert forall|z: int| 0 <= z < b.z implies #[trigger] g(site_at(t, x, y, z))
                            == f(site_at(t, x, u, z)) by {
                            assert(site_at(t, x, y, z).lowered(d, b) == site_at(t, x, u, z));
                        }
                        lemma_z_equal(b, g, t, x, y, f, t, x, u);
                    }
                    lemma_sum_around(
                        b.y,
                        |y: int| sum_over_z(b, f, t, x, y),
                        |y: int| sum_over_z(b, g, t, x, y),
                    );
                }
                lemma_sum_equal(
                    b.x as int,
                    |x: int| sum_over_yz(b, g, t, x),
                    |x: int| sum_over_yz(b, f, t, x),
                );
            }
            lemma_sum_equal(
                b.t as int,
                |t: int| sum_over_xyz(b, g, t),
                |t: int| sum_over_xyz(b, f, t),
            );
        },
        Dimension::Z => {
            assert forall|t: int| 0 <= t < b.t implies #[trigger] sum_over_xyz(b, g, t)
                == sum_over_xyz(b, f, t) by {
                assert forall|x: int| 0 <= x < b.x implies #[trigger] sum_over_yz(b, g, t, x)
                    == sum_over_yz(b, f, t, x) by {
                    assert forall|y: int| 0 <= y < b.y implies #[trigger] sum_over_z(b, g, t, x, y)
                        == sum_over_z(b, f, t, x, y) by {
                        let fz = |z: int| f(site_at(t, x, y, z));
                        let gz = |z: int| g(site_at(t, x, y, z));
                        assert forall|z: int| 0 <= z < b.z implies #[trigger] gz(z) == fz(
                            before(z as usize, b.z) as int,
                        ) by {
                            let u = before(z as usize, b.z) as int;
                            assert(site_at(t, x, y, z).lowered(d, b) == site_at(t, x, y, u));
                            assert(g(site_at(t, x, y, z)) == f(site_at(t, x, y, u)));
                        }
                        lemma_sum_around(b.z, fz, gz);
                    }
                    lemma_sum_equal(
                        b.y as int,
                        |y: int| sum_over_z(b, g, t, x, y),
                        |y: int| sum_over_z(b, f, t, x, y),
                    );
                }
                lemma_sum_equal(
                    b.x as int,
                    |x: int| sum_over_yz(b, g, t, x),
                    |x: int| sum_over_yz(b, f, t, x),
                );
            }
            lemma_sum_equal(
                b.t as int,
                |t: int| sum_over_xyz(b, g, t),
                |t: int| sum_over_xyz(b, f, t),
            );
        },
    }
}

/// Equal rows of sites have equal sums.
proof fn lemma_z_equal(
    b: SiteIndex,
    g: spec_fn(SiteIndex) -> int,
    t: int,
    x: int,
    y: int,
    f: spec_fn(SiteIndex) -> int,
    u: int,
    v: int,
    w: int,
)
    requires
        forall|z: int|
            0 <= z < b.z ==> #[trigger] g(site_at(t, x, y, z)) == f(site_at(u, v, w, z)),
    ensures
        sum_over_z(b, g, t, x, y) == sum_over_z(b, f, u, v, w),
{
    let gz = |z: int| g(site_at(t, x, y, z));
    let fz = |z: int| f(site_at(u, v, w, z));
    assert forall|z: int| 0 <= z < b.z implies #[trigger] gz(z) == fz(z) by {}
    lemma_sum_equal(b.z as int, gz, fz);
}

/// The sum of equal terms.
proof fn lemma_sum_constant(n: int, f: spec_fn(int) -> int, c: int)
    requires
        n >= 0,
        forall|i: int| 0 <= i < n ==> #[trigger] f(i) == c,
    ensures
        sum_below(n, f) == n * c,
    decreases n,
{
    if n > 0 {
        lemma_sum_constant(n - 1, f, c);
        assert(f(n - 1) == c);
        assert(n * c == (n - 1) * c + c) by (nonlinear_arith);
    } else {
        assert(n * c == 0) by (nonlinear_arith)
            requires
                n == 0,
        ;
    }
}

/// A lattice has as many sites as are counted one by one.
pub proof fn law_sites_are_counted(b: SiteIndex)
    ensures
        sum_over_sites(b, |s: SiteIndex| 1int) == b.sites(),
{
    let one = |s: SiteIndex| 1int;
    let (t, x, y, z) = (b.t as int, b.x as int, b.y as int, b.z as int);
    assert forall|i: int, j: int, k: int| #[trigger] sum_over_z(b, one, i, j, k) == z by {
        lemma_sum_constant(z, |l: int| one(site_at(i, j, k, l)), 1);
    }
    assert forall|i: int, j: int| #[trigger] sum_over_yz(b, one, i, j) == y * z by {
        lemma_sum_constant(y, |k: int| sum_over_z(b, one, i, j, k), z);
    }
    assert forall|i: int| #[trigger] sum_over_xyz(b, one, i) == x * (y * z) by {
        lemma_sum_constant(x, |j: int| sum_over_yz(b, one, i, j), y * z);
    }
    lemma_sum_constant(t, |i: int| sum_over_xyz(b, one, i), x * (y * z));
    assert(t * (x * (y * z)) == t * x * y * z) by (nonlinear_arith);
}

} // verus!
