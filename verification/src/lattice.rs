//! The periodic four dimensional lattice: sites, directions, and which plaquettes
//! meet at an edge.
//!
//! A plaquette lies at a site and in one of six planes, numbered `tx`, `ty`, `tz`, `xy`,
//! `xz`, `yz`. A cube lies at a site and in one of four volumes, numbered `txy`, `txz`,
//! `tyz`, `xyz`. An edge starts at a site and runs in one of the four directions.

use crate::sums::{
    lemma_sum_over_sites_add, lemma_sum_over_sites_back, lemma_sum_over_sites_equal,
    sum_over_sites,
};
use vstd::prelude::*;

verus! {

/// One of the four directions of the lattice.
#[derive(Clone, Copy, Debug, PartialEq, Eq, Hash, Structural)]
pub enum Dimension {
    /// Time.
    T,
    /// First direction of space.
    X,
    /// Second direction of space.
    Y,
    /// Third direction of space.
    Z,
}

/// The direction with number `d`, in the order `t`, `x`, `y`, `z`.
pub open spec fn dimension_of(d: int) -> Dimension {
    if d == 0 {
        Dimension::T
    } else if d == 1 {
        Dimension::X
    } else if d == 2 {
        Dimension::Y
    } else {
        Dimension::Z
    }
}

impl Dimension {
    /// The direction with number `d`.
    pub fn from_index(d: usize) -> (r: Dimension)
        requires
            d < 4,
        ensures
            r == dimension_of(d as int),
    {
        match d {
            0 => Dimension::T,
            1 => Dimension::X,
            2 => Dimension::Y,
            _ => Dimension::Z,
        }
    }
}

/// A site of the lattice, or the extent of the lattice in each direction.
#[derive(Clone, Copy, Debug, PartialEq, Eq, Hash, Structural)]
pub struct SiteIndex {
    /// Time.
    pub t: usize,
    /// First coordinate of space.
    pub x: usize,
    /// Second coordinate of space.
    pub y: usize,
    /// Third coordinate of space.
    pub z: usize,
}

/// The coordinate before `c` on a circle of length `n`.
pub open spec fn before(c: usize, n: usize) -> usize {
    if c == 0 {
        (n - 1) as usize
    } else {
        (c - 1) as usize
    }
}

/// The coordinate before `c` on a circle of length `n`.
fn step_back(c: usize, n: usize) -> (r: usize)
    requires
        c < n,
    ensures
        r == before(c, n),
        r < n,
{
    if c == 0 {
        n - 1
    } else {
        c - 1
    }
}

impl SiteIndex {
    /// The site with these coordinates.
    pub fn new(t: usize, x: usize, y: usize, z: usize) -> (r: SiteIndex)
        ensures
            r == (SiteIndex { t, x, y, z }),
    {
        SiteIndex { t, x, y, z }
    }

    /// This is a site of a lattice with the extent `bounds`.
    pub open spec fn within(self, bounds: SiteIndex) -> bool {
        self.t < bounds.t && self.x < bounds.x && self.y < bounds.y && self.z < bounds.z
    }

    /// The number of sites of a lattice with this extent.
    pub open spec fn sites(self) -> nat {
        self.t as nat * self.x as nat * self.y as nat * self.z as nat
    }

    /// The neighbour one step back in direction `d`.
    pub open spec fn lowered(self, d: Dimension, bounds: SiteIndex) -> SiteIndex {
        match d {
            Dimension::T => SiteIndex { t: before(self.t, bounds.t), ..self },
            Dimension::X => SiteIndex { x: before(self.x, bounds.x), ..self },
            Dimension::Y => SiteIndex { y: before(self.y, bounds.y), ..self },
            Dimension::Z => SiteIndex { z: before(self.z, bounds.z), ..self },
        }
    }

    /// The neighbour one step back in direction `d`.
    pub fn lower(&self, d: Dimension, bounds: &SiteIndex) -> (r: SiteIndex)
        requires
            self.within(*bounds),
        ensures
            r == self.lowered(d, *bounds),
            r.within(*bounds),
    {
        match d {
            Dimension::T => SiteIndex {
                t: step_back(self.t, bounds.t),
                x: self.x,
                y: self.y,
                z: self.z,
            },
            Dimension::X => SiteIndex {
                t: self.t,
                x: step_back(self.x, bounds.x),
                y: self.y,
                z: self.z,
            },
            Dimension::Y => SiteIndex {
                t: self.t,
                x: self.x,
                y: step_back(self.y, bounds.y),
                z: self.z,
            },
            Dimension::Z => SiteIndex {
                t: self.t,
                x: self.x,
                y: self.y,
                z: step_back(self.z, bounds.z),
            },
        }
    }

    /// The number of sites of a lattice with this extent.
    pub fn volume(&self) -> (r: usize)
        requires
            self.t * self.x <= usize::MAX,
            self.t * self.x * self.y <= usize::MAX,
            self.sites() <= usize::MAX,
        ensures
            r == self.sites(),
    {
        self.t * self.x * self.y * self.z
    }
}

/// The plaquettes that border the edge at `s` in direction `d` and are traversed along
/// that direction.
pub open spec fn plaquettes_along(s: SiteIndex, d: Dimension, b: SiteIndex) -> Seq<
    (SiteIndex, usize),
> {
    let (lt, lx, ly) = (
        s.lowered(Dimension::T, b),
        s.lowered(Dimension::X, b),
        s.lowered(Dimension::Y, b),
    );
    match d {
        Dimension::T => seq![(s, 0), (s, 1), (s, 2)],
        Dimension::X => seq![(lt, 0), (s, 3), (s, 4)],
        Dimension::Y => seq![(lt, 1), (lx, 3), (s, 5)],
        Dimension::Z => seq![(lt, 2), (lx, 4), (ly, 5)],
    }
}

/// The plaquettes that border the edge at `s` in direction `d` and are traversed against
/// that direction.
pub open spec fn plaquettes_against(s: SiteIndex, d: Dimension, b: SiteIndex) -> Seq<
    (SiteIndex, usize),
> {
    let (lx, ly, lz) = (
        s.lowered(Dimension::X, b),
        s.lowered(Dimension::Y, b),
        s.lowered(Dimension::Z, b),
    );
    match d {
        Dimension::T => seq![(lx, 0), (ly, 1), (lz, 2)],
        Dimension::X => seq![(s, 0), (ly, 3), (lz, 4)],
        Dimension::Y => seq![(s, 1), (s, 3), (lz, 5)],
        Dimension::Z => seq![(s, 2), (s, 4), (s, 5)],
    }
}

/// What the six plaquettes around an edge add to it, those traversed along the edge
/// first. `f` gives the value of a plaquette.
pub open spec fn edge_terms(
    f: spec_fn(SiteIndex, int) -> int,
    s: SiteIndex,
    d: Dimension,
    b: SiteIndex,
) -> Seq<int> {
    let along = plaquettes_along(s, d, b);
    let against = plaquettes_against(s, d, b);
    seq![
        f(along[0].0, along[0].1 as int),
        f(along[1].0, along[1].1 as int),
        f(along[2].0, along[2].1 as int),
        -f(against[0].0, against[0].1 as int),
        -f(against[1].0, against[1].1 as int),
        -f(against[2].0, against[2].1 as int),
    ]
}

/// The sum of the first `k` terms.
pub open spec fn prefix_sum(terms: Seq<int>, k: int) -> int
    decreases k,
{
    if k <= 0 {
        0
    } else {
        prefix_sum(terms, k - 1) + terms[k - 1]
    }
}

/// The flux through an edge: the plaquettes traversed along it minus those traversed
/// against it.
pub open spec fn edge_sum(
    f: spec_fn(SiteIndex, int) -> int,
    s: SiteIndex,
    d: Dimension,
    b: SiteIndex,
) -> int {
    prefix_sum(edge_terms(f, s, d, b), 6)
}

/// Adding up the terms of an edge one by one stays within `i32`.
pub open spec fn edge_sum_fits(
    f: spec_fn(SiteIndex, int) -> int,
    s: SiteIndex,
    d: Dimension,
    b: SiteIndex,
) -> bool {
    let terms = edge_terms(f, s, d, b);
    &&& forall|k: int| 0 <= k < 6 ==> i32::MIN <= #[trigger] terms[k] <= i32::MAX
    &&& forall|k: int| 0 <= k <= 6 ==> i32::MIN <= #[trigger] prefix_sum(terms, k) <= i32::MAX
}

/// The flux of plaquettes of up to `2^28` in size can be added up.
pub proof fn law_small_plaquettes_fit(
    f: spec_fn(SiteIndex, int) -> int,
    s: SiteIndex,
    d: Dimension,
    b: SiteIndex,
)
    requires
        forall|q: SiteIndex, p: int| -0x1000_0000 <= #[trigger] f(q, p) <= 0x1000_0000,
    ensures
        edge_sum_fits(f, s, d, b),
{
    reveal_with_fuel(prefix_sum, 7);
    let terms = edge_terms(f, s, d, b);
    assert forall|k: int| 0 <= k <= 6 implies i32::MIN <= #[trigger] prefix_sum(terms, k)
        <= i32::MAX by {
        assert(forall|j: int| 0 <= j < 6 ==> -0x1000_0000 <= #[trigger] terms[j] <= 0x1000_0000);
        assert(prefix_sum(terms, 1) == terms[0]);
        assert(prefix_sum(terms, 2) == terms[0] + terms[1]);
        assert(prefix_sum(terms, 3) == terms[0] + terms[1] + terms[2]);
        assert(prefix_sum(terms, 4) == terms[0] + terms[1] + terms[2] + terms[3]);
        assert(prefix_sum(terms, 5) == terms[0] + terms[1] + terms[2] + terms[3] + terms[4]);
        assert(prefix_sum(terms, 6) == terms[0] + terms[1] + terms[2] + terms[3] + terms[4]
            + terms[5]);
    }
}

/// The graph whose edges the plaquettes surround.
pub struct NDDualGraph;

impl NDDualGraph {
    /// The plaquettes around the edge at `site` in direction `dim`: those traversed along
    /// it, and those traversed against it.
    pub fn plaquettes_next_to_edge(site: &SiteIndex, dim: Dimension, bounds: &SiteIndex) -> (r: (
        Vec<(SiteIndex, usize)>,
        Vec<(SiteIndex, usize)>,
    ))
        requires
            site.within(*bounds),
        ensures
            r.0@ == plaquettes_along(*site, dim, *bounds),
            r.1@ == plaquettes_against(*site, dim, *bounds),
            forall|k: int| 0 <= k < 3 ==> (#[trigger] r.0@[k]).0.within(*bounds) && r.0@[k].1 < 6,
            forall|k: int| 0 <= k < 3 ==> (#[trigger] r.1@[k]).0.within(*bounds) && r.1@[k].1 < 6,
    {
        let s = *site;
        let lt = site.lower(Dimension::T, bounds);
        let lx = site.lower(Dimension::X, bounds);
        let ly = site.lower(Dimension::Y, bounds);
        let lz = site.lower(Dimension::Z, bounds);
        let r: (Vec<(SiteIndex, usize)>, Vec<(SiteIndex, usize)>) = match dim {
            Dimension::T => (vec![(s, 0), (s, 1), (s, 2)], vec![(lx, 0), (ly, 1), (lz, 2)]),
            Dimension::X => (vec![(lt, 0), (s, 3), (s, 4)], vec![(s, 0), (ly, 3), (lz, 4)]),
            Dimension::Y => (vec![(lt, 1), (lx, 3), (s, 5)], vec![(s, 1), (s, 3), (lz, 5)]),
            Dimension::Z => (vec![(lt, 2), (lx, 4), (ly, 5)], vec![(s, 2), (s, 4), (s, 5)]),
        };
        assert(r.0@ =~= plaquettes_along(s, dim, *bounds));
        assert(r.1@ =~= plaquettes_against(s, dim, *bounds));
        r
    }
}

/// The first (`k` 0) or second (`k` 1) volume that the plane `p` borders.
pub open spec fn cube_of_plane(p: int, k: int) -> int {
    if k == 0 {
        if p == 2 || p == 4 {
            1
        } else if p == 5 {
            2
        } else {
            0
        }
    } else {
        if p == 0 {
            1
        } else if p == 1 || p == 2 {
            2
        } else {
            3
        }
    }
}

/// The direction in which the first or second volume of the plane `p` extends beyond it.
pub open spec fn normal_of_plane(p: int, k: int) -> Dimension {
    if k == 0 {
        if p == 0 {
            Dimension::Y
        } else if p == 1 || p == 2 {
            Dimension::X
        } else {
            Dimension::T
        }
    } else {
        if p == 0 || p == 1 || p == 3 {
            Dimension::Z
        } else if p == 5 {
            Dimension::X
        } else {
            Dimension::Y
        }
    }
}

/// The plane `p` is traversed backwards on the surface of the first or second volume that
/// it borders.
pub open spec fn reversed(p: int, k: int) -> bool {
    if k == 0 {
        p == 1 || p == 2
    } else {
        p == 2 || p == 4
    }
}

/// What the volumes on one normal of a plaquette add to it.
pub open spec fn cube_difference(
    c: spec_fn(SiteIndex, int) -> int,
    s: SiteIndex,
    p: int,
    k: int,
    b: SiteIndex,
) -> int {
    let upper = c(s, cube_of_plane(p, k));
    let lower = c(s.lowered(normal_of_plane(p, k), b), cube_of_plane(p, k));
    if reversed(p, k) {
        lower - upper
    } else {
        upper - lower
    }
}

/// The value of the plaquette at `s` in the plane `p` when every volume contributes its
/// surface as often as `c` says.
pub open spec fn surface(
    c: spec_fn(SiteIndex, int) -> int,
    s: SiteIndex,
    p: int,
    b: SiteIndex,
) -> int {
    cube_difference(c, s, p, 0, b) + cube_difference(c, s, p, 1, b)
}

/// The plaquettes that surround volumes have no flux through any edge: a surface has no
/// boundary.
pub proof fn law_surfaces_are_closed(
    c: spec_fn(SiteIndex, int) -> int,
    s: SiteIndex,
    d: Dimension,
    b: SiteIndex,
)
    ensures
        edge_sum(|q: SiteIndex, p: int| surface(c, q, p, b), s, d, b) == 0,
{
    reveal_with_fuel(prefix_sum, 7);
    let f = |q: SiteIndex, p: int| surface(c, q, p, b);
    let lt = s.lowered(Dimension::T, b);
    let lx = s.lowered(Dimension::X, b);
    let ly = s.lowered(Dimension::Y, b);
    let lz = s.lowered(Dimension::Z, b);
    assert(lt.lowered(Dimension::X, b) == lx.lowered(Dimension::T, b));
    assert(lt.lowered(Dimension::Y, b) == ly.lowered(Dimension::T, b));
    assert(lt.lowered(Dimension::Z, b) == lz.lowered(Dimension::T, b));
    assert(lx.lowered(Dimension::Y, b) == ly.lowered(Dimension::X, b));
    assert(lx.lowered(Dimension::Z, b) == lz.lowered(Dimension::X, b));
    assert(ly.lowered(Dimension::Z, b) == lz.lowered(Dimension::Y, b));
    let terms = edge_terms(f, s, d, b);
    assert(prefix_sum(terms, 6) == terms[0] + terms[1] + terms[2] + terms[3] + terms[4]
        + terms[5]);
}

/// The neighbour of a site one step forward in direction `d`.
pub open spec fn stepped(s: SiteIndex, d: Dimension, b: SiteIndex) -> SiteIndex {
    match d {
        Dimension::T => SiteIndex { t: ((s.t + 1) % b.t as int) as usize, ..s },
        Dimension::X => SiteIndex { x: ((s.x + 1) % b.x as int) as usize, ..s },
        Dimension::Y => SiteIndex { y: ((s.y + 1) % b.y as int) as usize, ..s },
        Dimension::Z => SiteIndex { z: ((s.z + 1) % b.z as int) as usize, ..s },
    }
}

/// The extent of a lattice in a direction.
pub open spec fn extent(b: SiteIndex, d: Dimension) -> int {
    match d {
        Dimension::T => b.t as int,
        Dimension::X => b.x as int,
        Dimension::Y => b.y as int,
        Dimension::Z => b.z as int,
    }
}

/// The two directions that span the plane `p`.
pub open spec fn spanned(p: int) -> (Dimension, Dimension) {
    if p == 0 {
        (Dimension::T, Dimension::X)
    } else if p == 1 {
        (Dimension::T, Dimension::Y)
    } else if p == 2 {
        (Dimension::T, Dimension::Z)
    } else if p == 3 {
        (Dimension::X, Dimension::Y)
    } else if p == 4 {
        (Dimension::X, Dimension::Z)
    } else {
        (Dimension::Y, Dimension::Z)
    }
}

/// The three directions in which the volume `k` extends.
pub open spec fn extended(k: int) -> (Dimension, Dimension, Dimension) {
    if k == 0 {
        (Dimension::T, Dimension::X, Dimension::Y)
    } else if k == 1 {
        (Dimension::T, Dimension::X, Dimension::Z)
    } else if k == 2 {
        (Dimension::T, Dimension::Y, Dimension::Z)
    } else {
        (Dimension::X, Dimension::Y, Dimension::Z)
    }
}

/// A step back from a step forward is no step, and the other way round.
pub proof fn law_steps_undo_each_other(s: SiteIndex, d: Dimension, b: SiteIndex)
    requires
        s.within(b),
    ensures
        stepped(s, d, b).within(b),
        stepped(s, d, b).lowered(d, b) == s,
        s.lowered(d, b).within(b),
        stepped(s.lowered(d, b), d, b) == s,
{
    let (c, n) = match d {
        Dimension::T => (s.t as int, b.t as int),
        Dimension::X => (s.x as int, b.x as int),
        Dimension::Y => (s.y as int, b.y as int),
        Dimension::Z => (s.z as int, b.z as int),
    };
    if c + 1 < n {
        vstd::arithmetic::div_mod::lemma_small_mod((c + 1) as nat, n as nat);
    } else {
        vstd::arithmetic::div_mod::lemma_mod_self_0(n);
    }
    if c == 0 {
        vstd::arithmetic::div_mod::lemma_mod_self_0(n);
    } else {
        vstd::arithmetic::div_mod::lemma_small_mod(c as nat, n as nat);
    }
}

/// The surface of a single cube: `w` times a cube of the volume `k` at the site `at` puts
/// `w` or `-w` on its six faces and nothing elsewhere.
///
/// A volume that extends in the directions `a`, `m` and `z` has two faces in each of the
/// planes `am`, `az` and `mz`: one at its own site, and the opposite value one step forward
/// along the remaining direction. The faces at its own site are traversed forwards in `am`
/// and `mz` and backwards in `az`.
#[verifier::spinoff_prover]
pub proof fn law_a_cube_has_six_faces(
    at: SiteIndex,
    k: int,
    w: int,
    s: SiteIndex,
    p: int,
    b: SiteIndex,
)
    requires
        at.within(b),
        s.within(b),
        0 <= k < 4,
        0 <= p < 6,
        b.t >= 2,
        b.x >= 2,
        b.y >= 2,
        b.z >= 2,
    ensures
        ({
            let cube = |q: SiteIndex, j: int|
                if q == at && j == k {
                    w
                } else {
                    0
                };
            let (a, m, z) = extended(k);
            let here = |sign: int, normal: Dimension|
                if s == at {
                    sign * w
                } else if s == stepped(at, normal, b) {
                    -sign * w
                } else {
                    0
                };
            surface(cube, s, p, b) == if spanned(p) == (a, m) {
                here(1, z)
            } else if spanned(p) == (a, z) {
                here(-1, m)
            } else if spanned(p) == (m, z) {
                here(1, a)
            } else {
                0
            }
        }),
{
    law_steps_undo_each_other(s, Dimension::T, b);
    law_steps_undo_each_other(s, Dimension::X, b);
    law_steps_undo_each_other(s, Dimension::Y, b);
    law_steps_undo_each_other(s, Dimension::Z, b);
    law_steps_undo_each_other(at, Dimension::T, b);
    law_steps_undo_each_other(at, Dimension::X, b);
    law_steps_undo_each_other(at, Dimension::Y, b);
    law_steps_undo_each_other(at, Dimension::Z, b);
}

/// The edges of a single plaquette: `w` times the plaquette of the plane `p` at the site
/// `at` puts a flux of `w` or `-w` through its four edges and none through the others.
///
/// A plane spanned by `u` and `v` is traversed along `u` first: forwards along the edge in
/// `u` at its own site and along the edge in `v` one step on in `u`, and backwards along the
/// edge in `u` one step on in `v` and along the edge in `v` at its own site.
#[verifier::spinoff_prover]
pub proof fn law_a_plaquette_has_four_edges(
    at: SiteIndex,
    p: int,
    w: int,
    s: SiteIndex,
    d: Dimension,
    b: SiteIndex,
)
    requires
        at.within(b),
        s.within(b),
        0 <= p < 6,
        b.t >= 2,
        b.x >= 2,
        b.y >= 2,
        b.z >= 2,
    ensures
        ({
            let single = |q: SiteIndex, j: int|
                if q == at && j == p {
                    w
                } else {
                    0
                };
            let (u, v) = spanned(p);
            edge_sum(single, s, d, b) == if d == u && s == at {
                w
            } else if d == u && s == stepped(at, v, b) {
                -w
            } else if d == v && s == at {
                -w
            } else if d == v && s == stepped(at, u, b) {
                w
            } else {
                0
            }
        }),
{
    let single = |q: SiteIndex, j: int|
        if q == at && j == p {
            w
        } else {
            0
        };
    reveal_with_fuel(prefix_sum, 7);
    law_steps_undo_each_other(s, Dimension::T, b);
    law_steps_undo_each_other(s, Dimension::X, b);
    law_steps_undo_each_other(s, Dimension::Y, b);
    law_steps_undo_each_other(s, Dimension::Z, b);
    law_steps_undo_each_other(at, Dimension::T, b);
    law_steps_undo_each_other(at, Dimension::X, b);
    law_steps_undo_each_other(at, Dimension::Y, b);
    law_steps_undo_each_other(at, Dimension::Z, b);
    let terms = edge_terms(single, s, d, b);
    assert(prefix_sum(terms, 6) == terms[0] + terms[1] + terms[2] + terms[3] + terms[4]
        + terms[5]);
}

/// The plaquettes next to an edge are those that have a flux through it: a plaquette is
/// listed as traversed along the edge when it puts its own value through it, and as
/// traversed against the edge when it puts the opposite value through it.
#[verifier::spinoff_prover]
pub proof fn law_plaquettes_next_to_an_edge_have_flux(
    at: SiteIndex,
    p: usize,
    s: SiteIndex,
    d: Dimension,
    b: SiteIndex,
)
    requires
        at.within(b),
        s.within(b),
        p < 6,
        b.t >= 2,
        b.x >= 2,
        b.y >= 2,
        b.z >= 2,
    ensures
        ({
            let single = |q: SiteIndex, j: int|
                if q == at && j == p {
                    1int
                } else {
                    0
                };
            &&& plaquettes_along(s, d, b).contains((at, p)) <==> edge_sum(single, s, d, b) == 1
            &&& plaquettes_against(s, d, b).contains((at, p)) <==> edge_sum(single, s, d, b) == -1
            &&& plaquettes_along(s, d, b).no_duplicates()
            &&& plaquettes_against(s, d, b).no_duplicates()
            &&& plaquettes_along(s, d, b).len() == 3
            &&& plaquettes_against(s, d, b).len() == 3
        }),
{
    let single = |q: SiteIndex, j: int|
        if q == at && j == p {
            1int
        } else {
            0
        };
    law_a_plaquette_has_four_edges(at, p as int, 1, s, d, b);
    law_steps_undo_each_other(s, Dimension::T, b);
    law_steps_undo_each_other(s, Dimension::X, b);
    law_steps_undo_each_other(s, Dimension::Y, b);
    law_steps_undo_each_other(s, Dimension::Z, b);
    law_steps_undo_each_other(at, Dimension::T, b);
    law_steps_undo_each_other(at, Dimension::X, b);
    law_steps_undo_each_other(at, Dimension::Y, b);
    law_steps_undo_each_other(at, Dimension::Z, b);
    let along = plaquettes_along(s, d, b);
    let against = plaquettes_against(s, d, b);
    let e = (at, p);
    assert(along.contains(e) <==> along[0] == e || along[1] == e || along[2] == e);
    assert(against.contains(e) <==> against[0] == e || against[1] == e || against[2] == e);
}

/// Volumes add up: the surface of two assignments of volumes together is the sum of their
/// surfaces.
pub proof fn law_surfaces_add_up(
    f: spec_fn(SiteIndex, int) -> int,
    g: spec_fn(SiteIndex, int) -> int,
    s: SiteIndex,
    p: int,
    b: SiteIndex,
)
    ensures
        surface(|q: SiteIndex, k: int| f(q, k) + g(q, k), s, p, b) == surface(f, s, p, b)
            + surface(g, s, p, b),
{
}

/// The surface at a plaquette depends only on the volumes of sites of the lattice.
pub proof fn lemma_surface_agrees(
    f: spec_fn(SiteIndex, int) -> int,
    g: spec_fn(SiteIndex, int) -> int,
    s: SiteIndex,
    p: int,
    b: SiteIndex,
)
    requires
        s.within(b),
        0 <= p < 6,
        forall|q: SiteIndex, k: int| q.within(b) && 0 <= k < 4 ==> #[trigger] f(q, k) == g(q, k),
    ensures
        surface(f, s, p, b) == surface(g, s, p, b),
{
    assert forall|k: int| 0 <= k < 2 implies #[trigger] cube_difference(f, s, p, k, b)
        == cube_difference(g, s, p, k, b) by {
        let cube = cube_of_plane(p, k);
        let lower = s.lowered(normal_of_plane(p, k), b);
        assert(0 <= cube < 4);
        assert(lower.within(b));
        assert(f(s, cube) == g(s, cube));
        assert(f(lower, cube) == g(lower, cube));
    }
    assert(cube_difference(f, s, p, 0, b) == cube_difference(g, s, p, 0, b));
    assert(cube_difference(f, s, p, 1, b) == cube_difference(g, s, p, 1, b));
}

/// The differences between neighbours in a direction cancel over the lattice, whichever of
/// the two is taken from the other.
proof fn lemma_steps_cancel(
    c: spec_fn(SiteIndex, int) -> int,
    k: int,
    d: Dimension,
    b: SiteIndex,
)
    ensures
        sum_over_sites(b, |s: SiteIndex| c(s, k) - c(s.lowered(d, b), k)) == 0,
        sum_over_sites(b, |s: SiteIndex| c(s.lowered(d, b), k) - c(s, k)) == 0,
{
    let upper = |s: SiteIndex| c(s, k);
    let lower = |s: SiteIndex| c(s.lowered(d, b), k);
    let down = |s: SiteIndex| c(s, k) - c(s.lowered(d, b), k);
    let up = |s: SiteIndex| c(s.lowered(d, b), k) - c(s, k);
    assert forall|s: SiteIndex| #[trigger] lower(s) == upper(s.lowered(d, b)) by {}
    lemma_sum_over_sites_back(b, upper, lower, d);
    assert forall|s: SiteIndex| s.within(b) implies #[trigger] upper(s) == down(s) + lower(s) by {}
    lemma_sum_over_sites_add(b, down, lower, upper);
    assert forall|s: SiteIndex| s.within(b) implies #[trigger] lower(s) == up(s) + upper(s) by {}
    lemma_sum_over_sites_add(b, up, upper, lower);
}

/// What the volumes on one normal of the plaquettes of a plane add cancels over the lattice.
proof fn lemma_differences_cancel(c: spec_fn(SiteIndex, int) -> int, p: int, k: int, b: SiteIndex)
    ensures
        sum_over_sites(b, |s: SiteIndex| cube_difference(c, s, p, k, b)) == 0,
{
    let cube = cube_of_plane(p, k);
    let d = normal_of_plane(p, k);
    let all = |s: SiteIndex| cube_difference(c, s, p, k, b);
    lemma_steps_cancel(c, cube, d, b);
    if reversed(p, k) {
        lemma_sum_over_sites_equal(b, all, |s: SiteIndex| c(s.lowered(d, b), cube) - c(s, cube));
    } else {
        lemma_sum_over_sites_equal(b, all, |s: SiteIndex| c(s, cube) - c(s.lowered(d, b), cube));
    }
}

/// Surfaces cancel: over all sites of the lattice the plaquettes of a plane add up to zero.
pub proof fn law_surfaces_cancel(c: spec_fn(SiteIndex, int) -> int, p: int, b: SiteIndex)
    ensures
        sum_over_sites(b, |s: SiteIndex| surface(c, s, p, b)) == 0,
{
    let first = |s: SiteIndex| cube_difference(c, s, p, 0, b);
    let second = |s: SiteIndex| cube_difference(c, s, p, 1, b);
    let both = |s: SiteIndex| surface(c, s, p, b);
    lemma_differences_cancel(c, p, 0, b);
    lemma_differences_cancel(c, p, 1, b);
    assert forall|s: SiteIndex| s.within(b) implies #[trigger] both(s) == first(s) + second(
        s,
    ) by {}
    lemma_sum_over_sites_add(b, first, second, both);
}

/// The flux adds up: through every edge the flux of two assignments of plaquettes together
/// is the sum of their fluxes.
pub proof fn law_flux_adds_up(
    f: spec_fn(SiteIndex, int) -> int,
    g: spec_fn(SiteIndex, int) -> int,
    s: SiteIndex,
    d: Dimension,
    b: SiteIndex,
)
    ensures
        edge_sum(|q: SiteIndex, p: int| f(q, p) + g(q, p), s, d, b) == edge_sum(f, s, d, b)
            + edge_sum(g, s, d, b),
{
    reveal_with_fuel(prefix_sum, 7);
}

/// The flux cancels: over all sites of the lattice the flux through the edges of a direction
/// adds up to zero.
#[verifier::spinoff_prover]
pub proof fn law_flux_cancels(f: spec_fn(SiteIndex, int) -> int, d: Dimension, b: SiteIndex)
    ensures
        sum_over_sites(b, |s: SiteIndex| edge_sum(f, s, d, b)) == 0,
{
    reveal_with_fuel(prefix_sum, 7);
    let all = |s: SiteIndex| edge_sum(f, s, d, b);
    let (t, x, y, z) = (Dimension::T, Dimension::X, Dimension::Y, Dimension::Z);
    let (first, second, third) = match d {
        Dimension::T => {
            lemma_steps_cancel(f, 0, x, b);
            lemma_steps_cancel(f, 1, y, b);
            lemma_steps_cancel(f, 2, z, b);
            (
                |s: SiteIndex| f(s, 0) - f(s.lowered(x, b), 0),
                |s: SiteIndex| f(s, 1) - f(s.lowered(y, b), 1),
                |s: SiteIndex| f(s, 2) - f(s.lowered(z, b), 2),
            )
        },
        Dimension::X => {
            lemma_steps_cancel(f, 0, t, b);
            lemma_steps_cancel(f, 3, y, b);
            lemma_steps_cancel(f, 4, z, b);
            (
                |s: SiteIndex| f(s.lowered(t, b), 0) - f(s, 0),
                |s: SiteIndex| f(s, 3) - f(s.lowered(y, b), 3),
                |s: SiteIndex| f(s, 4) - f(s.lowered(z, b), 4),
            )
        },
        Dimension::Y => {
            lemma_steps_cancel(f, 1, t, b);
            lemma_steps_cancel(f, 3, x, b);
            lemma_steps_cancel(f, 5, z, b);
            (
                |s: SiteIndex| f(s.lowered(t, b), 1) - f(s, 1),
                |s: SiteIndex| f(s.lowered(x, b), 3) - f(s, 3),
                |s: SiteIndex| f(s, 5) - f(s.lowered(z, b), 5),
            )
        },
        Dimension::Z => {
            lemma_steps_cancel(f, 2, t, b);
            lemma_steps_cancel(f, 4, x, b);
            lemma_steps_cancel(f, 5, y, b);
            (
                |s: SiteIndex| f(s.lowered(t, b), 2) - f(s, 2),
                |s: SiteIndex| f(s.lowered(x, b), 4) - f(s, 4),
                |s: SiteIndex| f(s.lowered(y, b), 5) - f(s, 5),
            )
        },
    };
    let both = |s: SiteIndex| first(s) + second(s);
    lemma_sum_over_sites_add(b, first, second, both);
    assert forall|s: SiteIndex| s.within(b) implies #[trigger] all(s) == both(s) + third(s) by {
        let terms = edge_terms(f, s, d, b);
        assert(prefix_sum(terms, 6) == terms[0] + terms[1] + terms[2] + terms[3] + terms[4]
            + terms[5]);
    }
    lemma_sum_over_sites_add(b, both, third, all);
}

} // verus!
