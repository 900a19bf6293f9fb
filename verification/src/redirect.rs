//! Which potential each replica's state currently lives in.
//!
//! The states stay where they are in device memory. Exchanging replicas only changes
//! the redirection, a permutation that takes the place of a state in memory to the
//! number of its potential. Results that the device computes per state are put in the
//! order of the potentials by the same permutation.

use crate::arrays::CountArray;
use crate::error::{decimal_list, list_chars};
use vstd::prelude::*;
use vstd::set_lib::{lemma_int_range, lemma_subset_equality, set_int_range};
use vstd::slice::slice_to_vec;

verus! {

/// `p` takes the numbers below its length to each other, no two to the same one.
pub open spec fn is_permutation(p: Seq<int>) -> bool {
    &&& forall|i: int| 0 <= i < p.len() ==> 0 <= #[trigger] p[i] < p.len()
    &&& forall|i: int, j: int| 0 <= i < p.len() && 0 <= j < p.len() && i != j ==> p[i] != p[j]
}

/// The permutation of `n` numbers that moves nothing.
pub open spec fn identity(n: nat) -> Seq<int> {
    Seq::new(n, |i: int| i)
}

/// `q` undoes `p`.
pub open spec fn undoes(q: Seq<int>, p: Seq<int>) -> bool {
    &&& q.len() == p.len()
    &&& forall|i: int| 0 <= i < p.len() ==> 0 <= #[trigger] p[i] < q.len() && q[p[i]] == i
}

/// First `p`, then `q`.
pub open spec fn followed_by(p: Seq<int>, q: Seq<int>) -> Seq<int> {
    Seq::new(p.len(), |i: int| q[p[i]])
}

/// A redirection of 32 bit numbers as a sequence of integers.
pub open spec fn ints_of(redirect: Seq<u32>) -> Seq<int> {
    redirect.map_values(|i: u32| i as int)
}

/// A permutation of `n` replicas of which only the first entries are given, the others
/// being zero.
pub open spec fn completed(permutation: Seq<usize>, n: nat) -> Seq<int> {
    Seq::new(
        n,
        |i: int|
            if i < permutation.len() {
                permutation[i] as int
            } else {
                0
            },
    )
}

/// `permutation` can be applied to `n` replicas.
pub open spec fn permutes(permutation: Seq<usize>, n: nat) -> bool {
    permutation.len() <= n && is_permutation(completed(permutation, n))
}

/// Every number is the image of some number under a permutation.
pub proof fn lemma_permutation_reaches(p: Seq<int>, v: int)
    requires
        is_permutation(p),
        0 <= v < p.len(),
    ensures
        exists|i: int| 0 <= i < p.len() && #[trigger] p[i] == v,
{
    let all = set_int_range(0, p.len() as int);
    lemma_int_range(0, p.len() as int);
    p.unique_seq_to_set();
    let image = p.to_set();
    assert(image.subset_of(all));
    lemma_subset_equality(image, all);
    assert(image.contains(v));
}

/// What undoes a permutation is a permutation, and is undone by it.
pub proof fn lemma_undo_both_ways(q: Seq<int>, p: Seq<int>)
    requires
        is_permutation(p),
        undoes(q, p),
    ensures
        is_permutation(q),
        undoes(p, q),
{
    assert forall|v: int| 0 <= v < q.len() implies 0 <= #[trigger] q[v] < q.len() && p[q[v]] == v by {
        lemma_permutation_reaches(p, v);
        let i = choose|i: int| 0 <= i < p.len() && #[trigger] p[i] == v;
        assert(q[p[i]] == i);
    }
    assert forall|i: int, j: int| 0 <= i < q.len() && 0 <= j < q.len() && i != j implies q[i]
        != q[j] by {
        assert(p[q[i]] == i);
        assert(p[q[j]] == j);
    }
}

/// Permutations compose to permutations.
pub proof fn lemma_followed_by(p: Seq<int>, q: Seq<int>)
    requires
        is_permutation(p),
        is_permutation(q),
        p.len() == q.len(),
    ensures
        is_permutation(followed_by(p, q)),
{
    let c = followed_by(p, q);
    assert forall|i: int| 0 <= i < c.len() implies 0 <= #[trigger] c[i] < c.len() by {
        assert(0 <= p[i] < p.len());
    }
    assert forall|i: int, j: int| 0 <= i < c.len() && 0 <= j < c.len() && i != j implies c[i]
        != c[j] by {
        assert(0 <= p[i] < p.len());
        assert(0 <= p[j] < p.len());
        assert(p[i] != p[j]);
    }
}

/// The numbers below `n`, in order.
pub fn in_order(n: u32) -> (r: Vec<u32>)
    ensures
        r@.len() == n,
        forall|i: int| 0 <= i < n ==> r@[i] == i,
        ints_of(r@) == identity(n as nat),
{
    let mut r: Vec<u32> = Vec::new();
    let mut i: u32 = 0;
    while i < n
        invariant
            i <= n,
            r@.len() == i,
            forall|j: int| 0 <= j < i ==> r@[j] == j,
        decreases n - i,
    {
        r.push(i);
        i += 1;
    }
    assert(ints_of(r@) =~= identity(n as nat));
    r
}

/// The redirection of states to potentials.
#[derive(Debug, PartialEq)]
pub enum RedirectArrays {
    /// Every state lives in the potential with its own number.
    Identity,
    /// Some state lives elsewhere.
    Redirect {
        /// The potential of each state.
        redirect: CountArray,
        /// The state in each potential.
        inverse: CountArray,
    },
}

impl RedirectArrays {
    /// The potential of each of `n` states.
    pub open spec fn map(&self, n: nat) -> Seq<int> {
        match self {
            RedirectArrays::Identity => identity(n),
            RedirectArrays::Redirect { redirect, .. } => ints_of(redirect.elems()),
        }
    }

    /// The redirection permutes `n` states, and the inverse undoes it.
    pub open spec fn wf(&self, n: nat) -> bool {
        match self {
            RedirectArrays::Identity => true,
            RedirectArrays::Redirect { redirect, inverse } => {
                &&& redirect.elems().len() == n
                &&& is_permutation(ints_of(redirect.elems()))
                &&& undoes(ints_of(inverse.elems()), ints_of(redirect.elems()))
            },
        }
    }

    /// The redirection with the given arrays.
    pub fn new_both(redirect: Vec<u32>, inverse: Vec<u32>) -> (r: Self)
        requires
            forall|i: int|
                0 <= i < redirect@.len() ==> (#[trigger] redirect@[i]) < inverse@.len()
                    && inverse@[redirect@[i] as int] == i as u32,
        ensures
            r matches RedirectArrays::Redirect { redirect: d, inverse: e } && d.elems() == redirect@
                && e.elems() == inverse@,
    {
        RedirectArrays::Redirect {
            redirect: CountArray::from_vec(redirect),
            inverse: CountArray::from_vec(inverse),
        }
    }

    /// The redirection that takes each state to the given potential.
    pub fn new(redirect: Vec<u32>) -> (r: Self)
        requires
            is_permutation(ints_of(redirect@)),
        ensures
            r.wf(redirect@.len()),
            r matches RedirectArrays::Redirect { redirect: d, .. } && d.elems() == redirect@,
            r.map(redirect@.len()) == ints_of(redirect@),
    {
        let ghost p = ints_of(redirect@);
        let n = redirect.len();
        proof {
            if n > 0 {
                lemma_permutation_reaches(p, n - 1);
            }
        }
        let mut inverse = redirect.clone();
        let mut i: usize = 0;
        while i < n
            invariant
                i <= n,
                n == redirect@.len(),
                n == inverse@.len(),
                p == ints_of(redirect@),
                is_permutation(p),
                n <= u32::MAX + 1,
                forall|j: int| 0 <= j < i ==> inverse@[#[trigger] redirect@[j] as int] == j,
            decreases n - i,
        {
            assert(p[i as int] == redirect@[i as int]);
            let target = redirect[i] as usize;
            let ghost before = inverse@;
            assert(i <= u32::MAX);
            inverse.set(target, i as u32);
            assert forall|j: int| 0 <= j < i + 1 implies inverse@[#[trigger] redirect@[j] as int]
                == j by {
                assert(p[j] == redirect@[j]);
                if j < i {
                    assert(p[j] != p[i as int]);
                }
            }
            i += 1;
        }
        let ghost q = ints_of(inverse@);
        proof {
            assert forall|j: int| 0 <= j < p.len() implies 0 <= #[trigger] p[j] < q.len()
                && q[p[j]] == j by {
                assert(p[j] == redirect@[j]);
                assert(inverse@[redirect@[j] as int] == j);
            }
            assert forall|j: int| 0 <= j < n implies (#[trigger] redirect@[j]) < inverse@.len()
                && inverse@[redirect@[j] as int] == j as u32 by {
                assert(p[j] == redirect@[j]);
            }
        }
        Self::new_both(redirect, inverse)
    }

    /// The potential of each state, unless it is the one with the state's number.
    pub fn get_redirect(&self) -> (r: Option<&[u32]>)
        ensures
            match self {
                RedirectArrays::Identity => r is None,
                RedirectArrays::Redirect { redirect, .. } => r matches Some(s) && s@
                    == redirect.elems(),
            },
    {
        match self {
            RedirectArrays::Identity => None,
            RedirectArrays::Redirect { redirect, .. } => Some(redirect.as_slice()),
        }
    }

    /// The potential of each of `n` states, and the state in each potential. Afterwards
    /// the redirection holds both.
    pub fn unwrap(&mut self, n: usize) -> (r: (Vec<u32>, Vec<u32>))
        ensures
            *old(self) is Identity ==> ints_of(r.0@) == identity((n as u32) as nat)
                && final(self).wf((n as u32) as nat),
            !(*old(self) is Identity) ==> *final(self) == *old(self),
            *final(self) matches RedirectArrays::Redirect { redirect, inverse } && r.0@
                == redirect.elems() && r.1@ == inverse.elems(),
    {
        if let RedirectArrays::Identity = self {
            let redirect = in_order(n as u32);
            assert(is_permutation(ints_of(redirect@)));
            *self = Self::new(redirect);
        }
        match self {
            RedirectArrays::Redirect { redirect, inverse } => (
                slice_to_vec(redirect.as_slice()),
                slice_to_vec(inverse.as_slice()),
            ),
            RedirectArrays::Identity => (Vec::new(), Vec::new()),
        }
    }

    /// The potential of each of `n` states once the potentials have been permuted.
    ///
    /// The redirection itself stays what it is; only its arrays are made if they were not
    /// there.
    pub fn permuted(&mut self, n: usize, permutation: &[usize]) -> (r: Vec<u32>)
        requires
            n <= u32::MAX,
            old(self).wf(n as nat),
            permutes(permutation@, n as nat),
        ensures
            final(self).wf(n as nat),
            final(self).map(n as nat) == old(self).map(n as nat),
            r@.len() == n,
            ints_of(r@) == followed_by(
                old(self).map(n as nat),
                completed(permutation@, n as nat),
            ),
            is_permutation(ints_of(r@)),
    {
        let ghost map = self.map(n as nat);
        let ghost full = completed(permutation@, n as nat);
        let (plaquette_to_potential, potential_to_plaquette) = self.unwrap(n);
        let ghost inv = ints_of(potential_to_plaquette@);
        proof {
            assert(is_permutation(map));
            assert(ints_of(plaquette_to_potential@) =~= map);
            lemma_undo_both_ways(inv, map);
            lemma_followed_by(map, full);
        }
        let mut new_redirect: Vec<u32> = vec![0u32; n];
        let mut pot_i: usize = 0;
        while pot_i < permutation.len()
            invariant
                pot_i <= permutation@.len() <= n,
                n <= u32::MAX,
                map.len() == n,
                is_permutation(map),
                map == ints_of(plaquette_to_potential@),
                inv == ints_of(potential_to_plaquette@),
                undoes(inv, map),
                undoes(map, inv),
                full == completed(permutation@, n as nat),
                is_permutation(full),
                new_redirect@.len() == n,
                forall|s: int|
                    0 <= s < n ==> #[trigger] new_redirect@[s] == (if map[s] < pot_i {
                        full[map[s]]
                    } else {
                        0
                    }),
            decreases permutation@.len() - pot_i,
        {
            let pot_j = permutation[pot_i];
            assert(full[pot_i as int] == pot_j);
            assert(inv[pot_i as int] == potential_to_plaquette@[pot_i as int]);
            assert(inv[pot_j as int] == potential_to_plaquette@[pot_j as int]);
            let state_i = potential_to_plaquette[pot_i];
            let state_j = potential_to_plaquette[pot_j];
            assert(map[state_i as int] == pot_i);
            assert(map[state_j as int] == plaquette_to_potential@[state_j as int]);
            new_redirect.set(state_i as usize, plaquette_to_potential[state_j as usize]);
            assert forall|s: int| 0 <= s < n && s != state_i implies map[s] != pot_i by {
                assert(map[s] != map[state_i as int]);
            }
            pot_i += 1;
        }
        assert(ints_of(new_redirect@) =~= followed_by(map, full)) by {
            assert forall|s: int| 0 <= s < n implies new_redirect@[s] == full[map[s]] by {
                assert(0 <= map[s] < n);
            }
        }
        new_redirect
    }

    /// The redirection with the given potential for each state, without arrays when it
    /// moves nothing.
    pub fn settled(new_redirect: Vec<u32>) -> (r: Self)
        requires
            new_redirect@.len() <= u32::MAX,
            is_permutation(ints_of(new_redirect@)),
        ensures
            r.wf(new_redirect@.len()),
            r.map(new_redirect@.len()) == ints_of(new_redirect@),
            r is Identity <==> ints_of(new_redirect@) == identity(new_redirect@.len()),
    {
        let n = new_redirect.len();
        let mut same = true;
        let mut i: usize = 0;
        while i < n
            invariant
                i <= n,
                n == new_redirect@.len(),
                n <= u32::MAX,
                same <==> (forall|j: int| 0 <= j < i ==> new_redirect@[j] == j),
            decreases n - i,
        {
            if new_redirect[i] != i as u32 {
                same = false;
            }
            i += 1;
        }
        proof {
            let p = ints_of(new_redirect@);
            if same {
                assert(p =~= identity(n as nat));
            } else {
                let j = choose|j: int| 0 <= j < n && new_redirect@[j] != j;
                assert(p[j] != identity(n as nat)[j]);
            }
        }
        if same {
            RedirectArrays::Identity
        } else {
            Self::new(new_redirect)
        }
    }

    /// The redirection as text.
    pub fn describe(&self) -> (r: String)
        ensures
            match self {
                RedirectArrays::Identity => r@ == "[Identity]"@,
                RedirectArrays::Redirect { redirect, .. } => r@ == "R"@ + list_chars(
                    redirect.elems().map_values(|i: u32| i as usize),
                ),
            },
    {
        match self {
            RedirectArrays::Identity => String::from_str("[Identity]"),
            RedirectArrays::Redirect { redirect, .. } => {
                let redirect = redirect.as_slice();
                let mut numbers: Vec<usize> = Vec::new();
                let mut i: usize = 0;
                while i < redirect.len()
                    invariant
                        i <= redirect@.len(),
                        numbers@.len() == i,
                        forall|j: int| 0 <= j < i ==> numbers@[j] == redirect@[j] as usize,
                    decreases redirect@.len() - i,
                {
                    numbers.push(redirect[i] as usize);
                    i += 1;
                }
                assert(numbers@ =~= redirect@.map_values(|i: u32| i as usize));
                let mut s = String::from_str("R");
                let list = decimal_list(numbers.as_slice());
                s.append(list.as_str());
                s
            },
        }
    }
}

/// Whether `permutation` can be applied to `n` replicas.
pub fn can_permute(permutation: &[usize], n: usize) -> (r: bool)
    ensures
        r == permutes(permutation@, n as nat),
{
    if permutation.len() > n {
        return false;
    }
    let ghost p = completed(permutation@, n as nat);
    let mut seen: Vec<bool> = vec![false; n];
    let mut i: usize = 0;
    while i < n
        invariant
            i <= n,
            permutation@.len() <= n,
            p == completed(permutation@, n as nat),
            seen@.len() == n,
            forall|k: int| 0 <= k < i ==> 0 <= #[trigger] p[k] < n,
            forall|k: int, l: int| 0 <= k < i && 0 <= l < i && k != l ==> p[k] != p[l],
            forall|v: int| 0 <= v < n && #[trigger] seen@[v] ==> p.take(i as int).contains(v),
            forall|k: int| 0 <= k < i ==> seen@[#[trigger] p[k]],
        decreases n - i,
    {
        let v = if i < permutation.len() {
            permutation[i]
        } else {
            0
        };
        assert(p[i as int] == v);
        if v >= n {
            return false;
        }
        if seen[v] {
            proof {
                let k = choose|k: int|
                    0 <= k < p.take(i as int).len() && p.take(i as int)[k] == v;
                assert(p[k] == p[i as int]);
            }
            return false;
        }
        let ghost before = seen@;
        seen.set(v, true);
        proof {
            let now = p.take(i + 1);
            assert forall|w: int| 0 <= w < n && #[trigger] seen@[w] implies now.contains(w) by {
                if w == v {
                    assert(now[i as int] == w);
                } else {
                    assert(before[w]);
                    let k = choose|k: int|
                        0 <= k < p.take(i as int).len() && p.take(i as int)[k] == w;
                    assert(now[k] == w);
                }
            }
        }
        i += 1;
    }
    true
}

/// `out` holds the rows of `values`, row `i` at the place `map[i]`.
pub open spec fn rows_moved<T>(out: Seq<T>, values: Seq<T>, row: int, map: Seq<int>) -> bool {
    &&& out.len() == values.len()
    &&& forall|i: int, j: int|
        #![trigger out[map[i] * row + j]]
        #![trigger values[i * row + j]]
        0 <= i < map.len() && 0 <= j < row ==> out[map[i] * row + j] == values[i * row + j]
}

/// Elements of different rows, and of different columns, have different places.
proof fn lemma_places_differ(a: int, j: int, b: int, k: int, row: int)
    requires
        0 <= j < row,
        0 <= k < row,
        a * row + j == b * row + k,
    ensures
        a == b,
        j == k,
{
    assert(a == b) by (nonlinear_arith)
        requires
            0 <= j < row,
            0 <= k < row,
            a * row + j == b * row + k,
    ;
}

/// Every element of `n` rows has a place.
proof fn lemma_place_within(a: int, j: int, n: int, row: int)
    requires
        0 <= a < n,
        0 <= j < row,
    ensures
        0 <= a * row,
        a * row + j < n * row,
        (a + 1) * row == a * row + row,
{
    assert(0 <= a * row && a * row + j < n * row && (a + 1) * row == a * row + row)
        by (nonlinear_arith)
        requires
            0 <= a < n,
            0 <= j < row,
    ;
}

/// Puts rows that the device computed per state in the order of the potentials.
pub fn redirect_rows<T: Copy>(values: Vec<T>, n: usize, row: usize, redirect: Option<&[u32]>) -> (out:
    Vec<T>)
    requires
        values@.len() == n * row,
        redirect matches Some(m) ==> m@.len() == n && is_permutation(ints_of(m@)),
    ensures
        rows_moved(
            out@,
            values@,
            row as int,
            match redirect {
                Some(m) => ints_of(m@),
                None => identity(n as nat),
            },
        ),
        redirect is None ==> out@ == values@,
{
    match redirect {
        None => values,
        Some(m) => {
            let ghost map = ints_of(m@);
            let mut out = values.clone();
            let mut i: usize = 0;
            while i < n
                invariant
                    i <= n,
                    m@.len() == n,
                    map == ints_of(m@),
                    is_permutation(map),
                    values.len() == n * row,
                    out@.len() == n * row,
                    forall|a: int, b: int|
                        #![trigger out@[map[a] * row + b]]
                        #![trigger values@[a * row + b]]
                        0 <= a < i && 0 <= b < row ==> out@[map[a] * row + b] == values@[a * row
                            + b],
                decreases n - i,
            {
                assert(map[i as int] == m@[i as int]);
                let target = m[i] as usize;
                let mut j: usize = 0;
                while j < row
                    invariant
                        i < n,
                        j <= row,
                        m@.len() == n,
                        map == ints_of(m@),
                        is_permutation(map),
                        target == map[i as int],
                        values.len() == n * row,
                        out@.len() == n * row,
                        forall|a: int, b: int|
                            #![trigger out@[map[a] * row + b]]
                            #![trigger values@[a * row + b]]
                            0 <= a < i && 0 <= b < row ==> out@[map[a] * row + b] == values@[a
                                * row + b],
                        forall|b: int|
                            #![trigger out@[map[i as int] * row + b]]
                            #![trigger values@[i * row + b]]
                            0 <= b < j ==> out@[map[i as int] * row + b] == values@[i * row + b],
                    decreases row - j,
                {
                    proof {
                        lemma_place_within(i as int, j as int, n as int, row as int);
                        lemma_place_within(target as int, j as int, n as int, row as int);
                    }
                    let ghost before = out@;
                    let v = values[i * row + j];
                    out.set(target * row + j, v);
                    proof {
                        assert forall|a: int, b: int|
                            #![trigger out@[map[a] * row + b]]
                            #![trigger values@[a * row + b]]
                            0 <= a < i && 0 <= b < row implies out@[map[a] * row + b] == values@[a
                            * row + b] by {
                            assert(0 <= map[a] < n);
                            assert(map[a] != map[i as int]);
                            lemma_place_within(map[a], b, n as int, row as int);
                            if map[a] * row + b == target * row + j {
                                lemma_places_differ(
                                    map[a],
                                    b,
                                    target as int,
                                    j as int,
                                    row as int,
                                );
                            }
                            assert(before[map[a] * row + b] == values@[a * row + b]);
                        }
                        assert forall|b: int|
                            #![trigger out@[map[i as int] * row + b]]
                            #![trigger values@[i * row + b]]
                            0 <= b < j + 1 implies out@[map[i as int] * row + b] == values@[i * row
                            + b] by {
                            if b < j {
                                lemma_place_within(map[i as int], b, n as int, row as int);
                                assert(before[map[i as int] * row + b] == values@[i * row + b]);
                            }
                        }
                    }
                    j += 1;
                }
                i += 1;
            }
            out
        },
    }
}

/// Permuting the replicas moves every row of a result from its potential to the one that
/// the permutation names, whatever the redirection was before.
pub proof fn law_permuting_moves_rows<T>(
    values: Seq<T>,
    row: int,
    map: Seq<int>,
    permutation: Seq<int>,
    before: Seq<T>,
    after: Seq<T>,
)
    requires
        is_permutation(map),
        is_permutation(permutation),
        map.len() == permutation.len(),
        rows_moved(before, values, row, map),
        rows_moved(after, values, row, followed_by(map, permutation)),
    ensures
        forall|i: int, j: int|
            0 <= i < map.len() && 0 <= j < row ==> after[#[trigger] permutation[i] * row + j]
                == before[#[trigger] (i * row + j)],
{
    let both = followed_by(map, permutation);
    assert forall|i: int, j: int| 0 <= i < map.len() && 0 <= j < row implies after[
        #[trigger] permutation[i] * row + j
    ] == before[#[trigger] (i * row + j)] by {
        lemma_permutation_reaches(map, i);
        let s = choose|s: int| 0 <= s < map.len() && #[trigger] map[s] == i;
        assert(both[s] == permutation[i]);
        assert(before[map[s] * row + j] == values[s * row + j]);
        assert(after[both[s] * row + j] == values[s * row + j]);
    }
}

/// Permuting by what undoes a permutation restores the redirection.
pub proof fn law_permuting_back_restores(map: Seq<int>, permutation: Seq<int>, undo: Seq<int>)
    requires
        is_permutation(map),
        is_permutation(permutation),
        map.len() == permutation.len(),
        undoes(undo, permutation),
    ensures
        followed_by(followed_by(map, permutation), undo) == map,
{
    let r = followed_by(followed_by(map, permutation), undo);
    assert forall|s: int| 0 <= s < map.len() implies r[s] == map[s] by {
        assert(0 <= map[s] < map.len());
        assert(undo[permutation[map[s]]] == map[s]);
    }
    assert(r =~= map);
}

/// Permuting by two permutations in turn is permuting by their composition.
pub proof fn law_permuting_twice_composes(map: Seq<int>, first: Seq<int>, second: Seq<int>)
    requires
        is_permutation(map),
        map.len() == first.len(),
    ensures
        followed_by(followed_by(map, first), second) == followed_by(
            map,
            followed_by(first, second),
        ),
{
    assert forall|s: int| 0 <= s < map.len() implies 0 <= #[trigger] map[s] < first.len() by {}
    assert(followed_by(followed_by(map, first), second) =~= followed_by(
        map,
        followed_by(first, second),
    ));
}

} // verus!
