//! Exchanging replicas, and counting how often it succeeds.
//!
//! A tempering step first applies all proposed swaps, so that the device can compute
//! the action of the exchanged replicas, and then undoes those that were rejected.

use crate::arrays::ints;
use crate::redirect::{
    completed, followed_by, identity, is_permutation, law_permuting_moves_rows,
    law_permuting_twice_composes, lemma_followed_by, permutes, rows_moved,
};
use vstd::prelude::*;

verus! {

/// The map of the `hashbrown` crate from pairs of replicas to pairs of counts.
#[verifier::external_body]
pub struct PairCounts {
    inner: hashbrown::HashMap<(usize, usize), (usize, usize)>,
}

/// The entries of a [`PairCounts`].
pub uninterp spec fn pair_counts(m: PairCounts) -> Map<(usize, usize), (usize, usize)>;

/// The counts before anything was logged.
pub open spec fn no_counts() -> Map<(usize, usize), (usize, usize)> {
    Map::empty()
}

/// `hashbrown::HashMap::new`: a map without entries.
#[verifier::external_body]
fn pair_counts_new() -> (r: PairCounts)
    ensures
        pair_counts(r) == no_counts(),
{
    PairCounts { inner: hashbrown::HashMap::new() }
}

/// `hashbrown::HashMap::entry` followed by `Entry::or_default`: a reference to the value
/// at `key`, where a pair of zeros is put if there was none.
#[verifier::external_body]
fn pair_counts_entry(m: &mut PairCounts, key: (usize, usize)) -> (r: &mut (usize, usize))
    ensures
        *r == count_of(pair_counts(*old(m)), key),
        pair_counts(*final(m)) == pair_counts(*old(m)).insert(key, *final(r)),
{
    m.inner.entry(key).or_default()
}

/// `hashbrown::HashMap::get`: the value at `key`, if there is one.
#[verifier::external_body]
fn pair_counts_get(m: &PairCounts, key: (usize, usize)) -> (r: Option<(usize, usize)>)
    ensures
        r == pair_counts(*m).get(key),
{
    m.inner.get(&key).copied()
}

/// `hashbrown::HashMap::iter`: every entry once, in no particular order.
#[verifier::external_body]
fn pair_counts_entries(m: &PairCounts) -> (r: Vec<((usize, usize), (usize, usize))>)
    ensures
        r@.no_duplicates(),
        forall|e: ((usize, usize), (usize, usize))| #[trigger]
            r@.contains(e) <==> pair_counts(*m).get(e.0) == Some(e.1),
{
    m.inner.iter().map(|(key, value)| (*key, *value)).collect()
}

/// The successes and attempts of a pair, zero when nothing was logged of it.
pub open spec fn count_of(
    m: Map<(usize, usize), (usize, usize)>,
    key: (usize, usize),
) -> (usize, usize) {
    if m.dom().contains(key) {
        m[key]
    } else {
        (0, 0)
    }
}

/// A pair of replicas with the smaller number first.
pub open spec fn ordered(a: usize, b: usize) -> (usize, usize) {
    if a <= b {
        (a, b)
    } else {
        (b, a)
    }
}

/// The counts after one more attempt to exchange `a` and `b`.
pub open spec fn logged(
    m: Map<(usize, usize), (usize, usize)>,
    a: usize,
    b: usize,
    succeeded: bool,
) -> Map<(usize, usize), (usize, usize)> {
    let key = ordered(a, b);
    let (succ, att) = count_of(m, key);
    m.insert(
        key,
        (
            if succeeded {
                (succ + 1) as usize
            } else {
                succ
            },
            (att + 1) as usize,
        ),
    )
}

/// Every pair has its smaller number first, and no more successes than attempts.
pub open spec fn counts_consistent(m: Map<(usize, usize), (usize, usize)>) -> bool {
    forall|key: (usize, usize)| #[trigger]
        m.dom().contains(key) ==> key.0 <= key.1 && m[key].0 <= m[key].1
}

/// How often exchanges of each pair of replicas were attempted, and how often they
/// succeeded.
pub struct TemperingTracker {
    /// Successes and attempts by pair.
    pub successes_and_attempts: PairCounts,
}

impl View for TemperingTracker {
    type V = Map<(usize, usize), (usize, usize)>;

    open spec fn view(&self) -> Map<(usize, usize), (usize, usize)> {
        pair_counts(self.successes_and_attempts)
    }
}

impl Default for TemperingTracker {
    fn default() -> (r: Self)
        ensures
            r@ == no_counts(),
            r.wf(),
    {
        TemperingTracker { successes_and_attempts: pair_counts_new() }
    }
}

impl TemperingTracker {
    /// Every pair has its smaller number first, and no more successes than attempts.
    pub open spec fn wf(&self) -> bool {
        counts_consistent(self@)
    }

    /// Counts one attempt to exchange `a` and `b`.
    pub fn log(&mut self, a: usize, b: usize, succeeded: bool)
        requires
            old(self).wf(),
            count_of(old(self)@, ordered(a, b)).1 < usize::MAX,
        ensures
            final(self)@ == logged(old(self)@, a, b, succeeded),
            final(self).wf(),
    {
        let key: (usize, usize) = if a <= b {
            (a, b)
        } else {
            (b, a)
        };
        let counts = pair_counts_entry(&mut self.successes_and_attempts, key);
        counts.1 = counts.1 + 1;
        if succeeded {
            counts.0 = counts.0 + 1;
        }
        proof {
            let (before, after) = (old(self)@, self@);
            assert(after == logged(before, a, b, succeeded));
            assert forall|k: (usize, usize)| #[trigger] after.dom().contains(k) implies k.0 <= k.1
                && after[k].0 <= after[k].1 by {
                if k != key {
                    assert(before.dom().contains(k));
                }
            }
        }
    }

    /// The successes and attempts by pair.
    pub fn get_map(&self) -> (r: &PairCounts)
        ensures
            pair_counts(*r) == self@,
    {
        &self.successes_and_attempts
    }
}

impl PairCounts {
    /// The successes and attempts of a pair, if any were logged.
    pub fn get(&self, key: (usize, usize)) -> (r: Option<(usize, usize)>)
        ensures
            r == pair_counts(*self).get(key),
    {
        pair_counts_get(self, key)
    }

    /// Every pair once, with its successes and attempts.
    pub fn entries(&self) -> (r: Vec<((usize, usize), (usize, usize))>)
        ensures
            r@.no_duplicates(),
            forall|e: ((usize, usize), (usize, usize))| #[trigger]
                r@.contains(e) <==> pair_counts(*self).get(e.0) == Some(e.1),
    {
        pair_counts_entries(self)
    }
}

/// The order in which a pair is named does not matter to the counts.
pub proof fn law_log_is_symmetric(
    m: Map<(usize, usize), (usize, usize)>,
    a: usize,
    b: usize,
    succeeded: bool,
)
    ensures
        logged(m, a, b, succeeded) == logged(m, b, a, succeeded),
{
}

/// All swaps exchange replicas below `n`.
pub open spec fn swaps_within(swaps: Seq<(usize, usize)>, n: nat) -> bool {
    forall|k: int| 0 <= k < swaps.len() ==> (#[trigger] swaps[k]).0 < n && swaps[k].1 < n
}

/// No replica is part of two swaps.
pub open spec fn swaps_disjoint(swaps: Seq<(usize, usize)>) -> bool {
    forall|k: int, l: int|
        #![trigger swaps[k], swaps[l]]
        0 <= k < swaps.len() && 0 <= l < swaps.len() && k != l ==> {
            &&& swaps[k].0 != swaps[l].0
            &&& swaps[k].0 != swaps[l].1
            &&& swaps[k].1 != swaps[l].0
            &&& swaps[k].1 != swaps[l].1
        }
}

/// `p` with `a` sent to `b` and `b` sent to `a`.
pub open spec fn with_swap(p: Seq<int>, a: int, b: int) -> Seq<int> {
    p.update(a, b).update(b, a)
}

/// `p` with `a` and `b` left in place.
pub open spec fn without_swap(p: Seq<int>, a: int, b: int) -> Seq<int> {
    p.update(a, a).update(b, b)
}

/// The permutation of `n` replicas that applies the first `k` swaps, a later swap
/// overriding earlier ones.
pub open spec fn proposed(n: nat, swaps: Seq<(usize, usize)>, k: int) -> Seq<int>
    decreases k,
{
    if k <= 0 {
        identity(n)
    } else {
        with_swap(
            proposed(n, swaps, k - 1),
            swaps[k - 1].0 as int,
            swaps[k - 1].1 as int,
        )
    }
}

/// The permutation that undoes, among the first `k` swaps, those that were not accepted,
/// and all swaps after them.
pub open spec fn undoing(
    n: nat,
    swaps: Seq<(usize, usize)>,
    accepted: Seq<bool>,
    k: int,
) -> Seq<int>
    decreases k,
{
    if k <= 0 {
        proposed(n, swaps, swaps.len() as int)
    } else {
        let p = undoing(n, swaps, accepted, k - 1);
        let (a, b) = (swaps[k - 1].0 as int, swaps[k - 1].1 as int);
        if accepted[k - 1] {
            without_swap(p, a, b)
        } else {
            with_swap(p, a, b)
        }
    }
}

/// The number of swaps that were decided upon.
pub open spec fn decided(swaps: Seq<(usize, usize)>, accepted: Seq<bool>) -> int {
    if swaps.len() <= accepted.len() {
        swaps.len() as int
    } else {
        accepted.len() as int
    }
}

/// The permutation of `n` replicas that applies all swaps.
pub fn propose_swaps(n: usize, swaps: &[(usize, usize)]) -> (perm: Vec<usize>)
    requires
        swaps_within(swaps@, n as nat),
    ensures
        perm@.len() == n,
        ints(perm@) == proposed(n as nat, swaps@, swaps@.len() as int),
{
    let mut perm: Vec<usize> = Vec::new();
    let mut i: usize = 0;
    while i < n
        invariant
            i <= n,
            perm@.len() == i,
            forall|j: int| 0 <= j < i ==> perm@[j] == j,
        decreases n - i,
    {
        perm.push(i);
        i += 1;
    }
    assert(ints(perm@) =~= identity(n as nat));
    let mut k: usize = 0;
    while k < swaps.len()
        invariant
            k <= swaps@.len(),
            swaps_within(swaps@, n as nat),
            perm@.len() == n,
            ints(perm@) == proposed(n as nat, swaps@, k as int),
        decreases swaps@.len() - k,
    {
        let (a, b) = swaps[k];
        assert(swaps@[k as int].0 < n && swaps@[k as int].1 < n);
        let ghost before = perm@;
        perm.set(a, b);
        perm.set(b, a);
        assert(ints(perm@) =~= with_swap(ints(before), a as int, b as int));
        k += 1;
    }
    perm
}

/// The permutation that undoes those of the applied swaps that were not accepted.
pub fn undo_rejected(perm: Vec<usize>, swaps: &[(usize, usize)], accepted: &[bool]) -> (r: Vec<
    usize,
>)
    requires
        swaps_within(swaps@, perm@.len()),
        ints(perm@) == proposed(perm@.len(), swaps@, swaps@.len() as int),
    ensures
        r@.len() == perm@.len(),
        ints(r@) == undoing(perm@.len(), swaps@, accepted@, decided(swaps@, accepted@)),
{
    let ghost n = perm@.len();
    let mut perm = perm;
    let mut k: usize = 0;
    while k < swaps.len() && k < accepted.len()
        invariant
            k <= swaps@.len(),
            k <= accepted@.len(),
            perm@.len() == n,
            swaps_within(swaps@, n),
            ints(perm@) == undoing(n, swaps@, accepted@, k as int),
        decreases swaps@.len() - k,
    {
        let (a, b) = swaps[k];
        assert(swaps@[k as int].0 < n && swaps@[k as int].1 < n);
        let ghost before = perm@;
        if accepted[k] {
            perm.set(a, a);
            perm.set(b, b);
            assert(ints(perm@) =~= without_swap(ints(before), a as int, b as int));
        } else {
            perm.set(a, b);
            perm.set(b, a);
            assert(ints(perm@) =~= with_swap(ints(before), a as int, b as int));
        }
        k += 1;
    }
    perm
}

/// A map of the numbers below its length that undoes itself is a permutation.
proof fn lemma_involution(p: Seq<int>)
    requires
        forall|i: int| 0 <= i < p.len() ==> 0 <= #[trigger] p[i] < p.len(),
        forall|i: int| 0 <= i < p.len() ==> p[#[trigger] p[i]] == i,
    ensures
        is_permutation(p),
{
    assert forall|i: int, j: int| 0 <= i < p.len() && 0 <= j < p.len() && i != j implies p[i]
        != p[j] by {
        assert(p[p[i]] == i);
        assert(p[p[j]] == j);
    }
}

/// `i` is part of one of the first `k` swaps.
pub open spec fn touched(swaps: Seq<(usize, usize)>, k: int, i: int) -> bool {
    exists|l: int| 0 <= l < k && (i == (#[trigger] swaps[l]).0 || i == swaps[l].1)
}

/// What disjoint swaps do to each replica.
proof fn lemma_proposed_disjoint(n: nat, swaps: Seq<(usize, usize)>, k: int)
    requires
        swaps_within(swaps, n),
        swaps_disjoint(swaps),
        0 <= k <= swaps.len(),
    ensures
        proposed(n, swaps, k).len() == n,
        forall|l: int|
            0 <= l < k ==> proposed(n, swaps, k)[(#[trigger] swaps[l]).0 as int] == swaps[l].1
                && proposed(n, swaps, k)[swaps[l].1 as int] == swaps[l].0,
        forall|i: int|
            0 <= i < n && !touched(swaps, k, i) ==> #[trigger] proposed(n, swaps, k)[i] == i,
    decreases k,
{
    if k > 0 {
        lemma_proposed_disjoint(n, swaps, k - 1);
        let p = proposed(n, swaps, k - 1);
        let q = proposed(n, swaps, k);
        assert(swaps[k - 1].0 < n && swaps[k - 1].1 < n);
        assert forall|l: int| 0 <= l < k implies q[(#[trigger] swaps[l]).0 as int] == swaps[l].1
            && q[swaps[l].1 as int] == swaps[l].0 by {
            if l < k - 1 {
                assert(swaps[l].0 != swaps[k - 1].0);
                assert(swaps[l].0 < n && swaps[l].1 < n);
            }
        }
        assert forall|i: int| 0 <= i < n && !touched(swaps, k, i) implies #[trigger] q[i] == i by {
            assert(i != swaps[k - 1].0 && i != swaps[k - 1].1);
            assert(!touched(swaps, k - 1, i)) by {
                if touched(swaps, k - 1, i) {
                    let l = choose|l: int|
                        0 <= l < k - 1 && (i == (#[trigger] swaps[l]).0 || i == swaps[l].1);
                    assert(touched(swaps, k, i));
                }
            }
            assert(p[i] == i);
        }
    }
}

/// What undoing rejected disjoint swaps does to each replica.
proof fn lemma_undoing_disjoint(
    n: nat,
    swaps: Seq<(usize, usize)>,
    accepted: Seq<bool>,
    k: int,
)
    requires
        swaps_within(swaps, n),
        swaps_disjoint(swaps),
        0 <= k <= decided(swaps, accepted),
    ensures
        undoing(n, swaps, accepted, k).len() == n,
        forall|l: int|
            0 <= l < swaps.len() ==> {
                let u = undoing(n, swaps, accepted, k);
                let (a, b) = ((#[trigger] swaps[l]).0 as int, swaps[l].1 as int);
                if l < k && accepted[l] {
                    u[a] == a && u[b] == b
                } else {
                    u[a] == b && u[b] == a
                }
            },
        forall|i: int|
            0 <= i < n && !touched(swaps, swaps.len() as int, i) ==> #[trigger] undoing(
                n,
                swaps,
                accepted,
                k,
            )[i] == i,
    decreases k,
{
    if k <= 0 {
        lemma_proposed_disjoint(n, swaps, swaps.len() as int);
    } else {
        lemma_undoing_disjoint(n, swaps, accepted, k - 1);
        let p = undoing(n, swaps, accepted, k - 1);
        let q = undoing(n, swaps, accepted, k);
        assert(swaps[k - 1].0 < n && swaps[k - 1].1 < n);
        assert forall|l: int| 0 <= l < swaps.len() implies ({
            let (a, b) = ((#[trigger] swaps[l]).0 as int, swaps[l].1 as int);
            if l < k && accepted[l] {
                q[a] == a && q[b] == b
            } else {
                q[a] == b && q[b] == a
            }
        }) by {
            assert(swaps[l].0 < n && swaps[l].1 < n);
            if l != k - 1 {
                assert(swaps[l].0 != swaps[k - 1].0);
            }
        }
        assert forall|i: int|
            0 <= i < n && !touched(swaps, swaps.len() as int, i) implies #[trigger] q[i] == i by {
            assert(i != swaps[k - 1].0 && i != swaps[k - 1].1);
            assert(p[i] == i);
        }
    }
}

/// The replica is one of the two that the swap exchanges.
pub open spec fn in_swap(swap: (usize, usize), i: int) -> bool {
    i == swap.0 || i == swap.1
}

/// The other replica of a swap.
pub open spec fn partner(swap: (usize, usize), i: int) -> int {
    if i == swap.0 {
        swap.1 as int
    } else {
        swap.0 as int
    }
}

/// The permutation that is proposed sends a replica to its partner in the last swap that it is
/// in, and leaves a replica in place that is in no swap.
pub proof fn law_proposal_follows_the_last_swap(n: nat, swaps: Seq<(usize, usize)>, k: int, i: int)
    requires
        swaps_within(swaps, n),
        0 <= k <= swaps.len(),
        0 <= i < n,
    ensures
        proposed(n, swaps, k).len() == n,
        forall|l: int|
            0 <= l < k && in_swap(#[trigger] swaps[l], i) && (forall|m: int|
                l < m < k ==> !in_swap(#[trigger] swaps[m], i)) ==> proposed(n, swaps, k)[i]
                == partner(swaps[l], i),
        (forall|m: int| 0 <= m < k ==> !in_swap(#[trigger] swaps[m], i)) ==> proposed(
            n,
            swaps,
            k,
        )[i] == i,
    decreases k,
{
    if k > 0 {
        law_proposal_follows_the_last_swap(n, swaps, k - 1, i);
        let last = swaps[k - 1];
        assert(last.0 < n && last.1 < n);
        let p = proposed(n, swaps, k);
        assert forall|l: int|
            0 <= l < k && in_swap(#[trigger] swaps[l], i) && (forall|m: int|
                l < m < k ==> !in_swap(#[trigger] swaps[m], i)) implies p[i] == partner(
            swaps[l],
            i,
        ) by {
            if l < k - 1 {
                assert(!in_swap(swaps[k - 1], i));
            }
        }
        if forall|m: int| 0 <= m < k ==> !in_swap(#[trigger] swaps[m], i) {
            assert(!in_swap(swaps[k - 1], i));
        }
    }
}

/// The permutation that undoes a proposal leaves a replica in place when the last swap decided
/// upon that it is in was accepted, and sends it to its partner when that was rejected. A
/// replica that is in no swap decided upon goes where the proposal sent it.
pub proof fn law_undoing_follows_the_last_decision(
    n: nat,
    swaps: Seq<(usize, usize)>,
    accepted: Seq<bool>,
    k: int,
    i: int,
)
    requires
        swaps_within(swaps, n),
        0 <= k <= swaps.len(),
        k <= accepted.len(),
        0 <= i < n,
    ensures
        undoing(n, swaps, accepted, k).len() == n,
        forall|l: int|
            0 <= l < k && in_swap(#[trigger] swaps[l], i) && (forall|m: int|
                l < m < k ==> !in_swap(#[trigger] swaps[m], i)) ==> undoing(
                n,
                swaps,
                accepted,
                k,
            )[i] == (if accepted[l] {
                i
            } else {
                partner(swaps[l], i)
            }),
        (forall|m: int| 0 <= m < k ==> !in_swap(#[trigger] swaps[m], i)) ==> undoing(
            n,
            swaps,
            accepted,
            k,
        )[i] == proposed(n, swaps, swaps.len() as int)[i],
    decreases k,
{
    if k <= 0 {
        law_proposal_follows_the_last_swap(n, swaps, swaps.len() as int, i);
    } else {
        law_undoing_follows_the_last_decision(n, swaps, accepted, k - 1, i);
        let last = swaps[k - 1];
        assert(last.0 < n && last.1 < n);
        let p = undoing(n, swaps, accepted, k);
        assert forall|l: int|
            0 <= l < k && in_swap(#[trigger] swaps[l], i) && (forall|m: int|
                l < m < k ==> !in_swap(#[trigger] swaps[m], i)) implies p[i] == (if accepted[l] {
            i
        } else {
            partner(swaps[l], i)
        }) by {
            if l < k - 1 {
                assert(!in_swap(swaps[k - 1], i));
            }
        }
        if forall|m: int| 0 <= m < k ==> !in_swap(#[trigger] swaps[m], i) {
            assert(!in_swap(swaps[k - 1], i));
        }
    }
}

/// With disjoint swaps both permutations of a tempering step are permutations, and
/// together they exchange exactly the pairs whose swap was accepted. A swap that nothing
/// was decided about counts as rejected.
pub proof fn law_step_exchanges_accepted_pairs(
    n: nat,
    swaps: Seq<(usize, usize)>,
    accepted: Seq<bool>,
)
    requires
        swaps_within(swaps, n),
        swaps_disjoint(swaps),
    ensures
        is_permutation(proposed(n, swaps, swaps.len() as int)),
        is_permutation(undoing(n, swaps, accepted, decided(swaps, accepted))),
        ({
            let net = followed_by(
                proposed(n, swaps, swaps.len() as int),
                undoing(n, swaps, accepted, decided(swaps, accepted)),
            );
            &&& net.len() == n
            &&& forall|l: int|
                0 <= l < swaps.len() ==> {
                    let (a, b) = ((#[trigger] swaps[l]).0 as int, swaps[l].1 as int);
                    if l < accepted.len() && accepted[l] {
                        net[a] == b && net[b] == a
                    } else {
                        net[a] == a && net[b] == b
                    }
                }
            &&& forall|i: int|
                0 <= i < n && !touched(swaps, swaps.len() as int, i) ==> #[trigger] net[i] == i
        }),
{
    let m = swaps.len() as int;
    let p = proposed(n, swaps, m);
    let u = undoing(n, swaps, accepted, decided(swaps, accepted));
    lemma_proposed_disjoint(n, swaps, m);
    lemma_undoing_disjoint(n, swaps, accepted, decided(swaps, accepted));
    assert forall|i: int| 0 <= i < n implies 0 <= #[trigger] p[i] < n && p[p[i]] == i && 0 <= u[i]
        < n && u[u[i]] == i by {
        if touched(swaps, m, i) {
            let l = choose|l: int| 0 <= l < m && (i == (#[trigger] swaps[l]).0 || i == swaps[l].1);
            assert(swaps[l].0 < n && swaps[l].1 < n);
        }
    }
    assert forall|i: int| 0 <= i < n implies 0 <= #[trigger] u[i] < n && u[u[i]] == i by {
        assert(0 <= p[i] < n);
    }
    lemma_involution(p);
    lemma_involution(u);
    let net = followed_by(p, u);
    assert forall|l: int| 0 <= l < swaps.len() implies ({
        let (a, b) = ((#[trigger] swaps[l]).0 as int, swaps[l].1 as int);
        if l < accepted.len() && accepted[l] {
            net[a] == b && net[b] == a
        } else {
            net[a] == a && net[b] == b
        }
    }) by {
        assert(swaps[l].0 < n && swaps[l].1 < n);
    }
    assert forall|i: int| 0 <= i < n && !touched(swaps, m, i) implies #[trigger] net[i] == i by {
        assert(p[i] == i);
        assert(u[i] == i);
    }
}

/// A permutation given in full can be applied as it is.
pub proof fn lemma_full_permutation(permutation: Seq<usize>)
    requires
        is_permutation(ints(permutation)),
    ensures
        permutes(permutation, permutation.len()),
        completed(permutation, permutation.len()) == ints(permutation),
{
    assert(completed(permutation, permutation.len()) =~= ints(permutation));
}

/// A tempering step with disjoint swaps moves exactly the states in the potentials of an
/// accepted swap, each to the other potential. All other states stay where they are.
pub proof fn law_step_moves_states(map: Seq<int>, swaps: Seq<(usize, usize)>, accepted: Seq<bool>)
    requires
        is_permutation(map),
        swaps_within(swaps, map.len()),
        swaps_disjoint(swaps),
    ensures
        ({
            let n = map.len();
            let after = followed_by(
                followed_by(map, proposed(n, swaps, swaps.len() as int)),
                undoing(n, swaps, accepted, decided(swaps, accepted)),
            );
            &&& is_permutation(after)
            &&& after.len() == n
            &&& forall|s: int, l: int|
                0 <= s < n && 0 <= l < swaps.len() && #[trigger] map[s] == (
                #[trigger] swaps[l]).0 ==> after[s] == (if l < accepted.len() && accepted[l] {
                    swaps[l].1 as int
                } else {
                    swaps[l].0 as int
                })
            &&& forall|s: int, l: int|
                0 <= s < n && 0 <= l < swaps.len() && #[trigger] map[s] == (
                #[trigger] swaps[l]).1 ==> after[s] == (if l < accepted.len() && accepted[l] {
                    swaps[l].0 as int
                } else {
                    swaps[l].1 as int
                })
            &&& forall|s: int|
                0 <= s < n && !touched(swaps, swaps.len() as int, #[trigger] map[s]) ==> after[s]
                    == map[s]
        }),
{
    let n = map.len();
    let p = proposed(n, swaps, swaps.len() as int);
    let u = undoing(n, swaps, accepted, decided(swaps, accepted));
    law_step_exchanges_accepted_pairs(n, swaps, accepted);
    lemma_proposed_disjoint(n, swaps, swaps.len() as int);
    lemma_undoing_disjoint(n, swaps, accepted, decided(swaps, accepted));
    lemma_followed_by(map, p);
    lemma_followed_by(followed_by(map, p), u);
    let net = followed_by(p, u);
    law_permuting_twice_composes(map, p, u);
    let after = followed_by(map, net);
    assert forall|s: int| 0 <= s < n implies after[s] == net[#[trigger] map[s]] by {}
    assert forall|s: int|
        0 <= s < n && !touched(swaps, swaps.len() as int, #[trigger] map[s]) implies after[s]
        == map[s] by {
        assert(net[map[s]] == map[s]);
    }
}

/// What is read by potential after a tempering step with disjoint swaps: the rows of each
/// accepted pair are exchanged, and all other rows are where they were.
pub proof fn law_step_exchanges_rows<T>(
    values: Seq<T>,
    row: int,
    map: Seq<int>,
    swaps: Seq<(usize, usize)>,
    accepted: Seq<bool>,
    before: Seq<T>,
    after: Seq<T>,
)
    requires
        is_permutation(map),
        swaps_within(swaps, map.len()),
        swaps_disjoint(swaps),
        rows_moved(before, values, row, map),
        rows_moved(
            after,
            values,
            row,
            followed_by(
                followed_by(map, proposed(map.len(), swaps, swaps.len() as int)),
                undoing(map.len(), swaps, accepted, decided(swaps, accepted)),
            ),
        ),
    ensures
        forall|l: int, j: int|
            #![trigger swaps[l], values[j]]
            0 <= l < swaps.len() && 0 <= j < row ==> {
                let (a, b) = (swaps[l].0 as int, swaps[l].1 as int);
                if l < accepted.len() && accepted[l] {
                    after[a * row + j] == before[b * row + j] && after[b * row + j] == before[a
                        * row + j]
                } else {
                    after[a * row + j] == before[a * row + j] && after[b * row + j] == before[b
                        * row + j]
                }
            },
        forall|i: int, j: int|
            #![trigger before[i * row + j]]
            0 <= i < map.len() && !touched(swaps, swaps.len() as int, i) && 0 <= j < row
                ==> after[i * row + j] == before[i * row + j],
{
    let n = map.len();
    let p = proposed(n, swaps, swaps.len() as int);
    let u = undoing(n, swaps, accepted, decided(swaps, accepted));
    law_step_exchanges_accepted_pairs(n, swaps, accepted);
    lemma_proposed_disjoint(n, swaps, swaps.len() as int);
    lemma_undoing_disjoint(n, swaps, accepted, decided(swaps, accepted));
    let net = followed_by(p, u);
    lemma_followed_by(p, u);
    law_permuting_twice_composes(map, p, u);
    law_permuting_moves_rows(values, row, map, net, before, after);
    assert forall|l: int, j: int|
        #![trigger swaps[l], values[j]]
        0 <= l < swaps.len() && 0 <= j < row implies ({
        let (a, b) = (swaps[l].0 as int, swaps[l].1 as int);
        if l < accepted.len() && accepted[l] {
            after[a * row + j] == before[b * row + j] && after[b * row + j] == before[a * row + j]
        } else {
            after[a * row + j] == before[a * row + j] && after[b * row + j] == before[b * row + j]
        }
    }) by {
        let (a, b) = (swaps[l].0 as int, swaps[l].1 as int);
        assert(a < n && b < n);
        assert(after[net[a] * row + j] == before[a * row + j]);
        assert(after[net[b] * row + j] == before[b * row + j]);
    }
    assert forall|i: int, j: int|
        #![trigger before[i * row + j]]
        0 <= i < n && !touched(swaps, swaps.len() as int, i) && 0 <= j < row implies after[i * row
        + j] == before[i * row + j] by {
        assert(net[i] == i);
        assert(after[net[i] * row + j] == before[i * row + j]);
    }
}

} // verus!
