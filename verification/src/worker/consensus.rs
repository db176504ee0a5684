//! Simple consensus: repeat the same work until enough results agree.
//!
//! Results are compared by a key (their hash); a consensus is reached when
//! some key has been seen at least the minimum number of times.
use vstd::prelude::*;

use crate::assoc::{assoc_map, has_key, lemma_assoc_index, lemma_assoc_push, lemma_assoc_update, unique_keys, lemma_assoc_empty};
use crate::errors::AntsError;

verus! {

/// How many times `x` occurs in `s`.
pub open spec fn count_in(s: Seq<usize>, x: usize) -> nat
    decreases s.len(),
{
    if s.len() == 0 {
        0
    } else {
        count_in(s.drop_last(), x) + if s.last() == x {
            1nat
        } else {
            0nat
        }
    }
}

/// The largest number of times any value occurs in `s` (0 for an empty `s`).
pub open spec fn max_count(s: Seq<usize>) -> nat
    decreases s.len(),
{
    if s.len() == 0 {
        0
    } else {
        let rest = max_count(s.drop_last());
        let here = count_in(s, s.last());
        if rest >= here {
            rest
        } else {
            here
        }
    }
}

/// The ballot at position `i` brings its value to at least `min_ballot` votes.
pub open spec fn reaches(s: Seq<usize>, min_ballot: usize, i: int) -> bool {
    count_in(s.take(i + 1), s[i]) >= min_ballot
}

proof fn lemma_count_le_len(s: Seq<usize>, x: usize)
    ensures
        count_in(s, x) <= s.len(),
    decreases s.len(),
{
    if s.len() > 0 {
        lemma_count_le_len(s.drop_last(), x);
    }
}

proof fn lemma_max_count_range(s: Seq<usize>)
    ensures
        max_count(s) <= s.len(),
        s.len() > 0 ==> max_count(s) >= 1,
    decreases s.len(),
{
    if s.len() > 0 {
        lemma_max_count_range(s.drop_last());
        lemma_count_le_len(s, s.last());
        assert(count_in(s, s.last()) >= 1);
    }
}

fn find_counter(counts: &Vec<(usize, usize)>, b: usize) -> (r: Option<usize>)
    ensures
        r matches Some(k) ==> k < counts.len() && counts@[k as int].0 == b,
        r is None ==> forall|j: int| 0 <= j < counts.len() ==> counts@[j].0 != b,
{
    let mut k: usize = 0;
    while k < counts.len()
        invariant
            0 <= k <= counts.len(),
            forall|j: int| 0 <= j < k ==> counts@[j].0 != b,
        decreases counts.len() - k,
    {
        if counts[k].0 == b {
            return Some(k);
        }
        k = k + 1;
    }
    None
}

/// Counts the ballots in order and returns the position of the first one
/// that brings its value to `min_ballot` votes; otherwise the largest number
/// of votes any value got.
pub fn tally(ballots: &Vec<usize>, min_ballot: usize) -> (r: Result<usize, usize>)
    requires
        min_ballot > 0 || ballots.len() > 0,
    ensures
        r matches Ok(i) ==> i < ballots.len() && reaches(ballots@, min_ballot, i as int) && forall|j: int|
            0 <= j < i ==> !reaches(ballots@, min_ballot, j),
        r matches Err(n) ==> n == max_count(ballots@) && n < min_ballot && forall|j: int|
            0 <= j < ballots.len() ==> !reaches(ballots@, min_ballot, j),
{
    let mut counts: Vec<(usize, usize)> = Vec::new();
    let mut best: usize = 0;
    let mut i: usize = 0;
    proof {
        lemma_assoc_empty(counts@);
    }
    while i < ballots.len()
        invariant
            0 <= i <= ballots.len(),
            unique_keys(counts@),
            forall|x: usize| #[trigger]
                assoc_map(counts@).contains_key(x) ==> assoc_map(counts@)[x] == count_in(
                    ballots@.take(i as int),
                    x,
                ),
            forall|x: usize|
                !#[trigger] assoc_map(counts@).contains_key(x) ==> count_in(ballots@.take(i as int), x)
                    == 0,
            best == max_count(ballots@.take(i as int)),
            best < min_ballot || i == 0,
            forall|j: int| 0 <= j < i ==> !reaches(ballots@, min_ballot, j),
        decreases ballots.len() - i,
    {
        let b = ballots[i];
        let ghost pre = ballots@.take(i as int);
        let ghost post = ballots@.take(i + 1);
        proof {
            assert(post.drop_last() =~= pre);
            assert(post.last() == b);
            assert(count_in(post, b) == count_in(pre, b) + 1);
            assert forall|x: usize| x != b implies count_in(post, x) == count_in(pre, x) by {}
        }
        let found = find_counter(&counts, b);
        let n: usize;
        if let Some(k) = found {
            proof {
                lemma_assoc_index(counts@, k as int);
                lemma_count_le_len(pre, b);
                assert(counts@[k as int].1 == count_in(pre, b));
            }
            n = counts[k].1 + 1;
            let ghost old_counts = counts@;
            counts.set(k, (b, n));
            proof {
                lemma_assoc_update(old_counts, k as int, n);
            }
        } else {
            proof {
                if has_key(counts@, b) {
                    let j = choose|j: int| 0 <= j < counts@.len() && #[trigger] counts@[j].0 == b;
                    assert(counts@[j].0 == b);
                }
                assert(!assoc_map(counts@).contains_key(b));
                assert(count_in(pre, b) == 0);
            }
            n = 1;
            let ghost old_counts = counts@;
            counts.push((b, 1));
            proof {
                lemma_assoc_push(old_counts, b, 1);
            }
        }
        proof {
            assert(n == count_in(post, b));
            assert(ballots@.take(i + 1) =~= post);
            assert(post[i as int] == b);
        }
        if n >= min_ballot {
            return Ok(i);
        }
        if n > best {
            best = n;
        }
        proof {
            assert(max_count(post) == if max_count(pre) >= count_in(post, b) {
                max_count(pre)
            } else {
                count_in(post, b)
            });
        }
        i = i + 1;
    }
    proof {
        assert(ballots@.take(i as int) =~= ballots@);
    }
    Err(best)
}

/// The ballot key of a result: its `fxhash` hash.
///
/// Trusted: calls `fxhash::hash`; the key depends on the type's `Hash`
/// implementation and on the platform's word size, so nothing is stated of it.
#[verifier::external_body]
fn ballot_key<T: std::hash::Hash>(item: &T) -> usize {
    fxhash::hash(item)
}

proof fn lemma_count_prefix(s: Seq<usize>, k: int, x: usize)
    requires
        0 <= k <= s.len(),
    ensures
        count_in(s.take(k), x) <= count_in(s, x),
    decreases s.len(),
{
    if k < s.len() {
        assert(s.drop_last().take(k) =~= s.take(k));
        lemma_count_prefix(s.drop_last(), k, x);
    } else {
        assert(s.take(k) =~= s);
    }
}

proof fn lemma_count_le_max(s: Seq<usize>, x: usize)
    ensures
        count_in(s, x) <= max_count(s),
    decreases s.len(),
{
    if s.len() > 0 {
        lemma_count_le_max(s.drop_last(), x);
    }
}

/// `max_count` is the largest number of times a value occurs: no value
/// occurs more often, and in a non-empty sequence some element occurs
/// exactly that often.
pub proof fn lemma_max_count_is_largest(s: Seq<usize>)
    ensures
        forall|x: usize| count_in(s, x) <= max_count(s),
        s.len() > 0 ==> exists|i: int| 0 <= i < s.len() && count_in(s, s[i]) == max_count(s),
    decreases s.len(),
{
    assert forall|x: usize| count_in(s, x) <= max_count(s) by {
        lemma_count_le_max(s, x);
    }
    if s.len() > 0 {
        let rest = s.drop_last();
        if max_count(rest) >= count_in(s, s.last()) && rest.len() > 0 {
            lemma_max_count_is_largest(rest);
            let i = choose|i: int| 0 <= i < rest.len() && count_in(rest, rest[i]) == max_count(rest);
            assert(s[i] == rest[i]);
            if s.last() == rest[i] {
                assert(count_in(s, s.last()) == count_in(rest, s.last()) + 1);
            } else {
                assert(count_in(s, s[i]) == count_in(rest, rest[i]));
            }
        } else if max_count(rest) >= count_in(s, s.last()) {
            assert(rest.len() == 0);
            assert(count_in(s, s.last()) == 1);
        } else {
            assert(count_in(s, s[s.len() - 1]) == max_count(s));
        }
    }
}

/// When a consensus over items is pending, the count it reports is the
/// largest number of items that agree: no key has more votes, and (for
/// at least one item) some item's key has exactly that many.
pub proof fn lemma_pending_is_largest_agreement<T>(
    items: Seq<T>,
    keys: Seq<usize>,
    min_ballot: usize,
    n: usize,
)
    requires
        consensus_outcome(items, keys, min_ballot, Err(AntsError::ConsensusPending(n))),
    ensures
        forall|x: usize| count_in(keys, x) <= n,
        items.len() > 0 ==> exists|i: int| 0 <= i < items.len() && count_in(keys, keys[i]) == n,
        n < min_ballot,
{
    lemma_max_count_is_largest(keys);
    if items.len() > 0 {
        let i = choose|i: int| 0 <= i < keys.len() && count_in(keys, keys[i]) == max_count(keys);
        assert(count_in(keys, keys[i]) < min_ballot);
    } else {
        assert(keys.len() == 0);
        if min_ballot == 0 {
            assert(count_in(keys, 0) < min_ballot);
        }
    }
}

proof fn lemma_earlier_reach(s: Seq<usize>, k: int, x: usize, m: usize)
    requires
        0 <= k <= s.len(),
        m >= 1,
        count_in(s.take(k), x) >= m,
    ensures
        exists|j: int| 0 <= j < k && s[j] == x && reaches(s, m, j),
    decreases k,
{
    assert(k > 0);
    assert(s.take(k).drop_last() =~= s.take(k - 1));
    if s[k - 1] == x {
        assert(s[k - 1] == x && reaches(s, m, k - 1));
    } else {
        lemma_earlier_reach(s, k - 1, x, m);
    }
}

/// When a consensus over items is won, the winning item casts the deciding
/// vote: its key has exactly `min_ballot` votes among it and the items before
/// it, and every earlier item's key had fewer at that item.
pub proof fn lemma_winner_casts_deciding_vote<T>(items: Seq<T>, keys: Seq<usize>, min_ballot: usize, t: T)
    requires
        consensus_outcome(items, keys, min_ballot, Ok(t)),
        min_ballot >= 1,
    ensures
        exists|i: int|
            0 <= i < items.len() && items[i] == t && count_in(keys.take(i + 1), keys[i]) == min_ballot && (
            forall|j: int| 0 <= j < i ==> count_in(keys.take(j + 1), keys[j]) < min_ballot),
{
    let i = choose|i: int|
        0 <= i < items.len() && items[i] == t && reaches(keys, min_ballot, i) && count_in(keys, keys[i])
            >= min_ballot && (forall|j: int| 0 <= j < i ==> !reaches(keys, min_ballot, j));
    assert(keys.take(i + 1).drop_last() =~= keys.take(i));
    if count_in(keys.take(i), keys[i]) >= min_ballot {
        lemma_earlier_reach(keys, i, keys[i], min_ballot);
    }
    assert(count_in(keys.take(i + 1), keys[i]) == min_ballot);
    assert forall|j: int| 0 <= j < i implies count_in(keys.take(j + 1), keys[j]) < min_ballot by {
        assert(!reaches(keys, min_ballot, j));
    }
}

/// What a consensus over `items` whose ballot keys are `keys` (one per item,
/// in order) gives: the item at the first position whose key reaches
/// `min_ballot` votes there (and so has at least that many votes among all
/// the items); or, when no position does, [`AntsError::ConsensusPending`]
/// with the largest number of items that share a key, every key having fewer
/// votes than `min_ballot`.
pub open spec fn consensus_outcome<T>(
    items: Seq<T>,
    keys: Seq<usize>,
    min_ballot: usize,
    r: Result<T, AntsError>,
) -> bool {
    &&& keys.len() == items.len()
    &&& match r {
        Ok(t) => exists|i: int|
            0 <= i < items.len() && items[i] == t && reaches(keys, min_ballot, i) && count_in(keys, keys[i])
                >= min_ballot && (forall|j: int| 0 <= j < i ==> !reaches(keys, min_ballot, j)),
        Err(e) => (e matches AntsError::ConsensusPending(n) && n == max_count(keys)) && (forall|x: usize|
            count_in(keys, x) < min_ballot),
    }
}

/// For given items and ballot keys there is one consensus outcome: the
/// winning position is the first that reaches the minimum, and the pending
/// count is the largest number of agreeing items, so two outcomes agree.
pub proof fn lemma_consensus_outcome_unique<T>(
    items: Seq<T>,
    keys: Seq<usize>,
    min_ballot: usize,
    r1: Result<T, AntsError>,
    r2: Result<T, AntsError>,
)
    requires
        consensus_outcome(items, keys, min_ballot, r1),
        consensus_outcome(items, keys, min_ballot, r2),
    ensures
        r1 == r2,
{
    match (r1, r2) {
        (Ok(t1), Ok(t2)) => {
            let i1 = choose|i: int|
                0 <= i < items.len() && items[i] == t1 && reaches(keys, min_ballot, i) && count_in(keys, keys[i])
                    >= min_ballot && (forall|j: int| 0 <= j < i ==> !reaches(keys, min_ballot, j));
            let i2 = choose|i: int|
                0 <= i < items.len() && items[i] == t2 && reaches(keys, min_ballot, i) && count_in(keys, keys[i])
                    >= min_ballot && (forall|j: int| 0 <= j < i ==> !reaches(keys, min_ballot, j));
            if i1 < i2 {
                assert(!reaches(keys, min_ballot, i1));
            } else if i2 < i1 {
                assert(!reaches(keys, min_ballot, i2));
            }
        },
        (Ok(t1), Err(_)) => {
            let i1 = choose|i: int|
                0 <= i < items.len() && items[i] == t1 && reaches(keys, min_ballot, i) && count_in(keys, keys[i])
                    >= min_ballot && (forall|j: int| 0 <= j < i ==> !reaches(keys, min_ballot, j));
            assert(count_in(keys, keys[i1]) < min_ballot);
        },
        (Err(_), Ok(t2)) => {
            let i2 = choose|i: int|
                0 <= i < items.len() && items[i] == t2 && reaches(keys, min_ballot, i) && count_in(keys, keys[i])
                    >= min_ballot && (forall|j: int| 0 <= j < i ==> !reaches(keys, min_ballot, j));
            assert(count_in(keys, keys[i2]) < min_ballot);
        },
        (Err(_), Err(_)) => {},
    }
}

/// Checks whether results agree: returns the first result whose value
/// (compared by hash) has been seen `min_ballot` times, or
/// [`AntsError::ConsensusPending`] with the largest number of agreeing results.
pub fn consensus<T: std::hash::Hash>(items: Vec<T>, min_ballot: usize) -> (r: Result<T, AntsError>)
    requires
        min_ballot > 0 || items.len() > 0,
    ensures
        r matches Ok(t) ==> items@.contains(t),
        r matches Err(e) ==> e matches AntsError::ConsensusPending(n) && n < min_ballot && n <= items.len()
            && (items.len() > 0 ==> n >= 1),
        min_ballot <= 1 && items.len() > 0 ==> (r matches Ok(t) && t == items@[0]),
        items.len() < min_ballot ==> r is Err,
        exists|keys: Seq<usize>| consensus_outcome(items@, keys, min_ballot, r),
{
    let mut keys: Vec<usize> = Vec::new();
    let mut i: usize = 0;
    while i < items.len()
        invariant
            0 <= i <= items.len(),
            keys.len() == i,
        decreases items.len() - i,
    {
        keys.push(ballot_key(&items[i]));
        i = i + 1;
    }
    let r = tally(&keys, min_ballot);
    proof {
        lemma_max_count_range(keys@);
        if min_ballot <= 1 && keys.len() > 0 {
            assert(keys@.take(1).drop_last() =~= Seq::<usize>::empty());
            assert(keys@.take(1).last() == keys@[0]);
            assert(count_in(Seq::<usize>::empty(), keys@[0]) == 0);
            assert(count_in(keys@.take(1), keys@[0]) == 1);
            assert(reaches(keys@, min_ballot, 0));
        }
        if let Ok(k) = r {
            lemma_count_le_len(keys@.take(k + 1), keys@[k as int]);
            assert(keys@.take(k + 1).len() == k + 1);
            lemma_count_prefix(keys@, k + 1, keys@[k as int]);
        }
        if r is Err {
            assert forall|x: usize| count_in(keys@, x) < min_ballot by {
                lemma_count_le_max(keys@, x);
            }
        }
    }
    let ghost ks = keys@;
    match r {
        Ok(i) => {
            let mut items = items;
            let ghost all = items@;
            let t = items.swap_remove(i);
            proof {
                assert(all[i as int] == t);
                assert(consensus_outcome(all, ks, min_ballot, Ok::<T, AntsError>(t)));
            }
            Ok(t)
        },
        Err(n) => {
            let e = AntsError::ConsensusPending(n);
            proof {
                assert(consensus_outcome(items@, ks, min_ballot, Err::<T, AntsError>(e)));
            }
            Err(e)
        },
    }
}

} // verus!

verus! {

/// The bookkeeping of one run of the simple consensus: how many more results
/// are needed, how many work attempts are left, and the results so far. The
/// attempts, successful or failed, are at most the budget.
///
/// A run asks for a batch of work (`next_batch`), records the outcome of each
/// attempt of the batch (`record`), and repeats until `next_batch` returns 0;
/// `verdict` then says which result won, or that no consensus was reached.
pub struct ConsensusRound {
    minimum: usize,
    budget: usize,
    retries_left: usize,
    pending: usize,
    failed: usize,
    ballots: Vec<usize>,
    workers: Vec<String>,
}

impl ConsensusRound {
    /// The number of agreeing results needed (at least 2).
    pub closed spec fn spec_minimum(self) -> usize {
        self.minimum
    }

    /// The number of successful work results the run may collect in all.
    pub closed spec fn spec_budget(self) -> usize {
        self.budget
    }

    /// The number of successful work results the run may still collect.
    pub closed spec fn spec_retries_left(self) -> usize {
        self.retries_left
    }

    /// The number of attempts that failed so far.
    pub closed spec fn spec_failed(self) -> usize {
        self.failed
    }

    /// The attempts of the current batch whose outcome is not recorded yet.
    pub closed spec fn spec_pending(self) -> usize {
        self.pending
    }

    /// The ballot keys of the results so far, in the order they came in.
    pub closed spec fn spec_ballots(self) -> Seq<usize> {
        self.ballots@
    }

    /// The workers that produced the results so far.
    pub closed spec fn spec_workers(self) -> Seq<String> {
        self.workers@
    }

    /// The run is consistent: at least two votes are needed, the results
    /// collected, the failed attempts and the retries left add up to the
    /// budget, and each result has its worker.
    pub open spec fn wf(self) -> bool {
        &&& self.spec_minimum() >= 2
        &&& self.spec_budget() >= self.spec_minimum()
        &&& self.spec_pending() <= self.spec_retries_left()
        &&& self.spec_ballots().len() + self.spec_failed() + self.spec_retries_left() == self.spec_budget()
        &&& self.spec_workers().len() == self.spec_ballots().len()
    }

    /// Whether the results so far hold a value with enough votes.
    pub open spec fn reached(self) -> bool {
        exists|j: int|
            0 <= j < self.spec_ballots().len() && reaches(self.spec_ballots(), self.spec_minimum(), j)
    }

    /// A run that needs `minimum_consensus` agreeing results (at least 2) and
    /// may collect up to `max_retries` results (at least the minimum).
    pub fn new(minimum_consensus: usize, max_retries: usize) -> (r: Self)
        ensures
            r.wf(),
            r.spec_minimum() == if minimum_consensus >= 2 {
                minimum_consensus
            } else {
                2
            },
            r.spec_budget() == if max_retries >= r.spec_minimum() {
                max_retries
            } else {
                r.spec_minimum()
            },
            r.spec_retries_left() == r.spec_budget(),
            r.spec_pending() == 0,
            r.spec_failed() == 0,
            r.spec_ballots().len() == 0,
    {
        let minimum = if minimum_consensus >= 2 {
            minimum_consensus
        } else {
            2
        };
        let budget = if max_retries >= minimum {
            max_retries
        } else {
            minimum
        };
        ConsensusRound {
            minimum,
            budget,
            retries_left: budget,
            pending: 0,
            failed: 0,
            ballots: Vec::new(),
            workers: Vec::new(),
        }
    }

    /// The number of work attempts to start now: as many as votes are still
    /// missing for the leading value, but no more than the retries left; 0
    /// when consensus is reached or no retries are left.
    pub fn next_batch(&mut self) -> (n: usize)
        requires
            old(self).wf(),
            old(self).spec_pending() == 0,
        ensures
            final(self).wf(),
            final(self).spec_pending() == n,
            final(self).spec_minimum() == old(self).spec_minimum(),
            final(self).spec_budget() == old(self).spec_budget(),
            final(self).spec_retries_left() == old(self).spec_retries_left(),
            final(self).spec_failed() == old(self).spec_failed(),
            final(self).spec_ballots() == old(self).spec_ballots(),
            final(self).spec_workers() == old(self).spec_workers(),
            n <= old(self).spec_retries_left(),
            n == 0 <==> (old(self).reached() || old(self).spec_retries_left() == 0),
            !old(self).reached() ==> n == if old(self).spec_minimum() - max_count(old(self).spec_ballots())
                <= old(self).spec_retries_left() {
                old(self).spec_minimum() - max_count(old(self).spec_ballots())
            } else {
                old(self).spec_retries_left() as int
            },
    {
        let n = match tally(&self.ballots, self.minimum) {
            Ok(_) => 0,
            Err(agreed) => {
                let missing = self.minimum - agreed;
                if missing <= self.retries_left {
                    missing
                } else {
                    self.retries_left
                }
            },
        };
        self.pending = n;
        n
    }

    /// Records the outcome of one attempt of the current batch: the worker
    /// and the ballot key of its result, or `None` if the attempt failed.
    /// Every attempt, failed or not, uses up one retry, so a run makes at
    /// most its budget of attempts.
    pub fn record(&mut self, outcome: Option<(String, usize)>)
        requires
            old(self).wf(),
            old(self).spec_pending() > 0,
        ensures
            final(self).wf(),
            final(self).spec_pending() == old(self).spec_pending() - 1,
            final(self).spec_minimum() == old(self).spec_minimum(),
            final(self).spec_budget() == old(self).spec_budget(),
            match outcome {
                Some((w, k)) => {
                    &&& final(self).spec_ballots() == old(self).spec_ballots().push(k)
                    &&& final(self).spec_workers() == old(self).spec_workers().push(w)
                    &&& final(self).spec_failed() == old(self).spec_failed()
                },
                None => {
                    &&& final(self).spec_ballots() == old(self).spec_ballots()
                    &&& final(self).spec_workers() == old(self).spec_workers()
                    &&& final(self).spec_failed() == old(self).spec_failed() + 1
                },
            },
            final(self).spec_retries_left() == old(self).spec_retries_left() - 1,
    {
        self.pending = self.pending - 1;
        self.retries_left = self.retries_left - 1;
        match outcome {
            Some((w, k)) => {
                self.ballots.push(k);
                self.workers.push(w);
            },
            None => {
                self.failed = self.failed + 1;
            },
        }
    }

    /// Records a successful attempt of the current batch: the worker and its
    /// result, whose ballot key is the result's hash.
    pub fn record_result<T: std::hash::Hash>(&mut self, worker: String, result: &T)
        requires
            old(self).wf(),
            old(self).spec_pending() > 0,
        ensures
            final(self).wf(),
            final(self).spec_pending() == old(self).spec_pending() - 1,
            final(self).spec_minimum() == old(self).spec_minimum(),
            final(self).spec_budget() == old(self).spec_budget(),
            final(self).spec_ballots().len() == old(self).spec_ballots().len() + 1,
            final(self).spec_ballots().drop_last() == old(self).spec_ballots(),
            final(self).spec_workers() == old(self).spec_workers().push(worker),
            final(self).spec_failed() == old(self).spec_failed(),
            final(self).spec_retries_left() == old(self).spec_retries_left() - 1,
    {
        let key = ballot_key(result);
        self.record(Some((worker, key)));
        proof {
            assert(self.spec_ballots().drop_last() =~= old(self).spec_ballots());
        }
    }

    /// The position of the winning result, or
    /// [`AntsError::ConsensusNotReached`] with the minimum, the number of
    /// results and the workers that produced them.
    pub fn verdict(self) -> (r: Result<usize, AntsError>)
        requires
            self.wf(),
        ensures
            r matches Ok(i) ==> i < self.spec_ballots().len() && reaches(
                self.spec_ballots(),
                self.spec_minimum(),
                i as int,
            ) && forall|j: int| 0 <= j < i ==> !reaches(self.spec_ballots(), self.spec_minimum(), j),
            r is Err <==> !self.reached(),
            r matches Err(e) ==> (e matches AntsError::ConsensusNotReached(m, n, w) && m
                == self.spec_minimum() && n == self.spec_ballots().len() && w@ == self.spec_workers()),
    {
        match tally(&self.ballots, self.minimum) {
            Ok(i) => Ok(i),
            Err(_) => Err(AntsError::ConsensusNotReached(self.minimum, self.ballots.len(), self.workers)),
        }
    }
}

} // verus!
