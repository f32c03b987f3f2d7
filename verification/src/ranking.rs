//! Bounded, descending lists of the longest durations seen for one checkpoint.

use vstd::prelude::*;

verus! {

/// A ranked list never rises: every entry is at least as long as those after it.
pub open spec fn sorted_desc(s: Seq<u64>) -> bool {
    forall|i: int, j: int| 0 <= i <= j < s.len() ==> s[i] >= s[j]
}

/// How many leading entries of `s` are at least `d`; in a ranked list this is
/// the place where `d` belongs.
pub open spec fn rank(s: Seq<u64>, d: u64) -> nat
    decreases s.len(),
{
    if s.len() == 0 || s[0] < d {
        0
    } else {
        1 + rank(s.drop_first(), d)
    }
}

/// The list after `d` has been put in its place and, if that made the list
/// longer than `max`, its last entry has been dropped.
pub open spec fn top_n(s: Seq<u64>, d: u64, max: nat) -> Seq<u64> {
    let t = s.insert(rank(s, d) as int, d);
    if t.len() > max {
        t.drop_last()
    } else {
        t
    }
}

/// `rank` never points past the end of the list.
pub proof fn lemma_rank_bounds(s: Seq<u64>, d: u64)
    ensures
        rank(s, d) <= s.len(),
        forall|i: int| 0 <= i < rank(s, d) ==> s[i] >= d,
        rank(s, d) < s.len() ==> s[rank(s, d) as int] < d,
    decreases s.len(),
{
    if s.len() == 0 || s[0] < d {
    } else {
        let rest = s.drop_first();
        lemma_rank_bounds(rest, d);
        assert forall|i: int| 0 <= i < rank(s, d) implies s[i] >= d by {
            if i > 0 {
                assert(s[i] == rest[i - 1]);
            }
        }
        if rank(s, d) < s.len() {
            assert(s[rank(s, d) as int] == rest[rank(rest, d) as int]);
        }
    }
}

/// Putting a duration into a ranked list leaves the list ranked.
pub proof fn lemma_top_n_sorted(s: Seq<u64>, d: u64, max: nat)
    requires
        sorted_desc(s),
    ensures
        sorted_desc(top_n(s, d, max)),
{
    lemma_rank_bounds(s, d);
    let k = rank(s, d) as int;
    let t = s.insert(k, d);
    assert forall|i: int, j: int| 0 <= i <= j < t.len() implies t[i] >= t[j] by {
        if i < k && j > k {
            assert(t[i] == s[i] && t[j] == s[j - 1]);
        } else if i == k && j > k {
            assert(t[j] == s[j - 1]);
            assert(s[k] >= s[j - 1]);
        }
    }
    assert(sorted_desc(t));
    assert(sorted_desc(t.drop_last()));
}

/// A list within its bound stays within it.
pub proof fn lemma_top_n_bounded(s: Seq<u64>, d: u64, max: nat)
    requires
        s.len() <= max,
    ensures
        top_n(s, d, max).len() <= max,
        top_n(s, d, max).len() == if s.len() < max { s.len() + 1 } else { s.len() },
{
    lemma_rank_bounds(s, d);
}

/// The place that `rank` finds is the only one that has nothing shorter than
/// `d` before it and something shorter than `d` at it.
pub proof fn lemma_rank_is(s: Seq<u64>, d: u64, k: int)
    requires
        0 <= k <= s.len(),
        forall|i: int| 0 <= i < k ==> s[i] >= d,
        k < s.len() ==> s[k] < d,
    ensures
        rank(s, d) == k,
    decreases s.len(),
{
    if k > 0 {
        let rest = s.drop_first();
        assert forall|i: int| 0 <= i < k - 1 implies rest[i] >= d by {
            assert(rest[i] == s[i + 1]);
        }
        if k < s.len() {
            assert(rest[k - 1] == s[k]);
        }
        lemma_rank_is(rest, d, k - 1);
    }
}

/// A full ranked list changes only for a duration longer than its shortest
/// entry: then that entry leaves and the duration takes its place in the
/// order. A duration that is no longer than the shortest entry is dropped.
pub proof fn lemma_top_n_evicts_shortest(s: Seq<u64>, d: u64, max: nat)
    requires
        sorted_desc(s),
        s.len() == max,
        max > 0,
    ensures
        d <= s.last() ==> top_n(s, d, max) == s,
        d > s.last() ==> top_n(s, d, max) == s.drop_last().insert(
            rank(s.drop_last(), d) as int,
            d,
        ),
        d > s.last() ==> top_n(s, d, max).contains(d),
{
    lemma_rank_bounds(s, d);
    let k = rank(s, d) as int;
    if d <= s.last() {
        lemma_rank_is(s, d, s.len() as int);
        assert(s.insert(k, d).drop_last() =~= s);
    } else {
        assert(k < s.len()) by {
            if k == s.len() {
                assert(s[k - 1] >= d);
            }
        }
        let head = s.drop_last();
        assert forall|i: int| 0 <= i < k implies head[i] >= d by {
            assert(head[i] == s[i]);
        }
        if k < head.len() {
            assert(head[k] == s[k]);
        }
        lemma_rank_is(head, d, k);
        assert(s.insert(k, d).drop_last() =~= head.insert(k, d));
        assert(head.insert(k, d)[k] == d);
    }
}

/// Records `duration` in a ranked list that holds at most `max_durations`
/// entries: the duration goes to its place in descending order, and if the
/// list then holds more than `max_durations` entries the last one leaves.
pub fn add_duration(top_durations: &mut Vec<u64>, duration: u64, max_durations: usize)
    ensures
        final(top_durations)@ == top_n(old(top_durations)@, duration, max_durations as nat),
        sorted_desc(old(top_durations)@) ==> sorted_desc(final(top_durations)@),
        old(top_durations)@.len() <= max_durations ==> final(top_durations)@.len()
            <= max_durations,
{
    let ghost before = top_durations@;
    let mut pos: usize = 0;
    assert(before.skip(0) =~= before);
    while pos < top_durations.len() && top_durations[pos] >= duration
        invariant
            pos <= top_durations.len(),
            top_durations@ == before,
            rank(before, duration) == pos + rank(before.skip(pos as int), duration),
        decreases top_durations.len() - pos,
    {
        proof {
            let tail = before.skip(pos as int);
            assert(tail[0] == before[pos as int]);
            assert(tail.drop_first() =~= before.skip(pos + 1));
        }
        pos += 1;
    }
    proof {
        let tail = before.skip(pos as int);
        if pos < before.len() {
            assert(tail[0] == before[pos as int]);
        }
        assert(rank(before, duration) == pos);
        if sorted_desc(before) {
            lemma_top_n_sorted(before, duration, max_durations as nat);
        }
        if before.len() <= max_durations {
            lemma_top_n_bounded(before, duration, max_durations as nat);
        }
    }
    top_durations.insert(pos, duration);
    if top_durations.len() > max_durations {
        top_durations.pop();
    }
}

} // verus!
