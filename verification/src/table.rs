//! The model of a descriptor table: a sequence of page states, of which the
//! first `limit` describe pages that can be handed out.

use vstd::prelude::*;
use crate::page::Flags;

verus! {

/// Whether the `len` descriptors from `start` on lie below `limit` and are
/// all `Empty`.
pub open spec fn is_free_run(t: Seq<Flags>, limit: int, start: int, len: int) -> bool {
    &&& 0 <= start
    &&& 0 < len
    &&& start + len <= limit <= t.len()
    &&& forall|i: int| start <= i < start + len ==> t[i] == Flags::Empty
}

/// Whether `start` is the lowest index at which a free run of `len`
/// descriptors begins.
pub open spec fn is_first_fit(t: Seq<Flags>, limit: int, len: int, start: int) -> bool {
    &&& is_free_run(t, limit, start, len)
    &&& forall|s: int| is_free_run(t, limit, s, len) ==> start <= s
}

/// The lowest index at which a free run of `len` descriptors begins, if
/// there is such a run.
pub open spec fn first_fit(t: Seq<Flags>, limit: int, len: int) -> Option<int> {
    if exists|s: int| is_free_run(t, limit, s, len) {
        Some(choose|s: int| is_first_fit(t, limit, len, s))
    } else {
        None
    }
}

/// The table after the `len` descriptors from `start` on have become one
/// allocation: `Taken` for all but the final one, which is `Last`.
pub open spec fn mark(t: Seq<Flags>, start: int, len: int) -> Seq<Flags> {
    Seq::new(
        t.len(),
        |i: int|
            if start <= i < start + len - 1 {
                Flags::Taken
            } else if i == start + len - 1 {
                Flags::Last
            } else {
                t[i]
            },
    )
}

/// The table after the descriptors in `start..end` have become `Empty`.
pub open spec fn release(t: Seq<Flags>, start: int, end: int) -> Seq<Flags> {
    Seq::new(t.len(), |i: int| if start <= i < end { Flags::Empty } else { t[i] })
}

/// The model of a request for `len` pages: the table after it, and the
/// index of the first descriptor of the allocation, if it was served. The
/// request goes to the lowest free run that is long enough, and leaves the
/// table as it was when there is none.
pub open spec fn alloc_step(t: Seq<Flags>, limit: int, len: int) -> (Seq<Flags>, Option<int>) {
    match first_fit(t, limit, len) {
        Some(start) => (mark(t, start, len), Some(start)),
        None => (t, None),
    }
}

/// The model of giving back the allocation that begins at `start`: the
/// table after it.
pub open spec fn free_step(t: Seq<Flags>, start: int) -> Seq<Flags> {
    release(t, start, allocation_end(t, start))
}

/// Whether the descriptors in `start..end` are one whole allocation:
/// `Taken` up to the final one, which is `Last`, with no `Taken` descriptor
/// right before `start`.
pub open spec fn is_allocation(t: Seq<Flags>, start: int, end: int) -> bool {
    &&& 0 <= start < end <= t.len()
    &&& start == 0 || t[start - 1] != Flags::Taken
    &&& forall|i: int| start <= i < end - 1 ==> t[i] == Flags::Taken
    &&& t[end - 1] == Flags::Last
}

/// Whether an allocation begins at descriptor `index`: the descriptor lies
/// below `limit` and is not `Empty`, and the one before it, if there is
/// one, is not `Taken`.
pub open spec fn begins_allocation(t: Seq<Flags>, limit: int, index: int) -> bool {
    &&& 0 <= index < limit
    &&& t[index] != Flags::Empty
    &&& index == 0 || t[index - 1] != Flags::Taken
}

/// Index just past the first descriptor at or after `start` that is not
/// `Taken`: where the allocation that covers `start` ends.
pub open spec fn allocation_end(t: Seq<Flags>, start: int) -> int
    decreases t.len() - start,
{
    if 0 <= start < t.len() && t[start] == Flags::Taken {
        allocation_end(t, start + 1)
    } else {
        start + 1
    }
}

/// The run invariant: below `limit` every `Taken` descriptor is followed by
/// a descriptor that is not `Empty`, so every allocation ends in `Last`;
/// from `limit` on every descriptor is `Empty`.
pub open spec fn runs_terminated(t: Seq<Flags>, limit: int) -> bool {
    &&& 0 <= limit <= t.len()
    &&& forall|i: int, j: int|
        0 <= i < limit && j == i + 1 && #[trigger] t[i] == Flags::Taken ==> j < limit && #[trigger] t[j]
            != Flags::Empty
    &&& forall|i: int| limit <= i < t.len() ==> t[i] == Flags::Empty
}

/// Marking a free run as an allocation keeps the run invariant.
pub proof fn lemma_mark_keeps_runs(t: Seq<Flags>, limit: int, start: int, len: int)
    requires
        runs_terminated(t, limit),
        is_free_run(t, limit, start, len),
    ensures
        runs_terminated(mark(t, start, len), limit),
{
    let m = mark(t, start, len);
    assert forall|i: int, j: int|
        0 <= i < limit && j == i + 1 && #[trigger] m[i] == Flags::Taken implies j < limit
        && #[trigger] m[j] != Flags::Empty by {
        if start <= i < start + len - 1 {
        } else {
            assert(t[i] == Flags::Taken);
            assert(t[j] != Flags::Empty);
        }
    }
}

/// Below any free run there is a lowest one.
proof fn lemma_least_free_run(t: Seq<Flags>, limit: int, len: int, s: int)
    requires
        is_free_run(t, limit, s, len),
    ensures
        exists|m: int| is_first_fit(t, limit, len, m),
    decreases s,
{
    if exists|r: int| r < s && is_free_run(t, limit, r, len) {
        let r = choose|r: int| r < s && is_free_run(t, limit, r, len);
        lemma_least_free_run(t, limit, len, r);
    } else {
        assert(is_first_fit(t, limit, len, s));
    }
}

/// `first_fit` gives the lowest free run of the length asked for, and
/// gives none only where no run of that length is free.
pub proof fn lemma_first_fit(t: Seq<Flags>, limit: int, len: int)
    ensures
        match first_fit(t, limit, len) {
            Some(start) => is_first_fit(t, limit, len, start),
            None => forall|s: int| !is_free_run(t, limit, s, len),
        },
        forall|s: int| is_first_fit(t, limit, len, s) ==> first_fit(t, limit, len) == Some(s),
{
    if exists|s: int| is_free_run(t, limit, s, len) {
        let s = choose|s: int| is_free_run(t, limit, s, len);
        lemma_least_free_run(t, limit, len, s);
    }
}

/// Under the run invariant, the descriptors from a descriptor that is not
/// `Empty` up to `allocation_end` are `Taken` but for the final one, which
/// is `Last`, and all lie below `limit`.
pub proof fn lemma_allocation_end(t: Seq<Flags>, limit: int, start: int)
    requires
        runs_terminated(t, limit),
        0 <= start < limit,
        t[start] != Flags::Empty,
    ensures
        start < allocation_end(t, start) <= limit,
        forall|i: int| start <= i < allocation_end(t, start) - 1 ==> t[i] == Flags::Taken,
        t[allocation_end(t, start) - 1] == Flags::Last,
    decreases limit - start,
{
    if t[start] == Flags::Taken {
        assert(t[start + 1] != Flags::Empty);
        lemma_allocation_end(t, limit, start + 1);
    }
}

/// Giving back an allocation empties the whole of it and keeps the run
/// invariant.
pub proof fn lemma_free_step(t: Seq<Flags>, limit: int, start: int)
    requires
        runs_terminated(t, limit),
        begins_allocation(t, limit, start),
    ensures
        is_allocation(t, start, allocation_end(t, start)),
        allocation_end(t, start) <= limit,
        runs_terminated(free_step(t, start), limit),
        free_step(t, start).len() == t.len(),
        !begins_allocation(free_step(t, start), limit, start),
{
    lemma_allocation_end(t, limit, start);
    let end = allocation_end(t, start);
    let r = free_step(t, start);
    assert forall|i: int, j: int|
        0 <= i < limit && j == i + 1 && #[trigger] r[i] == Flags::Taken implies j < limit
        && #[trigger] r[j] != Flags::Empty by {
        assert(t[i] == Flags::Taken);
        assert(t[j] != Flags::Empty);
        if start <= j < end {
            if j == start {
                assert(t[start - 1] == Flags::Taken);
            } else {
                assert(start <= i < end);
            }
        }
    }
}

/// A request that is served turns a free run into one whole allocation, and
/// keeps the run invariant.
pub proof fn lemma_alloc_step(t: Seq<Flags>, limit: int, len: int)
    requires
        runs_terminated(t, limit),
    ensures
        runs_terminated(alloc_step(t, limit, len).0, limit),
        alloc_step(t, limit, len).0.len() == t.len(),
        alloc_step(t, limit, len).1 matches Some(start) ==> {
            &&& is_first_fit(t, limit, len, start)
            &&& is_allocation(alloc_step(t, limit, len).0, start, start + len)
            &&& begins_allocation(alloc_step(t, limit, len).0, limit, start)
            &&& allocation_end(alloc_step(t, limit, len).0, start) == start + len
        },
        alloc_step(t, limit, len).1 is None ==> forall|s: int| !is_free_run(t, limit, s, len),
{
    lemma_first_fit(t, limit, len);
    if let Some(start) = first_fit(t, limit, len) {
        lemma_mark_keeps_runs(t, limit, start, len);
        let m = mark(t, start, len);
        if start > 0 && t[start - 1] == Flags::Taken {
            assert(t[start] != Flags::Empty);
        }
        assert(is_allocation(m, start, start + len));
        lemma_allocation_end_unique(m, start, start + len);
    }
}

/// An allocation ends where `allocation_end` says.
pub proof fn lemma_allocation_end_unique(t: Seq<Flags>, start: int, end: int)
    requires
        0 <= start < end <= t.len(),
        forall|i: int| start <= i < end - 1 ==> t[i] == Flags::Taken,
        t[end - 1] == Flags::Last,
    ensures
        allocation_end(t, start) == end,
    decreases end - start,
{
    if start < end - 1 {
        lemma_allocation_end_unique(t, start + 1, end);
    }
}

/// A request leaves every allocation that was there before it as it was.
pub proof fn lemma_alloc_keeps_allocations(t: Seq<Flags>, limit: int, len: int, index: int)
    requires
        runs_terminated(t, limit),
        begins_allocation(t, limit, index),
    ensures
        begins_allocation(alloc_step(t, limit, len).0, limit, index),
        allocation_end(alloc_step(t, limit, len).0, index) == allocation_end(t, index),
{
    lemma_first_fit(t, limit, len);
    lemma_allocation_end(t, limit, index);
    let after = alloc_step(t, limit, len).0;
    let end = allocation_end(t, index);
    if let Some(start) = first_fit(t, limit, len) {
        assert forall|i: int| index <= i < end implies after[i] == t[i] by {
            assert(t[i] != Flags::Empty);
        }
    }
    lemma_allocation_end_unique(after, index, end);
}

/// Giving back one allocation leaves every other allocation as it was.
pub proof fn lemma_free_keeps_allocations(t: Seq<Flags>, limit: int, start: int, index: int)
    requires
        runs_terminated(t, limit),
        begins_allocation(t, limit, start),
        begins_allocation(t, limit, index),
        index != start,
    ensures
        begins_allocation(free_step(t, start), limit, index),
        allocation_end(free_step(t, start), index) == allocation_end(t, index),
        allocation_end(t, index) <= start || allocation_end(t, start) <= index,
{
    lemma_allocation_end(t, limit, start);
    lemma_allocation_end(t, limit, index);
    let after = free_step(t, start);
    let end = allocation_end(t, index);
    if start < index < allocation_end(t, start) {
        assert(t[index - 1] == Flags::Taken);
    }
    if index < start < end {
        assert(t[start - 1] == Flags::Taken);
    }
    lemma_allocation_end_unique(after, index, end);
}

/// Whether `start..end` is a run of descriptors none of which is `Empty`
/// that cannot be extended at either end.
pub open spec fn is_maximal_run(t: Seq<Flags>, start: int, end: int) -> bool {
    &&& 0 <= start < end <= t.len()
    &&& forall|i: int| start <= i < end ==> t[i] != Flags::Empty
    &&& start == 0 || t[start - 1] == Flags::Empty
    &&& end == t.len() || t[end] == Flags::Empty
}

/// Whether some allocation is followed at once by another: a `Last`
/// descriptor with a descriptor right after it that is not `Empty`.
pub open spec fn has_adjacent_allocations(t: Seq<Flags>) -> bool {
    exists|i: int, j: int|
        0 <= i && j == i + 1 && j < t.len() && #[trigger] t[i] == Flags::Last && #[trigger] t[j]
            != Flags::Empty
}

/// Under the run invariant every maximal run of descriptors that are not
/// `Empty` lies below `limit`, ends in `Last`, and begins an allocation.
pub proof fn lemma_run_ends_in_last(t: Seq<Flags>, limit: int, start: int, end: int)
    requires
        runs_terminated(t, limit),
        is_maximal_run(t, start, end),
    ensures
        end <= limit,
        t[end - 1] == Flags::Last,
        start < allocation_end(t, start) <= end,
        is_allocation(t, start, allocation_end(t, start)),
{
    assert(t[start] != Flags::Empty);
    assert(t[end - 1] != Flags::Empty);
    if t[end - 1] == Flags::Taken {
        assert(t[end - 1 + 1] != Flags::Empty);
    }
    lemma_allocation_end(t, limit, start);
    let stop = allocation_end(t, start);
    if stop > end {
        assert(t[end] == Flags::Taken);
    }
}

/// Where no allocation is followed at once by another, every maximal run of
/// descriptors that are not `Empty` is one allocation: `Taken` up to its
/// final descriptor, which is `Last`.
pub proof fn lemma_run_is_one_allocation(t: Seq<Flags>, limit: int, start: int, end: int)
    requires
        runs_terminated(t, limit),
        !has_adjacent_allocations(t),
        is_maximal_run(t, start, end),
    ensures
        forall|i: int| start <= i < end - 1 ==> t[i] == Flags::Taken,
        t[end - 1] == Flags::Last,
        allocation_end(t, start) == end,
{
    lemma_run_ends_in_last(t, limit, start, end);
    assert forall|i: int| start <= i < end - 1 implies t[i] == Flags::Taken by {
        if t[i] == Flags::Last {
            assert(t[i + 1] != Flags::Empty);
        }
    }
    lemma_allocation_end_unique(t, start, end);
}

/// Number of `Empty` descriptors among the first `n`.
pub open spec fn free_count(t: Seq<Flags>, n: int) -> int
    decreases n,
{
    if n <= 0 {
        0
    } else {
        free_count(t, n - 1) + if t[n - 1] == Flags::Empty {
            1int
        } else {
            0int
        }
    }
}

/// `len` descriptors in a row that are `Empty`, all among the first `n`,
/// leave `free_count` no smaller than `len`.
proof fn lemma_free_count_at_least(t: Seq<Flags>, n: int, start: int, len: int)
    requires
        0 <= start,
        0 <= len,
        start + len <= n,
        forall|i: int| start <= i < start + len ==> t[i] == Flags::Empty,
    ensures
        len <= free_count(t, n),
    decreases n,
{
    if n <= 0 {
    } else if start + len == n && len > 0 {
        lemma_free_count_at_least(t, n - 1, start, len - 1);
    } else if start + len == n {
        lemma_free_count_at_least(t, n - 1, 0, 0);
    } else {
        lemma_free_count_at_least(t, n - 1, start, len);
    }
}

/// A request for more pages than are free is not served.
pub proof fn lemma_exhausted(t: Seq<Flags>, limit: int, len: int)
    requires
        free_count(t, limit) < len,
    ensures
        first_fit(t, limit, len) is None,
        alloc_step(t, limit, len) == (t, None::<int>),
{
    lemma_first_fit(t, limit, len);
    if let Some(start) = first_fit(t, limit, len) {
        lemma_free_count_at_least(t, limit, start, len);
    }
}

/// Giving back an allocation leaves room for a request of the same number
/// of pages: it is served, at the pages given back or below them.
pub proof fn lemma_free_then_alloc(t: Seq<Flags>, limit: int, start: int)
    requires
        runs_terminated(t, limit),
        begins_allocation(t, limit, start),
    ensures
        is_free_run(free_step(t, start), limit, start, allocation_end(t, start) - start),
        alloc_step(free_step(t, start), limit, allocation_end(t, start) - start).1 matches Some(
            again,
        ) && again <= start,
{
    lemma_allocation_end(t, limit, start);
    let len = allocation_end(t, start) - start;
    let freed = free_step(t, start);
    assert(is_free_run(freed, limit, start, len));
    lemma_first_fit(freed, limit, len);
}

/// Giving back an allocation right after it was made restores the table,
/// so that the same request is served at the same place again.
pub proof fn lemma_alloc_then_free(t: Seq<Flags>, limit: int, len: int)
    requires
        runs_terminated(t, limit),
        alloc_step(t, limit, len).1 is Some,
    ensures
        free_step(alloc_step(t, limit, len).0, alloc_step(t, limit, len).1->0) == t,
{
    lemma_alloc_step(t, limit, len);
    let start = alloc_step(t, limit, len).1->0;
    assert(free_step(alloc_step(t, limit, len).0, start) =~= t);
}

} // verus!
