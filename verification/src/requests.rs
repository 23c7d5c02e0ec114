//! Requests served one after another: allocations that are made in a row
//! never share a page.

use vstd::prelude::*;
use crate::page::{page_address, Flags, PAGE_SIZE};
use crate::table::{alloc_step, is_free_run, lemma_first_fit, mark};

verus! {

/// The table after the requests, each for a number of pages, have been
/// served one after another.
pub open spec fn alloc_all(t: Seq<Flags>, limit: int, requests: Seq<int>) -> Seq<Flags>
    decreases requests.len(),
{
    if requests.len() == 0 {
        t
    } else {
        alloc_step(alloc_all(t, limit, requests.drop_last()), limit, requests.last()).0
    }
}

/// Index of the first descriptor of the allocation that request `k` got,
/// if the request was served.
pub open spec fn placement(t: Seq<Flags>, limit: int, requests: Seq<int>, k: int) -> Option<int> {
    alloc_step(alloc_all(t, limit, requests.take(k)), limit, requests[k]).1
}

/// Serving one more request changes no descriptor that is not `Empty`,
/// and keeps the length of the table.
proof fn lemma_step_keeps_taken(t: Seq<Flags>, limit: int, len: int)
    ensures
        alloc_step(t, limit, len).0.len() == t.len(),
        forall|i: int|
            0 <= i < t.len() && t[i] != Flags::Empty ==> #[trigger] alloc_step(t, limit, len).0[i]
                != Flags::Empty,
{
    lemma_first_fit(t, limit, len);
}

/// The pages that request `k` got are not `Empty` in the table after any
/// longer prefix of the requests.
proof fn lemma_placed_stays_taken(
    t: Seq<Flags>,
    limit: int,
    requests: Seq<int>,
    k: int,
    n: int,
)
    requires
        0 <= k < n <= requests.len(),
        placement(t, limit, requests, k) is Some,
    ensures
        alloc_all(t, limit, requests.take(n)).len() == alloc_all(
            t,
            limit,
            requests.take(k),
        ).len(),
        forall|i: int|
            placement(t, limit, requests, k)->0 <= i < placement(t, limit, requests, k)->0
                + requests[k] ==> 0 <= i < alloc_all(t, limit, requests.take(n)).len()
                && #[trigger] alloc_all(t, limit, requests.take(n))[i] != Flags::Empty,
    decreases n - k,
{
    let before = alloc_all(t, limit, requests.take(n - 1));
    assert(requests.take(n).drop_last() =~= requests.take(n - 1));
    assert(requests.take(n).last() == requests[n - 1]);
    assert(alloc_all(t, limit, requests.take(n)) == alloc_step(before, limit, requests[n - 1]).0);
    lemma_step_keeps_taken(before, limit, requests[n - 1]);
    if n - 1 == k {
        lemma_first_fit(before, limit, requests[k]);
        let start = placement(t, limit, requests, k)->0;
        assert(is_free_run(before, limit, start, requests[k]));
        assert(alloc_all(t, limit, requests.take(n)) == mark(before, start, requests[k]));
    } else {
        lemma_placed_stays_taken(t, limit, requests, k, n - 1);
    }
}

/// Two requests that were both served, one after the other with any number
/// of requests in between, got page ranges that do not overlap: neither as
/// runs of descriptors nor as ranges of addresses.
pub proof fn lemma_allocations_disjoint(
    t: Seq<Flags>,
    limit: int,
    requests: Seq<int>,
    i: int,
    j: int,
    heap_start: int,
    reserved: int,
)
    requires
        0 <= i < j < requests.len(),
        placement(t, limit, requests, i) is Some,
        placement(t, limit, requests, j) is Some,
    ensures
        ({
            let a = placement(t, limit, requests, i)->0;
            let b = placement(t, limit, requests, j)->0;
            &&& a + requests[i] <= b || b + requests[j] <= a
            &&& page_address(heap_start, reserved, a) + requests[i] * PAGE_SIZE <= page_address(
                heap_start,
                reserved,
                b,
            ) || page_address(heap_start, reserved, b) + requests[j] * PAGE_SIZE <= page_address(
                heap_start,
                reserved,
                a,
            )
        }),
{
    let a = placement(t, limit, requests, i)->0;
    let b = placement(t, limit, requests, j)->0;
    let before = alloc_all(t, limit, requests.take(j));
    lemma_placed_stays_taken(t, limit, requests, i, j);
    lemma_first_fit(before, limit, requests[j]);
    assert(is_free_run(before, limit, b, requests[j]));
    lemma_first_fit(alloc_all(t, limit, requests.take(i)), limit, requests[i]);
    assert(is_free_run(alloc_all(t, limit, requests.take(i)), limit, a, requests[i]));
    if !(a + requests[i] <= b || b + requests[j] <= a) {
        let x = if a <= b {
            b
        } else {
            a
        };
        assert(before[x] != Flags::Empty);
        assert(before[x] == Flags::Empty);
    }
}

} // verus!
