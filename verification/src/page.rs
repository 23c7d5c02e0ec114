//! Page descriptors and the first-fit page allocator built on them.

use vstd::prelude::*;
use crate::table::{
    alloc_step, allocation_end, begins_allocation, first_fit, free_count, free_step,
    is_first_fit, is_free_run, lemma_alloc_keeps_allocations, lemma_alloc_step, lemma_first_fit,
    lemma_free_keeps_allocations, lemma_free_step, mark, release, runs_terminated,
};

verus! {

/// Size in bytes of one page of physical memory.
pub const PAGE_SIZE: usize = 4096;

/// Address handed back by [`alloc_pages`] when the request cannot be served.
pub const NULL: usize = 0;

/// Allocation state of one page.
#[derive(Clone, Copy, Debug, PartialEq, Eq, Structural)]
pub enum Flags {
    /// The page is free.
    Empty,
    /// The page belongs to an allocation and is not its final page.
    Taken,
    /// The page is the final page of an allocation.
    Last,
}

impl Flags {
    /// The byte that stands for this state in a descriptor.
    pub open spec fn spec_val(self) -> u8 {
        match self {
            Flags::Empty => 0,
            Flags::Taken => 1,
            Flags::Last => 2,
        }
    }

    /// The state that a descriptor byte stands for, if it stands for one.
    pub open spec fn spec_from_val(bits: u8) -> Option<Flags> {
        if bits == 0 {
            Some(Flags::Empty)
        } else if bits == 1 {
            Some(Flags::Taken)
        } else if bits == 2 {
            Some(Flags::Last)
        } else {
            None
        }
    }

    /// The byte that stands for this state in a descriptor.
    #[verifier::when_used_as_spec(spec_val)]
    pub fn val(self) -> (bits: u8)
        ensures
            bits == self.spec_val(),
        no_unwind
    {
        match self {
            Flags::Empty => 0,
            Flags::Taken => 1,
            Flags::Last => 2,
        }
    }

    /// The state that a descriptor byte stands for, or `None` for a byte
    /// that stands for no state.
    #[verifier::when_used_as_spec(spec_from_val)]
    pub fn from_val(bits: u8) -> (flags: Option<Flags>)
        ensures
            flags == Flags::spec_from_val(bits),
        no_unwind
    {
        if bits == 0 {
            Some(Flags::Empty)
        } else if bits == 1 {
            Some(Flags::Taken)
        } else if bits == 2 {
            Some(Flags::Last)
        } else {
            None
        }
    }
}

/// Descriptor of one page: a single byte of flags.
pub struct Page {
    flags: u8,
}

impl Page {
    /// The raw flag byte.
    pub closed spec fn bits(self) -> u8 {
        self.flags
    }

    /// The state that the descriptor records, if its byte stands for one.
    pub open spec fn spec_state(&self) -> Option<Flags> {
        Flags::spec_from_val(self.bits())
    }

    /// Whether the descriptor records exactly the state `flags`.
    pub open spec fn holds(self, flags: Flags) -> bool {
        self.bits() == flags.spec_val()
    }

    /// A descriptor that records `flags`.
    pub fn new(flags: Flags) -> (page: Page)
        ensures
            page.holds(flags),
    {
        Page { flags: flags.val() }
    }

    /// The state that the descriptor records, or `None` where its byte
    /// stands for no state.
    #[verifier::when_used_as_spec(spec_state)]
    pub fn state(&self) -> (state: Option<Flags>)
        ensures
            state == self.spec_state(),
        no_unwind
    {
        Flags::from_val(self.flags)
    }

    /// Marks the page as free, whatever the descriptor held before.
    pub fn clear(&mut self)
        ensures
            final(self).holds(Flags::Empty),
        no_unwind
    {
        self.flags = Flags::Empty.val();
    }

    /// Records `flags` in the descriptor.
    pub fn set(&mut self, flags: Flags)
        ensures
            final(self).holds(flags),
        no_unwind
    {
        self.flags = flags.val();
    }
}

/// Number of whole pages in a heap of `heap_size` bytes.
pub open spec fn spec_page_count(heap_size: usize) -> usize {
    heap_size / PAGE_SIZE
}

/// Number of pages at the start of the heap that the descriptor table
/// itself occupies, at one byte for each page of the heap.
pub open spec fn spec_reserved_pages(heap_size: usize) -> usize {
    ((spec_page_count(heap_size) + PAGE_SIZE - 1) / PAGE_SIZE as int) as usize
}

/// Number of whole pages in a heap of `heap_size` bytes: the number of
/// descriptors in its table.
#[verifier::when_used_as_spec(spec_page_count)]
pub fn page_count(heap_size: usize) -> (count: usize)
    ensures
        count == spec_page_count(heap_size),
{
    heap_size / PAGE_SIZE
}

/// Number of pages at the start of the heap that hold the descriptor table
/// and are never handed out.
#[verifier::when_used_as_spec(spec_reserved_pages)]
pub fn reserved_pages(heap_size: usize) -> (count: usize)
    ensures
        count == spec_reserved_pages(heap_size),
        count <= page_count(heap_size),
{
    (heap_size / PAGE_SIZE + (PAGE_SIZE - 1)) / PAGE_SIZE
}

/// Address of the page that descriptor `index` stands for, in a heap that
/// begins at `heap_start` with `reserved` pages of descriptor table.
pub open spec fn page_address(heap_start: int, reserved: int, index: int) -> int {
    heap_start + (reserved + index) * PAGE_SIZE
}

/// Whether `heap_size` bytes from `heap_start` on are a heap that pages can
/// be cut from: both are multiples of the page size, and no address in the
/// heap exceeds the address width.
pub open spec fn is_heap_region(heap_start: usize, heap_size: usize) -> bool {
    &&& heap_start % PAGE_SIZE == 0
    &&& heap_size % PAGE_SIZE == 0
    &&& heap_start + heap_size <= usize::MAX
}

/// The states that a slice of descriptors records. A byte that stands for
/// no state reads as `Empty`.
spec fn states(pages: Seq<Page>) -> Seq<Flags> {
    Seq::new(
        pages.len(),
        |i: int|
            match pages[i].spec_state() {
                Some(flags) => flags,
                None => Flags::Empty,
            },
    )
}

/// Whether every descriptor holds a byte that stands for a state.
spec fn all_valid(pages: Seq<Page>) -> bool {
    forall|i: int| 0 <= i < pages.len() ==> (#[trigger] pages[i]).spec_state() is Some
}

/// The page allocator: a heap region and the descriptor table that tracks
/// which of its pages are handed out.
///
/// The table has one descriptor for each page of the heap. The first pages
/// of the heap hold the table itself and are never handed out: descriptor
/// `i` stands for page `reserved_pages(heap_size) + i` of the heap, so that
/// only the first `usable_pages()` descriptors stand for a page inside the
/// heap. The others stay `Empty` and are never looked at.
pub struct PageAllocator<'a> {
    heap_start: usize,
    heap_size: usize,
    table: &'a mut [Page],
}

impl<'a> PageAllocator<'a> {
    /// Address of the first byte of the heap.
    pub closed spec fn heap_start(&self) -> usize {
        self.heap_start
    }

    /// Size of the heap in bytes.
    pub closed spec fn heap_size(&self) -> usize {
        self.heap_size
    }

    /// The state of every descriptor, in table order.
    pub closed spec fn view(&self) -> Seq<Flags> {
        states(self.table@)
    }

    /// Number of pages that can be handed out.
    pub open spec fn usable_pages(&self) -> int {
        page_count(self.heap_size()) - reserved_pages(self.heap_size())
    }

    /// Address of the page that descriptor `index` stands for.
    pub open spec fn address_of(&self, index: int) -> int {
        page_address(self.heap_start() as int, reserved_pages(self.heap_size()) as int, index)
    }

    /// Index of the descriptor that stands for the page at `ptr`.
    pub open spec fn index_of(&self, ptr: usize) -> int {
        (ptr - self.heap_start()) / PAGE_SIZE as int - reserved_pages(self.heap_size())
    }

    /// What holds of every allocator: the region is valid, the table has one
    /// descriptor for each page of the heap, and the run invariant holds.
    pub open spec fn wf(&self) -> bool {
        &&& is_heap_region(self.heap_start(), self.heap_size())
        &&& self@.len() == page_count(self.heap_size())
        &&& runs_terminated(self@, self.usable_pages())
    }

    /// Whether `ptr` is the address of the first page of an allocation
    /// that is handed out at present.
    pub open spec fn spec_is_allocated(&self, ptr: usize) -> bool {
        &&& ptr == self.address_of(self.index_of(ptr))
        &&& begins_allocation(self@, self.usable_pages(), self.index_of(ptr))
    }

    #[verifier::type_invariant]
    spec fn inv(&self) -> bool {
        &&& self.wf()
        &&& all_valid(self.table@)
    }

    /// The state of descriptor `index`, or `None` where the table has no
    /// such descriptor.
    pub fn descriptor(&self, index: usize) -> (flags: Option<Flags>)
        ensures
            flags == if index < self@.len() {
                Some(self@[index as int])
            } else {
                None
            },
    {
        proof {
            use_type_invariant(self);
        }
        if index < self.table.len() {
            self.table[index].state()
        } else {
            None
        }
    }

    /// Number of pages that are free at present.
    pub fn available(&self) -> (count: usize)
        ensures
            count == free_count(self@, self.usable_pages()),
    {
        proof {
            use_type_invariant(self);
        }
        let limit = page_count(self.heap_size) - reserved_pages(self.heap_size);
        let mut count: usize = 0;
        let mut i: usize = 0;
        while i < limit
            invariant
                i <= limit <= self.table@.len(),
                all_valid(self.table@),
                count <= i,
                count == free_count(self@, i as int),
            decreases limit - i,
        {
            match self.table[i].state() {
                Some(Flags::Empty) => {
                    count += 1;
                },
                _ => {},
            }
            i += 1;
        }
        count
    }

    /// Whether `ptr` is the address of the first page of an allocation
    /// that is handed out at present: whether it can be given back.
    #[verifier::when_used_as_spec(spec_is_allocated)]
    pub fn is_allocated(&self, ptr: usize) -> (allocated: bool)
        ensures
            allocated == self.spec_is_allocated(ptr),
    {
        proof {
            use_type_invariant(self);
        }
        let reserved = reserved_pages(self.heap_size);
        let limit = page_count(self.heap_size) - reserved;
        if ptr < self.heap_start || (ptr - self.heap_start) % PAGE_SIZE != 0 {
            return false;
        }
        let page = (ptr - self.heap_start) / PAGE_SIZE;
        if page < reserved || page - reserved >= limit {
            return false;
        }
        let index = page - reserved;
        let handed_out = match self.table[index].state() {
            Some(Flags::Empty) => false,
            _ => true,
        };
        let begins = index == 0 || match self.table[index - 1].state() {
            Some(Flags::Taken) => false,
            _ => true,
        };
        handed_out && begins
    }
}

/// Sets up the allocator for the heap of `heap_size` bytes at `heap_start`,
/// with `table` as its descriptor table, and marks every page as free.
/// Whatever the table recorded before is lost.
pub fn init_paging<'a>(heap_start: usize, heap_size: usize, table: &'a mut [Page]) -> (heap:
    PageAllocator<'a>)
    requires
        is_heap_region(heap_start, heap_size),
        old(table)@.len() == page_count(heap_size),
    ensures
        heap.heap_start() == heap_start,
        heap.heap_size() == heap_size,
        heap@ == Seq::new(page_count(heap_size) as nat, |i: int| Flags::Empty),
        heap.wf(),
{
    let count = page_count(heap_size);
    let mut i: usize = 0;
    while i < count
        invariant
            i <= count,
            count == table@.len(),
            forall|j: int| 0 <= j < i ==> (#[trigger] table@[j]).holds(Flags::Empty),
        decreases count - i,
    {
        table[i].clear();
        i += 1;
    }
    let heap = PageAllocator { heap_start, heap_size, table };
    assert(heap@ =~= Seq::new(page_count(heap_size) as nat, |i: int| Flags::Empty));
    heap
}

/// Looks for the lowest run of `pages` free descriptors below `limit`.
fn find_free_run(table: &[Page], limit: usize, pages: usize) -> (found: Option<usize>)
    requires
        all_valid(table@),
        limit <= table@.len(),
        0 < pages,
    ensures
        found == match first_fit(states(table@), limit as int, pages as int) {
            Some(start) => Some(start as usize),
            None => None,
        },
        found matches Some(start) ==> is_first_fit(
            states(table@),
            limit as int,
            pages as int,
            start as int,
        ),
{
    let ghost t = states(table@);
    proof {
        lemma_first_fit(t, limit as int, pages as int);
    }
    let mut start: usize = 0;
    let mut i: usize = 0;
    while i < limit
        invariant
            start <= i <= limit <= table@.len(),
            0 < pages,
            i - start < pages,
            t == states(table@),
            all_valid(table@),
            forall|j: int| start <= j < i ==> t[j] == Flags::Empty,
            forall|s: int| 0 <= s < start ==> !is_free_run(t, limit as int, s, pages as int),
        decreases limit - i,
    {
        match table[i].state() {
            Some(Flags::Empty) => {
                i += 1;
                if i - start == pages {
                    proof {
                        assert(is_free_run(t, limit as int, start as int, pages as int));
                        assert(is_first_fit(t, limit as int, pages as int, start as int));
                    }
                    return Some(start);
                }
            },
            _ => {
                proof {
                    assert(t[i as int] != Flags::Empty);
                    assert forall|s: int| start <= s <= i implies !is_free_run(
                        t,
                        limit as int,
                        s,
                        pages as int,
                    ) by {
                        if is_free_run(t, limit as int, s, pages as int) {
                            assert(t[i as int] == Flags::Empty);
                        }
                    }
                }
                i += 1;
                start = i;
            },
        }
    }
    proof {
        assert forall|s: int| !is_free_run(t, limit as int, s, pages as int) by {
            if is_free_run(t, limit as int, s, pages as int) {
                assert(start <= s);
                assert(s + pages <= limit);
            }
        }
    }
    None
}

/// Turns the `pages` descriptors from `start` on into one allocation.
fn mark_run(table: &mut [Page], start: usize, pages: usize)
    requires
        all_valid(old(table)@),
        0 < pages,
        start + pages <= old(table).len(),
    ensures
        all_valid(final(table)@),
        states(final(table)@) == mark(states(old(table)@), start as int, pages as int),
    no_unwind
{
    let last = start + (pages - 1);
    let mut i: usize = start;
    while i < last
        invariant
            start <= i <= last < table@.len(),
            table@.len() == old(table)@.len(),
            all_valid(table@),
            forall|j: int| start <= j < i ==> (#[trigger] table@[j]).holds(Flags::Taken),
            forall|j: int|
                0 <= j < table@.len() && !(start <= j < i) ==> #[trigger] table@[j] == old(table)@[j],
        decreases last - i,
    {
        table[i].set(Flags::Taken);
        i += 1;
    }
    table[last].set(Flags::Last);
    assert(states(table@) =~= mark(states(old(table)@), start as int, pages as int));
}

/// Hands out `pages` consecutive pages: the lowest run of that many free
/// pages, first fit. Gives the address of the first of them, or [`NULL`]
/// when no run of free pages is long enough; the table is then unchanged.
pub fn alloc_pages(heap: &mut PageAllocator<'_>, pages: usize) -> (ptr: usize)
    requires
        0 < pages,
    ensures
        final(heap).wf(),
        final(heap).heap_start() == old(heap).heap_start(),
        final(heap).heap_size() == old(heap).heap_size(),
        final(heap)@ == alloc_step(old(heap)@, old(heap).usable_pages(), pages as int).0,
        ptr == match alloc_step(old(heap)@, old(heap).usable_pages(), pages as int).1 {
            Some(start) => old(heap).address_of(start),
            None => NULL as int,
        },
        ptr != NULL ==> {
            &&& ptr % PAGE_SIZE == 0
            &&& old(heap).heap_start() <= ptr
            &&& ptr + pages * PAGE_SIZE <= old(heap).heap_start() + old(heap).heap_size()
            &&& alloc_step(old(heap)@, old(heap).usable_pages(), pages as int).1 == Some(
                old(heap).index_of(ptr),
            )
            &&& is_first_fit(
                old(heap)@,
                old(heap).usable_pages(),
                pages as int,
                old(heap).index_of(ptr),
            )
            &&& !old(heap).is_allocated(ptr)
            &&& final(heap).is_allocated(ptr)
        },
        forall|other: usize| #[trigger]
            old(heap).spec_is_allocated(other) ==> final(heap).spec_is_allocated(other),
{
    proof {
        use_type_invariant(&*heap);
        lemma_alloc_step(heap@, heap.usable_pages(), pages as int);
        assert forall|other: usize| #[trigger] heap.spec_is_allocated(other) implies begins_allocation(
            alloc_step(heap@, heap.usable_pages(), pages as int).0,
            heap.usable_pages(),
            heap.index_of(other),
        ) by {
            lemma_alloc_keeps_allocations(
                heap@,
                heap.usable_pages(),
                pages as int,
                heap.index_of(other),
            );
        }
    }
    let reserved = reserved_pages(heap.heap_size);
    let limit = page_count(heap.heap_size) - reserved;
    match find_free_run(heap.table, limit, pages) {
        Some(start) => {
            mark_run(heap.table, start, pages);
            heap.heap_start + (reserved + start) * PAGE_SIZE
        },
        None => NULL,
    }
}

/// Turns the allocation that begins at descriptor `start` back into free
/// pages, walking from `start` up to the descriptor that is `Last`.
fn release_run(table: &mut [Page], limit: usize, start: usize)
    requires
        all_valid(old(table)@),
        runs_terminated(states(old(table)@), limit as int),
        start < limit,
        states(old(table)@)[start as int] != Flags::Empty,
    ensures
        all_valid(final(table)@),
        states(final(table)@) == release(
            states(old(table)@),
            start as int,
            allocation_end(states(old(table)@), start as int),
        ),
    no_unwind
{
    let ghost t = states(old(table)@);
    let mut i: usize = start;
    loop
        invariant_except_break
            t[i as int] != Flags::Empty,
            allocation_end(t, i as int) == allocation_end(t, start as int),
            forall|j: int| start <= j < i ==> (#[trigger] table@[j]).holds(Flags::Empty),
            forall|j: int|
                0 <= j < table@.len() && !(start <= j < i) ==> #[trigger] table@[j] == old(table)@[j],
        invariant
            start <= i < limit <= table@.len(),
            table@.len() == old(table)@.len(),
            t == states(old(table)@),
            runs_terminated(t, limit as int),
            all_valid(old(table)@),
            all_valid(table@),
        ensures
            start <= i < limit <= table@.len(),
            table@.len() == old(table)@.len(),
            all_valid(table@),
            allocation_end(t, start as int) == i + 1,
            forall|j: int| start <= j <= i ==> (#[trigger] table@[j]).holds(Flags::Empty),
            forall|j: int|
                0 <= j < table@.len() && !(start <= j <= i) ==> #[trigger] table@[j] == old(table)@[j],
        decreases limit - i,
    {
        let taken = match table[i].state() {
            Some(Flags::Taken) => true,
            _ => false,
        };
        table[i].clear();
        if !taken {
            break;
        }
        proof {
            assert(t[i as int] == Flags::Taken);
            assert(t[i + 1] != Flags::Empty);
        }
        i += 1;
    }
    assert(states(table@) =~= release(t, start as int, allocation_end(t, start as int)));
}

/// Gives the allocation whose first page is at `ptr` back to the
/// allocator: each of its pages becomes free again.
pub fn free_pages(heap: &mut PageAllocator<'_>, ptr: usize)
    requires
        old(heap).is_allocated(ptr),
    ensures
        final(heap).wf(),
        final(heap).heap_start() == old(heap).heap_start(),
        final(heap).heap_size() == old(heap).heap_size(),
        final(heap)@ == free_step(old(heap)@, old(heap).index_of(ptr)),
        !final(heap).is_allocated(ptr),
        forall|other: usize| #[trigger]
            old(heap).spec_is_allocated(other) && other != ptr ==> final(heap).spec_is_allocated(
                other,
            ),
{
    proof {
        use_type_invariant(&*heap);
    }
    let reserved = reserved_pages(heap.heap_size);
    let limit = page_count(heap.heap_size) - reserved;
    let start = (ptr - heap.heap_start) / PAGE_SIZE - reserved;
    proof {
        lemma_free_step(heap@, limit as int, start as int);
        assert forall|other: usize| #[trigger]
            heap.spec_is_allocated(other) && other != ptr implies begins_allocation(
            free_step(heap@, start as int),
            limit as int,
            heap.index_of(other),
        ) by {
            lemma_free_keeps_allocations(heap@, limit as int, start as int, heap.index_of(other));
        }
    }
    release_run(heap.table, limit, start);
}

} // verus!
