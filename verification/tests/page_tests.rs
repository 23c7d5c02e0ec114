use rustyriscy::page::{
    alloc_pages, free_pages, init_paging, page_count, reserved_pages, Flags, Page, NULL, PAGE_SIZE,
};

const HEAP_START: usize = 0x8000_0000;

fn table_of(heap_size: usize, fill: Flags) -> Vec<Page> {
    let mut table = Vec::new();
    for _ in 0..page_count(heap_size) {
        table.push(Page::new(fill));
    }
    table
}

fn states(table: &[Page]) -> Vec<Option<Flags>> {
    table.iter().map(|page| page.state()).collect()
}

#[test]
fn flags_have_their_bytes() {
    assert_eq!(Flags::Empty.val(), 0);
    assert_eq!(Flags::Taken.val(), 1);
    assert_eq!(Flags::Last.val(), 2);
}

#[test]
fn bytes_decode_to_flags() {
    assert_eq!(Flags::from_val(0), Some(Flags::Empty));
    assert_eq!(Flags::from_val(1), Some(Flags::Taken));
    assert_eq!(Flags::from_val(2), Some(Flags::Last));
    assert_eq!(Flags::from_val(3), None);
    assert_eq!(Flags::from_val(255), None);
}

#[test]
fn clear_empties_a_descriptor() {
    let mut page = Page::new(Flags::Last);
    assert_eq!(page.state(), Some(Flags::Last));
    page.clear();
    assert_eq!(page.state(), Some(Flags::Empty));
    page.set(Flags::Taken);
    assert_eq!(page.state(), Some(Flags::Taken));
    page.clear();
    assert_eq!(page.state(), Some(Flags::Empty));
}

#[test]
fn page_counts() {
    assert_eq!(PAGE_SIZE, 4096);
    assert_eq!(page_count(0), 0);
    assert_eq!(page_count(4095), 0);
    assert_eq!(page_count(8192), 2);
    assert_eq!(page_count(8192 + 4095), 2);
    assert_eq!(reserved_pages(0), 0);
    assert_eq!(reserved_pages(4096), 1);
    assert_eq!(reserved_pages(4096 * 4096), 1);
    assert_eq!(reserved_pages(4097 * 4096), 2);
}

#[test]
fn init_paging_empties_every_descriptor() {
    let heap_size = 16 * PAGE_SIZE;
    let mut table = table_of(heap_size, Flags::Taken);
    {
        let heap = init_paging(HEAP_START, heap_size, &mut table);
        for i in 0..16 {
            assert_eq!(heap.descriptor(i), Some(Flags::Empty));
        }
        assert_eq!(heap.descriptor(16), None);
    }
    assert_eq!(table.len(), 16);
    assert_eq!(states(&table), vec![Some(Flags::Empty); 16]);
}

#[test]
fn init_paging_of_an_empty_heap() {
    let mut table: Vec<Page> = Vec::new();
    let mut heap = init_paging(HEAP_START, 0, &mut table);
    assert_eq!(heap.descriptor(0), None);
    assert_eq!(alloc_pages(&mut heap, 1), NULL);
}

#[test]
fn init_paging_again_drops_allocations() {
    let heap_size = 8 * PAGE_SIZE;
    let mut table = table_of(heap_size, Flags::Empty);
    {
        let mut heap = init_paging(HEAP_START, heap_size, &mut table);
        assert_ne!(alloc_pages(&mut heap, 3), NULL);
    }
    assert_eq!(table[0].state(), Some(Flags::Taken));
    let mut heap = init_paging(HEAP_START, heap_size, &mut table);
    for i in 0..8 {
        assert_eq!(heap.descriptor(i), Some(Flags::Empty));
    }
    assert_eq!(alloc_pages(&mut heap, 3), HEAP_START + PAGE_SIZE);
}

#[test]
fn two_page_heap_scenario() {
    let mut table = table_of(8192, Flags::Last);
    let mut heap = init_paging(HEAP_START, 8192, &mut table);
    assert_eq!(heap.descriptor(0), Some(Flags::Empty));
    assert_eq!(heap.descriptor(1), Some(Flags::Empty));
    assert_eq!(heap.descriptor(2), None);
    let first = alloc_pages(&mut heap, 1);
    assert_ne!(first, NULL);
    assert_eq!(first, HEAP_START + reserved_pages(8192) * PAGE_SIZE);
    assert_eq!(first, 0x8000_1000);
    assert_eq!(alloc_pages(&mut heap, 2), NULL);
}

#[test]
fn alloc_marks_taken_then_last() {
    let heap_size = 8 * PAGE_SIZE;
    let mut table = table_of(heap_size, Flags::Empty);
    {
        let mut heap = init_paging(HEAP_START, heap_size, &mut table);
        assert_eq!(alloc_pages(&mut heap, 3), HEAP_START + PAGE_SIZE);
        assert_eq!(alloc_pages(&mut heap, 1), HEAP_START + 4 * PAGE_SIZE);
        assert_eq!(alloc_pages(&mut heap, 2), HEAP_START + 5 * PAGE_SIZE);
    }
    assert_eq!(
        states(&table),
        vec![
            Some(Flags::Taken),
            Some(Flags::Taken),
            Some(Flags::Last),
            Some(Flags::Last),
            Some(Flags::Taken),
            Some(Flags::Last),
            Some(Flags::Empty),
            Some(Flags::Empty),
        ]
    );
}

#[test]
fn alloc_never_hands_out_the_table_or_leaves_the_heap() {
    let heap_size = 8 * PAGE_SIZE;
    let mut table = table_of(heap_size, Flags::Empty);
    let mut heap = init_paging(HEAP_START, heap_size, &mut table);
    let mut seen = Vec::new();
    loop {
        let ptr = alloc_pages(&mut heap, 1);
        if ptr == NULL {
            break;
        }
        assert_eq!(ptr % PAGE_SIZE, 0);
        assert!(ptr >= HEAP_START + PAGE_SIZE);
        assert!(ptr + PAGE_SIZE <= HEAP_START + heap_size);
        assert!(!seen.contains(&ptr));
        seen.push(ptr);
    }
    assert_eq!(seen.len(), 7);
}

#[test]
fn allocations_do_not_overlap() {
    let heap_size = 32 * PAGE_SIZE;
    let mut table = table_of(heap_size, Flags::Empty);
    let mut heap = init_paging(HEAP_START, heap_size, &mut table);
    let sizes = [3usize, 1, 5, 2, 7, 4];
    let mut ranges: Vec<(usize, usize)> = Vec::new();
    for pages in sizes {
        let ptr = alloc_pages(&mut heap, pages);
        assert_ne!(ptr, NULL);
        let range = (ptr, ptr + pages * PAGE_SIZE);
        for other in &ranges {
            assert!(range.1 <= other.0 || other.1 <= range.0);
        }
        ranges.push(range);
    }
}

#[test]
fn alloc_fails_when_too_few_pages_are_free() {
    let heap_size = 8 * PAGE_SIZE;
    let mut table = table_of(heap_size, Flags::Empty);
    {
        let mut heap = init_paging(HEAP_START, heap_size, &mut table);
        assert_eq!(alloc_pages(&mut heap, 8), NULL);
        assert_eq!(alloc_pages(&mut heap, usize::MAX), NULL);
        assert_eq!(alloc_pages(&mut heap, 5), HEAP_START + PAGE_SIZE);
        assert_eq!(alloc_pages(&mut heap, 3), NULL);
        assert_eq!(alloc_pages(&mut heap, 2), HEAP_START + 6 * PAGE_SIZE);
        assert_eq!(alloc_pages(&mut heap, 1), NULL);
    }
    assert_eq!(table[7].state(), Some(Flags::Empty));
}

#[test]
fn alloc_fails_on_fragmentation_and_leaves_the_table() {
    let heap_size = 8 * PAGE_SIZE;
    let mut table = table_of(heap_size, Flags::Empty);
    {
        let mut heap = init_paging(HEAP_START, heap_size, &mut table);
        let a = alloc_pages(&mut heap, 2);
        let b = alloc_pages(&mut heap, 2);
        let c = alloc_pages(&mut heap, 2);
        assert_eq!((a, b, c), (0x8000_1000, 0x8000_3000, 0x8000_5000));
        free_pages(&mut heap, a);
        free_pages(&mut heap, c);
        // Five pages are free, in runs of two, and of three.
        assert_eq!(alloc_pages(&mut heap, 4), NULL);
    }
    assert_eq!(
        states(&table),
        vec![
            Some(Flags::Empty),
            Some(Flags::Empty),
            Some(Flags::Taken),
            Some(Flags::Last),
            Some(Flags::Empty),
            Some(Flags::Empty),
            Some(Flags::Empty),
            Some(Flags::Empty),
        ]
    );
}

#[test]
fn alloc_is_first_fit() {
    let heap_size = 16 * PAGE_SIZE;
    let mut table = table_of(heap_size, Flags::Empty);
    let mut heap = init_paging(HEAP_START, heap_size, &mut table);
    let a = alloc_pages(&mut heap, 1);
    let b = alloc_pages(&mut heap, 2);
    let c = alloc_pages(&mut heap, 1);
    let d = alloc_pages(&mut heap, 3);
    assert_eq!(a, HEAP_START + PAGE_SIZE);
    assert_eq!(d, HEAP_START + 5 * PAGE_SIZE);
    free_pages(&mut heap, a);
    free_pages(&mut heap, c);
    // The hole of one page at the start is too short for two pages.
    free_pages(&mut heap, b);
    // Now the first four pages are free again.
    assert_eq!(alloc_pages(&mut heap, 4), a);
    assert_eq!(alloc_pages(&mut heap, 1), HEAP_START + 8 * PAGE_SIZE);
}

#[test]
fn free_then_alloc_reuses_the_range() {
    let heap_size = 8 * PAGE_SIZE;
    let mut table = table_of(heap_size, Flags::Empty);
    let mut heap = init_paging(HEAP_START, heap_size, &mut table);
    let a = alloc_pages(&mut heap, 2);
    let b = alloc_pages(&mut heap, 3);
    assert_ne!(a, NULL);
    assert_ne!(b, NULL);
    free_pages(&mut heap, b);
    assert_eq!(alloc_pages(&mut heap, 3), b);
    free_pages(&mut heap, a);
    assert_eq!(alloc_pages(&mut heap, 2), a);
}

#[test]
fn free_walks_to_the_last_page_only() {
    let heap_size = 8 * PAGE_SIZE;
    let mut table = table_of(heap_size, Flags::Empty);
    {
        let mut heap = init_paging(HEAP_START, heap_size, &mut table);
        let a = alloc_pages(&mut heap, 3);
        let b = alloc_pages(&mut heap, 2);
        assert_ne!(b, NULL);
        free_pages(&mut heap, a);
        assert_eq!(heap.descriptor(0), Some(Flags::Empty));
        assert_eq!(heap.descriptor(2), Some(Flags::Empty));
        assert_eq!(heap.descriptor(3), Some(Flags::Taken));
        assert_eq!(heap.descriptor(4), Some(Flags::Last));
    }
    assert_eq!(table[5].state(), Some(Flags::Empty));
}

#[test]
fn is_allocated_tells_live_allocations() {
    let heap_size = 8 * PAGE_SIZE;
    let mut table = table_of(heap_size, Flags::Empty);
    let mut heap = init_paging(HEAP_START, heap_size, &mut table);
    assert!(!heap.is_allocated(HEAP_START + PAGE_SIZE));
    let a = alloc_pages(&mut heap, 2);
    let b = alloc_pages(&mut heap, 1);
    assert!(heap.is_allocated(a));
    assert!(heap.is_allocated(b));
    // The second page of an allocation does not begin one.
    assert!(!heap.is_allocated(a + PAGE_SIZE));
    // Neither does an address inside a page, the table, or outside the heap.
    assert!(!heap.is_allocated(a + 1));
    assert!(!heap.is_allocated(HEAP_START));
    assert!(!heap.is_allocated(HEAP_START - PAGE_SIZE));
    assert!(!heap.is_allocated(HEAP_START + heap_size));
    assert!(!heap.is_allocated(NULL));
    free_pages(&mut heap, a);
    assert!(!heap.is_allocated(a));
    assert!(heap.is_allocated(b));
}

#[test]
fn runs_end_in_last_after_mixed_calls() {
    let heap_size = 16 * PAGE_SIZE;
    let mut table = table_of(heap_size, Flags::Empty);
    {
        let mut heap = init_paging(HEAP_START, heap_size, &mut table);
        let a = alloc_pages(&mut heap, 4);
        let b = alloc_pages(&mut heap, 1);
        let c = alloc_pages(&mut heap, 3);
        free_pages(&mut heap, b);
        let d = alloc_pages(&mut heap, 2);
        free_pages(&mut heap, a);
        let e = alloc_pages(&mut heap, 1);
        assert_ne!(c, NULL);
        assert_ne!(d, NULL);
        assert_ne!(e, NULL);
    }
    let states = states(&table);
    for (i, state) in states.iter().enumerate() {
        if *state == Some(Flags::Taken) {
            assert!(i + 1 < states.len());
            assert_ne!(states[i + 1], Some(Flags::Empty));
        }
        assert!(state.is_some());
    }
    assert_eq!(states[15], Some(Flags::Empty));
}

#[test]
fn available_counts_free_pages() {
    let heap_size = 8 * PAGE_SIZE;
    let mut table = table_of(heap_size, Flags::Empty);
    let mut heap = init_paging(HEAP_START, heap_size, &mut table);
    assert_eq!(heap.available(), 7);
    let a = alloc_pages(&mut heap, 2);
    let b = alloc_pages(&mut heap, 3);
    assert_ne!(b, NULL);
    assert_eq!(heap.available(), 2);
    free_pages(&mut heap, a);
    assert_eq!(heap.available(), 4);
    // Four pages are free, yet no more than two of them in a row.
    assert_eq!(alloc_pages(&mut heap, 3), NULL);
    assert_eq!(alloc_pages(&mut heap, 5), NULL);
    assert_eq!(heap.available(), 4);
}

#[test]
fn one_page_heap_has_nothing_to_hand_out() {
    let mut table = table_of(PAGE_SIZE, Flags::Empty);
    let mut heap = init_paging(HEAP_START, PAGE_SIZE, &mut table);
    assert_eq!(heap.descriptor(0), Some(Flags::Empty));
    assert_eq!(heap.available(), 0);
    assert_eq!(alloc_pages(&mut heap, 1), NULL);
}
