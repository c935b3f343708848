use std::alloc::Layout;
use std::mem::MaybeUninit;

use linked_list_allocator::Heap;
use term_demos::heap::{free, used};

fn region(size: usize) -> &'static mut [MaybeUninit<u8>] {
    Box::leak(vec![MaybeUninit::<u8>::uninit(); size].into_boxed_slice())
}

#[test]
fn empty_heap_has_nothing_used_or_free() {
    let heap = Heap::empty();
    assert_eq!(used(&heap), 0);
    assert_eq!(free(&heap), 0);
}

#[test]
fn fresh_heap_is_all_free() {
    let heap = Heap::from_slice(region(4096));
    assert_eq!(used(&heap), 0);
    assert_eq!(free(&heap), heap.size());
    assert!(free(&heap) > 0);
}

#[test]
fn allocation_moves_bytes_from_free_to_used() {
    let mut heap = Heap::from_slice(region(4096));
    let size = heap.size();
    let block = heap.allocate_first_fit(Layout::from_size_align(64, 8).unwrap());
    assert!(block.is_ok());
    assert!(used(&heap) >= 64);
    assert_eq!(used(&heap) + free(&heap), size);
    assert!(free(&heap) < size);
}
