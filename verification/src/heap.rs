use vstd::prelude::*;

use linked_list_allocator::Heap;

verus! {

#[verifier::external_type_specification]
#[verifier::external_body]
pub struct ExHeap(Heap);

/// The bytes of `heap` that are handed out.
pub uninterp spec fn heap_used_bytes(heap: Heap) -> nat;

/// The size of the region that `heap` manages.
pub uninterp spec fn heap_size(heap: Heap) -> nat;

/// `linked_list_allocator::Heap::used`, which returns the heap's count of
/// bytes handed out. The claim that this count stays within the heap's size
/// rests on the crate's description of `free` as the free part of the heap
/// (`size - used`); nothing here checks the allocator's bookkeeping.
#[verifier::external_body]
fn heap_used(heap: &Heap) -> (r: usize)
    ensures
        r == heap_used_bytes(*heap),
        r <= heap_size(*heap),
{
    heap.used()
}

/// `linked_list_allocator::Heap::free`, which returns the heap's size less
/// its count of bytes handed out.
#[verifier::external_body]
fn heap_free(heap: &Heap) -> (r: usize)
    ensures
        r == heap_size(*heap) - heap_used_bytes(*heap),
{
    heap.free()
}

/// The number of bytes of the heap handed out.
pub fn used(heap: &Heap) -> (r: usize)
    ensures
        r == heap_used_bytes(*heap),
        r <= heap_size(*heap),
{
    heap_used(heap)
}

/// The number of bytes of the heap not handed out: its size less what is
/// used.
pub fn free(heap: &Heap) -> (r: usize)
    ensures
        r == heap_size(*heap) - heap_used_bytes(*heap),
{
    heap_free(heap)
}

} // verus!
