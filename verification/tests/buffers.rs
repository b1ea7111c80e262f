use blitz::buffers::{IndexAllocId, IndexBuffer, memory_type_index, shared_layout, BufferError, MemoryRequirement, SubBuffer, VertexAllocId, VertexBuffers};
use blitz::freelist::Allocation;

#[test]
fn unallocated_ids_are_obvious() {
    let id = VertexAllocId::default();
    assert_eq!((id.buffer, id.slot), (usize::MAX, usize::MAX));
}

#[test]
fn freed_slots_are_reused_last_freed_first() {
    let mut sub = SubBuffer::new(64, 4);
    assert_eq!(sub.allocate(8), Some(0));
    assert_eq!(sub.allocate(8), Some(1));
    assert_eq!(sub.allocate(8), Some(2));
    sub.free(0);
    sub.free(2);
    assert_eq!(sub.alloc_info(2), Allocation { offset: 0, size: 0 });
    assert_eq!(sub.allocate(4), Some(2));
    assert_eq!(sub.allocate(4), Some(0));
    assert_eq!(sub.alloc_info(2), Allocation { offset: 0, size: 4 });
    assert!(!sub.can_free(7));
}

#[test]
fn sub_buffers_allocate_independently() {
    let mut vb = VertexBuffers::new(&vec![(16, 4), (32, 8)]);
    let a = vb.allocate(0, 16).unwrap();
    assert_eq!(a, VertexAllocId { buffer: 0, slot: 0 });
    assert_eq!(vb.allocate(0, 4), Err(BufferError::OutOfMemory));
    let b = vb.allocate(1, 4).unwrap();
    assert_eq!(vb.alloc_info(b), Allocation { offset: 0, size: 4 });
    assert!(vb.can_free(a));
    vb.free(a);
    assert_eq!(vb.allocate(0, 8).unwrap(), VertexAllocId { buffer: 0, slot: 0 });
}

#[test]
fn buffers_are_laid_out_at_aligned_offsets() {
    let reqs = vec![
        MemoryRequirement { size: 10, alignment: 4, type_bits: 0b111 },
        MemoryRequirement { size: 20, alignment: 16, type_bits: 0b110 },
    ];
    let layout = shared_layout(&reqs);
    assert_eq!(layout.offsets, vec![0, 16]);
    assert_eq!(layout.total_size, 36);
    assert_eq!(layout.alignment, 16);
    assert_eq!(layout.type_bits, 0b110);
    let empty = shared_layout(&vec![]);
    assert_eq!((empty.total_size, empty.alignment, empty.type_bits), (0, 1, u32::MAX));
}

#[test]
fn memory_type_is_the_first_allowed_with_all_flags() {
    let flags = vec![0b01, 0b11, 0b11];
    assert_eq!(memory_type_index(&flags, 0b110, 0b11), Some(1));
    assert_eq!(memory_type_index(&flags, 0b001, 0b10), None);
}

#[test]
fn index_slots_record_their_counts() {
    let mut ib = IndexBuffer::new(&vec![(32, 4)]);
    let a = ib.allocate(0, 6).unwrap();
    assert_eq!(a, IndexAllocId { buffer: 0, slot: 0 });
    assert_eq!(ib.count(a), 6);
    assert_eq!(ib.alloc_info(a), Allocation { offset: 0, size: 12 });
    let b = ib.allocate(0, 10).unwrap();
    assert_eq!(ib.alloc_info(b), Allocation { offset: 12, size: 20 });
    assert_eq!(ib.allocate(0, 20), Err(BufferError::OutOfMemory));
    ib.free(a);
    assert_eq!(ib.count(a), 0);
    let c = ib.allocate(0, 3).unwrap();
    assert_eq!(c.slot, 0);
    assert_eq!(ib.count(c), 3);
    assert_eq!(IndexAllocId::default().slot, usize::MAX);
}
