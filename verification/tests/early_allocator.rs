use bump_allocator::early::AllocError;
use bump_allocator::early::EarlyAllocator;

const PAGE: usize = 0x100;

fn region() -> EarlyAllocator<PAGE> {
    let mut a = EarlyAllocator::<PAGE>::new();
    a.init(0x1000, 0x1000);
    a
}

#[test]
fn fresh_allocator_has_zero_capacity() {
    let mut a = EarlyAllocator::<PAGE>::new();
    assert_eq!(a.total_bytes(), 0);
    assert_eq!(a.available_bytes(), 0);
    assert_eq!(a.used_bytes(), 0);
    assert_eq!(a.alloc_bytes(8, 8), Err(AllocError::NoMemory));
    assert_eq!(a.alloc_pages(1, PAGE), Err(AllocError::NoMemory));
}

#[test]
fn init_exposes_whole_region() {
    let mut a = region();
    assert_eq!(a.total_bytes(), 0x1000);
    assert_eq!(a.available_bytes(), 0x1000);
    assert_eq!(a.used_bytes(), 0);
    assert_eq!(a.total_pages(), 0x10);
    assert_eq!(a.available_pages(), 0x10);
    assert_eq!(a.used_pages(), 0);
}

#[test]
fn boot_scenario() {
    let mut a = region();
    assert_eq!(a.available_bytes(), 0x1000);
    assert_eq!(a.alloc_bytes(8, 8), Ok(0x1000));
    assert_eq!(a.used_bytes(), 8);
    assert_eq!(a.alloc_pages(1, 0x100), Ok(0x1F00));
    assert_eq!(a.available_bytes(), 0xEF8);
    assert_eq!(a.total_bytes(), 0xF00);
    assert_eq!(a.used_pages(), 1);
    // a request whose rounded-down candidate falls below b_pos
    assert_eq!(a.alloc_pages(20, 0x1000), Err(AllocError::NoMemory));
}

#[test]
fn used_bytes_is_sum_of_padded_sizes() {
    let mut a = region();
    assert_eq!(a.alloc_bytes(1, 8), Ok(0x1000));
    assert_eq!(a.used_bytes(), 8);
    assert_eq!(a.alloc_bytes(3, 4), Ok(0x1008));
    assert_eq!(a.used_bytes(), 8 + 4);
    assert_eq!(a.alloc_bytes(16, 16), Ok(0x100C));
    assert_eq!(a.used_bytes(), 8 + 4 + 16);
    assert!(a.used_bytes() + a.available_bytes() == a.total_bytes());
}

#[test]
fn bulk_free_resets_byte_area() {
    let mut a = region();
    let p0 = a.alloc_bytes(8, 8).unwrap();
    let p1 = a.alloc_bytes(24, 8).unwrap();
    let p2 = a.alloc_bytes(4, 4).unwrap();
    assert_eq!(a.used_bytes(), 8 + 24 + 4);
    // return all three, in an order unrelated to allocation order
    a.dealloc_bytes(p1, 24, 8);
    a.dealloc_bytes(p2, 4, 4);
    a.dealloc_bytes(p0, 8, 8);
    assert_eq!(a.used_bytes(), 0);
    // the next allocation reuses the original start address
    assert_eq!(a.alloc_bytes(16, 8), Ok(0x1000));
}

#[test]
fn partial_free_keeps_byte_cursor() {
    let mut a = region();
    let p0 = a.alloc_bytes(8, 8).unwrap();
    let _p1 = a.alloc_bytes(8, 8).unwrap();
    a.dealloc_bytes(p0, 8, 8);
    // one allocation still live: nothing reclaimed
    assert_eq!(a.used_bytes(), 16);
    assert_eq!(a.alloc_bytes(8, 8), Ok(0x1010));
}

#[test]
fn alloc_pages_rejects_bad_alignment() {
    let mut a = region();
    let before = a.available_pages();
    assert_eq!(a.alloc_pages(1, 0x300), Err(AllocError::InvalidParam));
    assert_eq!(a.alloc_pages(1, 0x10), Err(AllocError::InvalidParam));
    assert_eq!(a.alloc_pages(1, 0), Err(AllocError::InvalidParam));
    assert_eq!(a.available_pages(), before);
    assert_eq!(a.used_pages(), 0);
}

#[test]
fn alloc_pages_refuses_to_cross_byte_area() {
    let mut a = region();
    assert_eq!(a.alloc_bytes(0x800, 8), Ok(0x1000));
    let avail_before = a.available_bytes();
    // 8 pages fit in [0x1800, 0x2000) exactly; 9 would cross into bytes
    assert_eq!(a.alloc_pages(9, PAGE), Err(AllocError::NoMemory));
    assert_eq!(a.available_bytes(), avail_before);
    assert_eq!(a.alloc_pages(8, PAGE), Ok(0x1800));
    assert_eq!(a.available_bytes(), 0);
}

#[test]
fn alloc_pages_rounding_excess_counts_against_capacity() {
    let mut a = region();
    // nominal size is one page, but 0x1000 alignment rounds the candidate
    // down to 0x1000 itself; the byte cursor sits there, so it still fits
    assert_eq!(a.alloc_pages(1, 0x1000), Ok(0x1000));
    assert_eq!(a.available_bytes(), 0);
    assert_eq!(a.used_pages(), 0x10);
}

#[test]
fn byte_capacity_shrinks_as_pages_grow() {
    let mut a = region();
    assert_eq!(a.alloc_pages(4, PAGE), Ok(0x1C00));
    assert_eq!(a.total_bytes(), 0xC00);
    assert_eq!(a.available_bytes(), 0xC00);
    assert_eq!(a.total_pages(), 0x10);
    assert_eq!(a.available_pages(), 0xC);
}

#[test]
fn dealloc_pages_is_unsupported() {
    let mut a = region();
    let p = a.alloc_pages(1, PAGE).unwrap();
    assert_eq!(a.dealloc_pages(p, 1), Err(AllocError::Unsupported));
    assert_eq!(a.dealloc_pages(0, 0), Err(AllocError::Unsupported));
    assert_eq!(a.used_pages(), 1);
}

#[test]
fn add_memory_is_unsupported() {
    let mut a = region();
    assert_eq!(a.add_memory(0x8000, 0x1000), Err(AllocError::Unsupported));
    assert_eq!(a.add_memory(0, 0), Err(AllocError::Unsupported));
    assert_eq!(a.total_bytes(), 0x1000);
}

#[test]
fn byte_alloc_fails_without_moving_cursors() {
    let mut a = region();
    assert_eq!(a.alloc_bytes(8, 8), Ok(0x1000));
    assert_eq!(a.alloc_bytes(0x2000, 8), Err(AllocError::NoMemory));
    assert_eq!(a.used_bytes(), 8);
    assert_eq!(a.available_bytes(), 0xFF8);
}
