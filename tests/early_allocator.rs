use bump_allocator::{AllocError, EarlyAllocator};

const BASE: usize = 0x8000_0000;

fn region_4k() -> EarlyAllocator<64> {
    let mut a = EarlyAllocator::<64>::new();
    a.init(BASE, 4096);
    a
}

#[test]
fn new_is_empty() {
    let a = EarlyAllocator::<4096>::new();
    assert_eq!(a.total_bytes(), 0);
    assert_eq!(a.used_bytes(), 0);
    assert_eq!(a.available_bytes(), 0);
    assert_eq!(a.total_pages(), 0);
    assert_eq!(a.used_pages(), 0);
    assert_eq!(a.available_pages(), 0);
}

#[test]
fn init_sets_counters() {
    let a = region_4k();
    assert_eq!(a.total_bytes(), 4096);
    assert_eq!(a.used_bytes(), 0);
    assert_eq!(a.available_bytes(), 4096);
    assert_eq!(a.total_pages(), 64);
    assert_eq!(a.used_pages(), 0);
    assert_eq!(a.available_pages(), 64);
}

#[test]
fn init_again_discards_state() {
    let mut a = region_4k();
    assert_eq!(a.alloc_bytes(100, 1), Ok(BASE));
    assert_eq!(a.alloc_pages(3, 64), Ok(BASE + 4096 - 192));
    a.init(0x1000, 640);
    assert_eq!(a.total_bytes(), 640);
    assert_eq!(a.used_bytes(), 0);
    assert_eq!(a.used_pages(), 0);
    assert_eq!(a.available_pages(), 10);
    assert_eq!(a.alloc_bytes(8, 8), Ok(0x1000));
}

#[test]
fn worked_example() {
    let mut a = region_4k();
    assert_eq!(a.alloc_bytes(100, 8), Ok(BASE));
    assert_eq!(a.used_bytes(), 100);
    assert_eq!(a.alloc_pages(2, 64), Ok(BASE + 4096 - 128));
    assert_eq!(a.alloc_bytes(5000, 8), Err(AllocError::NoMemory));
    assert_eq!(a.used_bytes(), 100);
    a.dealloc_bytes(BASE, 100, 8);
    assert_eq!(a.used_bytes(), 0);
    assert_eq!(a.alloc_bytes(1, 1), Ok(BASE));
}

#[test]
fn byte_addresses_ascend_without_overlap() {
    let mut a = region_4k();
    let sizes = [10usize, 1, 300, 7, 64];
    let mut prev_end = BASE;
    let mut prev_addr: Option<usize> = None;
    for s in sizes {
        let addr = a.alloc_bytes(s, 1).unwrap();
        assert!(addr >= prev_end);
        if let Some(p) = prev_addr {
            assert!(addr > p);
        }
        prev_addr = Some(addr);
        prev_end = addr + s;
    }
    assert_eq!(prev_end, BASE + 382);
    assert_eq!(a.used_bytes(), 382);
    assert_eq!(a.available_bytes(), 4096 - 382);
}

#[test]
fn byte_alloc_may_take_everything() {
    let mut a = region_4k();
    assert_eq!(a.alloc_bytes(4096, 1), Ok(BASE));
    assert_eq!(a.available_bytes(), 0);
    assert_eq!(a.available_pages(), 0);
    assert_eq!(a.alloc_bytes(1, 1), Err(AllocError::NoMemory));
    assert_eq!(a.alloc_pages(1, 64), Err(AllocError::NoMemory));
}

#[test]
fn page_bases_descend_and_stay_aligned() {
    let mut a = region_4k();
    let counts = [1usize, 3, 2, 5];
    let mut prev = BASE + 4096;
    for c in counts {
        let base = a.alloc_pages(c, 64).unwrap();
        assert_eq!(base % 64, 0);
        assert_eq!(base + c * 64, prev);
        prev = base;
    }
    assert_eq!(prev, BASE + 4096 - 11 * 64);
    assert_eq!(a.used_pages(), 11);
    assert_eq!(a.available_pages(), 53);
}

#[test]
fn page_alloc_may_take_everything() {
    let mut a = region_4k();
    assert_eq!(a.alloc_pages(64, 64), Ok(BASE));
    assert_eq!(a.available_pages(), 0);
    assert_eq!(a.available_bytes(), 0);
    assert_eq!(a.alloc_bytes(1, 1), Err(AllocError::NoMemory));
}

#[test]
fn unaligned_end_keeps_whole_pages_below_it() {
    let mut a = EarlyAllocator::<64>::new();
    a.init(0x1003, 200);
    assert_eq!(a.total_pages(), 3);
    assert_eq!(a.alloc_pages(2, 64), Ok(0x1003 + 200 - 128));
    assert_eq!(a.available_pages(), 1);
    assert_eq!(a.available_bytes(), 72);
}

#[test]
fn fronts_never_cross() {
    let mut a = region_4k();
    assert_eq!(a.alloc_bytes(4000, 1), Ok(BASE));
    assert_eq!(a.available_pages(), 1);
    assert_eq!(a.alloc_pages(2, 64), Err(AllocError::NoMemory));
    assert_eq!(a.alloc_pages(1, 64), Ok(BASE + 4096 - 64));
    assert_eq!(a.available_bytes(), 32);
    assert_eq!(a.alloc_bytes(33, 1), Err(AllocError::NoMemory));
    assert_eq!(a.alloc_bytes(32, 1), Ok(BASE + 4000));
    assert_eq!(a.available_bytes(), 0);
}

#[test]
fn too_large_byte_request_changes_nothing() {
    let mut a = region_4k();
    a.alloc_bytes(50, 1).unwrap();
    a.alloc_pages(10, 64).unwrap();
    assert_eq!(a.alloc_bytes(4096 - 640 - 49, 1), Err(AllocError::NoMemory));
    assert_eq!(a.used_bytes(), 50);
    assert_eq!(a.available_bytes(), 4096 - 640 - 50);
    assert_eq!(a.used_pages(), 10);
    assert_eq!(a.alloc_bytes(1, 1), Ok(BASE + 50));
}

#[test]
fn too_large_page_request_changes_nothing() {
    let mut a = region_4k();
    a.alloc_bytes(50, 1).unwrap();
    assert_eq!(a.available_pages(), 63);
    assert_eq!(a.alloc_pages(64, 64), Err(AllocError::NoMemory));
    assert_eq!(a.used_pages(), 0);
    assert_eq!(a.available_bytes(), 4046);
    assert_eq!(a.used_bytes(), 50);
    assert_eq!(a.alloc_pages(63, 64), Ok(BASE + 64));
}

#[test]
fn freeing_everything_resets_byte_front() {
    let mut a = region_4k();
    let x = a.alloc_bytes(30, 1).unwrap();
    let y = a.alloc_bytes(70, 1).unwrap();
    a.alloc_pages(4, 64).unwrap();
    a.dealloc_bytes(y, 70, 1);
    a.dealloc_bytes(x, 30, 1);
    assert_eq!(a.used_bytes(), 0);
    assert_eq!(a.available_bytes(), 4096 - 256);
    assert_eq!(a.alloc_bytes(100, 1), Ok(BASE));
    assert_eq!(a.used_pages(), 4);
}

#[test]
fn partial_free_keeps_byte_front() {
    let mut a = region_4k();
    let x = a.alloc_bytes(30, 1).unwrap();
    a.alloc_bytes(70, 1).unwrap();
    a.dealloc_bytes(x, 30, 1);
    assert_eq!(a.used_bytes(), 70);
    assert_eq!(a.available_bytes(), 4096 - 100);
    assert_eq!(a.alloc_bytes(5, 1), Ok(BASE + 100));
}

#[test]
fn free_ignores_the_address() {
    let mut a = region_4k();
    a.alloc_bytes(40, 1).unwrap();
    a.dealloc_bytes(0xdead, 40, 1);
    assert_eq!(a.used_bytes(), 0);
    assert_eq!(a.alloc_bytes(40, 1), Ok(BASE));
}

#[test]
fn byte_accounting_stays_within_region() {
    let mut a = region_4k();
    let x = a.alloc_bytes(100, 1).unwrap();
    a.alloc_bytes(20, 1).unwrap();
    a.alloc_pages(3, 64).unwrap();
    a.dealloc_bytes(x, 100, 1);
    assert_eq!(a.used_bytes(), 20);
    assert_eq!(a.available_bytes(), 4096 - 120 - 192);
    assert!(a.used_bytes() + a.available_bytes() <= a.total_bytes());
    assert_eq!(a.used_bytes() + a.available_bytes(), 4096 - 100 - 192);
}

#[test]
fn page_accounting_exact_with_empty_byte_front() {
    let mut a = region_4k();
    a.alloc_pages(5, 64).unwrap();
    assert_eq!(a.used_pages() + a.available_pages(), a.total_pages());
    assert_eq!(a.used_pages(), 5);
    assert_eq!(a.available_pages(), 59);
}

#[test]
fn page_accounting_short_while_bytes_are_carved() {
    let mut a = region_4k();
    a.alloc_bytes(32, 1).unwrap();
    a.alloc_pages(5, 64).unwrap();
    assert_eq!(a.used_pages(), 5);
    assert_eq!(a.available_pages(), 58);
    assert_eq!(a.total_pages(), 64);
    assert!(a.used_pages() + a.available_pages() <= a.total_pages());
}

#[test]
fn add_memory_is_unsupported() {
    let mut a = region_4k();
    a.alloc_bytes(10, 1).unwrap();
    a.alloc_pages(1, 64).unwrap();
    assert_eq!(a.add_memory(0x10_0000, 4096), Err(AllocError::Unsupported));
    assert_eq!(a.total_bytes(), 4096);
    assert_eq!(a.used_bytes(), 10);
    assert_eq!(a.available_bytes(), 4096 - 74);
    assert_eq!(a.used_pages(), 1);
}

#[test]
fn dealloc_pages_is_unsupported() {
    let mut a = region_4k();
    let p = a.alloc_pages(2, 64).unwrap();
    assert_eq!(a.dealloc_pages(p, 2), Err(AllocError::Unsupported));
    assert_eq!(a.used_pages(), 2);
    assert_eq!(a.available_pages(), 62);
    assert_eq!(a.alloc_pages(1, 64), Ok(p - 64));
}

#[test]
fn zero_sized_byte_request_returns_cursor() {
    let mut a = region_4k();
    a.alloc_bytes(12, 1).unwrap();
    assert_eq!(a.alloc_bytes(0, 1), Ok(BASE + 12));
    assert_eq!(a.used_bytes(), 12);
}

#[test]
fn empty_region_refuses_everything() {
    let mut a = EarlyAllocator::<4096>::new();
    a.init(0x2000, 0);
    assert_eq!(a.alloc_bytes(1, 1), Err(AllocError::NoMemory));
    assert_eq!(a.alloc_pages(1, 4096), Err(AllocError::NoMemory));
    assert_eq!(a.total_pages(), 0);
}
