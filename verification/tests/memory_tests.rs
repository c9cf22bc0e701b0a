use io_lang::memory::{parse_meminfo, size_class, Allocation, FreeBlock, PoolAllocator};

#[test]
fn size_classes_are_sixteen_bytes_wide() {
    assert_eq!(size_class(1), Some(0));
    assert_eq!(size_class(16), Some(0));
    assert_eq!(size_class(17), Some(1));
    assert_eq!(size_class(512), Some(31));
    assert_eq!(size_class(513), None);
}

#[test]
fn meminfo_total_is_read_in_bytes() {
    let text = "MemTotal:       16384 kB\nMemFree:         1024 kB\n";
    assert_eq!(parse_meminfo(text), Some(16384 * 1024));
    assert_eq!(parse_meminfo("MemFree: 5 kB\n"), None);
    assert_eq!(parse_meminfo("MemTotal: lots\n"), None);
}

#[test]
fn freed_block_is_reused() {
    let mut pools = PoolAllocator::new();
    assert_eq!(pools.allocate(100, 8), Allocation::NewBlock { size: 4096, align: 8 });
    let block = FreeBlock { addr: 4096, size: 112, align: 8 };
    assert!(pools.deallocate(block, 100));
    assert_eq!(pools.allocate(100, 8), Allocation::Reused(block));
    assert_eq!(pools.allocate(100, 8), Allocation::NewBlock { size: 4096, align: 8 });
}

#[test]
fn large_requests_go_to_the_system() {
    let mut pools = PoolAllocator::new();
    assert_eq!(pools.allocate(1000, 16), Allocation::System { size: 1000, align: 16 });
    assert!(!pools.deallocate(FreeBlock { addr: 0, size: 1000, align: 16 }, 1000));
}

#[test]
fn adjacent_free_blocks_merge() {
    let mut pools = PoolAllocator::new();
    assert!(pools.deallocate(FreeBlock { addr: 32, size: 16, align: 8 }, 10));
    assert!(pools.deallocate(FreeBlock { addr: 16, size: 16, align: 8 }, 10));
    assert_eq!(pools.allocate(10, 8), Allocation::Reused(FreeBlock { addr: 16, size: 32, align: 8 }));
}
