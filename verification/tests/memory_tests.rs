use openvm_hip::error::MemoryError;
use openvm_hip::memory_manager::simple_pool::SimplePool;
use openvm_hip::memory_manager::{
    hip_runtime_shutdown, usage_line, FreeStep, MallocStep, MemTracker, MemUsageReport,
    MemoryManager,
};

/// Allocates `size` bytes the way the caller drives the manager, with the
/// device handing out `next` for a fresh buffer.
fn malloc(mm: &mut MemoryManager, size: usize, next: u64) -> u64 {
    match mm.d_malloc(size) {
        MallocStep::Reused(ptr) => ptr,
        MallocStep::DeviceAlloc(bytes) => {
            mm.record_device_alloc(next, bytes);
            next
        }
        MallocStep::PoolAlloc(bytes) => {
            mm.record_pool_alloc(bytes);
            next
        }
    }
}

#[test]
fn test_d_malloc_and_free() {
    let mut mm = MemoryManager::new(usize::MAX);
    let size = 1024;
    assert_eq!(mm.d_malloc(size), MallocStep::DeviceAlloc(1024));
    let ptr = malloc(&mut mm, size, 0x1000);
    assert!(ptr != 0);
    assert_eq!(mm.current_size(), 1024);
    assert_eq!(mm.d_free(ptr).expect("Free failed"), FreeStep::Cached);
    assert_eq!(mm.current_size(), 0);
    assert_eq!(mm.pool_bytes(), 1024);
}

#[test]
fn test_multiple_allocations() {
    let mut mm = MemoryManager::new(usize::MAX);
    let sizes = [512, 1024, 2048, 4096];
    let mut ptrs = Vec::new();
    for (i, &size) in sizes.iter().enumerate() {
        let ptr = malloc(&mut mm, size, 0x10000 * (i as u64 + 1));
        assert!(ptr != 0);
        ptrs.push(ptr);
    }
    assert_eq!(mm.current_size(), 512 + 1024 + 2048 + 4096);
    assert_eq!(mm.max_used_size(), 512 + 1024 + 2048 + 4096);
    for ptr in ptrs {
        assert_eq!(mm.d_free(ptr).expect("Free failed"), FreeStep::Cached);
    }
    assert_eq!(mm.current_size(), 0);
    assert_eq!(mm.max_used_size(), 7680);
}

#[test]
fn test_mem_tracker() {
    let mut mm = MemoryManager::new(usize::MAX);
    let tracker = MemTracker::start("test", Some(&mm));
    let ptr = malloc(&mut mm, 4096, 0x2000);
    assert!(ptr != 0);
    let report = tracker.usage_report(&mm, 0, Some("after alloc"));
    assert!(report.grew);
    assert_eq!(report.used, 4096);
    assert_eq!(report.current, 4096);
    assert_eq!(report.peak, 4096);
    assert_eq!(report.label, "test:after alloc");
    mm.d_free(ptr).expect("Free failed");
    let report = tracker.usage_report(&mm, 7, None);
    assert_eq!(report.used, 0);
    assert_eq!(report.label, "test");
    assert_eq!(report.pool_usage, 7);
}

#[test]
fn tracker_reports_shrinking_and_resets_peak() {
    let mut mm = MemoryManager::new(usize::MAX);
    let a = malloc(&mut mm, 300, 0x100);
    let mut tracker = MemTracker::start("phase", Some(&mm));
    assert_eq!(tracker.start_bytes(), 512);
    assert_eq!(tracker.label(), "phase");
    mm.d_free(a).unwrap();
    let report = tracker.usage_report(&mm, 0, None);
    assert!(!report.grew);
    assert_eq!(report.used, 512);
    assert_eq!(report.peak, 512);
    tracker.reset_peak(&mut mm);
    assert_eq!(mm.max_used_size(), 0);
    assert_eq!(MemTracker::start("none", None).start_bytes(), 0);
}

#[test]
fn released_buffer_is_reused_by_same_class() {
    let mut mm = MemoryManager::new(usize::MAX);
    let a = malloc(&mut mm, 1000, 0xa000);
    mm.d_free(a).unwrap();
    assert_eq!(mm.d_malloc(700), MallocStep::Reused(0xa000));
    assert_eq!(mm.current_size(), 1024);
    assert_eq!(mm.pool_bytes(), 0);
    assert_eq!(mm.d_malloc(2000), MallocStep::DeviceAlloc(2048));
}

#[test]
fn full_class_is_freed_on_device() {
    let mut mm = MemoryManager::new(usize::MAX);
    let ptrs: Vec<u64> = (1..=5).map(|i| malloc(&mut mm, 256, i * 0x1000)).collect();
    for (i, p) in ptrs.iter().enumerate() {
        let step = mm.d_free(*p).unwrap();
        if i < 4 {
            assert_eq!(step, FreeStep::Cached);
        } else {
            assert_eq!(step, FreeStep::DeviceFree);
        }
    }
    assert_eq!(mm.pool_bytes(), 4 * 256);
    assert_eq!(mm.current_size(), 0);
}

#[test]
fn null_and_pool_pointers() {
    let mut mm = MemoryManager::new(1 << 21);
    assert!(matches!(mm.d_free(0), Err(MemoryError::NullPointer)));
    assert_eq!(mm.d_malloc(3 << 20), MallocStep::PoolAlloc(4 << 20));
    assert_eq!(mm.d_malloc(2 << 20), MallocStep::PoolAlloc(2 << 20));
    mm.record_pool_alloc(4 << 20);
    assert_eq!(mm.current_size(), 4 << 20);
    assert_eq!(mm.vm_pool_bytes(), 4 << 20);
    assert_eq!(mm.d_free(0xdead0000).unwrap(), FreeStep::PoolFree);
    mm.record_pool_free(4 << 20);
    assert_eq!(mm.current_size(), 0);
    assert_eq!(mm.max_used_size(), 4 << 20);
    assert_eq!(mm.page_size(), 1 << 21);
}

#[test]
fn shutdown_releases_everything_once() {
    let mut mm = MemoryManager::new(usize::MAX);
    let a = malloc(&mut mm, 100, 0x1);
    let b = malloc(&mut mm, 5000, 0x2);
    let c = malloc(&mut mm, 100, 0x3);
    mm.d_free(c).unwrap();
    let plan = mm.shutdown();
    let mut live = plan.live.clone();
    live.sort();
    assert_eq!(live, vec![a, b]);
    assert_eq!(plan.cached, vec![c]);
    assert!(plan.release_vm_pool);
    assert_eq!(mm.pool_bytes(), 0);
    assert_eq!(mm.footprint(), mm.current_size());
    let again = mm.shutdown();
    assert!(again.live.is_empty() && again.cached.is_empty() && !again.release_vm_pool);
}

#[test]
fn runtime_shutdown_skipped_while_shutting_down() {
    let mut mm = MemoryManager::new(usize::MAX);
    let a = malloc(&mut mm, 100, 0x1);
    let plan = hip_runtime_shutdown(&mut mm, true);
    assert!(plan.live.is_empty() && !plan.release_vm_pool);
    let plan = hip_runtime_shutdown(&mut mm, false);
    assert_eq!(plan.live, vec![a]);
}

#[test]
fn pool_size_classes() {
    assert_eq!(SimplePool::size_class(1), 256);
    assert_eq!(SimplePool::size_class(256), 256);
    assert_eq!(SimplePool::size_class(257), 512);
    assert_eq!(SimplePool::size_class(1 << 20), 1 << 20);
    assert_eq!(SimplePool::size_class((1 << 20) + 1), 1 << 21);
    assert_eq!(SimplePool::size_class(1 << 63), 1 << 63);
}

#[test]
fn pool_round_trip() {
    let mut pool = SimplePool::new();
    assert!(pool.try_get(100).is_none());
    assert!(pool.try_put(0x10, 100));
    assert!(pool.try_put(0x20, 200));
    assert_eq!(pool.pool_bytes(), 512);
    assert_eq!(pool.try_get(256), Some((0x20, 256)));
    assert_eq!(pool.try_get(1), Some((0x10, 256)));
    assert_eq!(pool.try_get(1), None);
    assert!(pool.try_put(0x30, 4096));
    assert!(pool.try_put(0x40, 300));
    let mut all = pool.drain_all();
    all.sort();
    assert_eq!(all, vec![0x30, 0x40]);
    assert_eq!(pool.pool_bytes(), 0);
}

#[test]
fn accounting_matches_live_buffers() {
    let mut mm = MemoryManager::new(usize::MAX);
    let a = malloc(&mut mm, 300, 0x1000);
    let b = malloc(&mut mm, 5000, 0x2000);
    let c = malloc(&mut mm, 100, 0x3000);
    assert_eq!(mm.current_size(), 512 + 8192 + 256);
    assert_eq!(mm.d_free(b).unwrap(), FreeStep::Cached);
    assert_eq!(mm.current_size(), 512 + 256);
    assert_eq!(mm.pool_bytes(), 8192);
    assert_eq!(mm.max_used_size(), 512 + 8192 + 256);
    assert!(mm.holds_pointer(a) && mm.holds_pointer(b) && mm.holds_pointer(c));
    assert!(!mm.holds_pointer(0x4000));
}

#[test]
fn reuse_then_free_restores_cache() {
    let mut mm = MemoryManager::new(usize::MAX);
    let p = malloc(&mut mm, 1024, 0x1000);
    let q = malloc(&mut mm, 1024, 0x2000);
    mm.d_free(p).unwrap();
    mm.d_free(q).unwrap();
    assert_eq!(mm.pool_bytes(), 2048);
    assert_eq!(mm.d_malloc(1000), MallocStep::Reused(q));
    assert_eq!(mm.current_size(), 1024);
    assert_eq!(mm.pool_bytes(), 1024);
    assert_eq!(mm.d_free(q).unwrap(), FreeStep::Cached);
    assert_eq!(mm.current_size(), 0);
    assert_eq!(mm.pool_bytes(), 2048);
    assert_eq!(mm.d_malloc(1024), MallocStep::Reused(q));
    assert_eq!(mm.d_malloc(1024), MallocStep::Reused(p));
}

#[test]
fn usage_line_layout() {
    assert_eq!(
        usage_line(true, "4.0 KiB", "8.0 KiB", "16.0 KiB", "0 B", "prove:trace"),
        "GPU mem: used=+4.0 KiB, current=8.0 KiB, peak=16.0 KiB, in pool=0 B (prove:trace)"
    );
    assert_eq!(
        usage_line(false, "1 B", "2 B", "3 B", "4 B", "x"),
        "GPU mem: used=-1 B, current=2 B, peak=3 B, in pool=4 B (x)"
    );
}

#[test]
fn log_line_renders_sizes() {
    let report = MemUsageReport {
        grew: false,
        used: 100,
        current: 4096,
        peak: 1536,
        pool_usage: 0,
        label: "test".to_string(),
    };
    assert_eq!(
        report.log_line(),
        "GPU mem: used=-100 B, current=4.0 KiB, peak=1.5 KiB, in pool=0 B (test)"
    );
}

#[test]
fn tracker_log_line_after_allocation() {
    let mut mm = MemoryManager::new(usize::MAX);
    let tracker = MemTracker::start("phase", Some(&mm));
    malloc(&mut mm, 2048, 0x1000);
    let report = tracker.usage_report(&mm, 0, Some("step"));
    assert_eq!(
        report.log_line(),
        "GPU mem: used=+2.0 KiB, current=2.0 KiB, peak=2.0 KiB, in pool=0 B (phase:step)"
    );
}

#[test]
fn pool_put_then_get_restores_pool() {
    let mut pool = SimplePool::new();
    assert!(pool.try_put(0x10, 300));
    assert_eq!(pool.pool_bytes(), 512);
    assert!(pool.try_put(0x20, 500));
    assert_eq!(pool.pool_bytes(), 1024);
    assert_eq!(pool.try_get(400), Some((0x20, 512)));
    assert_eq!(pool.pool_bytes(), 512);
    assert_eq!(pool.try_get(2000), None);
    assert_eq!(pool.pool_bytes(), 512);
}
