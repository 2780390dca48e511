use corten_devtools::memory_profiler::{MemoryProfiler, MemoryProfilerConfig};
use corten_devtools::profiler_types::CallFrame;

fn frame(name: &str, line: i32, column: i32) -> CallFrame {
    CallFrame {
        function_name: name.to_string(),
        script_id: "1".to_string(),
        url: "test.js".to_string(),
        line_number: line,
        column_number: column,
    }
}

// ---------------------------------------------------------------------------
// Cases of the profiler's own module
// ---------------------------------------------------------------------------

#[test]
fn test_memory_profiler_new() {
    let profiler = MemoryProfiler::new();
    assert!(!profiler.is_tracking());
}

#[test]
fn memory_profiler_test_start_stop_tracking() {
    let mut profiler = MemoryProfiler::new();

    assert!(profiler.start_tracking().is_ok());
    assert!(profiler.is_tracking());

    let snapshot = profiler.stop_tracking();
    assert!(snapshot.is_ok());
    assert!(!profiler.is_tracking());
}

#[test]
fn memory_profiler_test_record_allocation() {
    let mut profiler = MemoryProfiler::new();
    profiler.start_tracking().unwrap();

    let id = profiler.record_allocation(2048, vec![frame("test_func", 10, 5)]).unwrap();
    assert!(id > 0);

    let stats = profiler.get_stats();
    assert_eq!(stats.live_allocations, 1);
    assert_eq!(stats.current_heap_bytes, 2048);
}

#[test]
fn memory_profiler_test_record_deallocation() {
    let mut profiler = MemoryProfiler::new();
    profiler.start_tracking().unwrap();

    let id = profiler.record_allocation(2048, vec![]).unwrap();
    assert!(profiler.record_deallocation(id).is_ok());

    let stats = profiler.get_stats();
    assert_eq!(stats.live_allocations, 0);
    assert_eq!(stats.freed_allocations, 1);
}

#[test]
fn memory_profiler_test_double_free_detection() {
    let mut profiler = MemoryProfiler::new();
    profiler.start_tracking().unwrap();

    let id = profiler.record_allocation(2048, vec![]).unwrap();
    assert!(profiler.record_deallocation(id).is_ok());
    assert!(profiler.record_deallocation(id).is_err());
}

#[test]
fn memory_profiler_test_take_snapshot() {
    let mut profiler = MemoryProfiler::new();
    profiler.start_tracking().unwrap();

    profiler.record_allocation(1024, vec![]).unwrap();
    profiler.record_allocation(2048, vec![]).unwrap();

    let snapshot = profiler.take_snapshot();
    assert!(snapshot.used_heap_size > 0);
    assert!(!snapshot.allocation_summaries.is_empty());
}

#[test]
fn test_allocation_summaries() {
    let mut profiler = MemoryProfiler::new();
    profiler.start_tracking().unwrap();

    let stack_trace = vec![frame("allocate", 42, 0)];
    for _ in 0..5 {
        profiler.record_allocation(1024, stack_trace.clone()).unwrap();
    }

    let snapshot = profiler.take_snapshot();
    let summary = snapshot
        .allocation_summaries
        .iter()
        .find(|s| s.call_site.contains("allocate"))
        .unwrap();

    assert_eq!(summary.allocation_count, 5);
    assert_eq!(summary.total_bytes, 5 * 1024);
}

#[test]
fn memory_profiler_test_min_allocation_size_filter() {
    let mut config = MemoryProfilerConfig::default();
    config.min_allocation_size = 2048;

    let mut profiler = MemoryProfiler::with_config(config);
    profiler.start_tracking().unwrap();

    let id1 = profiler.record_allocation(1024, vec![]).unwrap();
    assert_eq!(id1, 0);

    let id2 = profiler.record_allocation(4096, vec![]).unwrap();
    assert!(id2 > 0);

    let stats = profiler.get_stats();
    assert_eq!(stats.live_allocations, 1);
}

// ---------------------------------------------------------------------------
// Cases of the profiler's test suite
// ---------------------------------------------------------------------------

#[test]
fn test_memory_profiler_creation() {
    let profiler = MemoryProfiler::new();
    assert!(!profiler.is_tracking());
}

#[test]
fn memory_profiler_tests_test_start_stop_tracking() {
    let mut profiler = MemoryProfiler::new();
    assert!(profiler.start_tracking().is_ok());
    assert!(profiler.is_tracking());
    let snapshot = profiler.stop_tracking();
    assert!(snapshot.is_ok());
    assert!(!profiler.is_tracking());
}

#[test]
fn memory_profiler_tests_test_cannot_start_twice() {
    let mut profiler = MemoryProfiler::new();
    assert!(profiler.start_tracking().is_ok());
    assert!(profiler.start_tracking().is_err());
    profiler.stop_tracking().unwrap();
}

#[test]
fn test_cannot_stop_when_not_tracking() {
    let mut profiler = MemoryProfiler::new();
    assert!(profiler.stop_tracking().is_err());
}

#[test]
fn memory_profiler_tests_test_record_allocation() {
    let mut profiler = MemoryProfiler::new();
    profiler.start_tracking().unwrap();
    let id = profiler.record_allocation(2048, vec![frame("allocate", 10, 5)]).unwrap();
    assert!(id > 0);
    let stats = profiler.get_stats();
    assert_eq!(stats.live_allocations, 1);
    assert_eq!(stats.current_heap_bytes, 2048);
}

#[test]
fn test_cannot_allocate_when_not_tracking() {
    let mut profiler = MemoryProfiler::new();
    assert!(profiler.record_allocation(1024, vec![]).is_err());
}

#[test]
fn memory_profiler_tests_test_record_deallocation() {
    let mut profiler = MemoryProfiler::new();
    profiler.start_tracking().unwrap();
    let id = profiler.record_allocation(2048, vec![]).unwrap();
    assert!(profiler.record_deallocation(id).is_ok());
    let stats = profiler.get_stats();
    assert_eq!(stats.live_allocations, 0);
    assert_eq!(stats.freed_allocations, 1);
    assert_eq!(stats.total_freed_bytes, 2048);
}

#[test]
fn test_cannot_deallocate_when_not_tracking() {
    let mut profiler = MemoryProfiler::new();
    assert!(profiler.record_deallocation(123).is_err());
}

#[test]
fn memory_profiler_tests_test_double_free_detection() {
    let mut profiler = MemoryProfiler::new();
    profiler.start_tracking().unwrap();
    let id = profiler.record_allocation(2048, vec![]).unwrap();
    assert!(profiler.record_deallocation(id).is_ok());
    assert!(profiler.record_deallocation(id).is_err());
}

#[test]
fn test_unknown_allocation_deallocation() {
    let mut profiler = MemoryProfiler::new();
    profiler.start_tracking().unwrap();
    assert!(profiler.record_deallocation(999999).is_err());
}

#[test]
fn memory_profiler_tests_test_take_snapshot() {
    let mut profiler = MemoryProfiler::new();
    profiler.start_tracking().unwrap();
    profiler.record_allocation(1024, vec![]).unwrap();
    profiler.record_allocation(2048, vec![]).unwrap();
    let snapshot = profiler.take_snapshot();
    assert_eq!(snapshot.used_heap_size, 3072);
    assert!(!snapshot.allocation_summaries.is_empty());
}

#[test]
fn test_allocation_summaries_by_call_site() {
    let mut profiler = MemoryProfiler::new();
    profiler.start_tracking().unwrap();
    let stack_trace = vec![frame("createBuffer", 42, 0)];
    for _ in 0..5 {
        profiler.record_allocation(1024, stack_trace.clone()).unwrap();
    }
    let snapshot = profiler.take_snapshot();
    let summary = snapshot
        .allocation_summaries
        .iter()
        .find(|s| s.call_site.contains("createBuffer"))
        .unwrap();
    assert_eq!(summary.allocation_count, 5);
    assert_eq!(summary.total_bytes, 5 * 1024);
    assert_eq!(summary.live_bytes, 5 * 1024);
}

#[test]
fn memory_profiler_tests_test_min_allocation_size_filter() {
    let mut config = MemoryProfilerConfig::default();
    config.min_allocation_size = 2048;
    let mut profiler = MemoryProfiler::with_config(config);
    profiler.start_tracking().unwrap();
    let id1 = profiler.record_allocation(1024, vec![]).unwrap();
    assert_eq!(id1, 0);
    let id2 = profiler.record_allocation(4096, vec![]).unwrap();
    assert!(id2 > 0);
    let stats = profiler.get_stats();
    assert_eq!(stats.live_allocations, 1);
}

#[test]
fn test_get_live_allocations() {
    let mut profiler = MemoryProfiler::new();
    profiler.start_tracking().unwrap();
    let id1 = profiler.record_allocation(1024, vec![]).unwrap();
    let id2 = profiler.record_allocation(2048, vec![]).unwrap();
    profiler.record_deallocation(id1).unwrap();
    let live = profiler.get_live_allocations();
    assert_eq!(live.len(), 1);
    assert_eq!(live[0].id, id2);
    assert_eq!(live[0].size, 2048);
}

#[test]
fn test_force_gc() {
    let mut profiler = MemoryProfiler::new();
    profiler.start_tracking().unwrap();
    profiler.force_gc();
    let timeline = profiler.get_timeline();
    assert!(!timeline.is_empty());
}

#[test]
fn test_config_modification() {
    let mut profiler = MemoryProfiler::new();
    let mut new_config = MemoryProfilerConfig::default();
    new_config.max_stack_depth = 8;
    new_config.min_allocation_size = 4096;
    profiler.set_config(new_config.clone());
    let config = profiler.get_config();
    assert_eq!(config.max_stack_depth, 8);
    assert_eq!(config.min_allocation_size, 4096);
}

#[test]
fn test_stack_trace_truncation() {
    let mut config = MemoryProfilerConfig::default();
    config.max_stack_depth = 2;
    let mut profiler = MemoryProfiler::with_config(config);
    profiler.start_tracking().unwrap();
    let deep_trace: Vec<CallFrame> = (0..10).map(|i| frame(&format!("func_{}", i), i, 0)).collect();
    profiler.record_allocation(1024, deep_trace).unwrap();
    let live = profiler.get_live_allocations();
    assert_eq!(live[0].stack_trace.len(), 2);
}

#[test]
fn test_disable_stack_traces() {
    let mut config = MemoryProfilerConfig::default();
    config.capture_stack_traces = false;
    let mut profiler = MemoryProfiler::with_config(config);
    profiler.start_tracking().unwrap();
    profiler.record_allocation(1024, vec![frame("test", 1, 0)]).unwrap();
    let live = profiler.get_live_allocations();
    assert!(live[0].stack_trace.is_empty());
}

#[test]
fn test_memory_stats() {
    let mut profiler = MemoryProfiler::new();
    profiler.start_tracking().unwrap();
    let id1 = profiler.record_allocation(1024, vec![]).unwrap();
    let _id2 = profiler.record_allocation(2048, vec![]).unwrap();
    profiler.record_deallocation(id1).unwrap();
    let stats = profiler.get_stats();
    assert_eq!(stats.total_allocations, 2);
    assert_eq!(stats.live_allocations, 1);
    assert_eq!(stats.freed_allocations, 1);
    assert_eq!(stats.total_allocated_bytes, 3072);
    assert_eq!(stats.total_freed_bytes, 1024);
    assert_eq!(stats.current_heap_bytes, 2048);
}

// ---------------------------------------------------------------------------
// Further cases
// ---------------------------------------------------------------------------

#[test]
fn freed_never_exceeds_allocated() {
    let mut profiler = MemoryProfiler::new();
    profiler.start_tracking().unwrap();
    let a = profiler.record_allocation(4096, vec![]).unwrap();
    let b = profiler.record_allocation(8192, vec![]).unwrap();
    profiler.record_deallocation(a).unwrap();
    profiler.record_deallocation(b).unwrap();
    let stats = profiler.get_stats();
    assert!(stats.total_freed_bytes <= stats.total_allocated_bytes);
    assert_eq!(stats.current_heap_bytes, stats.total_allocated_bytes - stats.total_freed_bytes);
    assert_eq!(stats.current_heap_bytes, 0);
}

#[test]
fn call_site_of_unknown_stack() {
    let mut profiler = MemoryProfiler::new();
    profiler.start_tracking().unwrap();
    profiler.record_allocation(1024, vec![]).unwrap();
    let snapshot = profiler.take_snapshot();
    assert_eq!(snapshot.allocation_summaries.len(), 1);
    assert_eq!(snapshot.allocation_summaries[0].call_site, "(unknown)");
}

#[test]
fn no_leaks_for_fresh_allocations() {
    let mut profiler = MemoryProfiler::new();
    profiler.start_tracking().unwrap();
    profiler.record_allocation(2_000_000, vec![]).unwrap();
    // The default threshold is a minute, so a fresh allocation is no leak.
    let snapshot = profiler.take_snapshot();
    assert!(snapshot.potential_leaks.is_empty());
}
