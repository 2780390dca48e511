use corten_devtools::cpu_profiler::CpuProfiler;
use corten_devtools::profiler_types::{CallFrame, CallTreeNode};

fn frame(name: &str, url: &str, line: i32, column: i32) -> CallFrame {
    CallFrame {
        function_name: name.to_string(),
        script_id: "1".to_string(),
        url: url.to_string(),
        line_number: line,
        column_number: column,
    }
}

fn tree_hits(t: &CallTreeNode) -> u64 {
    t.hit_count as u64 + t.children.iter().map(tree_hits).sum::<u64>()
}

// ---------------------------------------------------------------------------
// Cases of the profiler's own module
// ---------------------------------------------------------------------------

#[test]
fn test_cpu_profiler_new() {
    let profiler = CpuProfiler::new();
    assert!(!profiler.is_profiling());
    assert_eq!(profiler.get_sampling_interval(), 100);
}

#[test]
fn cpu_profiler_test_set_sampling_interval() {
    let mut profiler = CpuProfiler::new();
    profiler.set_sampling_interval(500);
    assert_eq!(profiler.get_sampling_interval(), 500);
}

#[test]
fn cpu_profiler_test_start_stop_profiling() {
    let mut profiler = CpuProfiler::new();

    assert!(profiler.start().is_ok());
    assert!(profiler.is_profiling());

    let profile = profiler.stop();
    assert!(profile.is_ok());
    assert!(!profiler.is_profiling());
}

#[test]
fn cpu_profiler_test_add_sample() {
    let mut profiler = CpuProfiler::new();
    profiler.start().unwrap();

    let call_stack = vec![
        frame("main", "http://example.com/script.js", 10, 5),
        frame("helper", "http://example.com/script.js", 50, 10),
    ];

    assert!(profiler.add_sample(call_stack).is_ok());

    let profile = profiler.stop().unwrap();
    assert!(profile.nodes.len() > 1);
}

#[test]
fn cpu_profiler_test_generate_call_tree() {
    let mut profiler = CpuProfiler::new();
    profiler.start().unwrap();

    for _ in 0..5 {
        profiler.add_sample(vec![frame("main", "test.js", 1, 0)]).unwrap();
    }

    profiler.stop().unwrap();

    let tree = profiler.generate_call_tree();
    assert_eq!(tree.function_name, "(root)");
}

#[test]
fn test_export_requires_stopped() {
    let mut profiler = CpuProfiler::new();
    profiler.start().unwrap();

    let result = profiler.export_profile();
    assert!(result.is_err());
}

#[test]
fn cpu_profiler_test_profile_stats() {
    let mut profiler = CpuProfiler::new();
    profiler.start().unwrap();

    for i in 0..10 {
        let name = format!("func_{}", i % 3);
        profiler.add_sample(vec![frame(&name, "test.js", i, 0)]).unwrap();
    }

    profiler.stop().unwrap();

    let stats = profiler.get_stats();
    assert_eq!(stats.total_samples, 10);
    assert!(!stats.hot_functions.is_empty());
}

// ---------------------------------------------------------------------------
// Cases of the profiler's test suite
// ---------------------------------------------------------------------------

#[test]
fn test_cpu_profiler_creation() {
    let profiler = CpuProfiler::new();
    assert!(!profiler.is_profiling());
    assert_eq!(profiler.get_sampling_interval(), 100);
}

#[test]
fn cpu_profiler_tests_test_set_sampling_interval() {
    let mut profiler = CpuProfiler::new();
    profiler.set_sampling_interval(500);
    assert_eq!(profiler.get_sampling_interval(), 500);
}

#[test]
fn cpu_profiler_tests_test_start_stop_profiling() {
    let mut profiler = CpuProfiler::new();

    assert!(profiler.start().is_ok());
    assert!(profiler.is_profiling());

    let profile = profiler.stop();
    assert!(profile.is_ok());
    assert!(!profiler.is_profiling());
}

#[test]
fn cpu_profiler_tests_test_cannot_start_twice() {
    let mut profiler = CpuProfiler::new();

    assert!(profiler.start().is_ok());
    assert!(profiler.start().is_err());

    profiler.stop().unwrap();
}

#[test]
fn test_cannot_stop_when_not_profiling() {
    let mut profiler = CpuProfiler::new();
    assert!(profiler.stop().is_err());
}

#[test]
fn cpu_profiler_tests_test_add_sample() {
    let mut profiler = CpuProfiler::new();
    profiler.start().unwrap();

    let call_stack = vec![
        frame("main", "http://example.com/script.js", 10, 5),
        frame("helper", "http://example.com/script.js", 50, 10),
    ];

    assert!(profiler.add_sample(call_stack).is_ok());

    let profile = profiler.stop().unwrap();
    assert!(profile.nodes.len() >= 2);
}

#[test]
fn test_cannot_add_sample_when_not_profiling() {
    let mut profiler = CpuProfiler::new();
    assert!(profiler.add_sample(vec![frame("test", "test.js", 1, 0)]).is_err());
}

#[test]
fn cpu_profiler_tests_test_generate_call_tree() {
    let mut profiler = CpuProfiler::new();
    profiler.start().unwrap();

    for _ in 0..5 {
        let call_stack = vec![frame("main", "test.js", 1, 0), frame("child", "test.js", 10, 0)];
        profiler.add_sample(call_stack).unwrap();
    }

    profiler.stop().unwrap();

    let tree = profiler.generate_call_tree();
    assert_eq!(tree.function_name, "(root)");
    // The total time is the hits under the root times the sampling interval.
    let total_time = tree_hits(&tree) as f64 * profiler.get_sampling_interval() as f64;
    assert!(total_time > 0.0);
}

#[test]
fn test_export_profile_requires_stopped() {
    let mut profiler = CpuProfiler::new();
    profiler.start().unwrap();

    let result = profiler.export_profile();
    assert!(result.is_err());

    profiler.stop().unwrap();
}

#[test]
fn test_export_profile_after_stop() {
    let mut profiler = CpuProfiler::new();
    profiler.start().unwrap();
    profiler.add_sample(vec![frame("test", "test.js", 1, 0)]).unwrap();
    profiler.stop().unwrap();

    let exported = profiler.export_profile();
    assert!(exported.is_ok());
    let profile = exported.unwrap();
    assert!(!profile.nodes.is_empty());
    assert!(profile.start_time <= profile.end_time);
}

#[test]
fn cpu_profiler_tests_test_profile_stats() {
    let mut profiler = CpuProfiler::new();
    profiler.start().unwrap();

    for i in 0..10 {
        let name = format!("func_{}", i % 3);
        profiler.add_sample(vec![frame(&name, "test.js", i, 0)]).unwrap();
    }

    profiler.stop().unwrap();

    let stats = profiler.get_stats();
    assert_eq!(stats.total_samples, 10);
    assert!(stats.total_nodes > 1);
    assert!(!stats.hot_functions.is_empty());
}

#[test]
fn test_set_title() {
    let mut profiler = CpuProfiler::new();
    profiler.set_title("Test Profile".to_string());
    profiler.start().unwrap();
    profiler.add_sample(vec![frame("test", "test.js", 1, 0)]).unwrap();

    let profile = profiler.stop().unwrap();
    assert_eq!(profile.title, Some("Test Profile".to_string()));
}

#[test]
fn test_multiple_samples_same_function() {
    let mut profiler = CpuProfiler::new();
    profiler.start().unwrap();

    for _ in 0..10 {
        profiler.add_sample(vec![frame("repeat", "test.js", 5, 0)]).unwrap();
    }

    let profile = profiler.stop().unwrap();

    // The root and one function node
    assert_eq!(profile.nodes.len(), 2);

    let func_node = profile.nodes.iter().find(|n| n.call_frame.function_name == "repeat");
    assert!(func_node.is_some());
    assert_eq!(func_node.unwrap().hit_count, Some(10));
}

#[test]
fn test_position_ticks() {
    let mut profiler = CpuProfiler::new();
    profiler.start().unwrap();

    for _ in 0..5 {
        profiler.add_sample(vec![frame("func", "test.js", 42, 0)]).unwrap();
    }

    let profile = profiler.stop().unwrap();

    let func_node = profile.nodes.iter().find(|n| n.call_frame.function_name == "func");
    assert!(func_node.is_some());

    let node = func_node.unwrap();
    assert!(node.position_ticks.is_some());
    let ticks = node.position_ticks.as_ref().unwrap();
    assert!(!ticks.is_empty());
    assert_eq!(ticks[0].line, 42);
    assert_eq!(ticks[0].ticks, 5);
}

// ---------------------------------------------------------------------------
// Further cases
// ---------------------------------------------------------------------------

#[test]
fn hits_add_up_to_samples() {
    let mut profiler = CpuProfiler::new();
    profiler.start().unwrap();
    profiler.add_sample(vec![frame("a", "x.js", 1, 0), frame("b", "x.js", 2, 0)]).unwrap();
    profiler.add_sample(vec![frame("a", "x.js", 1, 0)]).unwrap();
    profiler.add_sample(vec![frame("c", "x.js", 3, 0)]).unwrap();
    let profile = profiler.stop().unwrap();
    let hits: u32 = profile.nodes.iter().map(|n| n.hit_count.unwrap_or(0)).sum();
    assert_eq!(hits, 3);
    assert_eq!(profile.samples.as_ref().unwrap().len(), 3);
    assert_eq!(profile.nodes[0].call_frame.function_name, "(root)");
    // a, b under a, c: four nodes with the root
    assert_eq!(profile.nodes.len(), 4);
}

#[test]
fn hot_functions_come_in_descending_order() {
    let mut profiler = CpuProfiler::new();
    profiler.start().unwrap();
    for _ in 0..3 {
        profiler.add_sample(vec![frame("often", "x.js", 1, 0)]).unwrap();
    }
    profiler.add_sample(vec![frame("rarely", "x.js", 2, 0)]).unwrap();
    profiler.stop().unwrap();
    let stats = profiler.get_stats();
    assert_eq!(stats.hot_functions[0], ("often".to_string(), 3));
    assert_eq!(stats.hot_functions[1], ("rarely".to_string(), 1));
}
