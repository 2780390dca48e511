use corten_devtools::clock::now_micros;
use corten_devtools::heap_profiler::{
    generate_mock_sampling_profile, snapshot_chunks, HeapProfilerDomain, SamplingHeapProfile,
    SamplingHeapProfileNode, CHUNK_SIZE,
};
use corten_devtools::profiler_domain::ProfilerDomain;
use corten_devtools::profiler_types::{CallFrame, TimelineEventCategory};
use corten_devtools::protocol::ProtocolError;
use corten_devtools::timeline::{
    parse_category, FrameTiming, RecordEventParams, RecordFrameParams, TimelineConfig,
    TimelineDomain, TimelineEvent, TimelineMemorySnapshot,
};

fn bits(x: f64) -> u64 {
    x.to_bits()
}

fn call_frame(name: &str, script: &str, url: &str, line: i32, column: i32) -> CallFrame {
    CallFrame {
        function_name: name.to_string(),
        script_id: script.to_string(),
        url: url.to_string(),
        line_number: line,
        column_number: column,
    }
}

// ---------------------------------------------------------------------------
// Timeline
// ---------------------------------------------------------------------------

#[test]
fn test_timeline_domain_new() {
    let timeline = TimelineDomain::new();
    assert_eq!(timeline.name(), "Timeline");
    assert!(!timeline.is_recording());
    assert!(!timeline.is_enabled());
}

#[test]
fn timeline_domain_test_timeline_event_builder() {
    let event = TimelineEvent::new("TestEvent".to_string(), TimelineEventCategory::Scripting, bits(1000.0))
        .with_duration(bits(500.0))
        .with_thread_id(1)
        .with_frame_id("frame-1".to_string())
        .with_data("{\"key\":\"value\"}".to_string());

    assert_eq!(event.event_type, "TestEvent");
    assert_eq!(event.category, TimelineEventCategory::Scripting);
    assert_eq!(f64::from_bits(event.start_time_bits), 1000.0);
    assert_eq!(f64::from_bits(event.duration_bits), 500.0);
    assert_eq!(event.thread_id, Some(1));
    assert_eq!(event.frame_id, Some("frame-1".to_string()));
    assert!(event.data.is_some());
}

#[test]
fn test_frame_timing() {
    let mut frame = FrameTiming::new("frame-1".to_string(), bits(1000.0));
    frame.complete(bits(1016.67), bits(10.0), false);
    let duration = f64::from_bits(frame.end_time_bits) - f64::from_bits(frame.start_time_bits);
    assert_eq!(frame.frame_id, "frame-1");
    assert_eq!(f64::from_bits(frame.start_time_bits), 1000.0);
    assert_eq!(f64::from_bits(frame.end_time_bits), 1016.67);
    assert!((duration - 16.67).abs() < 0.01);
    assert_eq!(f64::from_bits(frame.cpu_time_bits), 10.0);
    assert!(!frame.dropped);
}

#[test]
fn test_timeline_domain_creation() {
    let domain = TimelineDomain::new();
    assert_eq!(domain.name(), "Timeline");
    assert!(!domain.is_recording());
    assert!(!domain.is_enabled());
}

#[test]
fn test_timeline_domain_default() {
    let domain = TimelineDomain::default();
    assert_eq!(domain.name(), "Timeline");
}

#[test]
fn timeline_domain_tests_test_timeline_event_builder() {
    let event = TimelineEvent::new("TestEvent".to_string(), TimelineEventCategory::Scripting, bits(1000.0))
        .with_duration(bits(500.0))
        .with_thread_id(1)
        .with_frame_id("frame-1".to_string())
        .with_data("{\"key\":\"value\"}".to_string());

    assert_eq!(event.event_type, "TestEvent");
    assert_eq!(event.category, TimelineEventCategory::Scripting);
    assert_eq!(f64::from_bits(event.start_time_bits), 1000.0);
    assert_eq!(f64::from_bits(event.duration_bits), 500.0);
    assert_eq!(event.thread_id, Some(1));
    assert_eq!(event.frame_id, Some("frame-1".to_string()));
    assert!(event.data.is_some());
}

#[test]
fn test_frame_timing_new() {
    let frame = FrameTiming::new("frame-1".to_string(), bits(1000.0));
    let duration = f64::from_bits(frame.end_time_bits) - f64::from_bits(frame.start_time_bits);
    assert_eq!(frame.frame_id, "frame-1");
    assert_eq!(f64::from_bits(frame.start_time_bits), 1000.0);
    assert_eq!(f64::from_bits(frame.end_time_bits), 1000.0);
    assert_eq!(duration, 0.0);
    assert!(!frame.dropped);
}

#[test]
fn test_frame_timing_complete() {
    let mut frame = FrameTiming::new("frame-1".to_string(), bits(1000.0));
    frame.complete(bits(1016.67), bits(10.0), false);
    let duration = f64::from_bits(frame.end_time_bits) - f64::from_bits(frame.start_time_bits);

    assert_eq!(f64::from_bits(frame.end_time_bits), 1016.67);
    assert!((duration - 16.67).abs() < 0.01);
    assert_eq!(f64::from_bits(frame.cpu_time_bits), 10.0);
    assert!(!frame.dropped);
}

#[test]
fn test_frame_timing_dropped() {
    let mut frame = FrameTiming::new("frame-1".to_string(), bits(1000.0));
    frame.complete(bits(1033.0), bits(25.0), true);

    assert!(frame.dropped);
}

#[test]
fn test_timeline_memory_snapshot_default() {
    let snapshot: TimelineMemorySnapshot = Default::default();
    assert_eq!(snapshot.timestamp, 0);
    assert_eq!(snapshot.js_heap_size_used, 0);
    assert_eq!(snapshot.js_heap_size_total, 0);
    assert_eq!(snapshot.documents, 0);
    assert_eq!(snapshot.nodes, 0);
    assert_eq!(snapshot.listeners, 0);
}

#[test]
fn test_timeline_config_default() {
    let config: TimelineConfig = Default::default();
    assert_eq!(config.max_events, 10000);
    assert!(config.capture_memory);
    assert!(config.capture_stacks);
    assert_eq!(config.max_stack_depth, 16);
    assert!(config.categories.is_empty());
}

#[test]
fn test_get_config() {
    let domain = TimelineDomain::new();
    let config = domain.get_config();
    assert_eq!(config.max_events, 10000);
}

#[test]
fn timeline_recording_workflow() {
    let mut timeline = TimelineDomain::new();
    timeline.enable();
    assert!(timeline.is_enabled());
    timeline.start(None, None).unwrap();
    assert!(timeline.is_recording());
    timeline
        .record_event(Some(RecordEventParams {
            event_type: Some("FunctionCall".to_string()),
            category: Some("Scripting".to_string()),
            start_time_bits: bits(1.0),
            duration_bits: bits(1000.0),
            thread_id: None,
            frame_id: None,
            data: None,
        }))
        .unwrap();
    assert_eq!(timeline.event_count(), 1);
    assert_eq!(timeline.get_events()[0].category, TimelineEventCategory::Scripting);
    let frame = timeline
        .record_frame(Some(RecordFrameParams {
            frame_id: Some("frame-1".to_string()),
            start_time_bits: bits(1000.0),
            end_time_bits: bits(1016.67),
            cpu_time_bits: bits(10.0),
            dropped: Some(false),
        }))
        .unwrap();
    assert_eq!(frame.frame_id, "frame-1");
    assert_eq!(timeline.frame_count(), 1);
    timeline.take_memory_snapshot().unwrap();
    assert_eq!(timeline.memory_snapshot_count(), 1);
    timeline.record_scripting_event("FunctionCall", bits(5.0), bits(100.0), None);
    timeline.record_rendering_event("Layout", bits(5.0), bits(50.0), None);
    timeline.record_painting_event("Paint", bits(5.0), bits(30.0), None);
    timeline.record_loading_event("ResourceLoad", bits(5.0), bits(200.0), Some("http://example.com".to_string()));
    assert_eq!(timeline.event_count(), 5);
    let recording = timeline.stop().unwrap();
    assert!(!timeline.is_recording());
    assert_eq!(recording.events.len(), 5);
    assert_eq!(recording.frames.len(), 1);
}

#[test]
fn timeline_refusals() {
    let mut timeline = TimelineDomain::new();
    assert!(matches!(timeline.stop(), Err(ProtocolError::InvalidRequest)));
    assert!(matches!(timeline.record_event(None), Err(ProtocolError::InvalidRequest)));
    timeline.enable();
    timeline.start(None, None).unwrap();
    match timeline.record_event(None) {
        Err(ProtocolError::InvalidParams(m)) => assert_eq!(m, "Missing parameters"),
        _ => panic!("expected invalid parameters"),
    }
    let no_type = RecordEventParams {
        event_type: None,
        category: None,
        start_time_bits: 0,
        duration_bits: 0,
        thread_id: None,
        frame_id: None,
        data: None,
    };
    match timeline.record_event(Some(no_type)) {
        Err(ProtocolError::InvalidParams(m)) => assert_eq!(m, "Missing type parameter"),
        _ => panic!("expected invalid parameters"),
    }
}

#[test]
fn category_names() {
    assert_eq!(parse_category("scripting"), TimelineEventCategory::Scripting);
    assert_eq!(parse_category("RENDERING"), TimelineEventCategory::Rendering);
    assert_eq!(parse_category("Painting"), TimelineEventCategory::Painting);
    assert_eq!(parse_category("loading"), TimelineEventCategory::Loading);
    assert_eq!(parse_category("gc"), TimelineEventCategory::Other);
}

// ---------------------------------------------------------------------------
// Heap profiler
// ---------------------------------------------------------------------------

#[test]
fn test_heap_profiler_domain_new() {
    let heap_profiler = HeapProfilerDomain::new();
    assert_eq!(heap_profiler.name(), "HeapProfiler");
    assert!(!heap_profiler.is_sampling());
}

#[test]
fn test_sampling_interval_default() {
    let heap_profiler = HeapProfilerDomain::new();
    assert_eq!(heap_profiler.get_sampling_interval(), 32768);
}

#[test]
fn test_sampling_heap_profile_node_creation() {
    let node = SamplingHeapProfileNode {
        call_frame: call_frame("main", "1", "http://example.com", 10, 5),
        self_size: 1024,
        id: 1,
        children: vec![],
    };

    assert_eq!(node.self_size, 1024);
    assert_eq!(node.id, 1);
    assert_eq!(node.children.len(), 0);
}

#[test]
fn test_sampling_heap_profile_creation() {
    let profile = SamplingHeapProfile {
        head: SamplingHeapProfileNode {
            call_frame: CallFrame::default(),
            self_size: 0,
            id: 0,
            children: vec![],
        },
        samples: vec![],
    };

    assert_eq!(profile.head.id, 0);
    assert_eq!(profile.samples.len(), 0);
}

#[test]
fn heap_sampling_workflow() {
    let mut heap = HeapProfilerDomain::new();
    assert!(matches!(heap.start_sampling(None, None, None), Err(ProtocolError::InvalidRequest)));
    heap.enable();
    heap.start_sampling(Some(16384), None, None).unwrap();
    assert!(heap.is_sampling());
    assert_eq!(heap.get_sampling_interval(), 16384);
    let profile = heap.stop_sampling().unwrap();
    assert!(!heap.is_sampling());
    assert_eq!(profile.head.id, 0);
    assert_eq!(profile.head.call_frame.function_name, "(root)");
}

#[test]
fn mock_sampling_profile() {
    let p = generate_mock_sampling_profile();
    assert_eq!(p.head.children.len(), 2);
    assert_eq!(p.head.children[0].call_frame.function_name, "allocateMemory");
    assert_eq!(p.head.children[0].self_size, 1024000);
    assert_eq!(p.head.children[1].call_frame.function_name, "createArray");
}

#[test]
fn snapshot_is_cut_in_chunks() {
    let text = "x".repeat(CHUNK_SIZE * 2 + 10);
    let chunks = snapshot_chunks(&text);
    assert_eq!(chunks.len(), 3);
    assert_eq!(chunks[0].chunk.len(), CHUNK_SIZE);
    assert_eq!(chunks[2].chunk.len(), 10);
    let joined: String = chunks.iter().map(|c| c.chunk.as_str()).collect();
    assert_eq!(joined, text);
    assert!(snapshot_chunks("").is_empty());
}

// ---------------------------------------------------------------------------
// Profiler domain
// ---------------------------------------------------------------------------

#[test]
fn test_profiler_domain_new() {
    let profiler = ProfilerDomain::new();
    assert_eq!(profiler.name(), "Profiler");
    assert!(!profiler.is_profiling());
    assert!(!profiler.is_coverage_active());
}

#[test]
fn test_get_timestamp_micros() {
    let timestamp = now_micros();
    assert!(timestamp > 0);
}

#[test]
fn profiler_start_stop_workflow() {
    let mut profiler = ProfilerDomain::new();
    assert!(matches!(profiler.start(), Err(ProtocolError::InvalidRequest)));
    profiler.enable();
    profiler.set_sampling_interval(250);
    assert_eq!(profiler.get_sampling_interval(), 250);
    profiler.start().unwrap();
    assert!(profiler.is_profiling());
    let profile = profiler.stop().unwrap();
    assert!(!profiler.is_profiling());
    assert!(!profile.nodes.is_empty());
}

#[test]
fn profiler_coverage_workflow() {
    let mut profiler = ProfilerDomain::new();
    profiler.enable();
    profiler.start_precise_coverage().unwrap();
    assert!(profiler.is_coverage_active());
    let (coverage, _timestamp) = profiler.take_precise_coverage().unwrap();
    assert!(!coverage.is_empty());
    profiler.stop_precise_coverage();
    assert!(!profiler.is_coverage_active());
    assert!(!profiler.get_best_effort_coverage().is_empty());
}

// ---------------------------------------------------------------------------
// Timeline domain, driven through its methods
// ---------------------------------------------------------------------------

fn event_params(event_type: &str, category: &str) -> RecordEventParams {
    RecordEventParams {
        event_type: Some(event_type.to_string()),
        category: Some(category.to_string()),
        start_time_bits: bits(0.0),
        duration_bits: bits(0.0),
        thread_id: None,
        frame_id: None,
        data: None,
    }
}

fn frame_params(frame_id: &str) -> RecordFrameParams {
    RecordFrameParams {
        frame_id: Some(frame_id.to_string()),
        start_time_bits: bits(1000.0),
        end_time_bits: bits(1016.67),
        cpu_time_bits: bits(10.0),
        dropped: Some(false),
    }
}

fn recording_timeline() -> TimelineDomain {
    let mut domain = TimelineDomain::new();
    domain.enable();
    domain.start(None, None).unwrap();
    domain
}

#[test]
fn test_enable() {
    let mut domain = TimelineDomain::new();
    domain.enable();
    assert!(domain.is_enabled());
}

#[test]
fn test_disable() {
    let mut domain = TimelineDomain::new();
    domain.enable();
    domain.disable();
    assert!(!domain.is_enabled());
}

#[test]
fn test_disable_stops_recording() {
    let mut domain = recording_timeline();
    assert!(domain.is_recording());
    domain.disable();
    assert!(!domain.is_recording());
}

#[test]
fn test_start_recording() {
    let domain = recording_timeline();
    assert!(domain.is_recording());
}

#[test]
fn test_start_without_enable_fails() {
    let mut domain = TimelineDomain::new();
    assert!(domain.start(None, None).is_err());
    assert!(!domain.is_recording());
}

#[test]
fn test_double_start_fails() {
    let mut domain = recording_timeline();
    assert!(domain.start(None, None).is_err());
}

#[test]
fn test_stop_recording() {
    let mut domain = recording_timeline();
    assert!(domain.stop().is_ok());
    assert!(!domain.is_recording());
}

#[test]
fn test_stop_without_start_fails() {
    let mut domain = TimelineDomain::new();
    domain.enable();
    assert!(domain.stop().is_err());
}

#[test]
fn test_stop_returns_timeline_data() {
    let mut domain = recording_timeline();
    let mut p = event_params("TestEvent", "scripting");
    p.duration_bits = bits(100.0);
    domain.record_event(Some(p)).unwrap();
    let recording = domain.stop().unwrap();
    assert_eq!(recording.events.len(), 1);
    assert_eq!(recording.events[0].event_type, "TestEvent");
}

#[test]
fn timeline_domain_tests_test_record_event() {
    let mut domain = recording_timeline();
    let mut p = event_params("FunctionCall", "scripting");
    p.duration_bits = bits(1000.0);
    assert!(domain.record_event(Some(p)).is_ok());
    assert_eq!(domain.event_count(), 1);
}

#[test]
fn test_record_event_without_recording_fails() {
    let mut domain = TimelineDomain::new();
    domain.enable();
    assert!(domain.record_event(Some(event_params("TestEvent", "scripting"))).is_err());
}

#[test]
fn test_record_event_all_categories() {
    let mut domain = recording_timeline();
    for category in ["scripting", "rendering", "painting", "loading", "other"] {
        domain.record_event(Some(event_params(&format!("{}_event", category), category))).unwrap();
    }
    assert_eq!(domain.event_count(), 5);
    let categories: Vec<TimelineEventCategory> = domain.get_events().iter().map(|e| e.category).collect();
    assert_eq!(
        categories,
        vec![
            TimelineEventCategory::Scripting,
            TimelineEventCategory::Rendering,
            TimelineEventCategory::Painting,
            TimelineEventCategory::Loading,
            TimelineEventCategory::Other,
        ]
    );
}

#[test]
fn test_record_event_with_all_fields() {
    let mut domain = recording_timeline();
    let p = RecordEventParams {
        event_type: Some("CompleteEvent".to_string()),
        category: Some("scripting".to_string()),
        start_time_bits: bits(1000.0),
        duration_bits: bits(500.0),
        thread_id: Some(1),
        frame_id: Some("frame-1".to_string()),
        data: Some("{\"key\":\"value\"}".to_string()),
    };
    assert!(domain.record_event(Some(p)).is_ok());
    assert_eq!(domain.event_count(), 1);
    let e = &domain.get_events()[0];
    assert_eq!(f64::from_bits(e.start_time_bits), 1000.0);
    assert_eq!(f64::from_bits(e.duration_bits), 500.0);
    assert_eq!(e.thread_id, Some(1));
    assert_eq!(e.frame_id, Some("frame-1".to_string()));
    assert_eq!(e.data, Some("{\"key\":\"value\"}".to_string()));
}

#[test]
fn test_take_memory_snapshot() {
    let mut domain = recording_timeline();
    let snapshot = domain.take_memory_snapshot().unwrap();
    assert_eq!(domain.memory_snapshot_count(), 1);
    assert_eq!(snapshot.js_heap_size_used, 50_000_000);
    assert_eq!(snapshot.js_heap_size_total, 100_000_000);
}

#[test]
fn test_memory_snapshot_without_recording_fails() {
    let mut domain = TimelineDomain::new();
    domain.enable();
    assert!(domain.take_memory_snapshot().is_err());
}

#[test]
fn test_get_memory_snapshots() {
    let mut domain = recording_timeline();
    domain.take_memory_snapshot().unwrap();
    domain.take_memory_snapshot().unwrap();
    assert_eq!(domain.get_memory_snapshots().len(), 2);
}

#[test]
fn timeline_domain_tests_test_record_frame() {
    let mut domain = recording_timeline();
    let frame = domain.record_frame(Some(frame_params("frame-1"))).unwrap();
    assert_eq!(domain.frame_count(), 1);
    assert_eq!(frame.frame_id, "frame-1");
    assert_eq!(f64::from_bits(frame.end_time_bits), 1016.67);
}

#[test]
fn test_record_frame_without_recording_fails() {
    let mut domain = TimelineDomain::new();
    domain.enable();
    assert!(domain.record_frame(Some(frame_params("frame-1"))).is_err());
}

#[test]
fn test_get_frames() {
    let mut domain = recording_timeline();
    domain.record_frame(Some(frame_params("frame-1"))).unwrap();
    assert_eq!(domain.get_frames().len(), 1);
    assert_eq!(domain.get_frames()[0].frame_id, "frame-1");
}

#[test]
fn test_get_events() {
    let mut domain = recording_timeline();
    domain.record_event(Some(event_params("Event1", "scripting"))).unwrap();
    assert_eq!(domain.get_events().len(), 1);
    assert_eq!(domain.get_events()[0].event_type, "Event1");
}

#[test]
fn test_record_scripting_event_helper() {
    let mut domain = recording_timeline();
    domain.record_scripting_event("FunctionCall", bits(1.0), bits(100.0), None);
    assert_eq!(domain.event_count(), 1);
    assert_eq!(domain.get_events()[0].category, TimelineEventCategory::Scripting);
}

#[test]
fn test_record_rendering_event_helper() {
    let mut domain = recording_timeline();
    domain.record_rendering_event("Layout", bits(1.0), bits(50.0), None);
    assert_eq!(domain.event_count(), 1);
    assert_eq!(domain.get_events()[0].category, TimelineEventCategory::Rendering);
}

#[test]
fn test_record_painting_event_helper() {
    let mut domain = recording_timeline();
    domain.record_painting_event("Paint", bits(1.0), bits(30.0), None);
    assert_eq!(domain.event_count(), 1);
    assert_eq!(domain.get_events()[0].category, TimelineEventCategory::Painting);
}

#[test]
fn test_record_loading_event_helper() {
    let mut domain = recording_timeline();
    domain.record_loading_event("ResourceLoad", bits(1.0), bits(200.0), Some("http://example.com".to_string()));
    assert_eq!(domain.event_count(), 1);
    assert_eq!(domain.get_events()[0].category, TimelineEventCategory::Loading);
}

#[test]
fn test_helper_methods_do_nothing_when_not_recording() {
    let mut domain = TimelineDomain::new();
    domain.enable();
    domain.record_scripting_event("FunctionCall", bits(1.0), bits(100.0), None);
    domain.record_rendering_event("Layout", bits(1.0), bits(50.0), None);
    domain.record_painting_event("Paint", bits(1.0), bits(30.0), None);
    domain.record_loading_event("ResourceLoad", bits(1.0), bits(200.0), None);
    assert_eq!(domain.event_count(), 0);
}

// ---------------------------------------------------------------------------
// Heap profiler and profiler domains, driven through their methods
// ---------------------------------------------------------------------------

fn enabled_heap_profiler() -> HeapProfilerDomain {
    let mut heap = HeapProfilerDomain::new();
    heap.enable();
    heap
}

fn enabled_profiler() -> ProfilerDomain {
    let mut profiler = ProfilerDomain::new();
    profiler.enable();
    profiler
}

#[test]
fn test_heap_profiler_domain_name() {
    assert_eq!(HeapProfilerDomain::new().name(), "HeapProfiler");
}

#[test]
fn test_heap_profiler_disable() {
    let mut heap = enabled_heap_profiler();
    heap.start_sampling(None, None, None).unwrap();
    heap.disable();
    assert!(!heap.is_sampling());
    assert!(matches!(heap.take_heap_snapshot(), Err(ProtocolError::InvalidRequest)));
}

#[test]
fn test_heap_profiler_start_sampling() {
    let mut heap = enabled_heap_profiler();
    assert!(heap.start_sampling(Some(32768), None, None).is_ok());
    assert!(heap.is_sampling());
    assert_eq!(heap.get_sampling_interval(), 32768);
}

#[test]
fn test_heap_profiler_start_sampling_no_params() {
    let mut heap = enabled_heap_profiler();
    assert!(heap.start_sampling(None, None, None).is_ok());
    assert!(heap.is_sampling());
}

#[test]
fn test_heap_profiler_stop_sampling() {
    let mut heap = enabled_heap_profiler();
    heap.start_sampling(None, None, None).unwrap();
    let profile = heap.stop_sampling().unwrap();
    assert_eq!(profile.head.call_frame.function_name, "(root)");
    assert!(profile.samples.is_empty());
    assert!(!heap.is_sampling());
    assert!(matches!(heap.stop_sampling(), Err(ProtocolError::InvalidRequest)));
}

#[test]
fn test_heap_profiler_collect_garbage() {
    let mut heap = enabled_heap_profiler();
    assert!(heap.collect_garbage().is_ok());
    let mut off = HeapProfilerDomain::new();
    assert!(matches!(off.collect_garbage(), Err(ProtocolError::InvalidRequest)));
}

#[test]
fn test_heap_profiler_take_heap_snapshot() {
    let heap = enabled_heap_profiler();
    assert!(heap.take_heap_snapshot().is_ok());
}

#[test]
fn test_heap_profiler_get_heap_object_id() {
    let heap = enabled_heap_profiler();
    assert_eq!(heap.get_heap_object_id(Some("obj-123")).unwrap(), "heap-obj-123");
    match heap.get_heap_object_id(None) {
        Err(ProtocolError::InvalidParams(m)) => assert_eq!(m, "Missing objectId parameter"),
        _ => panic!("expected invalid parameters"),
    }
}

#[test]
fn test_heap_profiler_get_object_by_heap_object_id() {
    let heap = enabled_heap_profiler();
    assert_eq!(heap.get_object_by_heap_object_id(Some("123")).unwrap().object_id, "123");
    assert!(heap.get_object_by_heap_object_id(None).is_err());
}

#[test]
fn test_heap_profiler_start_tracking_heap_objects() {
    let mut heap = enabled_heap_profiler();
    assert!(heap.start_tracking_heap_objects(true).is_ok());
    assert!(heap.is_tracking());
    assert!(heap.memory_profiler().is_tracking());
}

#[test]
fn test_heap_profiler_stop_tracking_heap_objects() {
    let mut heap = enabled_heap_profiler();
    heap.start_tracking_heap_objects(false).unwrap();
    assert!(heap.stop_tracking_heap_objects().is_ok());
    assert!(!heap.is_tracking());
    assert!(matches!(heap.stop_tracking_heap_objects(), Err(ProtocolError::InvalidRequest)));
}

#[test]
fn heap_inspected_object_needs_an_id() {
    let heap = enabled_heap_profiler();
    assert!(heap.add_inspected_heap_object(Some("h1")).is_ok());
    match heap.add_inspected_heap_object(None) {
        Err(ProtocolError::InvalidParams(m)) => assert_eq!(m, "Missing heapObjectId parameter"),
        _ => panic!("expected invalid parameters"),
    }
}

#[test]
fn test_profiler_domain_name() {
    assert_eq!(ProfilerDomain::new().name(), "Profiler");
}

#[test]
fn test_profiler_disable() {
    let mut profiler = enabled_profiler();
    profiler.start().unwrap();
    profiler.disable();
    assert!(!profiler.is_profiling());
}

#[test]
fn test_profiler_start() {
    let mut profiler = enabled_profiler();
    assert!(profiler.start().is_ok());
    assert!(profiler.is_profiling());
}

#[test]
fn test_profiler_stop() {
    let mut profiler = enabled_profiler();
    profiler.start().unwrap();
    let profile = profiler.stop().unwrap();
    assert!(!profile.nodes.is_empty());
    assert!(!profiler.is_profiling());
}

#[test]
fn test_profiler_start_precise_coverage() {
    let mut profiler = enabled_profiler();
    assert!(profiler.start_precise_coverage().is_ok());
    assert!(profiler.is_coverage_active());
}

#[test]
fn test_profiler_take_precise_coverage() {
    let mut profiler = enabled_profiler();
    profiler.start_precise_coverage().unwrap();
    let (coverage, _) = profiler.take_precise_coverage().unwrap();
    assert!(!coverage.is_empty());
}

#[test]
fn test_profiler_stop_precise_coverage() {
    let mut profiler = enabled_profiler();
    profiler.start_precise_coverage().unwrap();
    profiler.stop_precise_coverage();
    assert!(!profiler.is_coverage_active());
}

#[test]
fn test_profiler_get_best_effort_coverage() {
    let profiler = enabled_profiler();
    assert!(!profiler.get_best_effort_coverage().is_empty());
}

#[test]
fn heap_sampling_profile_follows_the_live_call_sites() {
    let mut heap = enabled_heap_profiler();
    heap.start_sampling(None, None, None).unwrap();
    let a = heap.memory_profiler_mut().record_allocation(4096, vec![call_frame("alloc", "1", "", 12, 3)]).unwrap();
    heap.memory_profiler_mut().record_allocation(2048, vec![call_frame("build", "1", "", 40, 1)]).unwrap();
    heap.memory_profiler_mut().record_allocation(1024, vec![call_frame("alloc", "1", "", 12, 3)]).unwrap();
    let live = heap.get_sampling_profile().unwrap();
    assert_eq!(live.head.children.len(), 2);
    assert_eq!(live.head.children[0].call_frame.function_name, "alloc");
    assert_eq!(live.head.children[0].call_frame.line_number, 12);
    assert_eq!(live.head.children[0].self_size, 5120);
    assert_eq!(live.head.children[0].id, 1);
    assert_eq!(live.head.children[1].call_frame.function_name, "build");
    assert_eq!(live.head.children[1].self_size, 2048);
    heap.memory_profiler_mut().record_deallocation(a).unwrap();
    let after_free = heap.stop_sampling().unwrap();
    assert_eq!(after_free.head.children[0].self_size, 1024);
    assert_eq!(after_free.head.children.len(), 2);
}
