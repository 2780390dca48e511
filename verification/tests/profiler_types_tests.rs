use corten_devtools::profiler_types::{CoverageRange, FunctionCoverage, TimelineEventCategory};

#[test]
fn test_coverage_range_creation() {
    let range = CoverageRange {
        start_offset: 10,
        end_offset: 50,
        count: 3,
    };

    assert_eq!(range.start_offset, 10);
    assert_eq!(range.end_offset, 50);
    assert_eq!(range.count, 3);
}

#[test]
fn test_function_coverage_creation() {
    let func_coverage = FunctionCoverage {
        function_name: "testFunc".to_string(),
        ranges: vec![],
        is_block_coverage: false,
    };

    assert_eq!(func_coverage.function_name, "testFunc");
    assert_eq!(func_coverage.ranges.len(), 0);
    assert!(!func_coverage.is_block_coverage);
}

#[test]
fn test_timeline_event_category_default() {
    let category: TimelineEventCategory = Default::default();
    assert_eq!(category, TimelineEventCategory::Other);
}

#[test]
fn timeline_domain_tests_test_timeline_event_category_display() {
    assert_eq!(TimelineEventCategory::Scripting.to_string(), "scripting");
    assert_eq!(TimelineEventCategory::Rendering.to_string(), "rendering");
    assert_eq!(TimelineEventCategory::Painting.to_string(), "painting");
    assert_eq!(TimelineEventCategory::Loading.to_string(), "loading");
    assert_eq!(TimelineEventCategory::Other.to_string(), "other");
}

#[test]
fn timeline_domain_test_timeline_event_category_display() {
    assert_eq!(TimelineEventCategory::Scripting.to_string(), "scripting");
    assert_eq!(TimelineEventCategory::Rendering.to_string(), "rendering");
    assert_eq!(TimelineEventCategory::Painting.to_string(), "painting");
    assert_eq!(TimelineEventCategory::Loading.to_string(), "loading");
    assert_eq!(TimelineEventCategory::Other.to_string(), "other");
}
