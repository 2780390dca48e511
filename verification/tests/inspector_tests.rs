use corten_devtools::accessibility::{AccessibilityInspector, RGBA};
use corten_devtools::dom::{NodeId, NodeType};
use corten_devtools::dom_inspector::{DomInspectorBridge, HighlightConfig, SelectionState, ALPHA_066};
use corten_devtools::elements::ElementsInspector;
use corten_devtools::layout::{
    default_true, FlexOverlayConfig, GridOverlayConfig, LayoutInspector, ALPHA_030, ALPHA_ONE,
};
use corten_devtools::mock_browser::{LayerInfo, MockBrowser, MutationType};
use corten_devtools::protocol::ProtocolError;
use corten_devtools::render::RenderInspectorBridge;
use corten_devtools::storage::{StorageAreaType, StorageBridge};

fn server_message(e: ProtocolError) -> String {
    match e {
        ProtocolError::ServerError(code, m) => {
            assert_eq!(code, -32000);
            m
        }
        other => panic!("expected a server error, got {:?}", other),
    }
}

// ---------------------------------------------------------------------------
// The simulated browser
// ---------------------------------------------------------------------------

#[test]
fn test_mock_browser_creation() {
    let browser = MockBrowser::new();
    assert!(browser.get_document().is_some());
}

#[test]
fn mock_browser_test_get_document() {
    let browser = MockBrowser::new();
    let doc = browser.get_document().unwrap();
    assert_eq!(doc.node_id, NodeId(1));
    assert_eq!(doc.node_type, NodeType::Document);
}

#[test]
fn test_get_node() {
    let browser = MockBrowser::new();
    let node = browser.get_node(NodeId(6)).unwrap();
    assert_eq!(node.node_name, "DIV");
}

#[test]
fn test_get_children() {
    let browser = MockBrowser::new();
    let children = browser.get_children(NodeId(5));
    assert_eq!(children.len(), 2);
    assert!(children.contains(&NodeId(6)));
}

#[test]
fn test_query_selector_by_tag() {
    let browser = MockBrowser::new();
    let result = browser.query_selector(NodeId(1), "div");
    assert!(result.is_some());
}

#[test]
fn test_query_selector_by_id() {
    let browser = MockBrowser::new();
    let result = browser.query_selector(NodeId(1), "#container");
    assert_eq!(result, Some(NodeId(6)));
}

#[test]
fn test_query_selector_by_class() {
    let browser = MockBrowser::new();
    let result = browser.query_selector(NodeId(1), ".wrapper");
    assert_eq!(result, Some(NodeId(6)));
}

#[test]
fn test_set_attribute() {
    let mut browser = MockBrowser::new();
    let result = browser.set_attribute(NodeId(6), "data-test", "value");
    assert!(result.is_ok());

    let node = browser.get_node(NodeId(6)).unwrap();
    let attrs = node.attributes.unwrap();
    assert!(attrs.contains(&"data-test".to_string()));
}

#[test]
fn test_search() {
    let mut browser = MockBrowser::new();
    let (search_id, count) = browser.perform_search("Hello", false);
    assert!(!search_id.is_empty());
    assert!(count > 0);
}

#[test]
fn mock_browser_test_get_box_model() {
    let browser = MockBrowser::new();
    let box_model = browser.get_box_model(NodeId(6));
    assert!(box_model.is_some());
    let bm = box_model.unwrap();
    assert!(bm.width > 0);
    assert!(bm.height > 0);
}

#[test]
fn test_get_computed_styles() {
    let browser = MockBrowser::new();
    let styles = browser.get_computed_styles(NodeId(6));
    assert!(styles.is_some());
    assert!(!styles.unwrap().properties.is_empty());
}

#[test]
fn mock_browser_test_get_layer_tree() {
    let browser = MockBrowser::new();
    let layers = browser.get_layer_tree();
    assert!(!layers.is_empty());
    assert_eq!(layers[0].layer_id, "root-layer");
}

// ---------------------------------------------------------------------------
// Shared types
// ---------------------------------------------------------------------------

#[test]
fn test_rgba_new() {
    let color = RGBA::new(255, 128, 64, 0.5f64.to_bits());
    assert_eq!(color.r, 255);
    assert_eq!(color.g, 128);
    assert_eq!(color.b, 64);
    assert!((f64::from_bits(color.alpha_bits) - 0.5).abs() < f64::EPSILON);
}

#[test]
fn test_highlight_config_default() {
    let config = HighlightConfig::default();
    assert!(config.show_info);
    assert!(!config.show_rulers);
    assert!(config.content_color.is_some());
}

#[test]
fn test_layer_info_creation() {
    let layer = LayerInfo {
        layer_id: "layer-1".to_string(),
        parent_layer_id: None,
        node_id: Some(NodeId(1)),
        offset_x: 0,
        offset_y: 0,
        width: 800,
        height: 600,
        transform: None,
        compositing_reasons: vec!["root".to_string()],
        draws_content: true,
    };

    assert_eq!(layer.layer_id, "layer-1");
    assert!(layer.draws_content);
}

#[test]
fn test_selection_state_default() {
    let state = SelectionState::default();
    assert!(state.selected_node.is_none());
    assert!(state.highlighted_node.is_none());
    assert!(state.highlight_config.show_info);
}

#[test]
fn test_highlight_config_defaults() {
    let config = HighlightConfig::default();

    assert!(config.show_info);
    assert!(!config.show_rulers);
    assert!(config.content_color.is_some());
    assert!(config.padding_color.is_some());
    assert!(config.border_color.is_some());
    assert!(config.margin_color.is_some());
}

#[test]
fn highlight_alphas_are_the_floats() {
    assert_eq!(f64::from_bits(ALPHA_066), 0.66);
    assert_eq!(f64::from_bits(ALPHA_ONE), 1.0);
    assert_eq!(f64::from_bits(ALPHA_030), 0.3);
    let config = HighlightConfig::default();
    let c = config.content_color.unwrap();
    assert_eq!((c.r, c.g, c.b), (111, 168, 220));
}

// ---------------------------------------------------------------------------
// DOM domain
// ---------------------------------------------------------------------------

#[test]
fn dom_document_and_children() {
    let bridge = DomInspectorBridge::new();
    assert_eq!(bridge.name(), "DOMInspector");
    let doc = bridge.get_document(Some(3)).unwrap();
    assert_eq!(doc.node_id, NodeId(1));
    let html = &doc.children.as_ref().unwrap()[0];
    assert_eq!(html.node_name, "HTML");
    let kids = bridge.request_child_nodes(NodeId(5), None).unwrap();
    assert_eq!(kids.len(), 2);
    assert_eq!(kids[0].node_id, NodeId(6));
    let err = bridge.request_child_nodes(NodeId(99), None).unwrap_err();
    assert_eq!(server_message(err), "Node 99 not found");
}

#[test]
fn dom_queries() {
    let bridge = DomInspectorBridge::new();
    assert_eq!(bridge.query_selector(NodeId(1), "#footer").unwrap(), Some(NodeId(9)));
    assert_eq!(bridge.query_selector_all(NodeId(1), "div").unwrap(), vec![NodeId(6), NodeId(9)]);
    assert_eq!(bridge.query_selector(NodeId(1), "#nothing").unwrap(), None);
    assert!(bridge.query_selector(NodeId(99999), "div").is_err());
}

#[test]
fn dom_attribute_written_reads_back_and_is_logged() {
    let mut bridge = DomInspectorBridge::new();
    bridge.subscribe_mutations();
    bridge.set_attribute_value(NodeId(6), "data-test-mutation", "test-value").unwrap();
    let node = bridge.describe_node(Some(NodeId(6)), None).unwrap();
    let attrs = node.attributes.unwrap();
    let at = attrs.iter().position(|a| a == "data-test-mutation").unwrap();
    assert_eq!(attrs[at + 1], "test-value");
    let log = bridge.take_mutations();
    assert_eq!(log.len(), 1);
    assert_eq!(log[0].mutation_type, MutationType::AttributeModified);
    assert_eq!(log[0].attribute_name.clone().unwrap(), "data-test-mutation");
}

#[test]
fn dom_attribute_removed_is_gone() {
    let mut bridge = DomInspectorBridge::new();
    bridge.set_attribute_value(NodeId(6), "data-modified", "yes").unwrap();
    let before = bridge.describe_node(Some(NodeId(6)), Some(0)).unwrap().attributes.unwrap();
    assert_eq!(before.len(), 6);
    bridge.remove_attribute(NodeId(6), "data-modified").unwrap();
    let after = bridge.describe_node(Some(NodeId(6)), Some(0)).unwrap().attributes.unwrap();
    assert_eq!(after, vec!["id", "container", "class", "wrapper"]);
}

#[test]
fn dom_attribute_on_text_node_is_refused() {
    let mut bridge = DomInspectorBridge::new();
    let err = bridge.set_attribute_value(NodeId(8), "x", "y").unwrap_err();
    assert_eq!(server_message(err), "Cannot set attribute on non-element node");
}

#[test]
fn dom_search_reads_back() {
    let mut bridge = DomInspectorBridge::new();
    let result = bridge.perform_search("div", false);
    assert_eq!(result.search_id, "search-1");
    assert_eq!(result.result_count, 2);
    let ids = bridge.get_search_results(&result.search_id, 0, result.result_count);
    assert_eq!(ids, vec![NodeId(6), NodeId(9)]);
    bridge.discard_search_results(&result.search_id);
    assert!(bridge.get_search_results(&result.search_id, 0, 2).is_empty());
}

#[test]
fn dom_highlight_and_hide() {
    let mut bridge = DomInspectorBridge::new();
    bridge.highlight_node(Some(NodeId(6)), HighlightConfig::default()).unwrap();
    assert_eq!(bridge.get_selection_state().highlighted_node, Some(NodeId(6)));
    bridge.hide_highlight();
    assert_eq!(bridge.get_selection_state().highlighted_node, None);
    assert!(bridge.highlight_node(Some(NodeId(500)), HighlightConfig::default()).is_err());
}

#[test]
fn dom_describe_requires_a_node() {
    let bridge = DomInspectorBridge::new();
    match bridge.describe_node(None, None) {
        Err(ProtocolError::InvalidParams(m)) => assert_eq!(m, "nodeId required"),
        _ => panic!("expected invalid parameters"),
    }
}

// ---------------------------------------------------------------------------
// Elements panel
// ---------------------------------------------------------------------------

#[test]
fn elements_info_and_markup() {
    let inspector = ElementsInspector::new();
    assert_eq!(inspector.name(), "ElementsInspector");
    let info = inspector.get_element_info(NodeId(6)).unwrap();
    assert_eq!(info.node_id, NodeId(6));
    assert_eq!(info.tag_name, "DIV");
    assert_eq!(info.node_type, 1);
    assert_eq!(info.child_count, 1);
    assert_eq!(info.attributes.get("id"), Some(&"container".to_string()));
    assert_eq!(info.attributes.get("class"), Some(&"wrapper".to_string()));
    assert_eq!(info.attributes.len(), 2);
    let doc = inspector.get_element_info(NodeId(1)).unwrap();
    assert_eq!(doc.node_type, 9);
    assert_eq!(inspector.get_outer_html(NodeId(6)).unwrap(), "<div></div>");
    assert!(inspector.get_element_info(NodeId(99999)).is_err());
}

#[test]
fn elements_edits() {
    let mut inspector = ElementsInspector::new();
    assert!(inspector.set_outer_html(NodeId(6), "<div>New content</div>").is_ok());
    match inspector.set_outer_html(NodeId(6), "") {
        Err(ProtocolError::InvalidParams(m)) => assert_eq!(m, "outerHTML cannot be empty"),
        _ => panic!("expected invalid parameters"),
    }
    assert!(inspector.set_node_value(NodeId(6), "New text content").is_ok());
    assert_eq!(inspector.set_node_name(NodeId(6), "section").unwrap(), NodeId(6));
    assert!(inspector.remove_node(NodeId(6)).is_ok());
    assert_eq!(inspector.copy_to(NodeId(6), NodeId(1), None).unwrap(), NodeId(1006));
    assert_eq!(inspector.move_to(NodeId(6), NodeId(1), None).unwrap(), NodeId(6));
    let e = inspector.copy_to(NodeId(60), NodeId(1), None).unwrap_err();
    assert_eq!(server_message(e), "Source node 60 not found");
    let e = inspector.move_to(NodeId(6), NodeId(70), None).unwrap_err();
    assert_eq!(server_message(e), "Target node 70 not found");
    let css = inspector.set_style_text(NodeId(6), "color: red; font-size: 14px;").unwrap();
    assert_eq!(css, "color: red; font-size: 14px;");
    let state = inspector.get_element_state();
    assert_eq!(state.style_modifications.len(), 1);
    assert_eq!(state.style_modifications[0].0, NodeId(6));
    assert_eq!(state.style_modifications[0].1.property_name, "style");
}

#[test]
fn elements_inspect_mode_and_selection() {
    let mut inspector = ElementsInspector::new();
    let used = inspector.enable_inspect_mode(None);
    assert!(used.show_info);
    assert!(inspector.get_element_state().inspect_mode_enabled);
    inspector.disable_inspect_mode();
    assert!(!inspector.get_element_state().inspect_mode_enabled);
    assert_eq!(inspector.select_element(NodeId(6)).unwrap(), NodeId(6));
    assert_eq!(inspector.get_element_state().selected_element, Some(NodeId(6)));
}

// ---------------------------------------------------------------------------
// Layout panel
// ---------------------------------------------------------------------------

#[test]
fn layout_defaults() {
    assert!(default_true());
    let flex = FlexOverlayConfig::default();
    assert!(flex.show_items && flex.show_lines && !flex.show_order);
    let grid = GridOverlayConfig::default();
    assert!(grid.show_grid_lines);
    let colors = grid.colors.unwrap();
    assert_eq!(colors.grid_border_color.alpha_bits, 1.0f64.to_bits());
    assert_eq!(colors.row_line_color.alpha_bits, 0.8f64.to_bits());
    assert_eq!(colors.row_gap_color.alpha_bits, 0.3f64.to_bits());
}

#[test]
fn layout_containers() {
    let inspector = LayoutInspector::new();
    assert_eq!(inspector.name(), "LayoutInspector");
    let flex = inspector.get_flex_container_info(NodeId(6)).unwrap();
    assert_eq!(flex.flex_direction, "row");
    assert_eq!(flex.flex_items.len(), 2);
    assert_eq!(flex.flex_items[0].node_id, NodeId(106));
    assert_eq!(f64::from_bits(flex.flex_items[0].flex_grow_bits), 1.0);
    assert_eq!(f64::from_bits(flex.flex_items[1].flex_grow_bits), 0.0);
    let grid = inspector.get_grid_container_info(NodeId(6)).unwrap();
    assert_eq!(grid.grid_template_columns, "1fr 2fr 1fr");
    assert_eq!(grid.grid_items[1].grid_column_end, 4);
    let bm = inspector.get_box_model(NodeId(6)).unwrap();
    assert_eq!(bm.width, 160);
    assert_eq!(bm.content[0], 70);
    assert!(inspector.get_flex_container_info(NodeId(99)).is_err());
}

#[test]
fn layout_overlays_show_and_hide() {
    let mut inspector = LayoutInspector::new();
    inspector.enable();
    assert!(inspector.get_overlay_state().enabled);
    inspector.show_flex_overlay(NodeId(6), None).unwrap();
    inspector.show_grid_overlay(NodeId(5), None).unwrap();
    inspector.show_flex_overlay(NodeId(9), None).unwrap();
    let (flex, grid) = inspector.get_active_overlays();
    assert_eq!(flex, vec![NodeId(6), NodeId(9)]);
    assert_eq!(grid, vec![NodeId(5)]);
    inspector.hide_flex_overlay(NodeId(6));
    let (flex, _) = inspector.get_active_overlays();
    assert_eq!(flex, vec![NodeId(9)]);
    inspector.clear_all_overlays();
    let (flex, grid) = inspector.get_active_overlays();
    assert!(flex.is_empty() && grid.is_empty());
    inspector.show_flex_overlay(NodeId(6), None).unwrap();
    inspector.disable();
    assert!(!inspector.get_overlay_state().enabled);
    assert_eq!(inspector.get_overlay_state().flex_overlays.len(), 0);
    assert!(inspector.show_flex_overlay(NodeId(99), None).is_err());
}

// ---------------------------------------------------------------------------
// Render panel
// ---------------------------------------------------------------------------

#[test]
fn render_box_model_and_styles() {
    let bridge = RenderInspectorBridge::new();
    assert_eq!(bridge.name(), "RenderInspector");
    let bm = bridge.get_box_model(Some(NodeId(6))).unwrap();
    assert_eq!(bm.content.len(), 8);
    match bridge.get_box_model(None) {
        Err(ProtocolError::InvalidParams(m)) => assert_eq!(m, "nodeId required"),
        _ => panic!("expected invalid parameters"),
    }
    assert!(bridge.get_box_model(Some(NodeId(99999))).is_err());
    let styles = bridge.get_computed_style_for_node(NodeId(6)).unwrap();
    assert_eq!(styles.len(), 5);
    assert_eq!(styles[0].name, "display");
    let matched = bridge.get_matched_styles_for_node(NodeId(6)).unwrap();
    assert_eq!(matched.len(), 1);
    assert_eq!(matched[0].rule.origin, "user-agent");
    assert_eq!(matched[0].matching_selectors, vec![0]);
    let inline = bridge.get_inline_styles_for_node(NodeId(6)).unwrap();
    assert!(inline.css_properties.is_empty());
}

#[test]
fn render_layers() {
    let bridge = RenderInspectorBridge::new();
    let layers = bridge.get_layer_tree();
    assert_eq!(layers.len(), 3);
    for layer in &layers {
        let detail = bridge.get_layer(&layer.layer_id).unwrap();
        assert_eq!(detail.layer_id, layer.layer_id);
        let snapshot = bridge.compose_layers(&layer.layer_id).unwrap();
        assert_eq!(snapshot, format!("snapshot-{}", layer.layer_id));
    }
    let e = bridge.get_layer("nope").unwrap_err();
    assert_eq!(server_message(e), "Layer nope not found");
    assert!(bridge.compose_layers("nope").is_err());
}

// ---------------------------------------------------------------------------
// Accessibility
// ---------------------------------------------------------------------------

#[test]
fn accessibility_tree_and_nodes() {
    let mut inspector = AccessibilityInspector::new();
    assert_eq!(inspector.name(), "AccessibilityInspector");
    inspector.enable();
    assert!(inspector.get_state().enabled);
    let tree = inspector.get_full_ax_tree();
    assert!(!tree.is_empty());
    let node = inspector.get_ax_node_for_dom_node(NodeId(6)).unwrap();
    assert_eq!(node.backend_dom_node_id, Some(NodeId(6)));
    let e = inspector.get_ax_node_for_dom_node(NodeId(404)).unwrap_err();
    assert_eq!(server_message(e), "Node 404 not found");
    let aria = inspector.get_aria_attributes(NodeId(6)).unwrap();
    assert_eq!(aria.node_id, NodeId(6));
    inspector.disable();
    assert!(!inspector.get_state().enabled);
}

// ---------------------------------------------------------------------------
// Storage
// ---------------------------------------------------------------------------

#[test]
fn storage_item_reads_back() {
    let mut bridge = StorageBridge::new();
    assert_eq!(bridge.name(), "StorageBridge");
    bridge.set_storage_item("https://a.test", StorageAreaType::LocalStorage, "k", "v1");
    bridge.set_storage_item("https://a.test", StorageAreaType::LocalStorage, "k", "v2");
    let items = bridge.get_storage_items("https://a.test", StorageAreaType::LocalStorage);
    assert_eq!(items.len(), 1);
    assert_eq!(items[0].key, "k");
    assert_eq!(items[0].value, "v2");
    bridge.remove_storage_item("https://a.test", StorageAreaType::LocalStorage, "k");
    assert!(bridge.get_storage_items("https://a.test", StorageAreaType::LocalStorage).is_empty());
    let theme = bridge.get_storage_items("https://example.com", StorageAreaType::LocalStorage);
    assert_eq!(theme.len(), 3);
}

#[test]
fn storage_cookies() {
    let mut bridge = StorageBridge::new();
    assert_eq!(bridge.get_cookies(None).len(), 1);
    bridge.delete_cookie("session", "example.com");
    assert!(bridge.get_cookies(None).is_empty());
}

#[test]
fn storage_usage() {
    let bridge = StorageBridge::new();
    let usage = bridge.get_usage_and_quota("https://example.com");
    assert_eq!(usage.quota, 10 * 1024 * 1024);
    assert_eq!(usage.usage, usage.local_usage + usage.session_usage);
    // theme+dark, language+en-US, user_id+12345
    assert_eq!(usage.local_usage, 5 + 4 + 8 + 5 + 7 + 5);
    let none = bridge.get_usage_and_quota("https://other.test");
    assert_eq!(none.usage, 0);
}
