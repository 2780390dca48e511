use corten_devtools::dom::{NodeId, NodeType};
use corten_devtools::dom_inspector::{DomInspectorBridge, HighlightConfig};
use corten_devtools::mock_browser::MockBrowser;
use corten_devtools::render::RenderInspectorBridge;
use corten_devtools::storage::{SetCookieParams, StorageAreaType, StorageBridge};

// ---------------------------------------------------------------------------
// DOM inspector
// ---------------------------------------------------------------------------

#[test]
fn test_get_document_returns_root() {
    let bridge = DomInspectorBridge::new();
    let root = bridge.get_document(None).unwrap();
    assert_eq!(root.node_id, NodeId(1));
    assert_eq!(root.node_type, NodeType::Document);
    assert_eq!(root.node_type.code(), 9);
}

#[test]
fn test_query_selector_finds_element_by_id() {
    let bridge = DomInspectorBridge::new();
    assert_eq!(bridge.query_selector(NodeId(1), "#container").unwrap(), Some(NodeId(6)));
}

#[test]
fn test_query_selector_finds_element_by_class() {
    let bridge = DomInspectorBridge::new();
    assert_eq!(bridge.query_selector(NodeId(1), ".wrapper").unwrap(), Some(NodeId(6)));
}

#[test]
fn test_query_selector_all_finds_multiple() {
    let bridge = DomInspectorBridge::new();
    let ids = bridge.query_selector_all(NodeId(1), "div").unwrap();
    assert!(ids.len() >= 2);
}

#[test]
fn test_set_attribute_adds_new_attribute() {
    let mut bridge = DomInspectorBridge::new();
    bridge.set_attribute_value(NodeId(6), "data-new", "new-value").unwrap();
    let node = bridge.browser().get_node(NodeId(6)).unwrap();
    let attrs = node.attributes.unwrap();
    assert!(attrs.contains(&"data-new".to_string()));
    assert!(attrs.contains(&"new-value".to_string()));
}

#[test]
fn test_highlight_updates_selection_state() {
    let mut bridge = DomInspectorBridge::new();
    let mut config = HighlightConfig::default();
    config.show_info = true;
    config.show_rulers = true;
    bridge.highlight_node(Some(NodeId(6)), config).unwrap();
    let state = bridge.get_selection_state();
    assert_eq!(state.highlighted_node, Some(NodeId(6)));
    assert!(state.highlight_config.show_info);
    assert!(state.highlight_config.show_rulers);
}

#[test]
fn test_hide_highlight_clears_state() {
    let mut bridge = DomInspectorBridge::new();
    bridge.highlight_node(Some(NodeId(6)), HighlightConfig::default()).unwrap();
    bridge.hide_highlight();
    assert!(bridge.get_selection_state().highlighted_node.is_none());
}

#[test]
fn test_search_finds_text_content() {
    let mut bridge = DomInspectorBridge::new();
    let result = bridge.perform_search("Hello", false);
    assert!(result.result_count > 0);
}

#[test]
fn test_search_results_workflow() {
    let mut bridge = DomInspectorBridge::new();
    let search = bridge.perform_search("div", false);
    let ids = bridge.get_search_results(&search.search_id, 0, search.result_count);
    assert!(!ids.is_empty());
    bridge.discard_search_results(&search.search_id);
    assert!(bridge.get_search_results(&search.search_id, 0, search.result_count).is_empty());
}

#[test]
fn mod_test_describe_node() {
    let bridge = DomInspectorBridge::new();
    let node = bridge.describe_node(Some(NodeId(5)), Some(2)).unwrap();
    assert_eq!(node.node_name, "BODY");
}

#[test]
fn test_error_on_invalid_node() {
    let bridge = DomInspectorBridge::new();
    assert!(bridge.query_selector(NodeId(99999), "div").is_err());
}

// ---------------------------------------------------------------------------
// Render inspector
// ---------------------------------------------------------------------------

#[test]
fn test_get_box_model_returns_all_boxes() {
    let bridge = RenderInspectorBridge::new();
    let model = bridge.get_box_model(Some(NodeId(6))).unwrap();
    assert_eq!(model.content.len(), 8);
    assert_eq!(model.padding.len(), 8);
    assert_eq!(model.border.len(), 8);
    assert_eq!(model.margin.len(), 8);
    assert!(model.width > 0);
    assert!(model.height > 0);
}

#[test]
fn test_computed_styles_include_expected_properties() {
    let bridge = RenderInspectorBridge::new();
    let styles = bridge.get_computed_style_for_node(NodeId(6)).unwrap();
    let names: Vec<&str> = styles.iter().map(|p| p.name.as_str()).collect();
    assert!(names.contains(&"display"));
    assert!(names.contains(&"color"));
}

#[test]
fn test_matched_styles_structure() {
    let bridge = RenderInspectorBridge::new();
    assert!(bridge.get_matched_styles_for_node(NodeId(6)).is_ok());
}

#[test]
fn test_inline_styles_structure() {
    let bridge = RenderInspectorBridge::new();
    assert!(bridge.get_inline_styles_for_node(NodeId(6)).is_ok());
}

#[test]
fn test_layer_tree_has_root_layer() {
    let bridge = RenderInspectorBridge::new();
    let layers = bridge.get_layer_tree();
    assert!(!layers.is_empty());
    assert_eq!(layers[0].layer_id, "root-layer");
    assert!(layers[0].draws_content);
}

#[test]
fn test_layer_tree_has_hierarchy() {
    let bridge = RenderInspectorBridge::new();
    let layers = bridge.get_layer_tree();
    let child = layers.iter().find(|l| l.layer_id == "body-layer").unwrap();
    assert_eq!(child.parent_layer_id.as_deref(), Some("root-layer"));
}

#[test]
fn test_get_specific_layer() {
    let bridge = RenderInspectorBridge::new();
    let layer = bridge.get_layer("container-layer").unwrap();
    assert_eq!(layer.layer_id, "container-layer");
    assert!(layer.width > 0);
}

#[test]
fn mod_test_compose_layers() {
    let bridge = RenderInspectorBridge::new();
    let snapshot_id = bridge.compose_layers("root-layer").unwrap();
    assert!(snapshot_id.contains("root-layer"));
}

#[test]
fn test_enable_disable_layer_tree() {
    let bridge = RenderInspectorBridge::new();
    bridge.enable_layer_tree();
    bridge.disable_layer_tree();
    assert_eq!(bridge.get_layer_tree().len(), 3);
}

#[test]
fn test_error_on_invalid_node_for_box_model() {
    let bridge = RenderInspectorBridge::new();
    assert!(bridge.get_box_model(Some(NodeId(99999))).is_err());
}

#[test]
fn test_error_on_nonexistent_layer() {
    let bridge = RenderInspectorBridge::new();
    assert!(bridge.get_layer("nonexistent").is_err());
}

// ---------------------------------------------------------------------------
// Workflows across bridges
// ---------------------------------------------------------------------------

#[test]
fn test_shared_browser_dom_and_render() {
    let dom_bridge = DomInspectorBridge::with_browser(MockBrowser::new());
    let render_bridge = RenderInspectorBridge::with_browser(MockBrowser::new());
    assert_eq!(dom_bridge.get_document(None).unwrap().node_id, NodeId(1));
    let node_id = dom_bridge.query_selector(NodeId(1), "#container").unwrap().unwrap();
    assert!(render_bridge.get_box_model(Some(node_id)).unwrap().width > 0);
    assert!(!render_bridge.get_computed_style_for_node(node_id).unwrap().is_empty());
}

#[test]
fn test_dom_mutation_propagation() {
    let mut bridge = DomInspectorBridge::new();
    bridge.subscribe_mutations();
    bridge.set_attribute_value(NodeId(6), "data-test-mutation", "test-value").unwrap();
    let records = bridge.take_mutations();
    assert_eq!(records[0].attribute_name.clone().unwrap(), "data-test-mutation");
}

// ---------------------------------------------------------------------------
// Storage bridge
// ---------------------------------------------------------------------------


const ORIGIN: &str = "https://example.com";

fn cookie(name: &str, value: &str, domain: &str) -> SetCookieParams {
    SetCookieParams {
        name: name.to_string(),
        value: value.to_string(),
        domain: domain.to_string(),
        path: "/".to_string(),
        expires_bits: None,
        http_only: false,
        secure: false,
        same_site: None,
    }
}

#[test]
fn test_get_storage_items() {
    let bridge = StorageBridge::new();
    let items = bridge.get_storage_items(ORIGIN, StorageAreaType::LocalStorage);
    assert!(items.iter().any(|i| i.key == "theme" && i.value == "dark"));
}

#[test]
fn test_set_storage_item() {
    let mut bridge = StorageBridge::empty();
    bridge.set_storage_item(ORIGIN, StorageAreaType::LocalStorage, "test_key", "test_value");
    let items = bridge.get_storage_items(ORIGIN, StorageAreaType::LocalStorage);
    assert!(items.iter().any(|i| i.key == "test_key"));
    assert!(bridge.get_storage_items(ORIGIN, StorageAreaType::SessionStorage).is_empty());
}

#[test]
fn test_remove_storage_item() {
    let mut bridge = StorageBridge::new();
    bridge.set_storage_item(ORIGIN, StorageAreaType::LocalStorage, "to_remove", "value");
    bridge.remove_storage_item(ORIGIN, StorageAreaType::LocalStorage, "to_remove");
    let items = bridge.get_storage_items(ORIGIN, StorageAreaType::LocalStorage);
    assert!(!items.iter().any(|i| i.key == "to_remove"));
}

#[test]
fn test_clear_storage() {
    let mut bridge = StorageBridge::new();
    bridge.clear_storage(ORIGIN, StorageAreaType::LocalStorage);
    assert!(bridge.get_storage_items(ORIGIN, StorageAreaType::LocalStorage).is_empty());
}

#[test]
fn test_get_cookies() {
    let bridge = StorageBridge::new();
    let cookies = bridge.get_cookies(None);
    assert_eq!(cookies.len(), 1);
    assert_eq!(cookies[0].name, "session");
}

#[test]
fn test_set_cookie() {
    let mut bridge = StorageBridge::empty();
    let mut params = cookie("test_cookie", "test_value", "example.com");
    params.http_only = true;
    params.secure = true;
    bridge.set_cookie(params);
    let cookies = bridge.get_cookies(None);
    let c = cookies.iter().find(|c| c.name == "test_cookie").unwrap();
    assert!(c.http_only);
    assert!(c.secure);
    assert_eq!(c.value, "test_value");
}

#[test]
fn test_delete_cookie() {
    let mut bridge = StorageBridge::new();
    bridge.set_cookie(cookie("to_delete", "value", "example.com"));
    bridge.delete_cookie("to_delete", "example.com");
    assert!(!bridge.get_cookies(None).iter().any(|c| c.name == "to_delete"));
}

#[test]
fn test_clear_cookies() {
    let mut bridge = StorageBridge::new();
    bridge.clear_cookies();
    assert!(bridge.get_cookies(None).is_empty());
}

#[test]
fn test_get_indexed_db_databases() {
    let bridge = StorageBridge::new();
    let dbs = bridge.get_indexed_db_databases(ORIGIN);
    assert!(dbs.iter().any(|d| d.name == "myApp"));
}

#[test]
fn test_get_indexed_db_database() {
    let bridge = StorageBridge::new();
    let db = bridge.get_indexed_db_database(ORIGIN, "myApp").unwrap();
    assert_eq!(db.name, "myApp");
    assert!(bridge.get_indexed_db_database(ORIGIN, "nothing").is_err());
}

#[test]
fn test_delete_indexed_db_database() {
    let mut bridge = StorageBridge::new();
    bridge.delete_indexed_db_database(ORIGIN, "myApp");
    assert!(bridge.get_indexed_db_database(ORIGIN, "myApp").is_err());
}

#[test]
fn test_get_usage_and_quota() {
    let bridge = StorageBridge::new();
    let usage = bridge.get_usage_and_quota(ORIGIN);
    assert!(usage.usage > 0);
    assert!(usage.quota > 0);
}

#[test]
fn mutation_log_keeps_the_last_hundred() {
    let mut bridge = DomInspectorBridge::new();
    bridge.subscribe_mutations();
    for i in 0..150 {
        bridge.set_attribute_value(NodeId(6), "data-n", &i.to_string()).unwrap();
    }
    let log = bridge.take_mutations();
    assert_eq!(log.len(), 100);
    assert_eq!(log[0].old_value.as_deref(), Some("49"));
    assert_eq!(log[99].old_value.as_deref(), Some("148"));
    assert!(bridge.take_mutations().is_empty());
}

#[test]
fn sample_storage_holds_its_values() {
    let bridge = StorageBridge::new();
    let local = bridge.get_storage_items(ORIGIN, StorageAreaType::LocalStorage);
    let pairs: Vec<(&str, &str)> = local.iter().map(|i| (i.key.as_str(), i.value.as_str())).collect();
    assert_eq!(pairs, vec![("theme", "dark"), ("language", "en-US"), ("user_id", "12345")]);
    let session = bridge.get_storage_items(ORIGIN, StorageAreaType::SessionStorage);
    let pairs: Vec<(&str, &str)> = session.iter().map(|i| (i.key.as_str(), i.value.as_str())).collect();
    assert_eq!(pairs, vec![("cart_items", "[]"), ("session_token", "abc123")]);
    let cookies = bridge.get_cookies(None);
    assert_eq!(cookies[0].value, "abc123def456");
    assert!(cookies[0].http_only && cookies[0].secure && !cookies[0].session);
    let db = bridge.get_indexed_db_database(ORIGIN, "myApp").unwrap();
    assert_eq!(db.object_stores[0].name, "users");
    assert_eq!(db.object_stores[0].key_path.string.as_deref(), Some("id"));
    assert_eq!(db.object_stores[0].indexes[0].name, "by_email");
}
