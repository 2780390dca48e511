use corten_devtools::js_debug::{
    create_mock_remote_object, create_mock_remote_object_value, md5_hash, mock_evaluate,
    parse_pause_on_exceptions, DebugEvent, JsDebugBridge, JsDebugBridgeError, JsDebugMethod, EVENT_LOG_CAPACITY, JsValue, Location,
    PauseOnExceptionsMode, RemoteObjectType,
};
use corten_devtools::protocol::ProtocolError;
use corten_devtools::source_map::{RawSourceMap, SourceMap, SourceMapError};

fn enabled() -> JsDebugBridge {
    let mut bridge = JsDebugBridge::new();
    bridge.enable().unwrap();
    bridge
}

#[test]
fn test_js_debug_bridge_new() {
    let bridge = JsDebugBridge::new();
    assert!(!bridge.is_enabled());
    assert!(!bridge.is_paused());
}

#[test]
fn js_debug_bridge_test_enable_disable() {
    let mut bridge = JsDebugBridge::new();

    assert!(bridge.enable().is_ok());
    assert!(bridge.is_enabled());

    assert!(bridge.disable().is_ok());
    assert!(!bridge.is_enabled());
}

#[test]
fn test_add_script() {
    let mut bridge = enabled();

    let source = "function test() { return 42; }";
    let result = bridge.add_script("file:///test.js", source);

    assert!(result.is_ok());
    let script_info = result.unwrap();
    assert_eq!(script_info.url, "file:///test.js");
    assert_eq!(script_info.source, source);
}

#[test]
fn test_add_script_not_enabled() {
    let mut bridge = JsDebugBridge::new();
    let result = bridge.add_script("file:///test.js", "const x = 1;");
    assert!(result.is_err());
}

#[test]
fn test_get_script() {
    let mut bridge = enabled();

    let source = "const x = 1;";
    let script_info = bridge.add_script("file:///test.js", source).unwrap();

    let retrieved = bridge.get_script(&script_info.script_id);
    assert!(retrieved.is_some());
    assert_eq!(retrieved.unwrap().source, source);
}

#[test]
fn test_get_script_source() {
    let mut bridge = enabled();

    let source = "const x = 1;";
    let script_info = bridge.add_script("file:///test.js", source).unwrap();

    let retrieved_source = bridge.get_script_source(&script_info.script_id);
    assert!(retrieved_source.is_ok());
    assert_eq!(retrieved_source.unwrap(), source);
}

#[test]
fn test_set_breakpoint() {
    let mut bridge = enabled();

    let script_info = bridge.add_script("file:///test.js", "const x = 1;").unwrap();

    let location = Location {
        script_id: script_info.script_id.clone(),
        line_number: 0,
        column_number: Some(0),
    };

    let result = bridge.set_breakpoint(location.clone(), None);
    assert!(result.is_ok());

    let (bp_id, actual_location) = result.unwrap();
    assert!(bp_id.starts_with("bp-"));
    assert_eq!(actual_location.line_number, 0);
}

#[test]
fn test_set_breakpoint_by_url() {
    let mut bridge = enabled();

    bridge.add_script("file:///test.js", "const x = 1;").unwrap();

    let result = bridge.set_breakpoint_by_url("file:///test.js", 0, Some(0), None);
    assert!(result.is_ok());

    let (bp_id, locations) = result.unwrap();
    assert!(bp_id.starts_with("bp-"));
    assert!(!locations.is_empty());
}

#[test]
fn test_remove_breakpoint() {
    let mut bridge = enabled();

    let script_info = bridge.add_script("file:///test.js", "const x = 1;").unwrap();

    let location = Location {
        script_id: script_info.script_id,
        line_number: 0,
        column_number: Some(0),
    };

    let (bp_id, _) = bridge.set_breakpoint(location, None).unwrap();
    assert!(bridge.remove_breakpoint(&bp_id).is_ok());
    assert!(bridge.get_breakpoint(&bp_id).is_none());
}

#[test]
fn test_remove_nonexistent_breakpoint() {
    let mut bridge = enabled();

    let result = bridge.remove_breakpoint("nonexistent");
    assert!(result.is_err());
}

#[test]
fn test_pause_resume() {
    let mut bridge = enabled();

    assert!(!bridge.is_paused());

    assert!(bridge.pause().is_ok());
    assert!(bridge.is_paused());
    assert!(!bridge.get_call_frames().is_empty());

    assert!(bridge.resume().is_ok());
    assert!(!bridge.is_paused());
    assert!(bridge.get_call_frames().is_empty());
}

#[test]
fn test_step_over() {
    let mut bridge = enabled();
    bridge.pause().unwrap();

    assert!(bridge.is_paused());
    assert!(bridge.step_over().is_ok());
    assert!(!bridge.is_paused());
}

#[test]
fn test_step_into() {
    let mut bridge = enabled();
    bridge.pause().unwrap();

    assert!(bridge.step_into().is_ok());
    assert!(!bridge.is_paused());
}

#[test]
fn test_step_out() {
    let mut bridge = enabled();
    bridge.pause().unwrap();

    assert!(bridge.step_out().is_ok());
    assert!(!bridge.is_paused());
}

#[test]
fn test_step_not_paused() {
    let mut bridge = enabled();

    assert!(bridge.step_over().is_err());
}

#[test]
fn test_evaluate_on_call_frame() {
    let mut bridge = enabled();
    bridge.add_script("file:///test.js", "const x = 1;").unwrap();
    bridge.pause().unwrap();

    let frames = bridge.get_call_frames();
    assert!(!frames.is_empty());

    let frame_id = frames[0].call_frame_id.clone();
    let result = bridge.evaluate_on_call_frame(&frame_id, "42", false);

    assert!(result.is_ok());
    let obj = result.unwrap();
    assert_eq!(obj.object_type, RemoteObjectType::Number);
    assert!(matches!(obj.value, Some(JsValue::Number(42))));
}

#[test]
fn test_evaluate_on_nonexistent_frame() {
    let mut bridge = enabled();
    bridge.pause().unwrap();

    let result = bridge.evaluate_on_call_frame("nonexistent", "42", false);
    assert!(result.is_err());
}

#[test]
fn test_evaluate() {
    let bridge = enabled();

    let result = bridge.evaluate("42");
    assert!(result.is_ok());
    assert!(matches!(result.unwrap().value, Some(JsValue::Number(42))));

    let result = bridge.evaluate("true");
    assert!(result.is_ok());
    assert!(matches!(result.unwrap().value, Some(JsValue::Bool(true))));
}

#[test]
fn test_pause_on_exceptions() {
    let mut bridge = JsDebugBridge::new();

    assert_eq!(bridge.get_pause_on_exceptions(), PauseOnExceptionsMode::Never);

    bridge.set_pause_on_exceptions(PauseOnExceptionsMode::All);
    assert_eq!(bridge.get_pause_on_exceptions(), PauseOnExceptionsMode::All);

    bridge.set_pause_on_exceptions(PauseOnExceptionsMode::Uncaught);
    assert_eq!(bridge.get_pause_on_exceptions(), PauseOnExceptionsMode::Uncaught);
}

#[test]
fn test_skip_all_pauses() {
    let mut bridge = enabled();

    bridge.set_skip_all_pauses(true);

    // pause() succeeds but does not pause
    assert!(bridge.pause().is_ok());
    assert!(!bridge.is_paused());
}

#[test]
fn test_get_scope_variables() {
    let bridge = enabled();

    let result = bridge.get_scope_variables("scope-1");
    assert!(result.is_ok());

    let vars = result.unwrap();
    assert!(!vars.is_empty());
    assert!(vars.iter().any(|v| v.name == "x"));
}

#[test]
fn test_script_with_source_map_url() {
    let mut bridge = enabled();

    let source = "const x = 1;\n//# sourceMappingURL=test.js.map";
    let script_info = bridge.add_script("file:///test.js", source).unwrap();

    assert_eq!(script_info.source_map_url, Some("test.js.map".to_string()));
}

#[test]
fn test_has_breakpoint_at() {
    let mut bridge = enabled();

    let script_info = bridge.add_script("file:///test.js", "const x = 1;").unwrap();

    let location = Location {
        script_id: script_info.script_id.clone(),
        line_number: 0,
        column_number: Some(0),
    };

    bridge.set_breakpoint(location, None).unwrap();

    assert!(bridge.has_breakpoint_at(&script_info.script_id, 0, 0));
    assert!(!bridge.has_breakpoint_at(&script_info.script_id, 1, 0));
}

#[test]
fn test_get_all_scripts() {
    let mut bridge = enabled();

    bridge.add_script("file:///a.js", "const a = 1;").unwrap();
    bridge.add_script("file:///b.js", "const b = 2;").unwrap();

    let scripts = bridge.get_all_scripts();
    assert_eq!(scripts.len(), 2);
}

#[test]
fn test_get_breakpoints() {
    let mut bridge = enabled();

    let script_info = bridge.add_script("file:///test.js", "const x = 1;").unwrap();

    let location1 = Location {
        script_id: script_info.script_id.clone(),
        line_number: 0,
        column_number: Some(0),
    };
    let location2 = Location {
        script_id: script_info.script_id,
        line_number: 0,
        column_number: Some(5),
    };

    bridge.set_breakpoint(location1, None).unwrap();
    bridge.set_breakpoint(location2, None).unwrap();

    let breakpoints = bridge.get_breakpoints();
    assert_eq!(breakpoints.len(), 2);
}

#[test]
fn test_restart_frame() {
    let mut bridge = enabled();
    bridge.add_script("file:///test.js", "const x = 1;").unwrap();
    bridge.pause().unwrap();

    let frame_id = bridge.get_call_frames()[0].call_frame_id.clone();

    let result = bridge.restart_frame(&frame_id);
    assert!(result.is_ok());
}

#[test]
fn test_restart_frame_not_found() {
    let mut bridge = enabled();
    bridge.pause().unwrap();

    let result = bridge.restart_frame("nonexistent");
    assert!(result.is_err());
}

// ---------------------------------------------------------------------------
// Further cases
// ---------------------------------------------------------------------------

#[test]
fn first_script_and_breakpoint_ids() {
    let mut bridge = enabled();
    let script = bridge.add_script("file:///a.js", "let a = 1;").unwrap();
    assert_eq!(script.script_id, "script-1");
    let second = bridge.add_script("file:///b.js", "let b = 2;").unwrap();
    assert_eq!(second.script_id, "script-2");
    let (bp, _) = bridge
        .set_breakpoint(
            Location { script_id: script.script_id.clone(), line_number: 3, column_number: None },
            None,
        )
        .unwrap();
    assert_eq!(bp, "bp-1");
}

#[test]
fn script_end_position() {
    let mut bridge = enabled();
    let script = bridge.add_script("file:///a.js", "line one\nline two!").unwrap();
    assert_eq!(script.end_line, 1);
    assert_eq!(script.end_column, 9);
}

#[test]
fn script_not_found_by_url() {
    let mut bridge = enabled();
    let r = bridge.set_breakpoint_by_url("file:///missing.js", 0, None, None);
    match r {
        Err(JsDebugBridgeError::ScriptNotFound(u)) => assert_eq!(u, "file:///missing.js"),
        _ => panic!("expected a missing script"),
    }
}

#[test]
fn operations_need_enabled_debugger() {
    let mut bridge = JsDebugBridge::new();
    assert!(matches!(bridge.pause(), Err(JsDebugBridgeError::NotEnabled)));
    let loc = Location { script_id: "script-1".to_string(), line_number: 0, column_number: None };
    assert!(matches!(bridge.set_breakpoint(loc, None), Err(JsDebugBridgeError::NotEnabled)));
}

#[test]
fn error_messages() {
    assert_eq!(JsDebugBridgeError::NotEnabled.message(), "Debugger not enabled");
    assert_eq!(JsDebugBridgeError::NotPaused.message(), "Debugger not paused");
    assert_eq!(
        JsDebugBridgeError::ScriptNotFound("s-9".to_string()).message(),
        "Script not found: s-9"
    );
    assert_eq!(
        JsDebugBridgeError::SourceMapError(SourceMapError::MappingNotFound).message(),
        "Source map error: No mapping found for position"
    );
    assert_eq!(
        JsDebugBridgeError::EvaluationError("boom".to_string()).message(),
        "Evaluation error: boom"
    );
}

#[test]
fn method_names() {
    assert_eq!(JsDebugMethod::from_name("enable"), Some(JsDebugMethod::Enable));
    assert_eq!(JsDebugMethod::from_name("stepOver"), Some(JsDebugMethod::StepOver));
    assert_eq!(
        JsDebugMethod::from_name("setAsyncCallStackDepth"),
        Some(JsDebugMethod::SetAsyncCallStackDepth)
    );
    assert_eq!(JsDebugMethod::from_name("unknownMethod"), None);
    assert_eq!(JsDebugMethod::from_name("Enable"), None);
}

#[test]
fn pause_on_exceptions_states() {
    assert_eq!(parse_pause_on_exceptions("none").unwrap(), PauseOnExceptionsMode::Never);
    assert_eq!(parse_pause_on_exceptions("uncaught").unwrap(), PauseOnExceptionsMode::Uncaught);
    assert_eq!(parse_pause_on_exceptions("all").unwrap(), PauseOnExceptionsMode::All);
    match parse_pause_on_exceptions("sometimes") {
        Err(ProtocolError::InvalidParams(m)) => assert_eq!(m, "Invalid state: sometimes"),
        _ => panic!("expected invalid parameters"),
    }
}

#[test]
fn evaluation_of_literals() {
    let s = mock_evaluate("\"hello\"");
    assert_eq!(s.object_type, RemoteObjectType::String);
    assert!(matches!(s.value, Some(JsValue::Str(ref v)) if v == "hello"));
    let u = mock_evaluate("undefined");
    assert_eq!(u.object_type, RemoteObjectType::Undefined);
    let f = mock_evaluate("false");
    assert!(matches!(f.value, Some(JsValue::Bool(false))));
}

#[test]
fn mock_objects() {
    let o = create_mock_remote_object("Window");
    assert_eq!(o.object_type, RemoteObjectType::Object);
    assert_eq!(o.class_name, Some("Window".to_string()));
    let n = create_mock_remote_object_value("number", Some(JsValue::Number(7)));
    assert_eq!(n.object_type, RemoteObjectType::Number);
}

#[test]
fn source_hash_is_stable_and_hex() {
    let a = md5_hash("const x = 1;");
    let b = md5_hash("const x = 1;");
    let c = md5_hash("const x = 2;");
    assert_eq!(a, b);
    assert_ne!(a, c);
    assert_eq!(md5_hash(""), 0);
}

#[test]
fn events_are_logged_and_drained() {
    let mut bridge = enabled();
    bridge.subscribe();
    bridge.add_script("file:///a.js", "let a = 1;").unwrap();
    let events = bridge.take_events();
    assert!(!events.is_empty());
    assert!(bridge.take_events().is_empty());
}

#[test]
fn breakpoint_is_reported_only_at_its_location() {
    let mut bridge = enabled();
    let location = Location { script_id: "s".to_string(), line_number: 12, column_number: Some(3) };
    bridge.set_breakpoint(location, None).unwrap();
    assert!(bridge.has_breakpoint_at("s", 12, 3));
    assert!(!bridge.has_breakpoint_at("s", 1, 23));
    assert!(!bridge.has_breakpoint_at("s", 12, 0));
    assert!(!bridge.has_breakpoint_at("s:12", 3, 0));
}

#[test]
fn events_before_subscribing_are_dropped() {
    let mut bridge = enabled();
    bridge.add_script("file:///a.js", "let a = 1;").unwrap();
    bridge.pause().unwrap();
    assert!(bridge.take_events().is_empty());
    bridge.subscribe();
    bridge.resume().unwrap();
    let events = bridge.take_events();
    assert_eq!(events.len(), 1);
    assert!(matches!(events[0], DebugEvent::Resumed));
}

#[test]
fn event_log_keeps_the_last_hundred() {
    let mut bridge = enabled();
    bridge.subscribe();
    for i in 0..150 {
        bridge.add_script(&format!("file:///s{}.js", i), "let a = 1;").unwrap();
    }
    let events = bridge.take_events();
    assert_eq!(events.len(), EVENT_LOG_CAPACITY);
    match (&events[0], &events[99]) {
        (DebugEvent::ScriptParsed(first), DebugEvent::ScriptParsed(last)) => {
            assert_eq!(first.url, "file:///s50.js");
            assert_eq!(last.url, "file:///s149.js");
        }
        _ => panic!("expected script events"),
    }
}

#[test]
fn first_breakpoint_after_a_script_is_bp_1() {
    let mut bridge = enabled();
    let info = bridge.add_script("file:///test.js", "const x = 1;").unwrap();
    assert_eq!(info.script_id, "script-1");
    let location = Location { script_id: "script-1".to_string(), line_number: 0, column_number: None };
    let (id, _) = bridge.set_breakpoint(location, None).unwrap();
    assert_eq!(id, "bp-1");
    assert!(bridge.has_breakpoint_at("script-1", 0, 0));
    assert_eq!(bridge.get_breakpoints().len(), 1);
}

#[test]
fn refused_calls_leave_the_debugger_alone() {
    let mut bridge = JsDebugBridge::new();
    assert!(matches!(bridge.add_script("file:///test.js", "const x = 1;"), Err(JsDebugBridgeError::NotEnabled)));
    assert!(bridge.get_all_scripts().is_empty());
    assert!(matches!(bridge.pause(), Err(JsDebugBridgeError::NotEnabled)));
    assert!(!bridge.is_paused());
    assert!(bridge.get_call_frames().is_empty());
}

#[test]
fn pause_builds_the_simulated_stack_in_the_first_script() {
    let mut bridge = enabled();
    bridge.add_script("file:///test.js", "const x = 1;").unwrap();
    bridge.pause().unwrap();
    let f = bridge.get_call_frames();
    assert_eq!(f.len(), 2);
    assert_eq!(f[0].function_name, "main");
    assert_eq!(f[0].location.line_number, 10);
    assert_eq!(f[0].location.column_number, Some(5));
    assert_eq!(f[0].url, "file:///test.js");
    assert_eq!(f[0].scope_chain.len(), 3);
    assert_eq!(f[0].this.class_name.as_deref(), Some("this"));
    assert_eq!(f[1].function_name, "<anonymous>");
    assert_eq!(f[1].this.class_name.as_deref(), Some("global"));
    assert_ne!(f[0].call_frame_id, f[1].call_frame_id);
}

#[test]
fn breakpoint_carries_its_original_location() {
    let mut bridge = enabled();
    let info = bridge.add_script("file:///out.js", "let a = 1;").unwrap();
    let map = SourceMap::from_raw(RawSourceMap {
        version: 3,
        file: None,
        source_root: None,
        sources: vec!["input.js".to_string()],
        sources_content: None,
        names: vec!["myVar".to_string()],
        mappings: "AAAAA,EAAE".to_string(),
    })
    .unwrap();
    bridge.attach_source_map(&info.script_id, map);
    let at = |column: Option<u32>| Location { script_id: info.script_id.clone(), line_number: 0, column_number: column };
    bridge.set_breakpoint(at(None), None).unwrap();
    bridge.set_breakpoint(at(Some(3)), None).unwrap();
    let bps = bridge.get_breakpoints();
    let first = bps[0].original_location.clone().unwrap();
    assert_eq!(first.source, "input.js");
    assert_eq!((first.position.line, first.position.column), (0, 0));
    assert_eq!(first.name.as_deref(), Some("myVar"));
    let second = bps[1].original_location.clone().unwrap();
    assert_eq!((second.position.line, second.position.column), (0, 2));
    assert_eq!(second.name, None);
}

#[test]
fn simulated_scopes_are_named() {
    let mut bridge = enabled();
    bridge.pause().unwrap();
    let f = bridge.get_call_frames();
    let names: Vec<&str> = f[0].scope_chain.iter().map(|s| s.name.as_deref().unwrap()).collect();
    assert_eq!(names, vec!["Local", "Closure", "Global"]);
    assert_eq!(f[0].scope_chain[0].object.class_name.as_deref(), Some("Local"));
    assert_eq!(f[1].scope_chain[0].name.as_deref(), Some("Global"));
}
