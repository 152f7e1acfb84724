use meta_indexer::protocol::{
    is_silent_notification, protocol_version, required_argument, route_request, tool_named, tool_names, unknown_method_message,
    unknown_tool_message, Route, ToolName, DEFAULT_PROTOCOL_VERSION, INTERNAL_ERROR, METHOD_NOT_FOUND,
};

#[test]
fn requests_are_routed_by_method_and_tool() {
    assert_eq!(route_request("initialize", ""), Route::Initialize);
    assert_eq!(route_request("notifications/initialized", ""), Route::Initialized);
    assert_eq!(route_request("tools/list", "x"), Route::ListTools);
    assert_eq!(route_request("tools/call", "smart_search"), Route::CallTool(ToolName::SmartSearch));
    assert_eq!(route_request("tools/call", "find_dependents"), Route::CallTool(ToolName::FindDependents));
    assert_eq!(route_request("tools/call", "analyze_impact"), Route::CallTool(ToolName::AnalyzeImpact));
    assert_eq!(route_request("tools/call", "analyze_grpc"), Route::CallTool(ToolName::AnalyzeGrpc));
    assert_eq!(route_request("tools/call", "search_docs"), Route::CallTool(ToolName::SearchDocs));
    assert_eq!(route_request("tools/call", "rm_rf"), Route::UnknownTool);
    assert_eq!(route_request("resources/list", "smart_search"), Route::UnknownMethod);
    assert_eq!(tool_named("Smart_Search"), None);
}

#[test]
fn error_answers() {
    assert_eq!(INTERNAL_ERROR, -32603);
    assert_eq!(METHOD_NOT_FOUND, -32601);
    assert_eq!(unknown_tool_message("foo"), "Outil inconnu: 'foo'");
    assert_eq!(unknown_method_message(), "Méthode non supportée");
}

#[test]
fn protocol_version_echoes_the_client() {
    assert_eq!(protocol_version(Some("2024-11-05")), "2024-11-05");
    assert_eq!(protocol_version(None), DEFAULT_PROTOCOL_VERSION);
}

#[test]
fn notifications_without_id_are_silent() {
    assert!(is_silent_notification(false, "notifications/initialized"));
    assert!(!is_silent_notification(true, "notifications/initialized"));
    assert!(!is_silent_notification(false, "tools/list"));
}

#[test]
fn listed_tools_are_the_five_and_each_routes() {
    let names = tool_names();
    assert_eq!(names, vec!["smart_search", "find_dependents", "analyze_impact", "analyze_grpc", "search_docs"]);
    for n in names {
        assert!(tool_named(n).is_some());
        assert!(matches!(route_request("tools/call", n), Route::CallTool(_)));
    }
}

#[test]
fn a_missing_argument_is_named_in_the_error() {
    assert_eq!(required_argument(Some("UserCreated"), "target"), Ok("UserCreated".to_string()));
    assert_eq!(required_argument(Some(""), "query"), Ok(String::new()));
    assert_eq!(required_argument(None, "target"), Err("Le paramètre 'target' est requis".to_string()));
    assert_eq!(required_argument(None, "query"), Err("Le paramètre 'query' est requis".to_string()));
}
