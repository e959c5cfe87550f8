use synth::mcp::{
    extract_request_from_args, failure_message, method_not_found_message, route_method, route_tool,
    search_request_from_args, tool_catalog, Failure, McpRoute, Tool, METHOD_NOT_FOUND,
    TOOL_CALL_FAILED,
};
use synth::models::SearchDepth;

#[test]
fn methods_are_routed() {
    assert_eq!(route_method("initialize", true), McpRoute::Initialize);
    assert_eq!(route_method("notifications/initialized", true), McpRoute::Acknowledge);
    assert_eq!(route_method("notifications/initialized", false), McpRoute::NoReply);
    assert_eq!(route_method("tools/list", true), McpRoute::ListTools);
    assert_eq!(route_method("tools/call", true), McpRoute::CallTool);
    assert_eq!(route_method("resources/list", true), McpRoute::MethodNotFound);
    assert_eq!(route_method("", false), McpRoute::MethodNotFound);
}

#[test]
fn error_codes_and_messages() {
    assert_eq!(METHOD_NOT_FOUND, -32601);
    assert_eq!(TOOL_CALL_FAILED, -32000);
    assert_eq!(method_not_found_message("foo/bar"), "Method not found: foo/bar");
    assert_eq!(failure_message(Failure::Extraction, "timeout"), "Extraction failed: timeout");
    assert_eq!(failure_message(Failure::Synthesis, "x"), "Synthesis failed: x");
    assert_eq!(failure_message(Failure::Stats, "y"), "Failed to get stats: y");
}

#[test]
fn tools_are_routed_by_name() {
    assert_eq!(route_tool("synth_search"), Ok(Tool::Search));
    assert_eq!(route_tool("synth_extract"), Ok(Tool::Extract));
    assert_eq!(route_tool("synth_stats"), Ok(Tool::Stats));
    assert_eq!(route_tool("other"), Err("Unknown tool: other".to_string()));
}

#[test]
fn search_arguments_become_a_request() {
    let r = search_request_from_args(Some("rust"), None, None).unwrap();
    assert_eq!(r.query, "rust");
    assert_eq!(r.depth, SearchDepth::Quick);
    assert_eq!(r.max_pages, 5);
    assert!(!r.include_youtube);
    assert_eq!(r.max_videos, 2);
    let d = search_request_from_args(Some("rust"), Some("deep"), Some(true)).unwrap();
    assert_eq!(d.depth, SearchDepth::Deep);
    assert_eq!(d.max_pages, 20);
    assert!(d.include_youtube);
    let q = search_request_from_args(Some("rust"), Some("DEEP"), Some(false)).unwrap();
    assert_eq!(q.depth, SearchDepth::Quick);
    assert_eq!(
        search_request_from_args(None, Some("deep"), None).unwrap_err(),
        "Missing required parameter: query"
    );
}

#[test]
fn extract_arguments_become_a_request() {
    let r = extract_request_from_args(Some("https://a"), Some("why")).unwrap();
    assert_eq!(r.url, "https://a");
    assert_eq!(r.query, Some("why".to_string()));
    assert_eq!(extract_request_from_args(Some("https://a"), None).unwrap().query, None);
    assert_eq!(
        extract_request_from_args(None, None).unwrap_err(),
        "Missing required parameter: url"
    );
}

#[test]
fn catalog_lists_three_tools() {
    let tools = tool_catalog();
    let names: Vec<&str> = tools.iter().map(|t| t.name.as_str()).collect();
    assert_eq!(names, vec!["synth_search", "synth_extract", "synth_stats"]);
    assert_eq!(tools[0].required, vec!["query".to_string()]);
    assert_eq!(tools[1].required, vec!["url".to_string()]);
    assert!(tools[2].required.is_empty());
    assert_eq!(tools[0].params[1].choices, vec!["quick".to_string(), "deep".to_string()]);
    assert_eq!(tools[0].params[2].kind, "boolean");
}

#[test]
fn every_listed_tool_is_routable() {
    for t in tool_catalog() {
        assert!(route_tool(&t.name).is_ok());
    }
}

#[test]
fn call_budgets_run_unchanged() {
    for depth in [None, Some("deep")] {
        let r = search_request_from_args(Some("rust"), depth, None).unwrap();
        let plan = synth::pipeline::plan_search(&r);
        assert_eq!(plan.max_pages, r.max_pages);
    }
}
