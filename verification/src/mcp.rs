//! The decisions of the JSON-RPC (Model Context Protocol) endpoint: which
//! handler a method goes to, which tool a call names, how the arguments of a
//! tool call become a request, and the error codes and messages it answers.
use vstd::prelude::*;
use crate::models::{ExtractRequest, SearchDepth, SearchRequest};
use crate::query_expansion::string_views;

verus! {

/// The JSON-RPC code of an unknown method.
pub const METHOD_NOT_FOUND: i32 = -32601;

/// The JSON-RPC code of a tool call that failed.
pub const TOOL_CALL_FAILED: i32 = -32000;

/// What the endpoint does with a request.
#[derive(Debug, Clone, Copy, PartialEq, Eq, Structural)]
pub enum McpRoute {
    /// Answer with the server's capabilities.
    Initialize,
    /// Acknowledge a notification that carries an id, with an empty result.
    Acknowledge,
    /// A notification without an id: nothing to answer.
    NoReply,
    /// Answer with the tool catalog.
    ListTools,
    /// Run a tool.
    CallTool,
    /// Answer with a "method not found" error.
    MethodNotFound,
}

/// Where a request with method `method` goes; `has_id` tells whether it
/// carries an id.
pub open spec fn method_route(method: Seq<char>, has_id: bool) -> McpRoute {
    if method == "initialize"@ {
        McpRoute::Initialize
    } else if method == "notifications/initialized"@ {
        if has_id {
            McpRoute::Acknowledge
        } else {
            McpRoute::NoReply
        }
    } else if method == "tools/list"@ {
        McpRoute::ListTools
    } else if method == "tools/call"@ {
        McpRoute::CallTool
    } else {
        McpRoute::MethodNotFound
    }
}

/// `s@ == lit@`.
fn is_literal(s: &str, lit: &str) -> (r: bool)
    ensures
        r == (s@ == lit@),
{
    let a = s.to_owned();
    let b = lit.to_owned();
    a == b
}

/// Route a request by its method.
pub fn route_method(method: &str, has_id: bool) -> (r: McpRoute)
    ensures
        r == method_route(method@, has_id),
{
    if is_literal(method, "initialize") {
        McpRoute::Initialize
    } else if is_literal(method, "notifications/initialized") {
        if has_id {
            McpRoute::Acknowledge
        } else {
            McpRoute::NoReply
        }
    } else if is_literal(method, "tools/list") {
        McpRoute::ListTools
    } else if is_literal(method, "tools/call") {
        McpRoute::CallTool
    } else {
        McpRoute::MethodNotFound
    }
}

/// The message of a "method not found" error.
pub fn method_not_found_message(method: &str) -> (m: String)
    ensures
        m@ == "Method not found: "@ + method@,
{
    let mut m = "Method not found: ".to_owned();
    m.append(method);
    m
}

/// The tools the endpoint offers.
#[derive(Debug, Clone, Copy, PartialEq, Eq, Structural)]
pub enum Tool {
    /// Search the web and synthesise an answer.
    Search,
    /// Extract and analyse one URL.
    Extract,
    /// Report cache statistics.
    Stats,
}

/// The tool of a name, if it names one.
pub open spec fn tool_named(name: Seq<char>) -> Option<Tool> {
    if name == "synth_search"@ {
        Some(Tool::Search)
    } else if name == "synth_extract"@ {
        Some(Tool::Extract)
    } else if name == "synth_stats"@ {
        Some(Tool::Stats)
    } else {
        None
    }
}

/// The tool a call names, or the error it is answered with.
pub fn route_tool(name: &str) -> (r: Result<Tool, String>)
    ensures
        match r {
            Ok(t) => tool_named(name@) == Some(t),
            Err(m) => tool_named(name@) is None && m@ == "Unknown tool: "@ + name@,
        },
{
    if is_literal(name, "synth_search") {
        Ok(Tool::Search)
    } else if is_literal(name, "synth_extract") {
        Ok(Tool::Extract)
    } else if is_literal(name, "synth_stats") {
        Ok(Tool::Stats)
    } else {
        let mut m = "Unknown tool: ".to_owned();
        m.append(name);
        Err(m)
    }
}

/// The depth a search call asks for: deep only when it says `"deep"`.
pub open spec fn depth_named(depth: Option<Seq<char>>) -> SearchDepth {
    match depth {
        Some(d) => if d == "deep"@ {
            SearchDepth::Deep
        } else {
            SearchDepth::Quick
        },
        None => SearchDepth::Quick,
    }
}

/// The page budget of a search call of the given depth.
pub open spec fn call_page_budget(depth: SearchDepth) -> nat {
    match depth {
        SearchDepth::Quick => 5,
        SearchDepth::Deep => 20,
    }
}

/// The view of an optional string argument.
pub open spec fn opt_view(a: Option<&str>) -> Option<Seq<char>> {
    match a {
        Some(s) => Some(s@),
        None => None,
    }
}

/// The search request of a `synth_search` call, from its arguments (each
/// `None` where the call lacks it or gives it another JSON type). A call
/// without a query is refused.
pub fn search_request_from_args(
    query: Option<&str>,
    depth: Option<&str>,
    include_youtube: Option<bool>,
) -> (r: Result<SearchRequest, String>)
    ensures
        query is None <==> r is Err,
        r matches Err(m) ==> m@ == "Missing required parameter: query"@,
        r matches Ok(req) ==> {
            &&& req.query@ == query->0@
            &&& req.depth == depth_named(opt_view(depth))
            &&& req.max_pages == call_page_budget(req.depth)
            &&& req.include_youtube == (match include_youtube {
                Some(b) => b,
                None => false,
            })
            &&& req.max_videos == 2
        },
{
    match query {
        None => Err("Missing required parameter: query".to_owned()),
        Some(q) => {
            let d = match depth {
                Some(s) => if is_literal(s, "deep") {
                    SearchDepth::Deep
                } else {
                    SearchDepth::Quick
                },
                None => SearchDepth::Quick,
            };
            let max_pages: usize = match d {
                SearchDepth::Quick => 5,
                SearchDepth::Deep => 20,
            };
            let yt = match include_youtube {
                Some(b) => b,
                None => false,
            };
            Ok(
                SearchRequest {
                    query: q.to_owned(),
                    depth: d,
                    max_pages,
                    include_youtube: yt,
                    max_videos: 2,
                },
            )
        },
    }
}

/// The extract request of a `synth_extract` call, from its arguments. A
/// call without a URL is refused.
pub fn extract_request_from_args(url: Option<&str>, query: Option<&str>) -> (r: Result<
    ExtractRequest,
    String,
>)
    ensures
        url is None <==> r is Err,
        r matches Err(m) ==> m@ == "Missing required parameter: url"@,
        r matches Ok(req) ==> {
            &&& req.url@ == url->0@
            &&& match (req.query, query) {
                (Some(a), Some(b)) => a@ == b@,
                (None, None) => true,
                _ => false,
            }
        },
{
    match url {
        None => Err("Missing required parameter: url".to_owned()),
        Some(u) => {
            let q = match query {
                Some(s) => Some(s.to_owned()),
                None => None,
            };
            Ok(ExtractRequest { url: u.to_owned(), query: q })
        },
    }
}

/// The stage of a tool call that failed.
#[derive(Debug, Clone, Copy, PartialEq, Eq, Structural)]
pub enum Failure {
    Extraction,
    Synthesis,
    Stats,
}

/// The words a failure's message starts with.
pub open spec fn failure_prefix(f: Failure) -> Seq<char> {
    match f {
        Failure::Extraction => "Extraction failed: "@,
        Failure::Synthesis => "Synthesis failed: "@,
        Failure::Stats => "Failed to get stats: "@,
    }
}

/// The message of a failed stage, with the cause after it.
pub fn failure_message(f: Failure, cause: &str) -> (m: String)
    ensures
        m@ == failure_prefix(f) + cause@,
{
    let mut m = match f {
        Failure::Extraction => "Extraction failed: ".to_owned(),
        Failure::Synthesis => "Synthesis failed: ".to_owned(),
        Failure::Stats => "Failed to get stats: ".to_owned(),
    };
    m.append(cause);
    m
}

// ---------------------------------------------------------------------------
// The tool catalog
// ---------------------------------------------------------------------------

/// One parameter of a tool: its name, JSON type, description, and the values
/// it may take (empty when any value of its type will do).
#[derive(Debug, Clone)]
pub struct ToolParam {
    pub name: String,
    pub kind: String,
    pub description: String,
    pub choices: Vec<String>,
}

/// One tool of the catalog: its name, description, required parameters and
/// all its parameters.
#[derive(Debug, Clone)]
pub struct ToolSpec {
    pub name: String,
    pub description: String,
    pub required: Vec<String>,
    pub params: Vec<ToolParam>,
}

/// A parameter as plain text.
pub type ParamText = (Seq<char>, Seq<char>, Seq<char>, Seq<Seq<char>>);

/// A tool as plain text.
pub type ToolText = (Seq<char>, Seq<char>, Seq<Seq<char>>, Seq<ParamText>);

/// The plain text of a parameter.
pub open spec fn param_text(p: ToolParam) -> ParamText {
    (p.name@, p.kind@, p.description@, string_views(p.choices@))
}

/// The plain text of a tool.
pub open spec fn tool_text(t: ToolSpec) -> ToolText {
    (
        t.name@,
        t.description@,
        string_views(t.required@),
        Seq::new(t.params@.len(), |i: int| param_text(t.params@[i])),
    )
}

/// The tools the endpoint lists, in order.
pub open spec fn catalog() -> Seq<ToolText> {
    seq![
        (
            "synth_search"@,
            "Search the web and get an AI-synthesized answer with sources. Uses SearXNG for privacy-respecting search and a language model for synthesis."@,
            seq!["query"@],
            seq![
                ("query"@, "string"@, "Search query"@, Seq::empty()),
                (
                    "depth"@,
                    "string"@,
                    "Search depth - quick (default, 5 pages) or deep (20 pages with query expansion)"@,
                    seq!["quick"@, "deep"@],
                ),
                ("include_youtube"@, "boolean"@, "Include YouTube video transcripts"@, Seq::empty()),
            ],
        ),
        (
            "synth_extract"@,
            "Extract and analyze content from any URL. Supports web pages, PDFs, GitHub repos, images, audio, and video."@,
            seq!["url"@],
            seq![
                ("url"@, "string"@, "URL to extract content from"@, Seq::empty()),
                ("query"@, "string"@, "Optional context query to focus the analysis"@, Seq::empty()),
            ],
        ),
        ("synth_stats"@, "Get Synth cache statistics"@, Seq::empty(), Seq::empty()),
    ]
}

/// A parameter of a tool.
fn param(name: &str, kind: &str, description: &str, choices: Vec<String>) -> (p: ToolParam)
    ensures
        param_text(p) == (name@, kind@, description@, string_views(choices@)),
{
    ToolParam {
        name: name.to_owned(),
        kind: kind.to_owned(),
        description: description.to_owned(),
        choices,
    }
}

/// The tool catalog the endpoint lists.
pub fn tool_catalog() -> (tools: Vec<ToolSpec>)
    ensures
        Seq::new(tools@.len(), |i: int| tool_text(tools@[i])) == catalog(),
{
    let mut depth_choices: Vec<String> = Vec::new();
    depth_choices.push("quick".to_owned());
    depth_choices.push("deep".to_owned());
    let mut search_params: Vec<ToolParam> = Vec::new();
    search_params.push(param("query", "string", "Search query", Vec::new()));
    search_params.push(
        param(
            "depth",
            "string",
            "Search depth - quick (default, 5 pages) or deep (20 pages with query expansion)",
            depth_choices,
        ),
    );
    search_params.push(
        param("include_youtube", "boolean", "Include YouTube video transcripts", Vec::new()),
    );
    let mut search_required: Vec<String> = Vec::new();
    search_required.push("query".to_owned());
    let search = ToolSpec {
        name: "synth_search".to_owned(),
        description: "Search the web and get an AI-synthesized answer with sources. Uses SearXNG for privacy-respecting search and a language model for synthesis.".to_owned(),
        required: search_required,
        params: search_params,
    };

    let mut extract_params: Vec<ToolParam> = Vec::new();
    extract_params.push(param("url", "string", "URL to extract content from", Vec::new()));
    extract_params.push(
        param("query", "string", "Optional context query to focus the analysis", Vec::new()),
    );
    let mut extract_required: Vec<String> = Vec::new();
    extract_required.push("url".to_owned());
    let extract = ToolSpec {
        name: "synth_extract".to_owned(),
        description: "Extract and analyze content from any URL. Supports web pages, PDFs, GitHub repos, images, audio, and video.".to_owned(),
        required: extract_required,
        params: extract_params,
    };

    let stats = ToolSpec {
        name: "synth_stats".to_owned(),
        description: "Get Synth cache statistics".to_owned(),
        required: Vec::new(),
        params: Vec::new(),
    };

    let mut tools: Vec<ToolSpec> = Vec::new();
    tools.push(search);
    tools.push(extract);
    tools.push(stats);
    proof {
        assert(string_views(tools@[0].required@) =~= seq!["query"@]);
        assert(string_views(tools@[1].required@) =~= seq!["url"@]);
        assert(string_views(tools@[2].required@) =~= Seq::<Seq<char>>::empty());
        assert(string_views(tools@[0].params@[1].choices@) =~= seq!["quick"@, "deep"@]);
        assert(string_views(tools@[0].params@[0].choices@) =~= Seq::<Seq<char>>::empty());
        assert(string_views(tools@[0].params@[2].choices@) =~= Seq::<Seq<char>>::empty());
        assert(string_views(tools@[1].params@[0].choices@) =~= Seq::<Seq<char>>::empty());
        assert(string_views(tools@[1].params@[1].choices@) =~= Seq::<Seq<char>>::empty());
        assert(Seq::new(tools@[0].params@.len(), |i: int| param_text(tools@[0].params@[i]))
            =~= catalog()[0].3);
        assert(Seq::new(tools@[1].params@.len(), |i: int| param_text(tools@[1].params@[i]))
            =~= catalog()[1].3);
        assert(Seq::new(tools@[2].params@.len(), |i: int| param_text(tools@[2].params@[i]))
            =~= catalog()[2].3);
        assert(Seq::new(tools@.len(), |i: int| tool_text(tools@[i])) =~= catalog());
    }
    tools
}

/// The tools the catalog lists are exactly those a call can name: each
/// listed name routes to a tool, and each name that routes to a tool is
/// listed.
pub proof fn lemma_catalog_matches_routing(name: Seq<char>)
    ensures
        forall|i: int| 0 <= i < catalog().len() ==> tool_named(#[trigger] catalog()[i].0) is Some,
        tool_named(name) is Some ==> exists|i: int|
            0 <= i < catalog().len() && #[trigger] catalog()[i].0 == name,
{
    assert(tool_named(catalog()[0].0) is Some);
    assert(tool_named(catalog()[1].0) is Some);
    assert(tool_named(catalog()[2].0) is Some);
    if tool_named(name) is Some {
        if name == "synth_search"@ {
            assert(catalog()[0].0 == name);
        } else if name == "synth_extract"@ {
            assert(catalog()[1].0 == name);
        } else {
            assert(catalog()[2].0 == name);
        }
    }
}

/// A search call never asks for more pages than its depth allows, so the
/// search runs on the budget the call set.
pub proof fn lemma_call_budget_within_cap(depth: SearchDepth)
    ensures
        call_page_budget(depth) <= crate::pipeline::page_cap(depth),
{
}

} // verus!
