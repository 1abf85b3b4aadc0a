use responses_to_chat::codec::parse;
use responses_to_chat::json::Json;
use responses_to_chat::lowering::{lower_request, lower_request_with_image_agent};
use responses_to_chat::ordered::TextMap;
use responses_to_chat::responses::{
    CustomToolFormat, NamespaceToolSpec, ResponsesRequest, ToolSpec,
};
use responses_to_chat::tools::{build_tool_registry, lower_tools, ToolKind, ToolRegistry};
use responses_to_chat::validate::validate_request;

fn json(raw: &str) -> Json {
    parse(raw).expect("valid JSON")
}

fn function(name: &str, description: &str) -> ToolSpec {
    ToolSpec::Function {
        name: name.to_string(),
        description: description.to_string(),
        strict: true,
        parameters: json(r#"{"type":"object"}"#),
    }
}

fn namespaced(name: &str) -> NamespaceToolSpec {
    NamespaceToolSpec::Function {
        name: name.to_string(),
        description: "inner".to_string(),
        strict: false,
        parameters: json("{}"),
    }
}

fn every_tool() -> Vec<ToolSpec> {
    vec![
        ToolSpec::WebSearch { external_web_access: Some(true) },
        function("Zeta", "z"),
        ToolSpec::Namespace {
            name: "ns".to_string(),
            description: "group".to_string(),
            tools: vec![namespaced("beta"), namespaced("alpha")],
        },
        ToolSpec::ToolSearch {
            execution: "client".to_string(),
            description: "find tools".to_string(),
            parameters: json(r#"{"p":1}"#),
        },
        ToolSpec::LocalShell {},
        ToolSpec::Custom {
            name: "patch".to_string(),
            description: "Edit.".to_string(),
            format: CustomToolFormat {
                kind: "grammar".to_string(),
                syntax: "lark".to_string(),
                definition: "start: x".to_string(),
            },
        },
        ToolSpec::ImageGeneration { output_format: Some("png".to_string()) },
    ]
}

fn request(tool_choice: Json, tools: Vec<ToolSpec>) -> ResponsesRequest {
    ResponsesRequest {
        model: "test".to_string(),
        instructions: String::new(),
        input: vec![],
        tools,
        tool_choice,
        parallel_tool_calls: None,
        reasoning: None,
        store: false,
        stream: true,
        text: None,
        previous_response_id: None,
        frequency_penalty: None,
        presence_penalty: None,
    }
}

fn refusal(request: &ResponsesRequest) -> String {
    validate_request(request).expect_err("refused").message().to_string()
}

#[test]
fn tools_are_told_in_the_order_of_their_names() {
    let tools = lower_tools(&every_tool()).expect("tools");
    let names: Vec<&str> = tools.iter().map(|tool| tool.function.name.as_str()).collect();
    assert_eq!(
        names,
        vec!["Zeta", "alpha", "beta", "local_shell", "patch", "tool_search", "web_search"]
    );
    assert!(tools.iter().all(|tool| tool.kind == "function"));
    assert!(tools[0].function.strict);
    assert_eq!(tools[0].function.parameters, Some(json(r#"{"type":"object"}"#)));
}

#[test]
fn tools_with_one_name_keep_their_order() {
    let specs = vec![function("b", "first"), function("a", "x"), function("b", "second")];
    let tools = lower_tools(&specs).expect("tools");
    let told: Vec<(&str, &str)> = tools
        .iter()
        .map(|tool| (tool.function.name.as_str(), tool.function.description.as_str()))
        .collect();
    assert_eq!(told, vec![("a", "x"), ("b", "first"), ("b", "second")]);
}

#[test]
fn built_in_tools_have_their_schemas() {
    let tools = lower_tools(&every_tool()).expect("tools");
    assert_eq!(tools[3].function.description, "Execute a shell command locally.");
    assert_eq!(
        tools[3].function.parameters,
        Some(json(
            r#"{
                "type": "object",
                "properties": {
                    "command": {"type": "array", "items": {"type": "string"}},
                    "timeout_ms": {"type": "integer"},
                    "working_directory": {"type": "string"},
                    "env": {"type": "object", "additionalProperties": {"type": "string"}},
                    "user": {"type": "string"}
                },
                "required": ["command"]
            }"#
        ))
    );
    assert_eq!(
        tools[4].function.description,
        "Edit.\n\nReturn the raw tool input as a string matching the grammar lark format."
    );
    assert_eq!(
        tools[4].function.parameters,
        Some(json(
            r#"{"type":"object","properties":{"input":{"type":"string"}},"required":["input"]}"#
        ))
    );
    assert_eq!(tools[5].function.description, "find tools");
    assert_eq!(tools[5].function.parameters, Some(json(r#"{"p":1}"#)));
    assert_eq!(
        tools[6].function.description,
        "Search the web and return relevant result snippets."
    );
    assert_eq!(
        tools[6].function.parameters,
        Some(json(
            r#"{"type":"object","properties":{"query":{"type":"string"}},"required":["query"]}"#
        ))
    );
}

#[test]
fn registry_knows_every_tool_by_its_lower_case_name() {
    let registry = build_tool_registry(&every_tool(), false).expect("registry");
    assert_eq!(
        registry.get("zeta"),
        Some(&ToolKind::Function { public_name: "Zeta".to_string(), namespace: None })
    );
    assert_eq!(registry.get("Zeta"), None);
    assert_eq!(
        registry.get("alpha"),
        Some(&ToolKind::Function {
            public_name: "alpha".to_string(),
            namespace: Some("ns".to_string()),
        })
    );
    assert_eq!(
        registry.get("patch"),
        Some(&ToolKind::Custom { public_name: "patch".to_string() })
    );
    assert_eq!(registry.get("local_shell"), Some(&ToolKind::LocalShell));
    assert_eq!(registry.get("tool_search"), Some(&ToolKind::ToolSearch));
    assert_eq!(registry.get("web_search"), Some(&ToolKind::WebSearch));
    assert_eq!(registry.get("image_generation"), None);
}

#[test]
fn tools_of_a_turn_are_registered() {
    let turn = lower_request(&request(json("\"auto\""), every_tool()), vec![]).expect("turn");
    assert_eq!(turn.tools.len(), 7);
    for tool in &turn.tools {
        assert!(turn.tool_registry.get(&tool.function.name.to_ascii_lowercase()).is_some());
    }
}

#[test]
fn duplicate_is_named_in_lower_case() {
    let specs = vec![
        function("Echo", "a"),
        ToolSpec::Namespace {
            name: "ns".to_string(),
            description: "group".to_string(),
            tools: vec![namespaced("ECHO")],
        },
    ];
    assert_eq!(
        build_tool_registry(&specs, false).expect_err("refused").message(),
        "duplicate tool name is not supported: echo"
    );
}

#[test]
fn image_analysis_is_the_servers_only_with_the_agent() {
    let specs = vec![function("AnalyzeIMAGE", "look")];
    let with_agent = build_tool_registry(&specs, true).expect("registry");
    assert_eq!(with_agent.get("analyzeimage"), Some(&ToolKind::ImageAnalysis));
    let without = build_tool_registry(&specs, false).expect("registry");
    assert_eq!(
        without.get("analyzeimage"),
        Some(&ToolKind::Function { public_name: "AnalyzeIMAGE".to_string(), namespace: None })
    );
    let inside = vec![ToolSpec::Namespace {
        name: "ns".to_string(),
        description: "group".to_string(),
        tools: vec![namespaced("analyzeImage")],
    }];
    let namespaced_registry = build_tool_registry(&inside, true).expect("registry");
    assert_eq!(
        namespaced_registry.get("analyzeimage"),
        Some(&ToolKind::Function {
            public_name: "analyzeImage".to_string(),
            namespace: Some("ns".to_string()),
        })
    );
}

#[test]
fn image_agent_changes_nothing_but_the_kind() {
    let asked = request(json("\"auto\""), vec![function("analyzeImage", "look"), function("a", "b")]);
    let active = lower_request_with_image_agent(&asked, vec![], true).expect("turn");
    let inactive = lower_request_with_image_agent(&asked, vec![], false).expect("turn");
    assert_eq!(active.messages, inactive.messages);
    assert_eq!(active.tools, inactive.tools);
    assert_eq!(active.tool_registry.get("a"), inactive.tool_registry.get("a"));
    assert_eq!(active.tool_registry.get("analyzeimage"), Some(&ToolKind::ImageAnalysis));
    assert!(inactive.tool_registry.get("analyzeimage").is_some());
    assert!(active.tool_registry.has_active_server_tool(false, true));
    assert!(!inactive.tool_registry.has_active_server_tool(true, true));
}

#[test]
fn server_tools_count_where_they_are_active() {
    let mut by_name = TextMap::new();
    by_name.insert("web_search".to_string(), ToolKind::WebSearch);
    by_name.insert("local_shell".to_string(), ToolKind::LocalShell);
    let registry = ToolRegistry::from_map(by_name);
    assert!(registry.has_active_server_tool(true, false));
    assert!(!registry.has_active_server_tool(false, true));
    assert!(!ToolRegistry::from_map(TextMap::new()).has_active_server_tool(true, true));
}

#[test]
fn image_generation_is_left_out() {
    let with = vec![
        function("a", "x"),
        ToolSpec::ImageGeneration { output_format: None },
        function("b", "y"),
    ];
    let without = vec![function("a", "x"), function("b", "y")];
    assert_eq!(lower_tools(&with), lower_tools(&without));
}

#[test]
fn refusals_of_a_request_have_their_words() {
    let mut replay = request(json("\"auto\""), vec![]);
    replay.previous_response_id = Some(String::new());
    assert_eq!(refusal(&replay), "previous_response_id is not supported in v1");
    assert_eq!(
        refusal(&request(json("\"required\""), vec![])),
        "tool_choice is \"required\" but no tools are provided"
    );
    assert_eq!(
        refusal(&request(json("\"Auto\""), vec![])),
        "invalid tool_choice string: \"Auto\"; expected \"auto\", \"none\", or \"required\""
    );
    let object = "invalid tool_choice object: expected {\"type\":\"function\",\"function\":{\"name\":\"<non-empty>\"}}";
    for raw in [
        r#"{}"#,
        r#"{"type":"function"}"#,
        r#"{"type":"function","function":{}}"#,
        r#"{"type":"function","function":"f"}"#,
        r#"{"type":"function","function":{"name":""}}"#,
        r#"{"type":"function","function":{"name":1}}"#,
        r#"{"type":"tool","function":{"name":"f"}}"#,
        r#"{"type":1,"function":{"name":"f"}}"#,
    ] {
        assert_eq!(refusal(&request(json(raw), vec![function("f", "d")])), object, "{}", raw);
    }
    assert_eq!(
        refusal(&request(json(r#"{"type":"function","function":{"name":"f"}}"#), vec![])),
        "tool_choice specifies a function but no tools are provided"
    );
    for raw in ["null", "true", "1", "[]"] {
        assert_eq!(
            refusal(&request(json(raw), vec![])),
            "invalid tool_choice: expected a string (\"auto\", \"none\", \"required\") or a function object"
        );
    }
}

#[test]
fn image_generation_alone_counts_as_a_tool_for_the_choice() {
    let tools = vec![ToolSpec::ImageGeneration { output_format: None }];
    assert!(validate_request(&request(json("\"required\""), tools)).is_ok());
}

#[test]
fn a_refused_request_is_refused_before_its_tools() {
    let mut asked = request(json("\"bogus\""), vec![function("a", "x"), function("a", "y")]);
    assert_eq!(
        lower_request(&asked, vec![]).expect_err("refused").message(),
        refusal(&asked)
    );
    asked.tool_choice = json("\"auto\"");
    assert_eq!(
        lower_request(&asked, vec![]).expect_err("refused").message(),
        "duplicate tool name is not supported: a"
    );
}
