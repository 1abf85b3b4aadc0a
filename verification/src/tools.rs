//! Tools that the client offers: what the model is told of them, and who runs
//! them.
use crate::chat::{tool_views, ChatTool, ChatToolDefinition, ToolView};
use crate::error::{AppError, AppResult};
use crate::json::{array1, insert_field, object1, object2, object3, text_json, Json, JsonTree};
use crate::ordered::{ascending, entry_map, entry_map_keys, entry_map_value, TextMap};
use crate::responses::{NamespaceToolSpec, ToolSpec};
use crate::text::{
    ascii_lowercase, lowercased, precedes, text_before, text_before_irreflexive,
    text_before_total, text_before_transitive,
};
use vstd::prelude::*;

verus! {

/// Who runs a tool, and under which name it was offered.
#[derive(Debug, Clone, PartialEq)]
pub enum ToolKind {
    Function { public_name: String, namespace: Option<String> },
    Custom { public_name: String },
    LocalShell,
    ToolSearch,
    WebSearch,
    /// Image analysis on the server. A tool is registered as this only on turns
    /// on which the image agent is active; on other turns a client's tool of the
    /// same name is a function like any other.
    ImageAnalysis,
}

/// The tools of a turn by their names in lower case.
#[derive(Debug, Clone)]
pub struct ToolRegistry {
    by_name: TextMap<ToolKind>,
}

impl View for ToolRegistry {
    type V = Map<Seq<char>, ToolKind>;

    closed spec fn view(&self) -> Map<Seq<char>, ToolKind> {
        self.by_name@
    }
}

/// Whether the server runs a tool of this kind on the turn.
pub open spec fn runs_on_server(
    kind: ToolKind,
    web_search_active: bool,
    image_agent_active: bool,
) -> bool {
    match kind {
        ToolKind::WebSearch => web_search_active,
        ToolKind::ImageAnalysis => image_agent_active,
        _ => false,
    }
}

impl ToolRegistry {
    /// The kind of the tool with this name in the registry.
    pub fn get(&self, name: &str) -> (found: Option<&ToolKind>)
        ensures
            match found {
                Some(kind) => self@.contains_key(name@) && self@[name@] == *kind,
                None => !self@.contains_key(name@),
            },
    {
        self.by_name.get(name)
    }

    /// Whether any tool is run by the server on this turn.
    pub fn has_active_server_tool(
        &self,
        web_search_active: bool,
        image_agent_active: bool,
    ) -> (active: bool)
        ensures
            active <==> exists|name: Seq<char>| #[trigger]
                self@.contains_key(name) && runs_on_server(
                    self@[name],
                    web_search_active,
                    image_agent_active,
                ),
    {
        let len: usize = self.by_name.len();
        let ghost entries = self.by_name.entries();
        let mut i: usize = 0;
        while i < len
            invariant
                i <= len,
                entries == self.by_name.entries(),
                len == entries.len(),
                ascending(entries),
                self@ == entry_map(entries),
                forall|j: int|
                    0 <= j < i ==> !runs_on_server(
                        (#[trigger] entries[j]).1,
                        web_search_active,
                        image_agent_active,
                    ),
            decreases len - i,
        {
            let entry = self.by_name.entry(i);
            let on_server = match &entry.1 {
                ToolKind::WebSearch => web_search_active,
                ToolKind::ImageAnalysis => image_agent_active,
                _ => false,
            };
            if on_server {
                proof {
                    entry_map_value(entries, i as int);
                    assert(self@.contains_key(entries[i as int].0@));
                }
                return true;
            }
            i += 1;
        }
        proof {
            assert forall|name: Seq<char>| #[trigger] self@.contains_key(name) implies !runs_on_server(
                self@[name],
                web_search_active,
                image_agent_active,
            ) by {
                entry_map_keys(entries, name);
                let j = choose|j: int| 0 <= j < entries.len() && #[trigger] entries[j].0@ == name;
                entry_map_value(entries, j);
            }
        }
        false
    }

    /// The registry with these tools.
    pub fn from_map(by_name: TextMap<ToolKind>) -> (registry: Self)
        ensures
            registry@ == by_name@,
    {
        ToolRegistry { by_name }
    }
}

/// The schema of a value of a basic type.
pub open spec fn type_schema(kind: Seq<char>) -> JsonTree {
    JsonTree::Object(map!["type"@ => JsonTree::Text(kind)])
}

/// The schema of an object with one required property.
pub open spec fn object_schema(
    properties: Map<Seq<char>, JsonTree>,
    required: Seq<char>,
) -> JsonTree {
    JsonTree::Object(
        map![
            "type"@ => JsonTree::Text("object"@),
            "properties"@ => JsonTree::Object(properties),
            "required"@ => JsonTree::Array(seq![JsonTree::Text(required)]),
        ],
    )
}

/// The properties of the arguments of a local shell call.
pub open spec fn shell_properties() -> Map<Seq<char>, JsonTree> {
    map![
        "command"@ => JsonTree::Object(
            map!["type"@ => JsonTree::Text("array"@), "items"@ => type_schema("string"@)],
        ),
        "timeout_ms"@ => type_schema("integer"@),
        "working_directory"@ => type_schema("string"@),
        "env"@ => JsonTree::Object(
            map![
                "type"@ => JsonTree::Text("object"@),
                "additionalProperties"@ => type_schema("string"@),
            ],
        ),
        "user"@ => type_schema("string"@),
    ]
}

/// A function as the model is told of it.
pub open spec fn function_tool(
    name: Seq<char>,
    description: Seq<char>,
    parameters: JsonTree,
    strict: bool,
) -> ToolView {
    ToolView { kind: "function"@, name, description, parameters: Some(parameters), strict }
}

/// A function of a namespace as the model is told of it.
pub open spec fn namespace_tool(tool: NamespaceToolSpec) -> ToolView {
    match tool {
        NamespaceToolSpec::Function { name, description, strict, parameters } => function_tool(
            name@,
            description@,
            parameters@,
            strict,
        ),
    }
}

/// What the model is told of one offered tool.
pub open spec fn chat_tools_of(offered: ToolSpec) -> Seq<ToolView> {
    match offered {
        ToolSpec::Function { name, description, strict, parameters } =>
            seq![function_tool(name@, description@, parameters@, strict)],
        ToolSpec::Namespace { name, description, tools } => tools@.map_values(
            |tool: NamespaceToolSpec| namespace_tool(tool),
        ),
        ToolSpec::ToolSearch { execution, description, parameters } =>
            seq![function_tool("tool_search"@, description@, parameters@, false)],
        ToolSpec::LocalShell {  } => seq![
            function_tool(
                "local_shell"@,
                "Execute a shell command locally."@,
                object_schema(shell_properties(), "command"@),
                false,
            ),
        ],
        ToolSpec::WebSearch { external_web_access } => seq![
            function_tool(
                "web_search"@,
                "Search the web and return relevant result snippets."@,
                object_schema(map!["query"@ => type_schema("string"@)], "query"@),
                false,
            ),
        ],
        ToolSpec::Custom { name, description, format } => seq![
            function_tool(
                name@,
                description@ + "\n\nReturn the raw tool input as a string matching the "@
                    + format.kind@ + " "@ + format.syntax@ + " format."@,
                object_schema(map!["input"@ => type_schema("string"@)], "input"@),
                false,
            ),
        ],
        ToolSpec::ImageGeneration { output_format } => Seq::empty(),
    }
}

/// What the model is told of the offered tools, in the order of the offer.
pub open spec fn chat_tools(specs: Seq<ToolSpec>) -> Seq<ToolView>
    decreases specs.len(),
{
    if specs.len() == 0 {
        Seq::empty()
    } else {
        chat_tools(specs.drop_last()) + chat_tools_of(specs.last())
    }
}

/// Tools in order with one more, behind all that it does not come before.
pub open spec fn insert_tool(sorted: Seq<ToolView>, tool: ToolView) -> Seq<ToolView>
    decreases sorted.len(),
{
    if sorted.len() > 0 && text_before(tool.name, sorted.last().name) {
        insert_tool(sorted.drop_last(), tool).push(sorted.last())
    } else {
        sorted.push(tool)
    }
}

/// Tools in the order of their names; those with one name keep their order.
pub open spec fn sorted_tools(tools: Seq<ToolView>) -> Seq<ToolView>
    decreases tools.len(),
{
    if tools.len() == 0 {
        Seq::empty()
    } else {
        insert_tool(sorted_tools(tools.drop_last()), tools.last())
    }
}

proof fn insert_tool_at(sorted: Seq<ToolView>, tool: ToolView, at: int)
    requires
        0 <= at <= sorted.len(),
        forall|j: int| at <= j < sorted.len() ==> text_before(tool.name, #[trigger] sorted[j].name),
        at > 0 ==> !text_before(tool.name, sorted[at - 1].name),
    ensures
        insert_tool(sorted, tool) == sorted.insert(at, tool),
    decreases sorted.len(),
{
    if at < sorted.len() {
        insert_tool_at(sorted.drop_last(), tool, at);
        assert(sorted.insert(at, tool) =~= sorted.drop_last().insert(at, tool).push(sorted.last()));
    } else {
        assert(sorted.insert(at, tool) =~= sorted.push(tool));
    }
}

/// Sorts tools by name; those with one name keep their order.
fn sort_tools(tools: Vec<ChatTool>) -> (sorted: Vec<ChatTool>)
    ensures
        tool_views(sorted@) == sorted_tools(tool_views(tools@)),
{
    let mut sorted: Vec<ChatTool> = Vec::new();
    assert(tool_views(sorted@) =~= sorted_tools(tool_views(tools@).take(0)));
    for tool in iter: tools
        invariant
            iter.seq() == tools@,
            tool_views(sorted@) == sorted_tools(tool_views(tools@).take(iter.index() as int)),
    {
        let ghost before = sorted@;
        let mut at: usize = sorted.len();
        while at > 0 && precedes(tool.function.name.as_str(), sorted[at - 1].function.name.as_str())
            invariant
                at <= sorted.len(),
                sorted@ == before,
                forall|j: int|
                    at <= j < before.len() ==> text_before(
                        tool@.name,
                        #[trigger] tool_views(before)[j].name,
                    ),
            decreases at,
        {
            at -= 1;
        }
        proof {
            if at > 0 {
                assert(tool_views(before)[at - 1] == before[at - 1]@);
            }
            insert_tool_at(tool_views(before), tool@, at as int);
        }
        sorted.insert(at, tool);
        proof {
            let upto = tool_views(tools@).take(iter.index() + 1);
            assert(upto.drop_last() =~= tool_views(tools@).take(iter.index() as int));
            assert(upto.last() == tool@);
            assert(tool_views(sorted@) =~= tool_views(before).insert(at as int, tool@));
        }
    }
    assert(tool_views(tools@).take(tools@.len() as int) =~= tool_views(tools@));
    sorted
}

/// A function as the model is told of it.
fn function_chat_tool(
    name: String,
    description: String,
    parameters: Json,
    strict: bool,
) -> (tool: ChatTool)
    ensures
        tool@ == function_tool(name@, description@, parameters@, strict),
{
    ChatTool {
        kind: "function".to_string(),
        function: ChatToolDefinition { name, description, parameters: Some(parameters), strict },
    }
}

/// The schema of a value of a basic type.
fn type_schema_json(kind: &str) -> (schema: Json)
    ensures
        schema@ == type_schema(kind@),
{
    object1("type", text_json(kind))
}

/// The schema of an object with one required property.
fn object_schema_json(properties: Json, required: &str) -> (schema: Json)
    requires
        properties@ is Object,
    ensures
        schema@ == object_schema(properties@->Object_0, required@),
{
    object3(
        "type",
        text_json("object"),
        "properties",
        properties,
        "required",
        array1(text_json(required)),
    )
}

/// The properties of the arguments of a local shell call.
fn shell_properties_json() -> (properties: Json)
    ensures
        properties@ == JsonTree::Object(shell_properties()),
{
    let mut entries: Vec<(String, Json)> = Vec::new();
    insert_field(
        &mut entries,
        "command",
        object2("type", text_json("array"), "items", type_schema_json("string")),
    );
    insert_field(&mut entries, "timeout_ms", type_schema_json("integer"));
    insert_field(&mut entries, "working_directory", type_schema_json("string"));
    insert_field(
        &mut entries,
        "env",
        object2("type", text_json("object"), "additionalProperties", type_schema_json("string")),
    );
    insert_field(&mut entries, "user", type_schema_json("string"));
    Json::Object(entries)
}

/// What the model is told of one offered tool.
fn lower_tool(offered: &ToolSpec) -> (lowered: Vec<ChatTool>)
    ensures
        tool_views(lowered@) == chat_tools_of(*offered),
{
    let lowered: Vec<ChatTool> = match offered {
        ToolSpec::Function { name, description, strict, parameters } => vec![
            function_chat_tool(name.clone(), description.clone(), parameters.clone(), *strict),
        ],
        ToolSpec::Namespace { name: _, description: _, tools } => {
            let mut lowered: Vec<ChatTool> = Vec::new();
            let mut i: usize = 0;
            while i < tools.len()
                invariant
                    i <= tools.len(),
                    lowered.len() == i,
                    forall|j: int|
                        0 <= j < i ==> (#[trigger] lowered@[j])@ == namespace_tool(tools@[j]),
                decreases tools.len() - i,
            {
                match &tools[i] {
                    NamespaceToolSpec::Function { name, description, strict, parameters } => {
                        lowered.push(
                            function_chat_tool(
                                name.clone(),
                                description.clone(),
                                parameters.clone(),
                                *strict,
                            ),
                        );
                    },
                }
                i += 1;
            }
            lowered
        },
        ToolSpec::ToolSearch { execution: _, description, parameters } => vec![
            function_chat_tool(
                "tool_search".to_string(),
                description.clone(),
                parameters.clone(),
                false,
            ),
        ],
        ToolSpec::LocalShell {  } => vec![
            function_chat_tool(
                "local_shell".to_string(),
                "Execute a shell command locally.".to_string(),
                object_schema_json(shell_properties_json(), "command"),
                false,
            ),
        ],
        ToolSpec::WebSearch { external_web_access: _ } => vec![
            function_chat_tool(
                "web_search".to_string(),
                "Search the web and return relevant result snippets.".to_string(),
                object_schema_json(object1("query", type_schema_json("string")), "query"),
                false,
            ),
        ],
        ToolSpec::Custom { name, description, format } => {
            let mut words = description.clone();
            words.append("\n\nReturn the raw tool input as a string matching the ");
            words.append(format.kind.as_str());
            words.append(" ");
            words.append(format.syntax.as_str());
            words.append(" format.");
            vec![
                function_chat_tool(
                    name.clone(),
                    words,
                    object_schema_json(object1("input", type_schema_json("string")), "input"),
                    false,
                ),
            ]
        },
        ToolSpec::ImageGeneration { output_format: _ } => Vec::new(),
    };
    assert(tool_views(lowered@) =~= chat_tools_of(*offered));
    lowered
}

/// What the model is told of the offered tools, in the order of the names.
pub fn lower_tools(specs: &[ToolSpec]) -> (tools: AppResult<Vec<ChatTool>>)
    ensures
        tools is Ok,
        tool_views(tools->Ok_0@) == sorted_tools(chat_tools(specs@)),
{
    let mut tools: Vec<ChatTool> = Vec::new();
    let mut i: usize = 0;
    assert(tool_views(tools@) =~= chat_tools(specs@.take(0)));
    while i < specs.len()
        invariant
            i <= specs.len(),
            tool_views(tools@) == chat_tools(specs@.take(i as int)),
        decreases specs.len() - i,
    {
        let ghost before = tools@;
        let mut lowered = lower_tool(&specs[i]);
        let ghost more = lowered@;
        tools.append(&mut lowered);
        i += 1;
        assert(specs@.take(i as int).drop_last() =~= specs@.take(i - 1));
        assert(tool_views(tools@) =~= tool_views(before) + tool_views(more));
    }
    assert(specs@.take(specs@.len() as int) =~= specs@);
    Ok(sort_tools(tools))
}

/// Whether a name is that of the image analysis tool, in any ASCII case.
pub open spec fn names_image_analysis(name: Seq<char>) -> bool {
    lowercased(name) == lowercased("analyzeImage"@)
}

/// The names and kinds of one offered tool.
pub open spec fn tool_kinds_of(offered: ToolSpec, image_agent_active: bool) -> Seq<
    (Seq<char>, ToolKind),
> {
    match offered {
        ToolSpec::Function { name, description, strict, parameters } => seq![
            (
                name@,
                if image_agent_active && names_image_analysis(name@) {
                    ToolKind::ImageAnalysis
                } else {
                    ToolKind::Function { public_name: name, namespace: None }
                },
            ),
        ],
        ToolSpec::Namespace { name, description, tools } => tools@.map_values(
            |tool: NamespaceToolSpec| namespace_kind(name, tool),
        ),
        ToolSpec::ToolSearch { execution, description, parameters } =>
            seq![("tool_search"@, ToolKind::ToolSearch)],
        ToolSpec::LocalShell {  } => seq![("local_shell"@, ToolKind::LocalShell)],
        ToolSpec::WebSearch { external_web_access } => seq![("web_search"@, ToolKind::WebSearch)],
        ToolSpec::Custom { name, description, format } =>
            seq![(name@, ToolKind::Custom { public_name: name })],
        ToolSpec::ImageGeneration { output_format } => Seq::empty(),
    }
}

/// The name and kind of a function of a namespace.
pub open spec fn namespace_kind(namespace: String, tool: NamespaceToolSpec) -> (
    Seq<char>,
    ToolKind,
) {
    match tool {
        NamespaceToolSpec::Function { name, description, strict, parameters } => (
            name@,
            ToolKind::Function { public_name: name, namespace: Some(namespace) },
        ),
    }
}

/// The names and kinds of the offered tools, in the order of the offer.
pub open spec fn tool_kinds(specs: Seq<ToolSpec>, image_agent_active: bool) -> Seq<
    (Seq<char>, ToolKind),
>
    decreases specs.len(),
{
    if specs.len() == 0 {
        Seq::empty()
    } else {
        tool_kinds(specs.drop_last(), image_agent_active) + tool_kinds_of(
            specs.last(),
            image_agent_active,
        )
    }
}

/// The kinds by name in lower case, or why the request is refused: a name that
/// came before, whatever its ASCII case.
pub open spec fn registered(kinds: Seq<(Seq<char>, ToolKind)>) -> Result<
    Map<Seq<char>, ToolKind>,
    Seq<char>,
>
    decreases kinds.len(),
{
    if kinds.len() == 0 {
        Ok(Map::empty())
    } else {
        match registered(kinds.drop_last()) {
            Err(message) => Err(message),
            Ok(by_name) => {
                let name = lowercased(kinds.last().0);
                if by_name.contains_key(name) {
                    Err("duplicate tool name is not supported: "@ + name)
                } else {
                    Ok(by_name.insert(name, kinds.last().1))
                }
            },
        }
    }
}

/// What an outcome with a registry says.
pub open spec fn registry_outcome(outcome: AppResult<ToolRegistry>) -> Result<
    Map<Seq<char>, ToolKind>,
    Seq<char>,
> {
    match outcome {
        Ok(registry) => Ok(registry@),
        Err(error) => Err(error@),
    }
}

/// What names and kinds hold.
pub open spec fn kind_views(kinds: Seq<(String, ToolKind)>) -> Seq<(Seq<char>, ToolKind)> {
    kinds.map_values(|kind: (String, ToolKind)| (kind.0@, kind.1))
}

/// The names and kinds of one offered tool.
fn classify_tool(offered: &ToolSpec, image_agent_active: bool) -> (kinds: Vec<(String, ToolKind)>)
    ensures
        kind_views(kinds@) == tool_kinds_of(*offered, image_agent_active),
{
    let kinds: Vec<(String, ToolKind)> = match offered {
        ToolSpec::Function { name, description: _, strict: _, parameters: _ } => {
            let kind = if image_agent_active && ascii_lowercase(name.as_str()) == ascii_lowercase(
                "analyzeImage",
            ) {
                ToolKind::ImageAnalysis
            } else {
                ToolKind::Function { public_name: name.clone(), namespace: None }
            };
            vec![(name.clone(), kind)]
        },
        ToolSpec::Namespace { name: namespace, description: _, tools } => {
            let mut kinds: Vec<(String, ToolKind)> = Vec::new();
            let mut i: usize = 0;
            while i < tools.len()
                invariant
                    i <= tools.len(),
                    kinds.len() == i,
                    forall|j: int|
                        0 <= j < i ==> ((#[trigger] kinds@[j]).0@, kinds@[j].1) == namespace_kind(
                            *namespace,
                            tools@[j],
                        ),
                decreases tools.len() - i,
            {
                match &tools[i] {
                    NamespaceToolSpec::Function {
                        name,
                        description: _,
                        strict: _,
                        parameters: _,
                    } => {
                        kinds.push(
                            (
                                name.clone(),
                                ToolKind::Function {
                                    public_name: name.clone(),
                                    namespace: Some(namespace.clone()),
                                },
                            ),
                        );
                    },
                }
                i += 1;
            }
            kinds
        },
        ToolSpec::ToolSearch { .. } => vec![("tool_search".to_string(), ToolKind::ToolSearch)],
        ToolSpec::LocalShell {  } => vec![("local_shell".to_string(), ToolKind::LocalShell)],
        ToolSpec::WebSearch { .. } => vec![("web_search".to_string(), ToolKind::WebSearch)],
        ToolSpec::Custom { name, description: _, format: _ } => vec![
            (name.clone(), ToolKind::Custom { public_name: name.clone() }),
        ],
        ToolSpec::ImageGeneration { .. } => Vec::new(),
    };
    assert(kind_views(kinds@) =~= tool_kinds_of(*offered, image_agent_active));
    kinds
}

/// Registers the offered tools under their names in lower case, and refuses a
/// request that offers one name twice.
pub fn build_tool_registry(specs: &[ToolSpec], image_agent_active: bool) -> (registry: AppResult<
    ToolRegistry,
>)
    ensures
        registry_outcome(registry) == registered(tool_kinds(specs@, image_agent_active)),
{
    let mut kinds: Vec<(String, ToolKind)> = Vec::new();
    let mut i: usize = 0;
    assert(kind_views(kinds@) =~= tool_kinds(specs@.take(0), image_agent_active));
    while i < specs.len()
        invariant
            i <= specs.len(),
            kind_views(kinds@) == tool_kinds(specs@.take(i as int), image_agent_active),
        decreases specs.len() - i,
    {
        let ghost before = kinds@;
        let mut more = classify_tool(&specs[i], image_agent_active);
        let ghost added = more@;
        kinds.append(&mut more);
        i += 1;
        assert(specs@.take(i as int).drop_last() =~= specs@.take(i - 1));
        assert(kind_views(kinds@) =~= kind_views(before) + kind_views(added));
    }
    assert(specs@.take(specs@.len() as int) =~= specs@);
    let ghost all = kind_views(kinds@);
    let mut by_name: TextMap<ToolKind> = TextMap::new();
    assert(registered(all.take(0)) == Ok::<Map<Seq<char>, ToolKind>, Seq<char>>(by_name@));
    for kind in iter: kinds
        invariant
            iter.seq() == kinds@,
            all == kind_views(kinds@),
            all == tool_kinds(specs@, image_agent_active),
            registered(all.take(iter.index() as int)) == Ok::<Map<Seq<char>, ToolKind>, Seq<char>>(
                by_name@,
            ),
    {
        let ghost at = iter.index() as int;
        proof {
            assert(all.take(at + 1).drop_last() =~= all.take(at));
            assert(all.take(at + 1).last() == (kind.0@, kind.1));
        }
        let name = ascii_lowercase(kind.0.as_str());
        if by_name.insert(name.clone(), kind.1).is_some() {
            let mut message = "duplicate tool name is not supported: ".to_string();
            message.append(name.as_str());
            proof {
                registered_error_stays(all, at + 1);
            }
            return Err(AppError::bad_request(message));
        }
    }
    assert(all.take(all.len() as int) =~= all);
    Ok(ToolRegistry { by_name })
}

proof fn registered_error_stays(kinds: Seq<(Seq<char>, ToolKind)>, upto: int)
    requires
        0 <= upto <= kinds.len(),
        registered(kinds.take(upto)) is Err,
    ensures
        registered(kinds) == registered(kinds.take(upto)),
    decreases kinds.len() - upto,
{
    if upto < kinds.len() {
        assert(kinds.take(upto + 1).drop_last() =~= kinds.take(upto));
        registered_error_stays(kinds, upto + 1);
    } else {
        assert(kinds.take(upto) =~= kinds);
    }
}

/// Whether no tool comes before an earlier one by its name.
pub open spec fn in_name_order(tools: Seq<ToolView>) -> bool {
    forall|i: int, j: int|
        #![trigger tools[i], tools[j]]
        0 <= i < j < tools.len() ==> !text_before(tools[j].name, tools[i].name)
}

/// The tools with a name, in their order.
pub open spec fn tools_named(tools: Seq<ToolView>, name: Seq<char>) -> Seq<ToolView>
    decreases tools.len(),
{
    if tools.len() == 0 {
        Seq::empty()
    } else if tools.last().name == name {
        tools_named(tools.drop_last(), name).push(tools.last())
    } else {
        tools_named(tools.drop_last(), name)
    }
}

/// The tools that the model is told of stand in the order of their names.
pub proof fn sorted_tools_in_order(tools: Seq<ToolView>)
    ensures
        in_name_order(sorted_tools(tools)),
    decreases tools.len(),
{
    if tools.len() > 0 {
        sorted_tools_in_order(tools.drop_last());
        insert_tool_in_order(sorted_tools(tools.drop_last()), tools.last());
    }
}

/// Sorting keeps every tool, and tools with one name in their order.
pub proof fn sorted_tools_stable(tools: Seq<ToolView>, name: Seq<char>)
    ensures
        tools_named(sorted_tools(tools), name) == tools_named(tools, name),
        sorted_tools(tools).len() == tools.len(),
    decreases tools.len(),
{
    if tools.len() > 0 {
        let sorted = sorted_tools(tools.drop_last());
        sorted_tools_stable(tools.drop_last(), name);
        insert_tool_stable(sorted, tools.last(), name);
    }
}

proof fn insert_tool_in_order(sorted: Seq<ToolView>, tool: ToolView)
    requires
        in_name_order(sorted),
    ensures
        in_name_order(insert_tool(sorted, tool)),
        insert_tool(sorted, tool).len() == sorted.len() + 1,
        forall|i: int|
            0 <= i < insert_tool(sorted, tool).len() ==> (#[trigger] insert_tool(sorted, tool)[i]
                == tool || sorted.contains(insert_tool(sorted, tool)[i])),
    decreases sorted.len(),
{
    let result = insert_tool(sorted, tool);
    if sorted.len() > 0 && text_before(tool.name, sorted.last().name) {
        let rest = sorted.drop_last();
        let before = insert_tool(rest, tool);
        insert_tool_in_order(rest, tool);
        text_before_total(tool.name, sorted.last().name);
        text_before_irreflexive(tool.name);
        assert forall|i: int| 0 <= i < result.len() implies (#[trigger] result[i] == tool
            || sorted.contains(result[i])) by {
            if i < before.len() {
                assert(result[i] == before[i]);
                if before[i] != tool {
                    let k = choose|k: int| 0 <= k < rest.len() && rest[k] == before[i];
                    assert(sorted[k] == result[i]);
                }
            } else {
                assert(sorted[sorted.len() - 1] == result[i]);
            }
        }
        assert forall|i: int, j: int| 0 <= i < j < result.len() implies !text_before(
            (#[trigger] result[j]).name,
            (#[trigger] result[i]).name,
        ) by {
            assert(result[i] == before[i]);
            if j < before.len() {
                assert(result[j] == before[j]);
            } else if before[i] != tool {
                let k = choose|k: int| 0 <= k < rest.len() && rest[k] == before[i];
                assert(sorted[k] == result[i]);
                assert(!text_before(sorted[sorted.len() - 1].name, sorted[k].name));
            }
        }
    } else {
        assert forall|i: int| 0 <= i < result.len() implies (#[trigger] result[i] == tool
            || sorted.contains(result[i])) by {
            if i < sorted.len() {
                assert(sorted[i] == result[i]);
            }
        }
        assert forall|i: int, j: int| 0 <= i < j < result.len() implies !text_before(
            (#[trigger] result[j]).name,
            (#[trigger] result[i]).name,
        ) by {
            assert(result[i] == sorted[i]);
            if j < sorted.len() {
                assert(result[j] == sorted[j]);
            } else if text_before(tool.name, sorted[i].name) {
                let last = sorted.last();
                text_before_total(tool.name, last.name);
                if last.name != tool.name {
                    text_before_transitive(last.name, tool.name, sorted[i].name);
                }
                if i < sorted.len() - 1 {
                    assert(!text_before(sorted[sorted.len() - 1].name, sorted[i].name));
                }
            }
        }
    }
}

proof fn insert_tool_stable(sorted: Seq<ToolView>, tool: ToolView, name: Seq<char>)
    ensures
        tools_named(insert_tool(sorted, tool), name) == if tool.name == name {
            tools_named(sorted, name).push(tool)
        } else {
            tools_named(sorted, name)
        },
        insert_tool(sorted, tool).len() == sorted.len() + 1,
    decreases sorted.len(),
{
    if sorted.len() > 0 && text_before(tool.name, sorted.last().name) {
        let before = insert_tool(sorted.drop_last(), tool);
        insert_tool_stable(sorted.drop_last(), tool, name);
        text_before_irreflexive(tool.name);
        assert(before.push(sorted.last()).drop_last() =~= before);
    } else {
        assert(sorted.push(tool).drop_last() =~= sorted);
    }
}

/// Tools are registered if and only if no two of their names are the same up to
/// ASCII case.
pub proof fn registered_when_distinct(kinds: Seq<(Seq<char>, ToolKind)>)
    ensures
        registered(kinds) is Ok <==> forall|i: int, j: int|
            #![trigger kinds[i], kinds[j]]
            0 <= i < j < kinds.len() ==> lowercased(kinds[i].0) != lowercased(kinds[j].0),
    decreases kinds.len(),
{
    if kinds.len() > 0 {
        let rest = kinds.drop_last();
        let last = kinds.len() - 1;
        registered_when_distinct(rest);
        assert(forall|i: int| 0 <= i < rest.len() ==> rest[i] == kinds[i]);
        if registered(rest) is Ok {
            registered_names(rest, lowercased(kinds[last].0));
            if registered(kinds) is Err {
                let i = choose|i: int|
                    0 <= i < rest.len() && lowercased((#[trigger] rest[i]).0) == lowercased(
                        kinds[last].0,
                    );
                assert(kinds[i] == rest[i]);
                assert(lowercased(kinds[i].0) == lowercased(kinds[last].0));
            } else {
                assert forall|i: int, j: int|
                    #![trigger kinds[i], kinds[j]]
                    0 <= i < j < kinds.len() implies lowercased(kinds[i].0) != lowercased(
                    kinds[j].0,
                ) by {
                    assert(rest[i] == kinds[i]);
                    if j < last {
                        assert(rest[j] == kinds[j]);
                    }
                }
            }
        } else {
            let (i, j) = choose|i: int, j: int|
                #![trigger rest[i], rest[j]]
                0 <= i < j < rest.len() && lowercased(rest[i].0) == lowercased(rest[j].0);
            assert(lowercased(kinds[i].0) == lowercased(kinds[j].0));
        }
    }
}

/// The registry has exactly the names of the tools, in lower case.
pub proof fn registered_names(kinds: Seq<(Seq<char>, ToolKind)>, name: Seq<char>)
    requires
        registered(kinds) is Ok,
    ensures
        registered(kinds)->Ok_0.contains_key(name) <==> exists|i: int|
            0 <= i < kinds.len() && lowercased((#[trigger] kinds[i]).0) == name,
    decreases kinds.len(),
{
    if kinds.len() > 0 {
        let rest = kinds.drop_last();
        registered_names(rest, name);
        assert(forall|i: int| 0 <= i < rest.len() ==> rest[i] == kinds[i]);
        if exists|i: int| 0 <= i < rest.len() && lowercased((#[trigger] rest[i]).0) == name {
            let i = choose|i: int|
                0 <= i < rest.len() && lowercased((#[trigger] rest[i]).0) == name;
            assert(lowercased(kinds[i].0) == name);
        }
        if exists|i: int| 0 <= i < kinds.len() && lowercased((#[trigger] kinds[i]).0) == name {
            let i = choose|i: int|
                0 <= i < kinds.len() && lowercased((#[trigger] kinds[i]).0) == name;
            if i < rest.len() {
                assert(lowercased(rest[i].0) == name);
            }
        }
        assert(kinds[kinds.len() - 1] == kinds.last());
    }
}

/// The registry classifies exactly the tools that the model is told of: the two
/// lists have the same names, in the order of the offer.
pub proof fn kinds_match_tools(specs: Seq<ToolSpec>, image_agent_active: bool)
    ensures
        tool_kinds(specs, image_agent_active).len() == chat_tools(specs).len(),
        forall|i: int|
            0 <= i < chat_tools(specs).len() ==> (#[trigger] tool_kinds(
                specs,
                image_agent_active,
            )[i]).0 == chat_tools(specs)[i].name,
    decreases specs.len(),
{
    if specs.len() > 0 {
        kinds_match_tools(specs.drop_last(), image_agent_active);
        let kinds = tool_kinds_of(specs.last(), image_agent_active);
        let tools = chat_tools_of(specs.last());
        assert(kinds.len() == tools.len());
        assert forall|i: int| 0 <= i < kinds.len() implies (#[trigger] kinds[i]).0
            == tools[i].name by {}
    }
}

/// A tool is registered as the server's image analysis only on turns on which
/// the image agent is active.
pub proof fn image_analysis_needs_agent(
    specs: Seq<ToolSpec>,
    image_agent_active: bool,
    name: Seq<char>,
)
    requires
        registered(tool_kinds(specs, image_agent_active)) is Ok,
        registered(tool_kinds(specs, image_agent_active))->Ok_0.contains_key(name),
        registered(tool_kinds(specs, image_agent_active))->Ok_0[name] is ImageAnalysis,
    ensures
        image_agent_active,
        names_image_analysis(name),
{
    let kinds = tool_kinds(specs, image_agent_active);
    registered_kind(kinds, name);
    let i = choose|i: int|
        0 <= i < kinds.len() && lowercased((#[trigger] kinds[i]).0) == name && kinds[i].1
            == registered(kinds)->Ok_0[name];
    image_kinds(specs, image_agent_active, i);
    crate::text::lowercased_idempotent(kinds[i].0);
}

proof fn registered_kind(kinds: Seq<(Seq<char>, ToolKind)>, name: Seq<char>)
    requires
        registered(kinds) is Ok,
        registered(kinds)->Ok_0.contains_key(name),
    ensures
        exists|i: int|
            0 <= i < kinds.len() && lowercased((#[trigger] kinds[i]).0) == name && kinds[i].1
                == registered(kinds)->Ok_0[name],
    decreases kinds.len(),
{
    let rest = kinds.drop_last();
    if lowercased(kinds.last().0) == name {
        assert(kinds[kinds.len() - 1] == kinds.last());
    } else {
        registered_kind(rest, name);
        let i = choose|i: int|
            0 <= i < rest.len() && lowercased((#[trigger] rest[i]).0) == name && rest[i].1
                == registered(rest)->Ok_0[name];
        assert(kinds[i] == rest[i]);
    }
}

proof fn image_kinds(specs: Seq<ToolSpec>, image_agent_active: bool, i: int)
    requires
        0 <= i < tool_kinds(specs, image_agent_active).len(),
        tool_kinds(specs, image_agent_active)[i].1 is ImageAnalysis,
    ensures
        image_agent_active,
        names_image_analysis(tool_kinds(specs, image_agent_active)[i].0),
    decreases specs.len(),
{
    if specs.len() > 0 {
        let before = tool_kinds(specs.drop_last(), image_agent_active);
        let kinds = tool_kinds_of(specs.last(), image_agent_active);
        if i < before.len() {
            image_kinds(specs.drop_last(), image_agent_active, i);
        } else {
            assert(tool_kinds(specs, image_agent_active)[i] == kinds[i - before.len()]);
        }
    }
}

/// Offers in two parts are lowered part by part.
proof fn tools_of_parts(first: Seq<ToolSpec>, second: Seq<ToolSpec>, image_agent_active: bool)
    ensures
        chat_tools(first + second) == chat_tools(first) + chat_tools(second),
        tool_kinds(first + second, image_agent_active) == tool_kinds(first, image_agent_active)
            + tool_kinds(second, image_agent_active),
    decreases second.len(),
{
    if second.len() == 0 {
        assert(first + second =~= first);
        assert(chat_tools(first) + chat_tools(second) =~= chat_tools(first));
        assert(tool_kinds(first, image_agent_active) + tool_kinds(second, image_agent_active)
            =~= tool_kinds(first, image_agent_active));
    } else {
        tools_of_parts(first, second.drop_last(), image_agent_active);
        assert((first + second).drop_last() =~= first + second.drop_last());
        assert((first + second).last() == second.last());
        assert(chat_tools(first + second) =~= chat_tools(first) + chat_tools(second));
        assert(tool_kinds(first + second, image_agent_active) =~= tool_kinds(
            first,
            image_agent_active,
        ) + tool_kinds(second, image_agent_active));
    }
}

/// An offer to generate images is left out: neither the model nor the registry
/// hears of it.
pub proof fn image_generation_left_out(
    first: Seq<ToolSpec>,
    second: Seq<ToolSpec>,
    output_format: Option<String>,
    image_agent_active: bool,
)
    ensures
        ({
            let offered = first.push(ToolSpec::ImageGeneration { output_format }) + second;
            &&& chat_tools(offered) == chat_tools(first + second)
            &&& tool_kinds(offered, image_agent_active) == tool_kinds(
                first + second,
                image_agent_active,
            )
        }),
{
    let extended = first.push(ToolSpec::ImageGeneration { output_format });
    assert(extended.drop_last() =~= first);
    assert(chat_tools(extended) =~= chat_tools(first));
    assert(tool_kinds(extended, image_agent_active) =~= tool_kinds(first, image_agent_active));
    tools_of_parts(extended, second, image_agent_active);
    tools_of_parts(first, second, image_agent_active);
}

/// Whether the image agent is active decides neither which requests are refused
/// nor under which names the tools are registered.
pub proof fn image_agent_keeps_names(specs: Seq<ToolSpec>)
    ensures
        match (registered(tool_kinds(specs, true)), registered(tool_kinds(specs, false))) {
            (Ok(active), Ok(inactive)) => active.dom() == inactive.dom(),
            (Err(active), Err(inactive)) => active == inactive,
            _ => false,
        },
{
    kinds_match_tools(specs, true);
    kinds_match_tools(specs, false);
    assert forall|i: int| 0 <= i < tool_kinds(specs, true).len() implies (#[trigger] tool_kinds(
        specs,
        true,
    )[i]).0 == tool_kinds(specs, false)[i].0 by {
        assert(tool_kinds(specs, false)[i].0 == chat_tools(specs)[i].name);
    }
    registered_by_names(tool_kinds(specs, true), tool_kinds(specs, false));
}

proof fn registered_by_names(a: Seq<(Seq<char>, ToolKind)>, b: Seq<(Seq<char>, ToolKind)>)
    requires
        a.len() == b.len(),
        forall|i: int| 0 <= i < a.len() ==> (#[trigger] a[i]).0 == b[i].0,
    ensures
        match (registered(a), registered(b)) {
            (Ok(first), Ok(second)) => first.dom() == second.dom(),
            (Err(first), Err(second)) => first == second,
            _ => false,
        },
    decreases a.len(),
{
    if a.len() > 0 {
        assert(a[a.len() - 1].0 == b[b.len() - 1].0);
        assert forall|i: int| 0 <= i < a.drop_last().len() implies (#[trigger] a.drop_last()[i]).0
            == b.drop_last()[i].0 by {
            assert(a[i].0 == b[i].0);
        }
        registered_by_names(a.drop_last(), b.drop_last());
        if let (Ok(first), Ok(second)) = (registered(a.drop_last()), registered(b.drop_last())) {
            let name = lowercased(a.last().0);
            assert(first.contains_key(name) == first.dom().contains(name));
            assert(second.contains_key(name) == second.dom().contains(name));
        }
    }
}

} // verus!
