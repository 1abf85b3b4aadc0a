//! What the model is told of the tools that the client offers, and what the
//! registry says of them, tool by tool.
use crate::chat::{MessageView, ToolView};
use crate::config::RolesConfig;
use crate::json::{Json, JsonTree};
use crate::laws::values::{has_field, has_no_fields_but};
use crate::lowering::lowered_turn;
use crate::responses::{NamespaceToolSpec, ResponsesRequest, ToolSpec};
use crate::text::lowercased;
use crate::tools::{
    chat_tools, chat_tools_of, insert_tool, registered, runs_on_server, sorted_tools, tool_kinds,
    tool_kinds_of, ToolKind,
};
use vstd::prelude::*;

verus! {

/// How many functions an offer brings: each function of a namespace, none for
/// an offer to generate images, and one for any other offer.
pub open spec fn functions_in(offered: ToolSpec) -> int {
    match offered {
        ToolSpec::Namespace { name, description, tools } => tools@.len() as int,
        ToolSpec::ImageGeneration { output_format } => 0,
        _ => 1,
    }
}

/// How many functions offers bring.
pub open spec fn functions_offered(specs: Seq<ToolSpec>) -> int
    decreases specs.len(),
{
    if specs.len() == 0 {
        0
    } else {
        functions_offered(specs.drop_last()) + functions_in(specs.last())
    }
}

/// Whether a tool tells the model of a function with its name, its description,
/// its parameters and whether it is strict.
pub open spec fn tells_function(
    tool: ToolView,
    name: String,
    description: String,
    strict: bool,
    parameters: Json,
) -> bool {
    &&& tool.kind == "function"@
    &&& tool.name == name@
    &&& tool.description == description@
    &&& tool.parameters == Some(parameters@)
    &&& tool.strict == strict
}

/// Whether a schema is that of a value of a basic type.
pub open spec fn schema_of_type(schema: JsonTree, kind: Seq<char>) -> bool {
    has_field(schema, "type"@, JsonTree::Text(kind)) && has_no_fields_but(schema, set!["type"@])
}

/// Whether a schema is that of an object with these properties, one of which is
/// required.
pub open spec fn schema_of_object(
    schema: JsonTree,
    properties: JsonTree,
    required: Seq<char>,
) -> bool {
    &&& has_field(schema, "type"@, JsonTree::Text("object"@))
    &&& has_field(schema, "properties"@, properties)
    &&& has_field(schema, "required"@, JsonTree::Array(seq![JsonTree::Text(required)]))
    &&& has_no_fields_but(schema, set!["type"@, "properties"@, "required"@])
}

/// Whether a tool has the parameters of an object with one required text.
pub open spec fn takes_one_text(tool: ToolView, key: Seq<char>) -> bool {
    exists|schema: JsonTree, properties: JsonTree, property: JsonTree|
        {
            &&& tool.parameters == Some(schema)
            &&& #[trigger] schema_of_object(schema, properties, key)
            &&& #[trigger] has_field(properties, key, property)
            &&& schema_of_type(property, "string"@)
            &&& has_no_fields_but(properties, set![key])
        }
}

/// Whether the properties of a shell command are the command as a list of
/// texts, a limit of time, a directory, variables and a user.
pub open spec fn shell_command_properties(properties: JsonTree) -> bool {
    &&& properties is Object
    &&& has_no_fields_but(
        properties,
        set!["command"@, "timeout_ms"@, "working_directory"@, "env"@, "user"@],
    )
    &&& ({
        let fields = properties->Object_0;
        &&& fields.contains_key("command"@)
        &&& fields.contains_key("timeout_ms"@)
        &&& fields.contains_key("working_directory"@)
        &&& fields.contains_key("env"@)
        &&& fields.contains_key("user"@)
        &&& has_field(fields["command"@], "type"@, JsonTree::Text("array"@))
        &&& fields["command"@]->Object_0.contains_key("items"@)
        &&& schema_of_type(fields["command"@]->Object_0["items"@], "string"@)
        &&& schema_of_type(fields["timeout_ms"@], "integer"@)
        &&& schema_of_type(fields["working_directory"@], "string"@)
        &&& has_field(fields["env"@], "type"@, JsonTree::Text("object"@))
        &&& fields["env"@]->Object_0.contains_key("additionalProperties"@)
        &&& schema_of_type(fields["env"@]->Object_0["additionalProperties"@], "string"@)
        &&& schema_of_type(fields["user"@], "string"@)
    })
}

/// Whether a tool tells the model of a function of an offer. The functions of a
/// namespace are told as if each were offered alone.
pub open spec fn tool_shows(offered: ToolSpec, j: int, tool: ToolView) -> bool {
    match offered {
        ToolSpec::Function { name, description, strict, parameters } => tells_function(
            tool,
            name,
            description,
            strict,
            parameters,
        ),
        ToolSpec::Namespace { name: _, description: _, tools } => match tools@[j] {
            NamespaceToolSpec::Function { name, description, strict, parameters } =>
                tells_function(tool, name, description, strict, parameters),
        },
        ToolSpec::ToolSearch { execution, description, parameters } => {
            &&& tool.kind == "function"@
            &&& tool.name == "tool_search"@
            &&& tool.description == description@
            &&& tool.parameters == Some(parameters@)
            &&& !tool.strict
        },
        ToolSpec::LocalShell {  } => {
            &&& tool.kind == "function"@
            &&& tool.name == "local_shell"@
            &&& tool.description == "Execute a shell command locally."@
            &&& !tool.strict
            &&& exists|schema: JsonTree, properties: JsonTree|
                {
                    &&& tool.parameters == Some(schema)
                    &&& #[trigger] schema_of_object(schema, properties, "command"@)
                    &&& shell_command_properties(properties)
                }
        },
        ToolSpec::WebSearch { external_web_access } => {
            &&& tool.kind == "function"@
            &&& tool.name == "web_search"@
            &&& tool.description == "Search the web and return relevant result snippets."@
            &&& !tool.strict
            &&& takes_one_text(tool, "query"@)
        },
        ToolSpec::Custom { name, description, format } => {
            &&& tool.kind == "function"@
            &&& tool.name == name@
            &&& tool.description == description@
                + "\n\nReturn the raw tool input as a string matching the "@ + format.kind@ + " "@
                + format.syntax@ + " format."@
            &&& !tool.strict
            &&& takes_one_text(tool, "input"@)
        },
        ToolSpec::ImageGeneration { output_format } => false,
    }
}

proof fn schema_keys_differ()
    ensures
        "type"@ != "properties"@,
        "type"@ != "required"@,
        "properties"@ != "required"@,
        "command"@ != "timeout_ms"@,
        "command"@ != "working_directory"@,
        "command"@ != "env"@,
        "command"@ != "user"@,
        "timeout_ms"@ != "working_directory"@,
        "timeout_ms"@ != "env"@,
        "timeout_ms"@ != "user"@,
        "working_directory"@ != "env"@,
        "working_directory"@ != "user"@,
        "env"@ != "user"@,
        "type"@ != "items"@,
        "type"@ != "additionalProperties"@,
{
    reveal_strlit("type");
    reveal_strlit("properties");
    reveal_strlit("required");
    reveal_strlit("command");
    reveal_strlit("timeout_ms");
    reveal_strlit("working_directory");
    reveal_strlit("env");
    reveal_strlit("user");
    reveal_strlit("items");
    reveal_strlit("additionalProperties");
    assert("type"@.len() == 4);
    assert("properties"@.len() == 10);
    assert("required"@.len() == 8);
    assert("command"@.len() == 7);
    assert("timeout_ms"@.len() == 10);
    assert("working_directory"@.len() == 17);
    assert("env"@.len() == 3);
    assert("user"@.len() == 4);
    assert("items"@.len() == 5);
    assert("additionalProperties"@.len() == 20);
}

/// An offer is told to the model function by function.
pub proof fn offer_is_told(offered: ToolSpec)
    ensures
        chat_tools_of(offered).len() == functions_in(offered),
        forall|j: int|
            0 <= j < functions_in(offered) ==> tool_shows(
                offered,
                j,
                #[trigger] chat_tools_of(offered)[j],
            ),
{
    schema_keys_differ();
    let told = chat_tools_of(offered);
    match offered {
        ToolSpec::LocalShell {  } => {
            let schema = told[0].parameters->Some_0;
            let properties = schema->Object_0["properties"@];
            assert(schema_of_object(schema, properties, "command"@));
            assert(properties == JsonTree::Object(crate::tools::shell_properties()));
            assert(shell_command_properties(properties));
        },
        ToolSpec::WebSearch { external_web_access } => {
            let schema = told[0].parameters->Some_0;
            let properties = schema->Object_0["properties"@];
            let property = properties->Object_0["query"@];
            assert(schema_of_object(schema, properties, "query"@));
            assert(has_field(properties, "query"@, property));
        },
        ToolSpec::Custom { name, description, format } => {
            let schema = told[0].parameters->Some_0;
            let properties = schema->Object_0["properties"@];
            let property = properties->Object_0["input"@];
            assert(schema_of_object(schema, properties, "input"@));
            assert(has_field(properties, "input"@, property));
        },
        _ => {},
    }
}

/// A function in a namespace is told to the model exactly as the same function
/// offered alone.
pub proof fn namespace_tells_as_alone(
    namespace: String,
    about: String,
    tools: Vec<NamespaceToolSpec>,
    j: int,
    name: String,
    description: String,
    strict: bool,
    parameters: Json,
)
    requires
        0 <= j < tools@.len(),
        tools@[j] == (NamespaceToolSpec::Function { name, description, strict, parameters }),
    ensures
        ({
            let inside = chat_tools_of(
                ToolSpec::Namespace { name: namespace, description: about, tools },
            );
            let alone = chat_tools_of(ToolSpec::Function { name, description, strict, parameters });
            inside.len() == tools@.len() && alone.len() == 1 && inside[j] == alone[0]
        }),
{
    let inside = ToolSpec::Namespace { name: namespace, description: about, tools };
    let alone = ToolSpec::Function { name, description, strict, parameters };
    offer_is_told(inside);
    offer_is_told(alone);
    assert(tool_shows(inside, j, chat_tools_of(inside)[j]));
    assert(tool_shows(alone, 0, chat_tools_of(alone)[0]));
    assert(chat_tools_of(inside)[j] =~= chat_tools_of(alone)[0]);
}

proof fn chat_tools_are_offered(specs: Seq<ToolSpec>)
    ensures
        chat_tools(specs).len() == functions_offered(specs),
        forall|i: int, j: int|
            0 <= i < specs.len() && 0 <= j < functions_in(specs[i]) ==> chat_tools(specs).contains(
                #[trigger] chat_tools_of(specs[i])[j],
            ),
        forall|k: int|
            0 <= k < chat_tools(specs).len() ==> is_told(specs, #[trigger] chat_tools(specs)[k]),
    decreases specs.len(),
{
    if specs.len() > 0 {
        let rest = specs.drop_last();
        let last = specs.len() - 1;
        let before = chat_tools(rest);
        let added = chat_tools_of(specs[last]);
        chat_tools_are_offered(rest);
        offer_is_told(specs[last]);
        assert forall|i: int, j: int|
            0 <= i < specs.len() && 0 <= j < functions_in(specs[i]) implies chat_tools(
            specs,
        ).contains(#[trigger] chat_tools_of(specs[i])[j]) by {
            let tool = chat_tools_of(specs[i])[j];
            if i < last {
                assert(rest[i] == specs[i]);
                assert(before.contains(chat_tools_of(rest[i])[j]));
                let k = choose|k: int| 0 <= k < before.len() && before[k] == tool;
                assert(chat_tools(specs)[k] == tool);
            } else {
                assert(chat_tools(specs)[before.len() + j] == tool);
            }
        }
        assert forall|k: int| 0 <= k < chat_tools(specs).len() implies is_told(
            specs,
            #[trigger] chat_tools(specs)[k],
        ) by {
            let tool = chat_tools(specs)[k];
            if k < before.len() {
                assert(before[k] == tool);
                assert(is_told(rest, before[k]));
                let (i, j) = choose|i: int, j: int|
                    0 <= i < rest.len() && 0 <= j < functions_in(rest[i]) && #[trigger] tool_shows(
                        rest[i],
                        j,
                        tool,
                    );
                assert(rest[i] == specs[i]);
                assert(tool_shows(specs[i], j, tool));
            } else {
                let j = k - before.len();
                assert(added[j] == tool);
                assert(tool_shows(specs[last], j, added[j]));
            }
        }
    }
}

/// Whether a tool tells the model of some function of the offers.
pub open spec fn is_told(specs: Seq<ToolSpec>, tool: ToolView) -> bool {
    exists|i: int, j: int|
        0 <= i < specs.len() && 0 <= j < functions_in(specs[i]) && #[trigger] tool_shows(
            specs[i],
            j,
            tool,
        )
}

proof fn insert_tool_has(sorted: Seq<ToolView>, tool: ToolView)
    ensures
        insert_tool(sorted, tool).len() == sorted.len() + 1,
        insert_tool(sorted, tool).contains(tool),
        forall|other: ToolView| #[trigger]
            sorted.contains(other) ==> insert_tool(sorted, tool).contains(other),
        forall|k: int|
            0 <= k < insert_tool(sorted, tool).len() ==> (#[trigger] insert_tool(sorted, tool)[k])
                == tool || sorted.contains(insert_tool(sorted, tool)[k]),
    decreases sorted.len(),
{
    let result = insert_tool(sorted, tool);
    if sorted.len() > 0 && crate::text::text_before(tool.name, sorted.last().name) {
        let rest = sorted.drop_last();
        let before = insert_tool(rest, tool);
        insert_tool_has(rest, tool);
        assert forall|other: ToolView| before.contains(other) implies result.contains(other) by {
            let k = choose|k: int| 0 <= k < before.len() && before[k] == other;
            assert(result[k] == other);
        }
        assert forall|other: ToolView| #[trigger] sorted.contains(other) implies result.contains(
            other,
        ) by {
            let k = choose|k: int| 0 <= k < sorted.len() && sorted[k] == other;
            if k < rest.len() {
                assert(rest[k] == other);
                assert(rest.contains(other));
            } else {
                assert(result[before.len() as int] == other);
            }
        }
        assert forall|k: int| 0 <= k < result.len() implies (#[trigger] result[k]) == tool
            || sorted.contains(result[k]) by {
            if k < before.len() {
                assert(before[k] == result[k]);
                if before[k] != tool {
                    let n = choose|n: int| 0 <= n < rest.len() && rest[n] == before[k];
                    assert(sorted[n] == result[k]);
                }
            } else {
                assert(sorted[sorted.len() - 1] == result[k]);
            }
        }
    } else {
        assert(result[sorted.len() as int] == tool);
        assert forall|other: ToolView| #[trigger] sorted.contains(other) implies result.contains(
            other,
        ) by {
            let k = choose|k: int| 0 <= k < sorted.len() && sorted[k] == other;
            assert(result[k] == other);
        }
        assert forall|k: int| 0 <= k < result.len() implies (#[trigger] result[k]) == tool
            || sorted.contains(result[k]) by {
            if k < sorted.len() {
                assert(sorted[k] == result[k]);
            }
        }
    }
}

proof fn sorted_tools_have(tools: Seq<ToolView>)
    ensures
        sorted_tools(tools).len() == tools.len(),
        forall|tool: ToolView| #[trigger]
            sorted_tools(tools).contains(tool) <==> tools.contains(tool),
    decreases tools.len(),
{
    if tools.len() > 0 {
        let rest = tools.drop_last();
        sorted_tools_have(rest);
        insert_tool_has(sorted_tools(rest), tools.last());
        assert forall|tool: ToolView| #[trigger] sorted_tools(tools).contains(tool) implies tools.contains(
            tool,
        ) by {
            let k = choose|k: int|
                0 <= k < sorted_tools(tools).len() && sorted_tools(tools)[k] == tool;
            if tool == tools.last() {
                assert(tools[tools.len() - 1] == tool);
            } else {
                assert(sorted_tools(rest).contains(tool));
                let n = choose|n: int| 0 <= n < rest.len() && rest[n] == tool;
                assert(tools[n] == tool);
            }
        }
        assert forall|tool: ToolView| tools.contains(tool) implies #[trigger] sorted_tools(
            tools,
        ).contains(tool) by {
            let n = choose|n: int| 0 <= n < tools.len() && tools[n] == tool;
            if n < rest.len() {
                assert(rest[n] == tool);
                assert(sorted_tools(rest).contains(tool));
            }
        }
    }
}

/// Whether tools tell the model of every function of the offers, and of nothing
/// else.
pub open spec fn tools_tell_offers(specs: Seq<ToolSpec>, tools: Seq<ToolView>) -> bool {
    &&& tools.len() == functions_offered(specs)
    &&& forall|i: int, j: int|
        0 <= i < specs.len() && 0 <= j < functions_in(specs[i]) ==> #[trigger] function_is_told(
            specs[i],
            j,
            tools,
        )
    &&& forall|k: int| 0 <= k < tools.len() ==> is_told(specs, #[trigger] tools[k])
}

/// Whether one of the tools tells the model of a function of an offer.
pub open spec fn function_is_told(offered: ToolSpec, j: int, tools: Seq<ToolView>) -> bool {
    exists|k: int| 0 <= k < tools.len() && tool_shows(offered, j, #[trigger] tools[k])
}

/// The tools that the model is told of tell it of every function of the offers
/// and of nothing else.
pub proof fn sorted_tools_tell_offers(specs: Seq<ToolSpec>)
    ensures
        tools_tell_offers(specs, sorted_tools(chat_tools(specs))),
{
    let offered = chat_tools(specs);
    let tools = sorted_tools(offered);
    chat_tools_are_offered(specs);
    sorted_tools_have(offered);
    assert forall|i: int, j: int|
        0 <= i < specs.len() && 0 <= j < functions_in(specs[i]) implies #[trigger] function_is_told(
        specs[i],
        j,
        tools,
    ) by {
        offer_is_told(specs[i]);
        let tool = chat_tools_of(specs[i])[j];
        assert(tool_shows(specs[i], j, tool));
        assert(offered.contains(tool));
        assert(tools.contains(tool));
        let k = choose|k: int| 0 <= k < tools.len() && tools[k] == tool;
        assert(tool_shows(specs[i], j, tools[k]));
    }
    assert forall|k: int| 0 <= k < tools.len() implies is_told(specs, #[trigger] tools[k]) by {
        assert(tools.contains(tools[k]));
        let n = choose|n: int| 0 <= n < offered.len() && offered[n] == tools[k];
        assert(is_told(specs, offered[n]));
    }
}

/// Every function that a request offers, alone or in a namespace, is told to
/// the model in its turn with its name, its description, its parameters and
/// whether it is strict, and nothing else is told.
pub proof fn turn_tells_offers(
    request: ResponsesRequest,
    baseline: Seq<MessageView>,
    image_agent_active: bool,
    roles: Option<&RolesConfig>,
)
    requires
        lowered_turn(request, baseline, image_agent_active, roles) is Ok,
    ensures
        tools_tell_offers(
            request.tools@,
            lowered_turn(request, baseline, image_agent_active, roles)->Ok_0.tools,
        ),
{
    sorted_tools_tell_offers(request.tools@);
}

/// Whether a kind says who runs a function of an offer: the server an image
/// analysis on turns with the image agent, and otherwise whoever the offer says,
/// under the name and in the namespace of the offer.
pub open spec fn kind_shows(
    offered: ToolSpec,
    j: int,
    image_agent_active: bool,
    name: Seq<char>,
    kind: ToolKind,
) -> bool {
    match offered {
        ToolSpec::Function { name: public, description, strict, parameters } => {
            &&& name == public@
            &&& if image_agent_active && lowercased(public@) == lowercased("analyzeImage"@) {
                kind is ImageAnalysis
            } else {
                kind matches ToolKind::Function { public_name, namespace } && public_name@
                    == public@ && namespace is None
            }
        },
        ToolSpec::Namespace { name: group, description: _, tools } => match tools@[j] {
            NamespaceToolSpec::Function { name: public, description, strict, parameters } => {
                &&& name == public@
                &&& kind matches ToolKind::Function { public_name, namespace: Some(namespace) }
                    && public_name@ == public@ && namespace@ == group@
            },
        },
        ToolSpec::ToolSearch { execution, description, parameters } => name == "tool_search"@
            && kind is ToolSearch,
        ToolSpec::LocalShell {  } => name == "local_shell"@ && kind is LocalShell,
        ToolSpec::WebSearch { external_web_access } => name == "web_search"@ && kind is WebSearch,
        ToolSpec::Custom { name: public, description, format } => name == public@ && (kind matches
            ToolKind::Custom { public_name } && public_name@ == public@),
        ToolSpec::ImageGeneration { output_format } => false,
    }
}

/// Whether a registry has a function of an offer, under its name in lower case,
/// with who runs it.
pub open spec fn function_is_registered(
    offered: ToolSpec,
    j: int,
    image_agent_active: bool,
    registry: Map<Seq<char>, ToolKind>,
) -> bool {
    exists|name: Seq<char>| #[trigger]
        registry.contains_key(lowercased(name)) && kind_shows(
            offered,
            j,
            image_agent_active,
            name,
            registry[lowercased(name)],
        )
}

/// Whether a registry has every function of the offers, under its name in lower
/// case, with who runs it, and nothing else.
pub open spec fn registry_shows_offers(
    specs: Seq<ToolSpec>,
    image_agent_active: bool,
    registry: Map<Seq<char>, ToolKind>,
) -> bool {
    &&& forall|i: int, j: int|
        0 <= i < specs.len() && 0 <= j < functions_in(specs[i])
            ==> #[trigger] function_is_registered(specs[i], j, image_agent_active, registry)
    &&& forall|key: Seq<char>| #[trigger]
        registry.contains_key(key) ==> exists|i: int, j: int, name: Seq<char>|
            0 <= i < specs.len() && 0 <= j < functions_in(specs[i]) && key == lowercased(name)
                && #[trigger] kind_shows(specs[i], j, image_agent_active, name, registry[key])
}

proof fn offer_is_classified(offered: ToolSpec, image_agent_active: bool)
    ensures
        tool_kinds_of(offered, image_agent_active).len() == functions_in(offered),
        forall|j: int|
            0 <= j < functions_in(offered) ==> kind_shows(
                offered,
                j,
                image_agent_active,
                (#[trigger] tool_kinds_of(offered, image_agent_active)[j]).0,
                tool_kinds_of(offered, image_agent_active)[j].1,
            ),
{
}

proof fn registered_extends(kinds: Seq<(Seq<char>, ToolKind)>)
    requires
        registered(kinds) is Ok,
    ensures
        forall|k: int|
            0 <= k < kinds.len() ==> registered(kinds)->Ok_0.contains_key(
                lowercased((#[trigger] kinds[k]).0),
            ) && registered(kinds)->Ok_0[lowercased(kinds[k].0)] == kinds[k].1,
        forall|key: Seq<char>| #[trigger]
            registered(kinds)->Ok_0.contains_key(key) ==> exists|k: int|
                0 <= k < kinds.len() && key == lowercased((#[trigger] kinds[k]).0)
                    && registered(kinds)->Ok_0[key] == kinds[k].1,
    decreases kinds.len(),
{
    if kinds.len() > 0 {
        let rest = kinds.drop_last();
        registered_extends(rest);
        let registry = registered(kinds)->Ok_0;
        let last = kinds.len() - 1;
        assert forall|k: int| 0 <= k < kinds.len() implies registry.contains_key(
            lowercased((#[trigger] kinds[k]).0),
        ) && registry[lowercased(kinds[k].0)] == kinds[k].1 by {
            if k < last {
                assert(rest[k] == kinds[k]);
            }
        }
        assert forall|key: Seq<char>| #[trigger] registry.contains_key(key) implies exists|k: int|
            0 <= k < kinds.len() && key == lowercased((#[trigger] kinds[k]).0) && registry[key]
                == kinds[k].1 by {
            if key == lowercased(kinds[last].0) {
                assert(registry[key] == kinds[last].1);
            } else {
                assert(registered(rest)->Ok_0.contains_key(key));
                let k = choose|k: int|
                    0 <= k < rest.len() && key == lowercased((#[trigger] rest[k]).0)
                        && registered(rest)->Ok_0[key] == rest[k].1;
                assert(kinds[k] == rest[k]);
                assert(registry[key] == kinds[k].1);
            }
        }
    }
}

proof fn kinds_are_offered(specs: Seq<ToolSpec>, image_agent_active: bool)
    ensures
        forall|i: int, j: int|
            0 <= i < specs.len() && 0 <= j < functions_in(specs[i]) ==> tool_kinds(
                specs,
                image_agent_active,
            ).contains(#[trigger] tool_kinds_of(specs[i], image_agent_active)[j]),
        forall|k: int|
            0 <= k < tool_kinds(specs, image_agent_active).len() ==> is_classified(
                specs,
                image_agent_active,
                #[trigger] tool_kinds(specs, image_agent_active)[k],
            ),
    decreases specs.len(),
{
    if specs.len() > 0 {
        let rest = specs.drop_last();
        let last = specs.len() - 1;
        let before = tool_kinds(rest, image_agent_active);
        let all = tool_kinds(specs, image_agent_active);
        let added = tool_kinds_of(specs[last], image_agent_active);
        kinds_are_offered(rest, image_agent_active);
        offer_is_classified(specs[last], image_agent_active);
        assert forall|i: int, j: int|
            0 <= i < specs.len() && 0 <= j < functions_in(specs[i]) implies all.contains(
            #[trigger] tool_kinds_of(specs[i], image_agent_active)[j],
        ) by {
            let kind = tool_kinds_of(specs[i], image_agent_active)[j];
            if i < last {
                assert(rest[i] == specs[i]);
                assert(before.contains(tool_kinds_of(rest[i], image_agent_active)[j]));
                let k = choose|k: int| 0 <= k < before.len() && before[k] == kind;
                assert(all[k] == kind);
            } else {
                assert(all[before.len() + j] == kind);
            }
        }
        assert forall|k: int| 0 <= k < all.len() implies is_classified(
            specs,
            image_agent_active,
            #[trigger] all[k],
        ) by {
            let kind = all[k];
            if k < before.len() {
                assert(before[k] == kind);
                assert(is_classified(rest, image_agent_active, before[k]));
                let (i, j) = choose|i: int, j: int|
                    0 <= i < rest.len() && 0 <= j < functions_in(rest[i]) && #[trigger] kind_shows(
                        rest[i],
                        j,
                        image_agent_active,
                        kind.0,
                        kind.1,
                    );
                assert(rest[i] == specs[i]);
                assert(kind_shows(specs[i], j, image_agent_active, kind.0, kind.1));
            } else {
                let j = k - before.len();
                assert(added[j] == kind);
                assert(kind_shows(specs[last], j, image_agent_active, added[j].0, added[j].1));
            }
        }
    }
}

spec fn is_classified(
    specs: Seq<ToolSpec>,
    image_agent_active: bool,
    kind: (Seq<char>, ToolKind),
) -> bool {
    exists|i: int, j: int|
        0 <= i < specs.len() && 0 <= j < functions_in(specs[i]) && #[trigger] kind_shows(
            specs[i],
            j,
            image_agent_active,
            kind.0,
            kind.1,
        )
}

/// The registry of a turn has every function that the request offers, with who
/// runs it and under which name, and nothing else.
pub proof fn turn_registers_offers(
    request: ResponsesRequest,
    baseline: Seq<MessageView>,
    image_agent_active: bool,
    roles: Option<&RolesConfig>,
)
    requires
        lowered_turn(request, baseline, image_agent_active, roles) is Ok,
    ensures
        registry_shows_offers(
            request.tools@,
            image_agent_active,
            lowered_turn(request, baseline, image_agent_active, roles)->Ok_0.tool_registry,
        ),
{
    registry_shows_what_is_offered(request.tools@, image_agent_active);
}

/// The registry of offers has every function of them, with who runs it and
/// under which name, and nothing else.
pub proof fn registry_shows_what_is_offered(specs: Seq<ToolSpec>, image_agent_active: bool)
    requires
        registered(tool_kinds(specs, image_agent_active)) is Ok,
    ensures
        registry_shows_offers(
            specs,
            image_agent_active,
            registered(tool_kinds(specs, image_agent_active))->Ok_0,
        ),
{
    let kinds = tool_kinds(specs, image_agent_active);
    let registry = registered(kinds)->Ok_0;
    kinds_are_offered(specs, image_agent_active);
    registered_extends(kinds);
    assert forall|i: int, j: int|
        0 <= i < specs.len() && 0 <= j < functions_in(specs[i])
        implies #[trigger] function_is_registered(specs[i], j, image_agent_active, registry) by {
        offer_is_classified(specs[i], image_agent_active);
        let kind = tool_kinds_of(specs[i], image_agent_active)[j];
        assert(kinds.contains(kind));
        let k = choose|k: int| 0 <= k < kinds.len() && kinds[k] == kind;
        assert(registry.contains_key(lowercased(kinds[k].0)));
        assert(kind_shows(specs[i], j, image_agent_active, kind.0, registry[lowercased(kind.0)]));
    }
    assert forall|key: Seq<char>| #[trigger] registry.contains_key(key) implies exists|
        i: int,
        j: int,
        name: Seq<char>,
    |
        0 <= i < specs.len() && 0 <= j < functions_in(specs[i]) && key == lowercased(name)
            && #[trigger] kind_shows(specs[i], j, image_agent_active, name, registry[key]) by {
        let k = choose|k: int|
            0 <= k < kinds.len() && key == lowercased((#[trigger] kinds[k]).0) && registry[key]
                == kinds[k].1;
        assert(is_classified(specs, image_agent_active, kinds[k]));
    }
}

/// The server runs web searches where web search is active and image analyses
/// where the image agent is, and no other tool.
pub proof fn server_runs_its_own_tools(
    kind: ToolKind,
    web_search_active: bool,
    image_agent_active: bool,
)
    ensures
        runs_on_server(kind, web_search_active, image_agent_active) <==> (kind is WebSearch
            && web_search_active) || (kind is ImageAnalysis && image_agent_active),
{
}

} // verus!
