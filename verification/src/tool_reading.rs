//! Which tools a server may expose, what their schemas describe, and which calls
//! fit them.

use vstd::prelude::*;
use vstd::utf8::*;
use crate::json;
use crate::json::{Fields, JsonFault};
use crate::server;
use crate::server::{SchemaModel, ToolModel};
use crate::server_reading;
use crate::text;

verus! {

// ---------------------------------------------------------------------------
// Schemas
// ---------------------------------------------------------------------------

/// Whether a text is the schema of a string and nothing more.
pub open spec fn is_string_schema(schema: Seq<char>) -> bool {
    json::object_fields(schema) matches Ok(fields) && fields.len() == 1 && fields[0].0 == "type"@
        && json::string_value(fields[0].1) == Ok::<Seq<char>, JsonFault>("string"@)
}

/// Whether fields describe arguments by the given properties and the given required
/// names: they say that arguments are an object, that no other properties are
/// allowed, and nothing else.
pub open spec fn describes(fields: Fields, properties: Fields, required: Seq<Seq<char>>) -> bool {
    &&& forall|i: int|
        0 <= i < fields.len() ==> (#[trigger] fields[i]).0 == "type"@ || fields[i].0
            == "properties"@ || fields[i].0 == "required"@ || fields[i].0
            == "additionalProperties"@
    &&& exists|v: Seq<char>| #[trigger]
        server_reading::has(fields, "type"@, v) && json::string_value(v) == Ok::<
            Seq<char>,
            JsonFault,
        >("object"@)
    &&& server_reading::has(fields, "additionalProperties"@, "false"@)
    &&& if server_reading::names(fields, "properties"@) {
        exists|v: Seq<char>| #[trigger]
            server_reading::has(fields, "properties"@, v) && json::object_fields(v) == Ok::<
                Fields,
                JsonFault,
            >(properties)
    } else {
        properties == Seq::<(Seq<char>, Seq<char>)>::empty()
    }
    &&& if server_reading::names(fields, "required"@) {
        exists|v: Seq<char>| #[trigger]
            server_reading::has(fields, "required"@, v) && json::string_array(v) == Ok::<
                Seq<Seq<char>>,
                JsonFault,
            >(required)
    } else {
        required == Seq::<Seq<char>>::empty()
    }
}

/// Whether properties are strings under short names, and the required names are
/// some of theirs, each once.
pub open spec fn fit_together(properties: Fields, required: Seq<Seq<char>>) -> bool {
    &&& forall|i: int|
        0 <= i < properties.len() ==> server_reading::is_short_text((#[trigger] properties[i]).0, 128)
            && is_string_schema(properties[i].1)
    &&& forall|i: int|
        0 <= i < required.len() ==> server_reading::names(properties, #[trigger] required[i])
    &&& forall|i: int, j: int|
        0 <= i < j < required.len() ==> #[trigger] required[i] != #[trigger] required[j]
}

proof fn lemma_property(name: Seq<char>, schema: Seq<char>)
    ensures
        server::is_string_property(name, schema) <==> server_reading::is_short_text(name, 128)
            && is_string_schema(schema),
{
    server_reading::lemma_short(name, 128);
    if json::object_fields(schema) is Ok {
        let fields = json::object_fields(schema)->Ok_0;
        server_reading::law_fields_are_found_under_their_keys(schema, fields, "type"@);
        if fields.len() == 1 {
            if fields[0].0 == "type"@ {
                assert(fields[0] == ("type"@, fields[0].1));
                assert(server_reading::has(fields, "type"@, fields[0].1));
            } else {
                assert(!server_reading::names(fields, "type"@));
            }
        }
    }
}

/// A schema is one of this server's exactly if it describes an object of strings
/// under short names, some of them required, and nothing else; and then it describes
/// these names.
#[verifier::spinoff_prover]
#[verifier::rlimit(40)]
pub proof fn law_schemas_describe_strings(s: Seq<char>, fields: Fields, properties: Fields, required: Seq<Seq<char>>)
    requires
        json::object_fields(s) == Ok::<Fields, JsonFault>(fields),
        describes(fields, properties, required),
    ensures
        server::schema_of(s) is Some <==> fit_together(properties, required),
        server::schema_of(s) matches Some(schema) ==> {
            &&& forall|n: Seq<char>| #[trigger]
                schema.properties.contains(n) <==> server_reading::names(properties, n)
            &&& forall|n: Seq<char>| #[trigger]
                schema.required.contains(n) <==> required.contains(n)
        },
{
    server_reading::law_fields_are_found_under_their_keys(s, fields, "type"@);
    server_reading::law_fields_are_found_under_their_keys(s, fields, "properties"@);
    server_reading::law_fields_are_found_under_their_keys(s, fields, "required"@);
    server_reading::law_fields_are_found_under_their_keys(s, fields, "additionalProperties"@);
    assert(server_reading::has(fields, "additionalProperties"@, "false"@));
    assert forall|i: int| 0 <= i < properties.len() implies server::is_string_property(
        (#[trigger] properties[i]).0,
        properties[i].1,
    ) == (server_reading::is_short_text(properties[i].0, 128) && is_string_schema(
        properties[i].1,
    )) by {
        lemma_property(properties[i].0, properties[i].1);
    }
    assert forall|n: Seq<char>| #[trigger]
        server::field_names(properties).contains(n) <==> server_reading::names(properties, n) by {}
    if fit_together(properties, required) {
        assert(required.no_duplicates()) by {
            assert forall|i: int, j: int|
                0 <= i < required.len() && 0 <= j < required.len() && i != j implies required[i]
                != required[j] by {
                if i < j {
                    assert(required[i] != required[j]);
                } else {
                    assert(required[j] != required[i]);
                }
            }
        }
    }
}

/// A text that describes nothing of the kind is no schema of this server.
pub proof fn law_other_schemas_are_refused(s: Seq<char>)
    requires
        server::schema_of(s) is Some,
    ensures
        json::object_fields(s) matches Ok(fields) && exists|properties: Fields, required: Seq<
            Seq<char>,
        >| #[trigger] describes(fields, properties, required),
{
    let fields = json::object_fields(s)->Ok_0;
    server_reading::law_fields_are_found_under_their_keys(s, fields, "type"@);
    server_reading::law_fields_are_found_under_their_keys(s, fields, "properties"@);
    server_reading::law_fields_are_found_under_their_keys(s, fields, "required"@);
    server_reading::law_fields_are_found_under_their_keys(s, fields, "additionalProperties"@);
    let properties = server::optional_fields(json::lookup(fields, "properties"@))->0;
    let required = server::optional_strings(json::lookup(fields, "required"@))->0;
    assert(server_reading::has(fields, "type"@, json::lookup(fields, "type"@)->0));
    assert(server_reading::has(fields, "additionalProperties"@, "false"@));
    if json::lookup(fields, "properties"@) is Some {
        assert(server_reading::has(
            fields,
            "properties"@,
            json::lookup(fields, "properties"@)->0,
        ));
    }
    if json::lookup(fields, "required"@) is Some {
        assert(server_reading::has(fields, "required"@, json::lookup(fields, "required"@)->0));
    }
    assert forall|i: int| 0 <= i < fields.len() implies (#[trigger] fields[i]).0 == "type"@
        || fields[i].0 == "properties"@ || fields[i].0 == "required"@ || fields[i].0
        == "additionalProperties"@ by {
        assert(server::is_schema_key(fields[i].0));
    }
    assert(describes(fields, properties, required));
}

// ---------------------------------------------------------------------------
// Arguments
// ---------------------------------------------------------------------------

/// Arguments are taken exactly if they are one object, every field of which is a
/// property of the schema and holds a string, and all that is required is there.
pub proof fn law_arguments_that_fit(schema: SchemaModel, arguments: Seq<char>)
    requires
        schema.required.subset_of(schema.properties),
    ensures
        server::arguments_refusal(schema, arguments) is None <==> (json::object_fields(
            arguments,
        ) matches Ok(fields) && {
            &&& forall|i: int|
                0 <= i < fields.len() ==> schema.properties.contains((#[trigger] fields[i]).0)
                    && json::string_value(fields[i].1) is Ok
            &&& forall|n: Seq<char>| #[trigger]
                schema.required.contains(n) ==> server_reading::names(fields, n)
        }),
{
    if json::object_fields(arguments) is Ok {
        let fields = json::object_fields(arguments)->Ok_0;
        json::law_accepted_fields_are_distinct(arguments);
        assert forall|n: Seq<char>| #[trigger]
            server_reading::names(fields, n) <==> json::lookup(fields, n) is Some by {
            server_reading::law_fields_are_found_under_their_keys(arguments, fields, n);
        }
        assert forall|i: int| 0 <= i < fields.len() implies json::lookup(
            fields,
            (#[trigger] fields[i]).0,
        ) == Some(fields[i].1) by {
            json::lemma_lookup_at(fields, i);
        }
        if server::arguments_refusal(schema, arguments) is None {
            assert forall|i: int| 0 <= i < fields.len() implies schema.properties.contains(
                (#[trigger] fields[i]).0,
            ) && json::string_value(fields[i].1) is Ok by {
                assert(server::is_absent_or_string(fields, fields[i].0));
            }
        }
        if forall|i: int|
            0 <= i < fields.len() ==> schema.properties.contains((#[trigger] fields[i]).0)
                && json::string_value(fields[i].1) is Ok {
            assert forall|n: Seq<char>| #[trigger]
                schema.properties.contains(n) implies server::is_absent_or_string(fields, n) by {
                if json::lookup(fields, n) is Some {
                    let i = choose|i: int| 0 <= i < fields.len() && (#[trigger] fields[i]).0 == n;
                    assert(server_reading::names(fields, n));
                    assert(fields[i].0 == n);
                }
            }
        }
    }
}

/// A call is let through exactly if a tool of that name is exposed and its
/// arguments fit the schema of the first one.
pub proof fn law_calls_that_are_let_through(tools: Seq<ToolModel>, tool: Seq<char>, arguments: Seq<char>, at: int)
    requires
        0 <= at < tools.len(),
        tools[at].name == tool,
        forall|i: int| 0 <= i < at ==> (#[trigger] tools[i]).name != tool,
    ensures
        server::gate_of(tools, tool).allowed,
        server::gate_of(tools, tool).exposed_tool == Some(tool),
        server::schema_of(tools[at].input_schema) matches Some(schema) ==> server::call_refusal(
            tools,
            tool,
            arguments,
        ) == server::arguments_refusal(schema, arguments),
        server::schema_of(tools[at].input_schema) is None ==> server::call_refusal(
            tools,
            tool,
            arguments,
        ) is Some,
{
    lemma_named_at(tools, tool, 0, at);
    assert(tools[at].name == tool);
}

proof fn lemma_named_at(tools: Seq<ToolModel>, tool: Seq<char>, from: int, at: int)
    requires
        0 <= from <= at < tools.len(),
        tools[at].name == tool,
        forall|i: int| from <= i < at ==> (#[trigger] tools[i]).name != tool,
    ensures
        server::tool_named(tools, tool, from) == Some(tools[at]),
    decreases at - from,
{
    if from < at {
        assert(tools[from].name != tool);
        lemma_named_at(tools, tool, from + 1, at);
    }
}

/// A tool that no descriptor names is not let through.
pub proof fn law_unnamed_tools_are_not_let_through(tools: Seq<ToolModel>, tool: Seq<char>, arguments: Seq<char>)
    requires
        forall|i: int| 0 <= i < tools.len() ==> (#[trigger] tools[i]).name != tool,
    ensures
        !server::gate_of(tools, tool).allowed,
        server::gate_of(tools, tool).exposed_tool is None,
        server::call_refusal(tools, tool, arguments) is Some,
{
    server::law_hidden_tools_are_refused_alike(tools, tool, arguments);
}

/// An argument is handed out as the string that was given for it, if one was; what
/// is no string is refused.
pub proof fn law_arguments_are_handed_out(arguments: Seq<char>, fields: Fields, name: Seq<char>, value: Seq<char>)
    requires
        json::object_fields(arguments) == Ok::<Fields, JsonFault>(fields),
    ensures
        server_reading::has(fields, name, value) ==> match json::string_value(value) {
            Ok(content) => server::string_argument_of(arguments, name) == Ok::<
                Option<Seq<char>>,
                crate::error::ErrorModel,
            >(Some(content)),
            Err(_) => server::string_argument_of(arguments, name) is Err,
        },
        !server_reading::names(fields, name) ==> server::string_argument_of(arguments, name) == Ok::<
            Option<Seq<char>>,
            crate::error::ErrorModel,
        >(None),
{
    server_reading::law_fields_are_found_under_their_keys(arguments, fields, name);
}

// ---------------------------------------------------------------------------
// Tools
// ---------------------------------------------------------------------------

/// A tool may be exposed exactly if its name is letters, digits, dots, underscores
/// and hyphens, at most 128 of them and at least one; its description is not empty,
/// at most 1024 bytes and free of control characters; and its schema is one of this
/// server's, of at most 16384 bytes.
pub proof fn law_tools_that_may_be_exposed(tool: ToolModel)
    ensures
        server::tool_refusal(tool) is None <==> {
            &&& 1 <= tool.name.len() <= 128
            &&& forall|i: int|
                0 <= i < tool.name.len() ==> ('a' <= #[trigger] tool.name[i] <= 'z' || 'A'
                    <= tool.name[i] <= 'Z' || '0' <= tool.name[i] <= '9' || tool.name[i] == '.'
                    || tool.name[i] == '_' || tool.name[i] == '-')
            &&& server_reading::is_short_text(tool.description, 1024)
            &&& 1 <= encode_utf8(tool.input_schema).len() <= 16384
            &&& server::schema_of(tool.input_schema) is Some
        },
{
    server_reading::lemma_short(tool.description, 1024);
    if server::is_tool_name(tool.name) {
        assert forall|i: int| 0 <= i < tool.name.len() implies ('a' <= #[trigger] tool.name[i]
            <= 'z' || 'A' <= tool.name[i] <= 'Z' || '0' <= tool.name[i] <= '9' || tool.name[i]
            == '.' || tool.name[i] == '_' || tool.name[i] == '-') by {
            assert(server::is_name_char(tool.name[i]));
        }
    }
    text::lemma_encoded_len_bound(tool.input_schema);
    if tool.input_schema.len() == 0 {
        assert(tool.input_schema =~= Seq::<char>::empty());
        is_ascii_chars_encode_utf8(tool.input_schema);
    }
}

/// Tools may be exposed together exactly if there is one, each may be exposed, and
/// no two share a name.
pub proof fn law_surfaces_that_may_be_exposed(tools: Seq<ToolModel>)
    ensures
        server::surface_refusal(tools) is None <==> {
            &&& tools.len() > 0
            &&& forall|i: int|
                0 <= i < tools.len() ==> server::tool_refusal(#[trigger] tools[i]) is None
            &&& forall|i: int, j: int|
                0 <= i < j < tools.len() ==> (#[trigger] tools[i]).name != (
                #[trigger] tools[j]).name
        },
{
    if server::surface_refusal(tools) is None {
        server::law_accepted_surfaces_are_valid(tools);
    } else if tools.len() > 0 {
        lemma_refused_from(tools, 0);
    }
}

proof fn lemma_refused_from(tools: Seq<ToolModel>, at: int)
    requires
        0 <= at <= tools.len(),
        server::tools_refusal(tools, at) is Some,
    ensures
        (exists|i: int| 0 <= i < tools.len() && server::tool_refusal(#[trigger] tools[i]) is Some)
            || (exists|i: int, j: int|
            0 <= i < j < tools.len() && (#[trigger] tools[i]).name == (#[trigger] tools[j]).name),
    decreases tools.len() - at,
{
    if server::tool_refusal(tools[at]) is Some {
    } else if server::is_named(tools, at, tools[at].name) {
        let i = choose|i: int|
            0 <= i < at && i < tools.len() && (#[trigger] tools[i]).name == tools[at].name;
        assert(tools[i].name == tools[at].name);
    } else {
        lemma_refused_from(tools, at + 1);
    }
}

} // verus!
