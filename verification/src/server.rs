//! The tools that a server exposes: their descriptors, the arguments they
//! accept, and the admission of tools.

use vstd::prelude::*;
use vstd::string::*;
use vstd::utf8::*;
use crate::collections::NameSet;
use crate::error::{ErrorKind, ErrorModel, EvaError};
use crate::http_reply;
use crate::json;
use crate::json::{
    parse_json_object_fields, parse_json_string, parse_json_string_array, Fields, JsonFields,
    JsonFault,
};
use crate::json_text;
use crate::text;
use crate::text::{byte_len, chars_of, decimal_usize, str_eq};

verus! {

pub const RESPONSIBILITY: &'static str = "controlled MCP server exposure";

pub const MAX_TOOL_NAME_BYTES: usize = 128;

pub const MAX_TOOL_DESCRIPTION_BYTES: usize = 1024;

pub const MAX_TOOL_SCHEMA_BYTES: usize = 16_384;

/// The schema of a tool without arguments.
pub const ADAPTER_LIST_SCHEMA: &'static str = "{\"type\":\"object\",\"additionalProperties\":false}";

/// The schema of a tool that takes an adapter.
pub const ADAPTER_PROBE_SCHEMA: &'static str =
    "{\"type\":\"object\",\"properties\":{\"adapter_id\":{\"type\":\"string\"}},\"required\":[\"adapter_id\"],\"additionalProperties\":false}";

// ---------------------------------------------------------------------------
// Schemas
// ---------------------------------------------------------------------------

/// The string arguments that a tool takes, and those of them it needs.
#[verifier::ext_equal]
pub struct SchemaModel {
    pub properties: Set<Seq<char>>,
    pub required: Set<Seq<char>>,
}

pub open spec fn is_schema_key(name: Seq<char>) -> bool {
    name == "type"@ || name == "properties"@ || name == "required"@ || name
        == "additionalProperties"@
}

/// Whether a field holds the given string.
pub open spec fn field_is(fields: Fields, key: Seq<char>, content: Seq<char>) -> bool {
    json::lookup(fields, key) matches Some(value) && json::string_value(value) == Ok::<
        Seq<char>,
        JsonFault,
    >(content)
}

pub open spec fn has_control(s: Seq<char>) -> bool {
    exists|i: int| 0 <= i < s.len() && json::is_control(#[trigger] s[i])
}

/// Whether a property is a named string.
pub open spec fn is_string_property(name: Seq<char>, schema: Seq<char>) -> bool {
    &&& 0 < name.len()
    &&& encode_utf8(name).len() <= MAX_TOOL_NAME_BYTES
    &&& !has_control(name)
    &&& json::object_fields(schema) matches Ok(fields) && fields.len() == 1 && field_is(
        fields,
        "type"@,
        "string"@,
    )
}

/// The names of the fields.
pub open spec fn field_names(fields: Fields) -> Set<Seq<char>> {
    Set::new(
        |n: Seq<char>| exists|i: int| 0 <= i < fields.len() && (#[trigger] fields[i]).0 == n,
    )
}

/// The fields of an optional object; none where it is absent.
pub open spec fn optional_fields(value: Option<Seq<char>>) -> Option<Fields> {
    match value {
        None => Some(Seq::empty()),
        Some(text) => match json::object_fields(text) {
            Ok(fields) => Some(fields),
            Err(_) => None,
        },
    }
}

/// The strings of an optional array; none where it is absent.
pub open spec fn optional_strings(value: Option<Seq<char>>) -> Option<Seq<Seq<char>>> {
    match value {
        None => Some(Seq::empty()),
        Some(text) => match json::string_array(text) {
            Ok(strings) => Some(strings),
            Err(_) => None,
        },
    }
}

/// The arguments that a schema describes: an object of strings that accepts no
/// other fields. Anything else is no schema of this server.
pub open spec fn schema_of(s: Seq<char>) -> Option<SchemaModel> {
    match json::object_fields(s) {
        Err(_) => None,
        Ok(fields) => {
            let properties = optional_fields(json::lookup(fields, "properties"@));
            let required = optional_strings(json::lookup(fields, "required"@));
            if !(forall|i: int| 0 <= i < fields.len() ==> is_schema_key((#[trigger] fields[i]).0))
                || !field_is(fields, "type"@, "object"@) || json::lookup(
                fields,
                "additionalProperties"@,
            ) != Some("false"@) {
                None
            } else if properties is None || required is None {
                None
            } else if !(forall|i: int|
                0 <= i < properties->0.len() ==> is_string_property(
                    (#[trigger] properties->0[i]).0,
                    properties->0[i].1,
                )) {
                None
            } else if !(forall|i: int|
                0 <= i < required->0.len() ==> field_names(properties->0).contains(
                    #[trigger] required->0[i],
                )) || !required->0.no_duplicates() {
                None
            } else {
                Some(
                    SchemaModel {
                        properties: field_names(properties->0),
                        required: required->0.to_set(),
                    },
                )
            }
        },
    }
}

pub open spec fn schema_error_model() -> ErrorModel {
    ErrorModel::new(
        ErrorKind::InvalidArgument,
        "MCP server tool input schema is unsupported or invalid"@,
    ).code("mcp_server_tool_schema_invalid"@)
}

fn schema_error() -> (error: EvaError)
    ensures
        error@ == schema_error_model(),
{
    EvaError::invalid_argument(
        "MCP server tool input schema is unsupported or invalid",
    ).with_provider_code("mcp_server_tool_schema_invalid")
}

/// The string arguments that a tool takes, and those of them it needs.
pub struct ToolInputSchema {
    properties: NameSet,
    required: NameSet,
}

impl View for ToolInputSchema {
    type V = SchemaModel;

    closed spec fn view(&self) -> SchemaModel {
        SchemaModel { properties: self.properties@, required: self.required@ }
    }
}

pub fn control_in(s: &str) -> (found: bool)
    ensures
        found == has_control(s@),
{
    let chars = chars_of(s);
    let mut i: usize = 0;
    while i < chars.len()
        invariant
            i <= chars@.len(),
            chars@ == s@,
            forall|k: int| 0 <= k < i ==> !json::is_control(#[trigger] s@[k]),
        decreases chars@.len() - i,
    {
        let c = chars[i];
        if (c as u32) < 0x20 || (0x7f <= c as u32 && c as u32 <= 0x9f) {
            assert(json::is_control(s@[i as int]));
            return true;
        }
        i += 1;
    }
    false
}

fn holds_string(fields: &JsonFields, key: &str, content: &str) -> (same: bool)
    ensures
        same == field_is(fields@, key@, content@),
{
    match fields.get(key) {
        Some(value) => match parse_json_string(value) {
            Ok(found) => str_eq(found.as_str(), content),
            Err(_) => false,
        },
        None => false,
    }
}

fn string_property(name: &str, schema: &str) -> (valid: bool)
    ensures
        valid == is_string_property(name@, schema@),
{
    if name.is_empty() || byte_len(name) > MAX_TOOL_NAME_BYTES || control_in(name) {
        return false;
    }
    match parse_json_object_fields(schema) {
        Ok(fields) => fields.len() == 1 && holds_string(&fields, "type", "string"),
        Err(_) => false,
    }
}

/// The names of the fields, when each of them is a string property.
fn property_names(fields: &JsonFields) -> (names: Option<NameSet>)
    ensures
        match names {
            Some(set) => set.wf() && set@ == field_names(fields@) && forall|i: int|
                0 <= i < fields@.len() ==> is_string_property(
                    (#[trigger] fields@[i]).0,
                    fields@[i].1,
                ),
            None => !(forall|i: int|
                0 <= i < fields@.len() ==> is_string_property(
                    (#[trigger] fields@[i]).0,
                    fields@[i].1,
                )),
        },
{
    let mut names = NameSet::new();
    let mut i: usize = 0;
    while i < fields.len()
        invariant
            i <= fields@.len(),
            names.wf(),
            forall|n: Seq<char>| #[trigger]
                names@.contains(n) <==> exists|k: int|
                    0 <= k < i && (#[trigger] fields@[k]).0 == n,
            forall|k: int|
                0 <= k < i ==> is_string_property((#[trigger] fields@[k]).0, fields@[k].1),
        decreases fields@.len() - i,
    {
        if !string_property(fields.key_at(i), fields.value_at(i)) {
            assert(!is_string_property(fields@[i as int].0, fields@[i as int].1));
            return None;
        }
        let ghost before = names@;
        names.insert(fields.key_at(i).to_owned());
        proof {
            assert forall|n: Seq<char>| #[trigger]
                names@.contains(n) <==> exists|k: int|
                    0 <= k < i + 1 && (#[trigger] fields@[k]).0 == n by {
                if n == fields@[i as int].0 {
                    assert(fields@[i as int].0 == n);
                } else if before.contains(n) {
                    let k = choose|k: int| 0 <= k < i && (#[trigger] fields@[k]).0 == n;
                    assert(fields@[k].0 == n);
                }
            }
        }
        i += 1;
    }
    assert(names@ =~= field_names(fields@));
    Some(names)
}

/// The names as a set, when each is known and none occurs twice.
fn required_names(values: &Vec<String>, known: &NameSet) -> (names: Option<NameSet>)
    requires
        known.wf(),
    ensures
        match names {
            Some(set) => {
                &&& set.wf()
                &&& set@ == text::texts(values@).to_set()
                &&& text::texts(values@).no_duplicates()
                &&& forall|i: int|
                    0 <= i < values@.len() ==> known@.contains(
                        #[trigger] text::texts(values@)[i],
                    )
            },
            None => !text::texts(values@).no_duplicates() || !(forall|i: int|
                0 <= i < values@.len() ==> known@.contains(#[trigger] text::texts(values@)[i])),
        },
{
    let ghost all = text::texts(values@);
    let mut names = NameSet::new();
    let mut i: usize = 0;
    while i < values.len()
        invariant
            i <= values@.len(),
            all == text::texts(values@),
            known.wf(),
            names.wf(),
            forall|n: Seq<char>| #[trigger]
                names@.contains(n) <==> exists|k: int| 0 <= k < i && #[trigger] all[k] == n,
            forall|k: int| 0 <= k < i ==> known@.contains(#[trigger] all[k]),
            forall|j: int, k: int| 0 <= j < k < i ==> #[trigger] all[j] != #[trigger] all[k],
        decreases values@.len() - i,
    {
        let value = values[i].as_str();
        assert(all[i as int] == value@);
        if !known.contains(value) {
            return None;
        }
        if names.contains(value) {
            proof {
                let k = choose|k: int| 0 <= k < i && #[trigger] all[k] == value@;
                assert(all[k] == all[i as int]);
                assert(!all.no_duplicates());
            }
            return None;
        }
        let ghost before = names@;
        names.insert(value.to_owned());
        proof {
            assert forall|n: Seq<char>| #[trigger]
                names@.contains(n) <==> exists|k: int|
                    0 <= k < i + 1 && #[trigger] all[k] == n by {
                if n == all[i as int] {
                    assert(all[i as int] == n);
                } else if before.contains(n) {
                    let k = choose|k: int| 0 <= k < i && #[trigger] all[k] == n;
                    assert(all[k] == n);
                }
            }
        }
        i += 1;
    }
    assert(names@ =~= all.to_set()) by {
        assert forall|n: Seq<char>| names@.contains(n) <==> all.to_set().contains(n) by {
            if all.contains(n) {
                let k = choose|k: int| 0 <= k < all.len() && #[trigger] all[k] == n;
                assert(all[k] == n);
            }
        }
    }
    assert(all.no_duplicates()) by {
        assert forall|j: int, k: int|
            0 <= j < all.len() && 0 <= k < all.len() && j != k implies all[j] != all[k] by {
            if j < k {
                assert(all[j] != all[k]);
            } else {
                assert(all[k] != all[j]);
            }
        }
    }
    Some(names)
}

impl ToolInputSchema {
    pub closed spec fn wf(&self) -> bool {
        self.properties.wf() && self.required.wf()
    }

    /// Read a schema.
    pub fn parse(schema: &str) -> (outcome: Result<ToolInputSchema, EvaError>)
        ensures
            match outcome {
                Ok(parsed) => parsed.wf() && schema_of(schema@) == Some(parsed@),
                Err(error) => schema_of(schema@) is None && error@ == schema_error_model(),
            },
    {
        let fields = match parse_json_object_fields(schema) {
            Ok(fields) => fields,
            Err(_) => return Err(schema_error()),
        };
        let mut i: usize = 0;
        while i < fields.len()
            invariant
                i <= fields@.len(),
                json::object_fields(schema@) == Ok::<Fields, JsonFault>(fields@),
                forall|k: int| 0 <= k < i ==> is_schema_key((#[trigger] fields@[k]).0),
            decreases fields@.len() - i,
        {
            let key = fields.key_at(i);
            if !(str_eq(key, "type") || str_eq(key, "properties") || str_eq(key, "required")
                || str_eq(key, "additionalProperties")) {
                assert(!is_schema_key(fields@[i as int].0));
                return Err(schema_error());
            }
            i += 1;
        }
        let closed_object = match fields.get("additionalProperties") {
            Some(value) => str_eq(value, "false"),
            None => false,
        };
        if !holds_string(&fields, "type", "object") || !closed_object {
            return Err(schema_error());
        }
        let properties = match fields.get("properties") {
            Some(value) => match parse_json_object_fields(value) {
                Ok(property_fields) => match property_names(&property_fields) {
                    Some(names) => names,
                    None => return Err(schema_error()),
                },
                Err(_) => return Err(schema_error()),
            },
            None => {
                let names = NameSet::new();
                assert(names@ =~= field_names(Seq::empty()));
                names
            },
        };
        let required = match fields.get("required") {
            Some(value) => match parse_json_string_array(value) {
                Ok(values) => match required_names(&values, &properties) {
                    Some(names) => names,
                    None => return Err(schema_error()),
                },
                Err(_) => return Err(schema_error()),
            },
            None => {
                let names = NameSet::new();
                assert(names@ =~= Seq::<Seq<char>>::empty().to_set());
                assert(Seq::<Seq<char>>::empty().no_duplicates());
                names
            },
        };
        let parsed = ToolInputSchema { properties, required };
        assert(schema_of(schema@) == Some(parsed@));
        Ok(parsed)
    }

    /// Refuse arguments that the schema does not describe.
    pub fn validate_arguments(&self, arguments: &str) -> (outcome: Result<(), EvaError>)
        requires
            self.wf(),
        ensures
            http_reply::refused_as(outcome, arguments_refusal(self@, arguments@)),
    {
        let fields = match parse_json_object_fields(arguments) {
            Ok(fields) => fields,
            Err(_) => return Err(arguments_error()),
        };
        let mut i: usize = 0;
        while i < fields.len()
            invariant
                i <= fields@.len(),
                self.wf(),
                json::object_fields(arguments@) == Ok::<Fields, JsonFault>(fields@),
                forall|k: int| 0 <= k < i ==> self@.properties.contains((#[trigger] fields@[k]).0),
            decreases fields@.len() - i,
        {
            if !self.properties.contains(fields.key_at(i)) {
                assert(!self@.properties.contains(fields@[i as int].0));
                return Err(unknown_argument());
            }
            i += 1;
        }
        proof {
            self.required.lemma_names();
            self.properties.lemma_names();
        }
        let mut j: usize = 0;
        while j < self.required.len()
            invariant
                j <= self.required.names().len(),
                self.wf(),
                json::object_fields(arguments@) == Ok::<Fields, JsonFault>(fields@),
                forall|k: int|
                    0 <= k < fields@.len() ==> self@.properties.contains((#[trigger] fields@[k]).0),
                forall|n: Seq<char>| #[trigger]
                    self.required.names().contains(n) <==> self@.required.contains(n),
                forall|k: int|
                    0 <= k < j ==> json::lookup(
                        fields@,
                        #[trigger] self.required.names()[k],
                    ) is Some,
            decreases self.required.names().len() - j,
        {
            let name = self.required.name_at(j);
            if fields.get(name).is_none() {
                assert(self@.required.contains(name@));
                return Err(missing_argument());
            }
            j += 1;
        }
        assert forall|n: Seq<char>| self@.required.contains(n) implies json::lookup(
            fields@,
            n,
        ) is Some by {
            assert(self.required.names().contains(n));
            let k = choose|k: int|
                0 <= k < self.required.names().len() && self.required.names()[k] == n;
            assert(json::lookup(fields@, self.required.names()[k]) is Some);
        }
        let mut m: usize = 0;
        while m < self.properties.len()
            invariant
                m <= self.properties.names().len(),
                self.wf(),
                json::object_fields(arguments@) == Ok::<Fields, JsonFault>(fields@),
                forall|k: int|
                    0 <= k < fields@.len() ==> self@.properties.contains((#[trigger] fields@[k]).0),
                forall|n: Seq<char>| #[trigger]
                    self@.required.contains(n) ==> json::lookup(fields@, n) is Some,
                forall|n: Seq<char>| #[trigger]
                    self.properties.names().contains(n) <==> self@.properties.contains(n),
                forall|k: int|
                    0 <= k < m ==> is_absent_or_string(
                        fields@,
                        #[trigger] self.properties.names()[k],
                    ),
            decreases self.properties.names().len() - m,
        {
            let name = self.properties.name_at(m);
            match fields.get(name) {
                Some(value) => match parse_json_string(value) {
                    Ok(_) => {},
                    Err(_) => {
                        assert(!is_absent_or_string(fields@, name@));
                        return Err(invalid_argument_type());
                    },
                },
                None => {},
            }
            m += 1;
        }
        assert forall|n: Seq<char>| self@.properties.contains(n) implies is_absent_or_string(
            fields@,
            n,
        ) by {
            assert(self.properties.names().contains(n));
            let k = choose|k: int|
                0 <= k < self.properties.names().len() && self.properties.names()[k] == n;
            assert(is_absent_or_string(fields@, self.properties.names()[k]));
        }
        Ok(())
    }
}

/// Whether a field is a string where it is there at all.
pub open spec fn is_absent_or_string(fields: Fields, name: Seq<char>) -> bool {
    json::lookup(fields, name) matches Some(value) ==> json::string_value(value) is Ok
}

/// Why arguments are refused, if they are.
pub open spec fn arguments_refusal(schema: SchemaModel, arguments: Seq<char>) -> Option<ErrorModel> {
    match json::object_fields(arguments) {
        Err(_) => Some(arguments_error_model()),
        Ok(fields) => if !(forall|i: int|
            0 <= i < fields.len() ==> schema.properties.contains((#[trigger] fields[i]).0)) {
            Some(unknown_argument_model())
        } else if !(forall|n: Seq<char>| #[trigger]
            schema.required.contains(n) ==> json::lookup(fields, n) is Some) {
            Some(missing_argument_model())
        } else if !(forall|n: Seq<char>| #[trigger]
            schema.properties.contains(n) ==> is_absent_or_string(fields, n)) {
            Some(argument_type_model())
        } else {
            None
        },
    }
}

pub open spec fn arguments_error_model() -> ErrorModel {
    ErrorModel::new(
        ErrorKind::InvalidArgument,
        "MCP server tool arguments must be a JSON object"@,
    ).code("mcp_server_tool_arguments_invalid"@)
}

pub open spec fn unknown_argument_model() -> ErrorModel {
    ErrorModel::new(
        ErrorKind::InvalidArgument,
        "MCP server tool arguments contain an unknown field"@,
    ).code("mcp_server_tool_argument_unknown"@)
}

pub open spec fn missing_argument_model() -> ErrorModel {
    ErrorModel::new(
        ErrorKind::InvalidArgument,
        "MCP server tool required argument is missing"@,
    ).code("mcp_server_tool_argument_missing"@)
}

pub open spec fn argument_type_model() -> ErrorModel {
    ErrorModel::new(
        ErrorKind::InvalidArgument,
        "MCP server tool string argument is invalid"@,
    ).code("mcp_server_tool_argument_type_invalid"@)
}

fn arguments_error() -> (error: EvaError)
    ensures
        error@ == arguments_error_model(),
{
    EvaError::invalid_argument(
        "MCP server tool arguments must be a JSON object",
    ).with_provider_code("mcp_server_tool_arguments_invalid")
}

fn unknown_argument() -> (error: EvaError)
    ensures
        error@ == unknown_argument_model(),
{
    EvaError::invalid_argument(
        "MCP server tool arguments contain an unknown field",
    ).with_provider_code("mcp_server_tool_argument_unknown")
}

fn missing_argument() -> (error: EvaError)
    ensures
        error@ == missing_argument_model(),
{
    EvaError::invalid_argument(
        "MCP server tool required argument is missing",
    ).with_provider_code("mcp_server_tool_argument_missing")
}

fn invalid_argument_type() -> (error: EvaError)
    ensures
        error@ == argument_type_model(),
{
    EvaError::invalid_argument(
        "MCP server tool string argument is invalid",
    ).with_provider_code("mcp_server_tool_argument_type_invalid")
}

// ---------------------------------------------------------------------------
// Descriptors
// ---------------------------------------------------------------------------

/// What a tool descriptor says.
#[verifier::ext_equal]
pub struct ToolModel {
    pub name: Seq<char>,
    pub description: Seq<char>,
    pub input_schema: Seq<char>,
    pub side_effects: bool,
}

/// A tool that a server exposes.
#[derive(Debug, Clone, PartialEq, Eq)]
pub struct McpServerTool {
    pub name: String,
    pub description: String,
    /// The JSON object that is advertised as the tool's input schema.
    pub input_schema: String,
    pub side_effects: bool,
}

impl View for McpServerTool {
    type V = ToolModel;

    open spec fn view(&self) -> ToolModel {
        ToolModel {
            name: self.name@,
            description: self.description@,
            input_schema: self.input_schema@,
            side_effects: self.side_effects,
        }
    }
}

/// A letter, a digit, a dot, an underscore or a hyphen.
pub open spec fn is_name_char(c: char) -> bool {
    ('a' <= c && c <= 'z') || ('A' <= c && c <= 'Z') || ('0' <= c && c <= '9') || c == '.' || c
        == '_' || c == '-'
}

/// Whether a text can name a tool.
pub open spec fn is_tool_name(name: Seq<char>) -> bool {
    &&& 0 < name.len() <= MAX_TOOL_NAME_BYTES
    &&& forall|i: int| 0 <= i < name.len() ==> is_name_char(#[trigger] name[i])
}

/// Why a descriptor is refused, if it is.
pub open spec fn tool_refusal(tool: ToolModel) -> Option<ErrorModel> {
    if !is_tool_name(tool.name) {
        Some(
            ErrorModel::new(
                ErrorKind::InvalidArgument,
                "MCP server tool name must be bounded stable ASCII"@,
            ).code("mcp_server_tool_name_invalid"@),
        )
    } else if tool.description.len() == 0 || encode_utf8(tool.description).len()
        > MAX_TOOL_DESCRIPTION_BYTES || has_control(tool.description) {
        Some(
            ErrorModel::new(
                ErrorKind::InvalidArgument,
                "MCP server tool description must be bounded display text"@,
            ).code("mcp_server_tool_description_invalid"@),
        )
    } else if tool.input_schema.len() == 0 || encode_utf8(tool.input_schema).len()
        > MAX_TOOL_SCHEMA_BYTES {
        Some(
            ErrorModel::new(
                ErrorKind::InvalidArgument,
                "MCP server tool input schema must be a bounded JSON object"@,
            ).code("mcp_server_tool_schema_invalid"@),
        )
    } else if schema_of(tool.input_schema) is None {
        Some(schema_error_model())
    } else {
        None
    }
}

fn tool_name(name: &str) -> (valid: bool)
    ensures
        valid == is_tool_name(name@),
{
    let chars = chars_of(name);
    if chars.len() == 0 || chars.len() > MAX_TOOL_NAME_BYTES {
        return false;
    }
    let mut i: usize = 0;
    while i < chars.len()
        invariant
            i <= chars@.len(),
            chars@ == name@,
            forall|k: int| 0 <= k < i ==> is_name_char(#[trigger] name@[k]),
        decreases chars@.len() - i,
    {
        let c = chars[i];
        if !(('a' <= c && c <= 'z') || ('A' <= c && c <= 'Z') || ('0' <= c && c <= '9') || c == '.'
            || c == '_' || c == '-') {
            assert(!is_name_char(name@[i as int]));
            return false;
        }
        i += 1;
    }
    true
}

impl McpServerTool {
    /// A descriptor of a tool, if it is a valid one.
    pub fn new(name: &str, description: &str, input_schema: &str, side_effects: bool) -> (outcome:
        Result<McpServerTool, EvaError>)
        ensures
            ({
                let model = ToolModel {
                    name: name@,
                    description: description@,
                    input_schema: input_schema@,
                    side_effects,
                };
                match outcome {
                    Ok(tool) => tool@ == model && tool_refusal(model) is None,
                    Err(error) => tool_refusal(model) == Some(error@),
                }
            }),
    {
        let tool = McpServerTool {
            name: name.to_owned(),
            description: description.to_owned(),
            input_schema: input_schema.to_owned(),
            side_effects,
        };
        match tool.validate() {
            Ok(()) => Ok(tool),
            Err(error) => Err(error),
        }
    }

    /// Refuse a descriptor that cannot be exposed.
    pub fn validate(&self) -> (outcome: Result<(), EvaError>)
        ensures
            http_reply::refused_as(outcome, tool_refusal(self@)),
    {
        if !tool_name(self.name.as_str()) {
            return Err(
                EvaError::invalid_argument(
                    "MCP server tool name must be bounded stable ASCII",
                ).with_provider_code("mcp_server_tool_name_invalid"),
            );
        }
        if self.description.as_str().is_empty() || byte_len(self.description.as_str())
            > MAX_TOOL_DESCRIPTION_BYTES || control_in(self.description.as_str()) {
            return Err(
                EvaError::invalid_argument(
                    "MCP server tool description must be bounded display text",
                ).with_provider_code("mcp_server_tool_description_invalid"),
            );
        }
        if self.input_schema.as_str().is_empty() || byte_len(self.input_schema.as_str())
            > MAX_TOOL_SCHEMA_BYTES {
            return Err(
                EvaError::invalid_argument(
                    "MCP server tool input schema must be a bounded JSON object",
                ).with_provider_code("mcp_server_tool_schema_invalid"),
            );
        }
        match ToolInputSchema::parse(self.input_schema.as_str()) {
            Ok(_) => Ok(()),
            Err(error) => Err(error),
        }
    }
}

// ---------------------------------------------------------------------------
// Calls
// ---------------------------------------------------------------------------

/// One call of an exposed tool, as its handler gets it.
pub struct McpServerToolCall<'a> {
    tool: &'a str,
    arguments_json: &'a str,
}

/// The argument of a call, if it is there; refused where it is no string.
pub open spec fn string_argument_of(arguments: Seq<char>, name: Seq<char>) -> Result<
    Option<Seq<char>>,
    ErrorModel,
> {
    match json::object_fields(arguments) {
        Err(_) => Err(arguments_error_model()),
        Ok(fields) => match json::lookup(fields, name) {
            None => Ok(None),
            Some(value) => match json::string_value(value) {
                Ok(text) => Ok(Some(text)),
                Err(_) => Err(argument_type_model()),
            },
        },
    }
}

impl<'a> McpServerToolCall<'a> {
    /// The name of the tool.
    pub closed spec fn name(&self) -> Seq<char> {
        self.tool@
    }

    /// The text of the arguments.
    pub closed spec fn arguments_text(&self) -> Seq<char> {
        self.arguments_json@
    }

    /// A call whose arguments are an object.
    pub fn admitted(tool: &'a str, arguments_json: &'a str) -> (outcome: Result<
        McpServerToolCall<'a>,
        EvaError,
    >)
        ensures
            match outcome {
                Ok(call) => call.name() == tool@ && call.arguments_text() == arguments_json@
                    && json::object_fields(arguments_json@) is Ok,
                Err(error) => json::object_fields(arguments_json@) is Err && error@
                    == arguments_error_model(),
            },
    {
        match parse_json_object_fields(arguments_json) {
            Ok(_) => Ok(McpServerToolCall { tool, arguments_json }),
            Err(_) => Err(arguments_error()),
        }
    }

    pub fn tool(&self) -> (tool: &str)
        ensures
            tool@ == self.name(),
    {
        self.tool
    }

    pub fn arguments_json(&self) -> (arguments: &str)
        ensures
            arguments@ == self.arguments_text(),
    {
        self.arguments_json
    }

    /// Read one string argument of the call, if it is there. A field of a nested
    /// object is no argument.
    pub fn string_argument(&self, name: &str) -> (outcome: Result<Option<String>, EvaError>)
        ensures
            match outcome {
                Ok(value) => string_argument_of(self.arguments_text(), name@) == Ok::<
                    Option<Seq<char>>,
                    ErrorModel,
                >(crate::error::option_text(value)),
                Err(error) => string_argument_of(self.arguments_text(), name@) == Err::<
                    Option<Seq<char>>,
                    ErrorModel,
                >(error@),
            },
    {
        let fields = match self.arguments() {
            Ok(fields) => fields,
            Err(error) => return Err(error),
        };
        match fields.get(name) {
            Some(value) => match parse_json_string(value) {
                Ok(text) => Ok(Some(text)),
                Err(_) => Err(invalid_argument_type()),
            },
            None => Ok(None),
        }
    }

    /// Read one string argument that the call must have.
    pub fn required_string_argument(&self, name: &str) -> (outcome: Result<String, EvaError>)
        ensures
            match outcome {
                Ok(value) => string_argument_of(self.arguments_text(), name@) == Ok::<
                    Option<Seq<char>>,
                    ErrorModel,
                >(Some(value@)),
                Err(error) => match string_argument_of(self.arguments_text(), name@) {
                    Ok(value) => value is None && error@ == missing_argument_model(),
                    Err(model) => error@ == model,
                },
            },
    {
        match self.string_argument(name) {
            Ok(Some(value)) => Ok(value),
            Ok(None) => Err(missing_argument()),
            Err(error) => Err(error),
        }
    }

    /// Refuse a call with arguments beside the given ones.
    pub fn require_only_arguments(&self, allowed: &[&str]) -> (outcome: Result<(), EvaError>)
        ensures
            http_reply::refused_as(
                outcome,
                match json::object_fields(self.arguments_text()) {
                    Err(_) => Some(arguments_error_model()),
                    Ok(fields) => if all_among(fields, allowed@) {
                        None
                    } else {
                        Some(unknown_argument_model())
                    },
                },
            ),
    {
        let fields = match self.arguments() {
            Ok(fields) => fields,
            Err(error) => return Err(error),
        };
        let mut i: usize = 0;
        while i < fields.len()
            invariant
                i <= fields@.len(),
                json::object_fields(self.arguments_text()) == Ok::<Fields, JsonFault>(fields@),
                forall|k: int| 0 <= k < i ==> is_among((#[trigger] fields@[k]).0, allowed@),
            decreases fields@.len() - i,
        {
            if !among(fields.key_at(i), allowed) {
                assert(!is_among(fields@[i as int].0, allowed@));
                assert(!all_among(fields@, allowed@));
                return Err(unknown_argument());
            }
            i += 1;
        }
        Ok(())
    }

    fn arguments(&self) -> (outcome: Result<JsonFields, EvaError>)
        ensures
            match outcome {
                Ok(fields) => json::object_fields(self.arguments_text()) == Ok::<Fields, JsonFault>(
                    fields@,
                ),
                Err(error) => json::object_fields(self.arguments_text()) is Err && error@
                    == arguments_error_model(),
            },
    {
        match parse_json_object_fields(self.arguments_json) {
            Ok(fields) => Ok(fields),
            Err(_) => Err(arguments_error()),
        }
    }

    /// A description of the call that keeps its arguments out.
    pub fn describe(&self) -> (text: String)
        ensures
            text@ == call_description(self.name(), encode_utf8(self.arguments_text()).len()),
    {
        let mut text = String::new();
        text.append("McpServerToolCall { tool: \"");
        text.append(self.tool);
        text.append("\", arguments: \"[REDACTED_ARGUMENTS]\", argument_bytes: ");
        text.append(decimal_usize(byte_len(self.arguments_json)).as_str());
        text.append(" }");
        assert(text@ =~= call_description(
            self.name(),
            encode_utf8(self.arguments_text()).len(),
        ));
        text
    }
}

/// How a call with so many bytes of arguments is described.
pub open spec fn call_description(name: Seq<char>, argument_bytes: nat) -> Seq<char> {
    "McpServerToolCall { tool: \""@ + name
        + "\", arguments: \"[REDACTED_ARGUMENTS]\", argument_bytes: "@ + text::decimal(
        argument_bytes,
    ) + " }"@
}

pub open spec fn is_among(name: Seq<char>, names: Seq<&str>) -> bool {
    exists|i: int| 0 <= i < names.len() && (#[trigger] names[i])@ == name
}

/// Whether every field has one of the names.
pub open spec fn all_among(fields: Fields, names: Seq<&str>) -> bool {
    forall|i: int| 0 <= i < fields.len() ==> is_among((#[trigger] fields[i]).0, names)
}

fn among(name: &str, names: &[&str]) -> (found: bool)
    ensures
        found == is_among(name@, names@),
{
    let mut i: usize = 0;
    while i < names.len()
        invariant
            i <= names@.len(),
            forall|k: int| 0 <= k < i ==> (#[trigger] names@[k])@ != name@,
        decreases names@.len() - i,
    {
        if str_eq(names[i], name) {
            assert(names@[i as int]@ == name@);
            return true;
        }
        i += 1;
    }
    false
}

/// The text that a tool answered with.
#[verifier::ext_equal]
pub struct ToolResultModel {
    pub text: Seq<char>,
    pub is_error: bool,
}

/// The text that a tool answered with, and whether it reports a failure.
#[derive(Clone, PartialEq, Eq)]
pub struct McpServerToolResult {
    text: String,
    is_error: bool,
}

impl View for McpServerToolResult {
    type V = ToolResultModel;

    closed spec fn view(&self) -> ToolResultModel {
        ToolResultModel { text: self.text@, is_error: self.is_error }
    }
}

impl McpServerToolResult {
    /// A successful result.
    pub fn text(text: &str) -> (result: McpServerToolResult)
        ensures
            result@ == (ToolResultModel { text: text@, is_error: false }),
    {
        McpServerToolResult { text: text.to_owned(), is_error: false }
    }

    /// A result that reports the failure of the tool.
    pub fn error(text: &str) -> (result: McpServerToolResult)
        ensures
            result@ == (ToolResultModel { text: text@, is_error: true }),
    {
        McpServerToolResult { text: text.to_owned(), is_error: true }
    }

    pub fn text_content(&self) -> (text: &str)
        ensures
            text@ == self@.text,
    {
        self.text.as_str()
    }

    pub fn is_error_result(&self) -> (is_error: bool)
        ensures
            is_error == self@.is_error,
    {
        self.is_error
    }

    /// A description of the result that keeps its text out.
    pub fn describe(&self) -> (text: String)
        ensures
            text@ == result_description(encode_utf8(self@.text).len(), self@.is_error),
    {
        let mut text = String::new();
        text.append("McpServerToolResult { text: \"[REDACTED_OUTPUT]\", text_bytes: ");
        text.append(decimal_usize(byte_len(self.text.as_str())).as_str());
        text.append(
            if self.is_error {
                ", is_error: true }"
            } else {
                ", is_error: false }"
            },
        );
        assert(text@ =~= result_description(encode_utf8(self@.text).len(), self@.is_error));
        text
    }
}

/// How a result with so many bytes of text is described.
pub open spec fn result_description(text_bytes: nat, is_error: bool) -> Seq<char> {
    "McpServerToolResult { text: \"[REDACTED_OUTPUT]\", text_bytes: "@ + text::decimal(text_bytes)
        + if is_error {
        ", is_error: true }"@
    } else {
        ", is_error: false }"@
    }
}

/// A call that reached a handler, and what the handler made of it.
#[verifier::ext_equal]
pub struct HandledCall {
    pub tool: Seq<char>,
    pub arguments: Seq<char>,
    pub answer: Result<ToolResultModel, ErrorModel>,
}

/// What a handler answered, as it is recorded.
pub open spec fn answer_model(answer: Result<McpServerToolResult, EvaError>) -> Result<
    ToolResultModel,
    ErrorModel,
> {
    match answer {
        Ok(result) => Ok(result@),
        Err(error) => Err(error@),
    }
}

/// What stands behind the exposed tools. It is reached only by calls that the
/// transport, the session, the method and the tool gate have all let through.
///
/// A verified handler overrides `handled`: with a record that never grows it could
/// not meet the contract of `call_tool`. A handler in ordinary Rust, which has no
/// specification functions, leaves it out.
pub trait McpServerToolHandler: Send {
    /// The calls that reached the handler so far.
    open spec fn handled(&self) -> Seq<HandledCall> {
        Seq::empty()
    }

    /// Run one admitted call.
    fn call_tool(&mut self, request: McpServerToolCall<'_>) -> (answer: Result<
        McpServerToolResult,
        EvaError,
    >)
        ensures
            final(self).handled() == old(self).handled().push(
                HandledCall {
                    tool: request.name(),
                    arguments: request.arguments_text(),
                    answer: answer_model(answer),
                },
            ),
    ;
}

// ---------------------------------------------------------------------------
// The surface
// ---------------------------------------------------------------------------

/// What descriptors say.
pub open spec fn tool_models(tools: Seq<McpServerTool>) -> Seq<ToolModel> {
    tools.map_values(|t: McpServerTool| t@)
}

/// Whether one of the first descriptors has the name.
pub open spec fn is_named(tools: Seq<ToolModel>, upto: int, name: Seq<char>) -> bool {
    exists|i: int| 0 <= i < upto && i < tools.len() && (#[trigger] tools[i]).name == name
}

pub open spec fn duplicate_tool_model() -> ErrorModel {
    ErrorModel::new(ErrorKind::Conflict, "MCP server surface contains a duplicate tool"@).code(
        "mcp_server_tool_duplicate"@,
    )
}

/// Why the descriptors from the given one on are refused, if they are.
pub open spec fn tools_refusal(tools: Seq<ToolModel>, at: int) -> Option<ErrorModel>
    decreases tools.len() - at,
{
    if at < 0 || at >= tools.len() {
        None
    } else if tool_refusal(tools[at]) is Some {
        tool_refusal(tools[at])
    } else if is_named(tools, at, tools[at].name) {
        Some(duplicate_tool_model())
    } else {
        tools_refusal(tools, at + 1)
    }
}

/// Why a surface is refused, if it is: it must expose valid tools under
/// different names, and at least one.
pub open spec fn surface_refusal(tools: Seq<ToolModel>) -> Option<ErrorModel> {
    if tools.len() == 0 {
        Some(
            ErrorModel::new(
                ErrorKind::InvalidArgument,
                "MCP server surface must expose at least one explicit tool"@,
            ).code("mcp_server_surface_empty"@),
        )
    } else {
        tools_refusal(tools, 0)
    }
}

/// The tools that a server exposes, and no others.
#[derive(Debug, Clone, PartialEq, Eq)]
pub struct EvaMcpServerSurface {
    tools: Vec<McpServerTool>,
}

impl View for EvaMcpServerSurface {
    type V = Seq<ToolModel>;

    closed spec fn view(&self) -> Seq<ToolModel> {
        tool_models(self.tools@)
    }
}

/// What a surface says of a tool.
#[verifier::ext_equal]
pub struct GateModel {
    pub exposed_tool: Option<Seq<char>>,
    pub allowed: bool,
    pub reason: Option<Seq<char>>,
    pub audit: Seq<Seq<char>>,
}

/// What a surface says of a tool. The name of a tool that is not exposed does
/// not occur in it.
#[derive(Clone, PartialEq, Eq)]
pub struct McpServerToolGateReport {
    /// The name, if the tool is exposed.
    pub exposed_tool: Option<String>,
    pub allowed: bool,
    pub reason: Option<String>,
    pub audit: Vec<String>,
}

impl View for McpServerToolGateReport {
    type V = GateModel;

    open spec fn view(&self) -> GateModel {
        GateModel {
            exposed_tool: crate::error::option_text(self.exposed_tool),
            allowed: self.allowed,
            reason: crate::error::option_text(self.reason),
            audit: text::texts(self.audit@),
        }
    }
}

impl McpServerToolGateReport {
    /// A description of the report that keeps the name of the tool out.
    pub fn describe(&self) -> (text: String)
        ensures
            text@ == gate_description(self@.exposed_tool is Some, self@.allowed),
    {
        let mut text = String::new();
        text.append(
            if self.exposed_tool.is_some() {
                "McpServerToolGateReport { tool_exposed: true, allowed: "
            } else {
                "McpServerToolGateReport { tool_exposed: false, allowed: "
            },
        );
        text.append(
            if self.allowed {
                "true }"
            } else {
                "false }"
            },
        );
        assert(text@ =~= gate_description(self@.exposed_tool is Some, self@.allowed));
        text
    }
}

/// How a gate report is described.
pub open spec fn gate_description(tool_exposed: bool, allowed: bool) -> Seq<char> {
    (if tool_exposed {
        "McpServerToolGateReport { tool_exposed: true, allowed: "@
    } else {
        "McpServerToolGateReport { tool_exposed: false, allowed: "@
    }) + if allowed {
        "true }"@
    } else {
        "false }"@
    }
}

/// What a surface says of a tool.
pub open spec fn gate_of(tools: Seq<ToolModel>, tool: Seq<char>) -> GateModel {
    if is_named(tools, tools.len() as int, tool) {
        GateModel {
            exposed_tool: Some(tool),
            allowed: true,
            reason: None,
            audit: seq![
                "mcp.server.tool:allowed"@,
                "mcp.server.tool_name:explicit"@,
                "proxy_boundary:explicit_tools_only"@,
            ],
        }
    } else {
        blocked_gate()
    }
}

/// What a gate says of a tool that is not exposed, whatever its name.
pub open spec fn blocked_gate() -> GateModel {
    GateModel {
        exposed_tool: None,
        allowed: false,
        reason: Some("tool is not explicitly exposed"@),
        audit: seq![
            "mcp.server.tool:blocked"@,
            "mcp.server.tool_name:redacted"@,
            "proxy_boundary:explicit_tools_only"@,
        ],
    }
}

pub open spec fn not_exposed_model() -> ErrorModel {
    ErrorModel::new(
        ErrorKind::PermissionDenied,
        "MCP server tool is not explicitly exposed"@,
    ).code("mcp_server_tool_not_exposed"@)
}

fn not_exposed() -> (error: EvaError)
    ensures
        error@ == not_exposed_model(),
{
    EvaError::permission_denied("MCP server tool is not explicitly exposed").with_provider_code(
        "mcp_server_tool_not_exposed",
    )
}

/// The descriptor with the name, if there is one: the first.
pub open spec fn tool_named(tools: Seq<ToolModel>, name: Seq<char>, at: int) -> Option<ToolModel>
    decreases tools.len() - at,
{
    if at < 0 || at >= tools.len() {
        None
    } else if tools[at].name == name {
        Some(tools[at])
    } else {
        tool_named(tools, name, at + 1)
    }
}

/// Why a call of a tool with the given arguments is refused, if it is.
pub open spec fn call_refusal(tools: Seq<ToolModel>, tool: Seq<char>, arguments: Seq<char>) -> Option<
    ErrorModel,
> {
    match tool_named(tools, tool, 0) {
        None => Some(not_exposed_model()),
        Some(descriptor) => match schema_of(descriptor.input_schema) {
            None => Some(schema_error_model()),
            Some(schema) => arguments_refusal(schema, arguments),
        },
    }
}

impl EvaMcpServerSurface {
    /// Valid tools under different names, and at least one.
    pub open spec fn wf(&self) -> bool {
        surface_refusal(self@) is None
    }

    /// A surface of exactly the given tools, if they are valid and distinct.
    pub fn new(tools: Vec<McpServerTool>) -> (outcome: Result<EvaMcpServerSurface, EvaError>)
        ensures
            match outcome {
                Ok(surface) => surface.wf() && surface@ == tool_models(tools@),
                Err(error) => surface_refusal(tool_models(tools@)) == Some(error@),
            },
    {
        if tools.len() == 0 {
            return Err(
                EvaError::invalid_argument(
                    "MCP server surface must expose at least one explicit tool",
                ).with_provider_code("mcp_server_surface_empty"),
            );
        }
        let ghost models = tool_models(tools@);
        let mut names = NameSet::new();
        let mut i: usize = 0;
        while i < tools.len()
            invariant
                i <= tools@.len(),
                models == tool_models(tools@),
                names.wf(),
                forall|n: Seq<char>| #[trigger]
                    names@.contains(n) <==> is_named(models, i as int, n),
                tools_refusal(models, 0) == tools_refusal(models, i as int),
            decreases tools@.len() - i,
        {
            assert(models[i as int] == tools@[i as int]@);
            match tools[i].validate() {
                Ok(()) => {},
                Err(error) => return Err(error),
            }
            if names.contains(tools[i].name.as_str()) {
                return Err(
                    EvaError::conflict(
                        "MCP server surface contains a duplicate tool",
                    ).with_provider_code("mcp_server_tool_duplicate"),
                );
            }
            let ghost before = names@;
            names.insert(tools[i].name.as_str().to_owned());
            proof {
                assert forall|n: Seq<char>| #[trigger]
                    names@.contains(n) <==> is_named(models, i + 1, n) by {
                    if n == models[i as int].name {
                        assert(models[i as int].name == n);
                    } else if before.contains(n) {
                        let k = choose|k: int|
                            0 <= k < i && k < models.len() && (#[trigger] models[k]).name == n;
                        assert(models[k].name == n);
                    }
                }
            }
            i += 1;
        }
        Ok(EvaMcpServerSurface { tools })
    }

    /// The exposed tools.
    pub fn tools(&self) -> (tools: &[McpServerTool])
        ensures
            tool_models(tools@) == self@,
    {
        self.tools.as_slice()
    }

    /// The descriptor of an exposed tool.
    pub fn tool(&self, name: &str) -> (tool: Option<&McpServerTool>)
        ensures
            match tool {
                Some(found) => tool_named(self@, name@, 0) == Some(found@),
                None => tool_named(self@, name@, 0) is None,
            },
    {
        let mut i: usize = 0;
        while i < self.tools.len()
            invariant
                i <= self.tools@.len(),
                tool_named(self@, name@, 0) == tool_named(self@, name@, i as int),
            decreases self.tools@.len() - i,
        {
            assert(self@[i as int] == self.tools@[i as int]@);
            if str_eq(self.tools[i].name.as_str(), name) {
                return Some(&self.tools[i]);
            }
            i += 1;
        }
        None
    }

    /// Refuse a call that the tool's own schema does not describe.
    pub fn validate_tool_arguments(&self, tool: &str, arguments: &str) -> (outcome: Result<
        (),
        EvaError,
    >)
        ensures
            http_reply::refused_as(outcome, call_refusal(self@, tool@, arguments@)),
    {
        let descriptor = match self.tool(tool) {
            Some(descriptor) => descriptor,
            None => return Err(not_exposed()),
        };
        match ToolInputSchema::parse(descriptor.input_schema.as_str()) {
            Ok(schema) => schema.validate_arguments(arguments),
            Err(error) => Err(error),
        }
    }

    /// What a surface says of a tool.
    pub fn gate_tool(&self, tool: &str) -> (report: McpServerToolGateReport)
        ensures
            report@ == gate_of(self@, tool@),
    {
        proof {
            lemma_tool_named(self@, tool@, 0);
        }
        match self.tool(tool) {
            Some(_) => {
                let report = McpServerToolGateReport {
                    exposed_tool: Some(tool.to_owned()),
                    allowed: true,
                    reason: None,
                    audit: vec![
                        "mcp.server.tool:allowed".to_owned(),
                        "mcp.server.tool_name:explicit".to_owned(),
                        "proxy_boundary:explicit_tools_only".to_owned(),
                    ],
                };
                assert(report@.audit =~= gate_of(self@, tool@).audit);
                report
            },
            None => {
                let report = McpServerToolGateReport {
                    exposed_tool: None,
                    allowed: false,
                    reason: Some("tool is not explicitly exposed".to_owned()),
                    audit: vec![
                        "mcp.server.tool:blocked".to_owned(),
                        "mcp.server.tool_name:redacted".to_owned(),
                        "proxy_boundary:explicit_tools_only".to_owned(),
                    ],
                };
                assert(report@.audit =~= gate_of(self@, tool@).audit);
                report
            },
        }
    }

    /// Refuse a tool that is not exposed.
    pub fn require_tool(&self, tool: &str) -> (outcome: Result<McpServerToolGateReport, EvaError>)
        ensures
            match outcome {
                Ok(report) => gate_of(self@, tool@).allowed && report@ == gate_of(self@, tool@),
                Err(error) => !gate_of(self@, tool@).allowed && error@ == not_exposed_model().ctx(
                    "proxy_boundary"@,
                    "explicit_tools_only"@,
                ),
            },
    {
        let report = self.gate_tool(tool);
        if report.allowed {
            Ok(report)
        } else {
            Err(not_exposed().with_context("proxy_boundary", "explicit_tools_only"))
        }
    }
}

/// A tool has a descriptor exactly if one of the descriptors has its name.
pub proof fn lemma_tool_named(tools: Seq<ToolModel>, name: Seq<char>, at: int)
    requires
        0 <= at <= tools.len(),
    ensures
        tool_named(tools, name, at) is Some <==> exists|i: int|
            at <= i < tools.len() && (#[trigger] tools[i]).name == name,
        tool_named(tools, name, at) matches Some(tool) ==> tool.name == name && tools.contains(
            tool,
        ),
    decreases tools.len() - at,
{
    if at < tools.len() {
        if tools[at].name == name {
            assert(tools[at].name == name);
        } else {
            lemma_tool_named(tools, name, at + 1);
        }
    }
}

/// Admission and the check of arguments agree on which tools are exposed, and what
/// they answer for a tool that is not exposed does not depend on its name.
pub proof fn law_hidden_tools_are_refused_alike(
    tools: Seq<ToolModel>,
    tool: Seq<char>,
    arguments: Seq<char>,
)
    requires
        !gate_of(tools, tool).allowed,
    ensures
        gate_of(tools, tool) == blocked_gate(),
        call_refusal(tools, tool, arguments) == Some(not_exposed_model()),
{
    lemma_tool_named(tools, tool, 0);
    assert(!is_named(tools, tools.len() as int, tool));
}

/// A surface that was accepted holds each name once, and every tool of it has a
/// schema.
pub proof fn law_accepted_surfaces_are_valid(tools: Seq<ToolModel>)
    requires
        surface_refusal(tools) is None,
    ensures
        0 < tools.len(),
        forall|i: int|
            0 <= i < tools.len() ==> tool_refusal(#[trigger] tools[i]) is None && schema_of(
                tools[i].input_schema,
            ) is Some,
        forall|i: int, j: int|
            0 <= i < j < tools.len() ==> (#[trigger] tools[i]).name != (#[trigger] tools[j]).name,
{
    lemma_accepted_from(tools, 0);
}

proof fn lemma_accepted_from(tools: Seq<ToolModel>, at: int)
    requires
        0 <= at <= tools.len(),
        tools_refusal(tools, at) is None,
    ensures
        forall|i: int|
            at <= i < tools.len() ==> tool_refusal(#[trigger] tools[i]) is None && !is_named(
                tools,
                i,
                tools[i].name,
            ),
    decreases tools.len() - at,
{
    if at < tools.len() {
        lemma_accepted_from(tools, at + 1);
    }
}

// ---------------------------------------------------------------------------
// The built-in tools
// ---------------------------------------------------------------------------

spec fn list_schema_fields() -> Fields {
    seq![("type"@, json::quoted("object"@)), ("additionalProperties"@, "false"@)]
}

proof fn lemma_list_schema_text()
    ensures
        ADAPTER_LIST_SCHEMA@ == json_text::object_text(list_schema_fields()),
{
    let fields = list_schema_fields();
    lemma_schema_words();
    assert(fields.drop_first() =~= seq![("additionalProperties"@, "false"@)]);
    assert(json_text::members_text(fields.drop_first()) == json_text::member_text(
        ("additionalProperties"@, "false"@),
    ));
    assert(json_text::object_text(fields) == seq!['{'] + ("\"type\""@ + seq![':']
        + "\"object\""@ + seq![','] + ("\"additionalProperties\""@ + seq![':'] + "false"@))
        + seq!['}']);
    assert(ADAPTER_LIST_SCHEMA@ =~= seq!['{'] + ("\"type\""@ + seq![':'] + "\"object\""@ + seq![',']
        + ("\"additionalProperties\""@ + seq![':'] + "false"@)) + seq!['}']) by {
        reveal_strlit("{\"type\":\"object\",\"additionalProperties\":false}");
        reveal_strlit("\"type\"");
        reveal_strlit("\"object\"");
        reveal_strlit("\"additionalProperties\"");
        reveal_strlit("false");
    }
}

proof fn lemma_list_schema()
    ensures
        schema_of(ADAPTER_LIST_SCHEMA@) == Some(
            SchemaModel { properties: Set::empty(), required: Set::empty() },
        ),
{
    let fields = list_schema_fields();
    lemma_list_schema_text();
    json_text::lemma_quoted_is_token("object"@);
    json_text::lemma_false_is_token();
    assert(json_text::token_fields(fields, 0));
    json_text::lemma_fields_levels(fields, 0, json::MAX_JSON_NESTING_DEPTH - 1);
    lemma_schema_keys_differ();
    json_text::law_written_object_reads_back(fields);
    json::law_quoted_text_decodes("object"@);
    assert(fields.drop_last() =~= seq![fields[0]]);
    assert(fields.drop_last().drop_last() =~= Seq::empty());
    reveal_with_fuel(json::lookup, 4);
    assert(field_names(Seq::empty()) =~= Set::<Seq<char>>::empty());
    assert(Seq::<Seq<char>>::empty().to_set() =~= Set::<Seq<char>>::empty());
}

proof fn lemma_schema_keys_differ()
    ensures
        "type"@ != "properties"@,
        "type"@ != "required"@,
        "type"@ != "additionalProperties"@,
        "properties"@ != "required"@,
        "properties"@ != "additionalProperties"@,
        "required"@ != "additionalProperties"@,
{
    reveal_strlit("type");
    reveal_strlit("properties");
    reveal_strlit("required");
    reveal_strlit("additionalProperties");
    assert("type"@.len() == 4);
    assert("properties"@.len() == 10);
    assert("required"@.len() == 8);
    assert("additionalProperties"@.len() == 20);
}

spec fn string_schema_fields() -> Fields {
    seq![("type"@, json::quoted("string"@))]
}

spec fn probe_property_fields() -> Fields {
    seq![("adapter_id"@, json_text::object_text(string_schema_fields()))]
}

spec fn probe_schema_fields() -> Fields {
    seq![
        ("type"@, json::quoted("object"@)),
        ("properties"@, json_text::object_text(probe_property_fields())),
        ("required"@, json_text::array_text(json_text::quoted_all(seq!["adapter_id"@]))),
        ("additionalProperties"@, "false"@),
    ]
}

proof fn lemma_schema_words()
    ensures
        json::quoted("type"@) == "\"type\""@,
        json::quoted("object"@) == "\"object\""@,
        json::quoted("string"@) == "\"string\""@,
        json::quoted("properties"@) == "\"properties\""@,
        json::quoted("adapter_id"@) == "\"adapter_id\""@,
        json::quoted("required"@) == "\"required\""@,
        json::quoted("additionalProperties"@) == "\"additionalProperties\""@,
{
    assert(json::quoted("type"@) == "\"type\""@) by {
        reveal_strlit("type");
        reveal_strlit("\"type\"");
        json_text::lemma_plain_text_quoted("type"@);
        assert(json::quoted("type"@) =~= "\"type\""@);
    }
    assert(json::quoted("object"@) == "\"object\""@) by {
        reveal_strlit("object");
        reveal_strlit("\"object\"");
        json_text::lemma_plain_text_quoted("object"@);
        assert(json::quoted("object"@) =~= "\"object\""@);
    }
    assert(json::quoted("string"@) == "\"string\""@) by {
        reveal_strlit("string");
        reveal_strlit("\"string\"");
        json_text::lemma_plain_text_quoted("string"@);
        assert(json::quoted("string"@) =~= "\"string\""@);
    }
    assert(json::quoted("properties"@) == "\"properties\""@) by {
        reveal_strlit("properties");
        reveal_strlit("\"properties\"");
        json_text::lemma_plain_text_quoted("properties"@);
        assert(json::quoted("properties"@) =~= "\"properties\""@);
    }
    assert(json::quoted("adapter_id"@) == "\"adapter_id\""@) by {
        reveal_strlit("adapter_id");
        reveal_strlit("\"adapter_id\"");
        json_text::lemma_plain_text_quoted("adapter_id"@);
        assert(json::quoted("adapter_id"@) =~= "\"adapter_id\""@);
    }
    assert(json::quoted("required"@) == "\"required\""@) by {
        reveal_strlit("required");
        reveal_strlit("\"required\"");
        json_text::lemma_plain_text_quoted("required"@);
        assert(json::quoted("required"@) =~= "\"required\""@);
    }
    assert(json::quoted("additionalProperties"@) == "\"additionalProperties\""@) by {
        reveal_strlit("additionalProperties");
        reveal_strlit("\"additionalProperties\"");
        json_text::lemma_plain_text_quoted("additionalProperties"@);
        assert(json::quoted("additionalProperties"@) =~= "\"additionalProperties\""@);
    }
}

proof fn lemma_string_schema_text()
    ensures
        json_text::object_text(string_schema_fields()) == "{\"type\":\"string\"}"@,
{
    lemma_schema_words();
    assert(json_text::members_text(string_schema_fields()) == json_text::member_text(
        ("type"@, json::quoted("string"@)),
    ));
    reveal_strlit("{\"type\":\"string\"}");
    reveal_strlit("\"type\"");
    reveal_strlit("\"string\"");
    assert(json_text::object_text(string_schema_fields()) =~= "{\"type\":\"string\"}"@);
}

proof fn lemma_properties_text()
    ensures
        json_text::object_text(probe_property_fields())
            == "{\"adapter_id\":{\"type\":\"string\"}}"@,
{
    lemma_schema_words();
    lemma_string_schema_text();
    assert(json_text::members_text(probe_property_fields()) == json_text::member_text(
        ("adapter_id"@, "{\"type\":\"string\"}"@),
    ));
    reveal_strlit("{\"adapter_id\":{\"type\":\"string\"}}");
    reveal_strlit("{\"type\":\"string\"}");
    reveal_strlit("\"adapter_id\"");
    assert(json_text::object_text(probe_property_fields())
        =~= "{\"adapter_id\":{\"type\":\"string\"}}"@);
}

proof fn lemma_required_text()
    ensures
        json_text::array_text(json_text::quoted_all(seq!["adapter_id"@])) == "[\"adapter_id\"]"@,
{
    lemma_schema_words();
    let items = json_text::quoted_all(seq!["adapter_id"@]);
    assert(items =~= seq![json::quoted("adapter_id"@)]);
    assert(json_text::items_text(items) == "\"adapter_id\""@);
    reveal_strlit("[\"adapter_id\"]");
    reveal_strlit("\"adapter_id\"");
    assert(json_text::array_text(items) =~= "[\"adapter_id\"]"@);
}

proof fn lemma_probe_schema_members()
    ensures
        json_text::member_text(probe_schema_fields()[0]) == "\"type\":\"object\""@,
        json_text::member_text(probe_schema_fields()[1])
            == "\"properties\":{\"adapter_id\":{\"type\":\"string\"}}"@,
        json_text::member_text(probe_schema_fields()[2]) == "\"required\":[\"adapter_id\"]"@,
        json_text::member_text(probe_schema_fields()[3]) == "\"additionalProperties\":false"@,
{
    lemma_schema_words();
    lemma_properties_text();
    lemma_required_text();
    let fields = probe_schema_fields();
    assert(json_text::member_text(fields[0]) == "\"type\":\"object\""@) by {
        reveal_strlit("\"type\":\"object\"");
        reveal_strlit("\"type\"");
        reveal_strlit("\"object\"");
        assert(json_text::member_text(fields[0]) =~= "\"type\":\"object\""@);
    }
    assert(json_text::member_text(fields[1])
        == "\"properties\":{\"adapter_id\":{\"type\":\"string\"}}"@) by {
        reveal_strlit("\"properties\":{\"adapter_id\":{\"type\":\"string\"}}");
        reveal_strlit("\"properties\"");
        reveal_strlit("{\"adapter_id\":{\"type\":\"string\"}}");
        assert(json_text::member_text(fields[1])
            =~= "\"properties\":{\"adapter_id\":{\"type\":\"string\"}}"@);
    }
    assert(json_text::member_text(fields[2]) == "\"required\":[\"adapter_id\"]"@) by {
        reveal_strlit("\"required\":[\"adapter_id\"]");
        reveal_strlit("\"required\"");
        reveal_strlit("[\"adapter_id\"]");
        assert(json_text::member_text(fields[2]) =~= "\"required\":[\"adapter_id\"]"@);
    }
    assert(json_text::member_text(fields[3]) == "\"additionalProperties\":false"@) by {
        reveal_strlit("\"additionalProperties\":false");
        reveal_strlit("\"additionalProperties\"");
        reveal_strlit("false");
        assert(json_text::member_text(fields[3]) =~= "\"additionalProperties\":false"@);
    }
}

proof fn lemma_probe_schema_joined()
    ensures
        ADAPTER_PROBE_SCHEMA@ == seq!['{'] + ("\"type\":\"object\""@ + seq![','] + (
        "\"properties\":{\"adapter_id\":{\"type\":\"string\"}}"@ + seq![','] + (
        "\"required\":[\"adapter_id\"]"@ + seq![','] + "\"additionalProperties\":false"@)))
            + seq!['}'],
{
    reveal_strlit(
        "{\"type\":\"object\",\"properties\":{\"adapter_id\":{\"type\":\"string\"}},\"required\":[\"adapter_id\"],\"additionalProperties\":false}",
    );
    reveal_strlit("\"type\":\"object\"");
    reveal_strlit("\"properties\":{\"adapter_id\":{\"type\":\"string\"}}");
    reveal_strlit("\"required\":[\"adapter_id\"]");
    reveal_strlit("\"additionalProperties\":false");
    assert(ADAPTER_PROBE_SCHEMA@ =~= seq!['{'] + ("\"type\":\"object\""@ + seq![','] + (
    "\"properties\":{\"adapter_id\":{\"type\":\"string\"}}"@ + seq![','] + (
    "\"required\":[\"adapter_id\"]"@ + seq![','] + "\"additionalProperties\":false"@))) + seq!['}']);
}

proof fn lemma_probe_schema_text()
    ensures
        ADAPTER_PROBE_SCHEMA@ == json_text::object_text(probe_schema_fields()),
{
    let fields = probe_schema_fields();
    lemma_probe_schema_members();
    lemma_probe_schema_joined();
    let from_one = fields.drop_first();
    let from_two = from_one.drop_first();
    let from_three = from_two.drop_first();
    assert(from_three[0] == fields[3]);
    assert(from_two[0] == fields[2]);
    assert(from_one[0] == fields[1]);
    assert(json_text::members_text(from_three) == json_text::member_text(fields[3]));
    assert(json_text::members_text(from_two) == json_text::member_text(fields[2]) + seq![',']
        + json_text::members_text(from_three));
    assert(json_text::members_text(from_one) == json_text::member_text(fields[1]) + seq![',']
        + json_text::members_text(from_two));
}

proof fn lemma_probe_fields_are_tokens()
    ensures
        json_text::token_fields(string_schema_fields(), json::MAX_JSON_NESTING_DEPTH - 1),
        json_text::token_fields(probe_property_fields(), json::MAX_JSON_NESTING_DEPTH - 1),
        json_text::token_fields(probe_schema_fields(), json::MAX_JSON_NESTING_DEPTH - 1),
{
    let deep = json::MAX_JSON_NESTING_DEPTH - 1;
    json_text::lemma_quoted_is_token("string"@);
    assert(json_text::token_fields(string_schema_fields(), 0));
    json_text::lemma_object_is_token(string_schema_fields(), 0);
    assert(json_text::token_fields(probe_property_fields(), 1));
    json_text::lemma_object_is_token(probe_property_fields(), 1);
    json_text::lemma_quoted_is_token("adapter_id"@);
    json_text::lemma_quoted_is_token("object"@);
    json_text::lemma_false_is_token();
    let items = json_text::quoted_all(seq!["adapter_id"@]);
    assert(json_text::token_items(items, 0));
    json_text::lemma_array_is_token(items, 0);
    json_text::lemma_token_levels(json::quoted("string"@), 0, deep);
    json_text::lemma_token_levels(json::quoted("object"@), 0, deep);
    json_text::lemma_token_levels("false"@, 0, deep);
    json_text::lemma_token_levels(json_text::array_text(items), 1, deep);
    json_text::lemma_token_levels(json_text::object_text(string_schema_fields()), 1, deep);
    json_text::lemma_token_levels(json_text::object_text(probe_property_fields()), 2, deep);
}

proof fn lemma_probe_lookups()
    ensures
        json::lookup(probe_schema_fields(), "type"@) == Some(json::quoted("object"@)),
        json::lookup(probe_schema_fields(), "properties"@) == Some(
            json_text::object_text(probe_property_fields()),
        ),
        json::lookup(probe_schema_fields(), "required"@) == Some(
            json_text::array_text(json_text::quoted_all(seq!["adapter_id"@])),
        ),
        json::lookup(probe_schema_fields(), "additionalProperties"@) == Some("false"@),
        json::lookup(string_schema_fields(), "type"@) == Some(json::quoted("string"@)),
        json::distinct_keys(probe_schema_fields()),
{
    lemma_schema_keys_differ();
    let fields = probe_schema_fields();
    let upto_three = fields.drop_last();
    let upto_two = upto_three.drop_last();
    let upto_one = upto_two.drop_last();
    assert(upto_three.last() == fields[2]);
    assert(upto_two.last() == fields[1]);
    assert(upto_one.last() == fields[0]);
    assert(json::lookup(upto_one, "type"@) == Some(json::quoted("object"@)));
    assert(json::lookup(upto_two, "type"@) == Some(json::quoted("object"@)));
    assert(json::lookup(upto_three, "type"@) == Some(json::quoted("object"@)));
    assert(json::lookup(upto_three, "properties"@) == json::lookup(upto_two, "properties"@));
    assert(json::lookup(upto_three, "required"@) == Some(fields[2].1));
    assert(json::lookup(fields, "required"@) == json::lookup(upto_three, "required"@));
}

proof fn lemma_probe_property()
    ensures
        is_string_property("adapter_id"@, json_text::object_text(string_schema_fields())),
{
    lemma_probe_fields_are_tokens();
    lemma_probe_lookups();
    json_text::law_written_object_reads_back(string_schema_fields());
    json::law_quoted_text_decodes("string"@);
    reveal_strlit("adapter_id");
    assert("adapter_id"@.len() == 10);
    text::lemma_encoded_len_bound("adapter_id"@);
    assert(!has_control("adapter_id"@));
}

proof fn lemma_probe_reads()
    ensures
        json::object_fields(ADAPTER_PROBE_SCHEMA@) == Ok::<Fields, JsonFault>(
            probe_schema_fields(),
        ),
        json::object_fields(json_text::object_text(probe_property_fields())) == Ok::<
            Fields,
            JsonFault,
        >(probe_property_fields()),
        json::string_array(json_text::array_text(json_text::quoted_all(seq!["adapter_id"@])))
            == Ok::<Seq<Seq<char>>, JsonFault>(seq!["adapter_id"@]),
{
    lemma_probe_schema_text();
    lemma_probe_fields_are_tokens();
    lemma_probe_lookups();
    json_text::law_written_object_reads_back(probe_schema_fields());
    json_text::law_written_object_reads_back(probe_property_fields());
    json_text::law_written_strings_read_back(seq!["adapter_id"@]);
}

proof fn lemma_probe_schema()
    ensures
        schema_of(ADAPTER_PROBE_SCHEMA@) == Some(
            SchemaModel {
                properties: set!["adapter_id"@],
                required: set!["adapter_id"@],
            },
        ),
{
    let property_fields = probe_property_fields();
    let fields = probe_schema_fields();
    let names = seq!["adapter_id"@];
    lemma_probe_reads();
    lemma_probe_lookups();
    json::law_quoted_text_decodes("object"@);
    lemma_probe_property();
    assert(optional_fields(json::lookup(fields, "properties"@)) == Some(property_fields));
    assert(optional_strings(json::lookup(fields, "required"@)) == Some(names));
    assert(field_is(fields, "type"@, "object"@));
    assert(forall|i: int| 0 <= i < fields.len() ==> is_schema_key((#[trigger] fields[i]).0));
    assert(field_names(property_fields) =~= set!["adapter_id"@]) by {
        assert(property_fields[0].0 == "adapter_id"@);
    }
    assert(names.to_set() =~= set!["adapter_id"@]) by {
        assert(names[0] == "adapter_id"@);
    }
    assert(names.no_duplicates());
}

/// The tools that every server can expose: none of them has side effects.
pub open spec fn built_in_tools() -> Seq<ToolModel> {
    seq![
        ToolModel {
            name: "adapter.list"@,
            description: "List authorized Eva adapter handles"@,
            input_schema: ADAPTER_LIST_SCHEMA@,
            side_effects: false,
        },
        ToolModel {
            name: "adapter.probe"@,
            description: "Probe an authorized Eva adapter without invoking it"@,
            input_schema: ADAPTER_PROBE_SCHEMA@,
            side_effects: false,
        },
    ]
}

proof fn lemma_list_tool_texts()
    ensures
        is_tool_name("adapter.list"@),
        "adapter.list"@.len() == 12,
        0 < "List authorized Eva adapter handles"@.len(),
        encode_utf8("List authorized Eva adapter handles"@).len() <= MAX_TOOL_DESCRIPTION_BYTES,
        !has_control("List authorized Eva adapter handles"@),
        0 < ADAPTER_LIST_SCHEMA@.len(),
        encode_utf8(ADAPTER_LIST_SCHEMA@).len() <= MAX_TOOL_SCHEMA_BYTES,
{
    reveal_strlit("adapter.list");
    reveal_strlit("List authorized Eva adapter handles");
    reveal_strlit("{\"type\":\"object\",\"additionalProperties\":false}");
    assert("List authorized Eva adapter handles"@.len() == 35);
    text::lemma_encoded_len_bound("List authorized Eva adapter handles"@);
    text::lemma_encoded_len_bound(ADAPTER_LIST_SCHEMA@);
}

proof fn lemma_probe_tool_texts()
    ensures
        is_tool_name("adapter.probe"@),
        "adapter.probe"@.len() == 13,
        0 < "Probe an authorized Eva adapter without invoking it"@.len(),
        encode_utf8("Probe an authorized Eva adapter without invoking it"@).len()
            <= MAX_TOOL_DESCRIPTION_BYTES,
        !has_control("Probe an authorized Eva adapter without invoking it"@),
        0 < ADAPTER_PROBE_SCHEMA@.len(),
        encode_utf8(ADAPTER_PROBE_SCHEMA@).len() <= MAX_TOOL_SCHEMA_BYTES,
{
    reveal_strlit("adapter.probe");
    reveal_strlit("Probe an authorized Eva adapter without invoking it");
    reveal_strlit(
        "{\"type\":\"object\",\"properties\":{\"adapter_id\":{\"type\":\"string\"}},\"required\":[\"adapter_id\"],\"additionalProperties\":false}",
    );
    assert("Probe an authorized Eva adapter without invoking it"@.len() == 51);
    text::lemma_encoded_len_bound("Probe an authorized Eva adapter without invoking it"@);
    text::lemma_encoded_len_bound(ADAPTER_PROBE_SCHEMA@);
}

/// The built-in tools are a valid surface.
pub proof fn law_built_in_tools_are_valid()
    ensures
        surface_refusal(built_in_tools()) is None,
        schema_of(built_in_tools()[0].input_schema) == Some(
            SchemaModel { properties: Set::empty(), required: Set::empty() },
        ),
        schema_of(built_in_tools()[1].input_schema) == Some(
            SchemaModel { properties: set!["adapter_id"@], required: set!["adapter_id"@] },
        ),
{
    let tools = built_in_tools();
    lemma_list_schema();
    lemma_probe_schema();
    lemma_list_tool_texts();
    lemma_probe_tool_texts();
    assert(tool_refusal(tools[0]) is None);
    assert(tool_refusal(tools[1]) is None);
    assert(!is_named(tools, 1, tools[1].name));
    assert(!is_named(tools, 0, tools[0].name));
    assert(tools_refusal(tools, 2) is None);
    assert(tools_refusal(tools, 1) is None);
}

impl EvaMcpServerSurface {
    /// The surface of the built-in tools.
    pub fn v11_minimal() -> (surface: EvaMcpServerSurface)
        ensures
            surface.wf(),
            surface@ == built_in_tools(),
    {
        let surface = EvaMcpServerSurface {
            tools: vec![
                McpServerTool {
                    name: "adapter.list".to_owned(),
                    description: "List authorized Eva adapter handles".to_owned(),
                    input_schema: ADAPTER_LIST_SCHEMA.to_owned(),
                    side_effects: false,
                },
                McpServerTool {
                    name: "adapter.probe".to_owned(),
                    description: "Probe an authorized Eva adapter without invoking it".to_owned(),
                    input_schema: ADAPTER_PROBE_SCHEMA.to_owned(),
                    side_effects: false,
                },
            ],
        };
        proof {
            assert(surface@ =~= built_in_tools());
            law_built_in_tools_are_valid();
        }
        surface
    }
}

} // verus!
