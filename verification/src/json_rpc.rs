//! JSON-RPC messages of an MCP client: what it sends, how it reads the replies,
//! and the order in which one tool call exchanges them.

use vstd::prelude::*;
use vstd::string::*;
use vstd::utf8::*;
use crate::error::{ErrorKind, ErrorModel, EvaError};
use crate::identity::{AdapterId, InvokeOutput, RequestId};
use crate::json;
use crate::json::{json_string, protocol_error, JsonFault};
use crate::policy;
use crate::policy::McpAllowlist;
use crate::text;
use crate::text::{
    byte_len, chars_of, decimal_i64, decimal_u64, decimal_usize, find_pattern, parse_i64, parse_u64,
    str_eq, string_of, trim,
};

verus! {

pub const RESPONSIBILITY: &'static str =
    "MCP JSON-RPC client transport with stdio process boundaries";

/// The protocol version that a client asks for unless told otherwise.
pub const DEFAULT_PROTOCOL_VERSION: &'static str = "2025-11-25";

pub const DEFAULT_REQUEST_TIMEOUT_MS: u64 = 30_000;

pub const DEFAULT_OUTPUT_LIMIT_BYTES: usize = 65_536;

/// The longest protocol version that is accepted, in bytes.
pub const MCP_PROTOCOL_VERSION_LIMIT_BYTES: usize = 128;

/// The longest message text that an error carries along, in characters.
pub const MAX_CONTEXT_CHARS: usize = 120;

// ---------------------------------------------------------------------------
// Fields
// ---------------------------------------------------------------------------

/// The written value of one direct field of an object.
pub open spec fn field_value(s: Seq<char>, key: Seq<char>) -> Result<Option<Seq<char>>, ErrorModel> {
    match json::object_fields(s) {
        Ok(fields) => Ok(json::lookup(fields, key)),
        Err(fault) => Err(fault.model()),
    }
}

/// What a direct string field of an object holds.
pub open spec fn string_field(s: Seq<char>, key: Seq<char>) -> Result<Option<Seq<char>>, ErrorModel> {
    match field_value(s, key) {
        Err(error) => Err(error),
        Ok(None) => Ok(None),
        Ok(Some(value)) => match json::string_value(value) {
            Ok(content) => Ok(Some(content)),
            Err(fault) => Err(fault.model()),
        },
    }
}

/// The error for a field that is no integer of the wanted range.
pub open spec fn numeric_field_error(key: Seq<char>, fault: text::IntegerFault) -> ErrorModel {
    json::protocol_model("MCP JSON-RPC numeric field is invalid"@).ctx("field"@, key).ctx(
        "parse_error"@,
        fault.text(),
    )
}

/// The value of a direct unsigned field of an object.
pub open spec fn u64_field(s: Seq<char>, key: Seq<char>) -> Result<Option<int>, ErrorModel> {
    match field_value(s, key) {
        Err(error) => Err(error),
        Ok(None) => Ok(None),
        Ok(Some(value)) => match text::unsigned_value(text::trimmed(value)) {
            Ok(number) => Ok(Some(number)),
            Err(fault) => Err(numeric_field_error(key, fault)),
        },
    }
}

/// The value of a direct signed field of an object.
pub open spec fn i64_field(s: Seq<char>, key: Seq<char>) -> Result<Option<int>, ErrorModel> {
    match field_value(s, key) {
        Err(error) => Err(error),
        Ok(None) => Ok(None),
        Ok(Some(value)) => match text::signed_value(text::trimmed(value)) {
            Ok(number) => Ok(Some(number)),
            Err(fault) => Err(numeric_field_error(key, fault)),
        },
    }
}

/// Whether an optional text or an error is the one that was specified.
pub open spec fn same_optional_text(
    found: Result<Option<String>, EvaError>,
    expected: Result<Option<Seq<char>>, ErrorModel>,
) -> bool {
    match found {
        Ok(None) => expected == Ok::<Option<Seq<char>>, ErrorModel>(None),
        Ok(Some(text)) => expected == Ok::<Option<Seq<char>>, ErrorModel>(Some(text@)),
        Err(error) => expected == Err::<Option<Seq<char>>, ErrorModel>(error@),
    }
}

/// The written value of one direct field of an object.
pub fn json_field_value(text: &str, key: &str) -> (found: Result<Option<String>, EvaError>)
    ensures
        same_optional_text(found, field_value(text@, key@)),
{
    match json::parse_json_object_fields(text) {
        Ok(fields) => match fields.get(key) {
            Some(value) => Ok(Some(value.to_owned())),
            None => Ok(None),
        },
        Err(error) => Err(error),
    }
}

/// What a direct string field of an object holds.
pub fn json_string_field(text: &str, key: &str) -> (found: Result<Option<String>, EvaError>)
    ensures
        same_optional_text(found, string_field(text@, key@)),
{
    match json_field_value(text, key) {
        Ok(Some(value)) => match json::parse_json_string(value.as_str()) {
            Ok(content) => Ok(Some(content)),
            Err(error) => Err(error),
        },
        Ok(None) => Ok(None),
        Err(error) => Err(error),
    }
}

/// The value of a direct unsigned field of an object.
pub fn json_u64_field(text: &str, key: &str) -> (found: Result<Option<u64>, EvaError>)
    ensures
        match found {
            Ok(None) => u64_field(text@, key@) == Ok::<Option<int>, ErrorModel>(None),
            Ok(Some(v)) => u64_field(text@, key@) == Ok::<Option<int>, ErrorModel>(Some(v as int)),
            Err(error) => u64_field(text@, key@) == Err::<Option<int>, ErrorModel>(error@),
        },
{
    match json_field_value(text, key) {
        Ok(Some(value)) => match parse_u64(trim(value.as_str()).as_str()) {
            Ok(number) => Ok(Some(number)),
            Err(fault) => Err(
                protocol_error("MCP JSON-RPC numeric field is invalid").with_context(
                    "field",
                    key,
                ).with_context("parse_error", fault.message()),
            ),
        },
        Ok(None) => Ok(None),
        Err(error) => Err(error),
    }
}

/// The value of a direct signed field of an object.
pub fn json_i64_field(text: &str, key: &str) -> (found: Result<Option<i64>, EvaError>)
    ensures
        match found {
            Ok(None) => i64_field(text@, key@) == Ok::<Option<int>, ErrorModel>(None),
            Ok(Some(v)) => i64_field(text@, key@) == Ok::<Option<int>, ErrorModel>(Some(v as int)),
            Err(error) => i64_field(text@, key@) == Err::<Option<int>, ErrorModel>(error@),
        },
{
    match json_field_value(text, key) {
        Ok(Some(value)) => match parse_i64(trim(value.as_str()).as_str()) {
            Ok(number) => Ok(Some(number)),
            Err(fault) => Err(
                protocol_error("MCP JSON-RPC numeric field is invalid").with_context(
                    "field",
                    key,
                ).with_context("parse_error", fault.message()),
            ),
        },
        Ok(None) => Ok(None),
        Err(error) => Err(error),
    }
}

// ---------------------------------------------------------------------------
// Configuration
// ---------------------------------------------------------------------------

/// What a client says of itself and how long and how much it accepts.
#[derive(Debug, Clone, PartialEq, Eq)]
pub struct McpJsonRpcClientConfig {
    pub protocol_version: String,
    pub client_name: String,
    pub client_version: String,
    pub request_timeout_ms: u64,
    pub output_limit_bytes: usize,
}

/// What a client says of itself, and what it accepts, as a value.
#[verifier::ext_equal]
pub struct ConfigModel {
    pub protocol_version: Seq<char>,
    pub client_name: Seq<char>,
    pub client_version: Seq<char>,
    pub request_timeout_ms: u64,
    pub output_limit_bytes: usize,
}

impl View for McpJsonRpcClientConfig {
    type V = ConfigModel;

    open spec fn view(&self) -> ConfigModel {
        ConfigModel {
            protocol_version: self.protocol_version@,
            client_name: self.client_name@,
            client_version: self.client_version@,
            request_timeout_ms: self.request_timeout_ms,
            output_limit_bytes: self.output_limit_bytes,
        }
    }
}

/// The configuration that is used unless told otherwise.
pub open spec fn default_config() -> ConfigModel {
    ConfigModel {
        protocol_version: DEFAULT_PROTOCOL_VERSION@,
        client_name: "eva-mcp"@,
        client_version: "0.1.0"@,
        request_timeout_ms: DEFAULT_REQUEST_TIMEOUT_MS,
        output_limit_bytes: DEFAULT_OUTPUT_LIMIT_BYTES,
    }
}

impl Default for McpJsonRpcClientConfig {
    fn default() -> (config: McpJsonRpcClientConfig)
        ensures
            config@ == default_config(),
    {
        McpJsonRpcClientConfig::new()
    }
}

impl McpJsonRpcClientConfig {
    /// The configuration that is used unless told otherwise.
    pub fn new() -> (config: McpJsonRpcClientConfig)
        ensures
            config@ == default_config(),
    {
        McpJsonRpcClientConfig {
            protocol_version: DEFAULT_PROTOCOL_VERSION.to_owned(),
            client_name: "eva-mcp".to_owned(),
            client_version: "0.1.0".to_owned(),
            request_timeout_ms: DEFAULT_REQUEST_TIMEOUT_MS,
            output_limit_bytes: DEFAULT_OUTPUT_LIMIT_BYTES,
        }
    }

    pub fn with_protocol_version(self, protocol_version: &str) -> (config: McpJsonRpcClientConfig)
        ensures
            config.protocol_version@ == protocol_version@,
            config == (McpJsonRpcClientConfig { protocol_version: config.protocol_version, ..self }),
    {
        McpJsonRpcClientConfig { protocol_version: protocol_version.to_owned(), ..self }
    }

    pub fn with_client_name(self, client_name: &str) -> (config: McpJsonRpcClientConfig)
        ensures
            config.client_name@ == client_name@,
            config == (McpJsonRpcClientConfig { client_name: config.client_name, ..self }),
    {
        McpJsonRpcClientConfig { client_name: client_name.to_owned(), ..self }
    }

    pub fn with_client_version(self, client_version: &str) -> (config: McpJsonRpcClientConfig)
        ensures
            config.client_version@ == client_version@,
            config == (McpJsonRpcClientConfig { client_version: config.client_version, ..self }),
    {
        McpJsonRpcClientConfig { client_version: client_version.to_owned(), ..self }
    }

    pub fn with_request_timeout_ms(self, request_timeout_ms: u64) -> (config:
        McpJsonRpcClientConfig)
        ensures
            config == (McpJsonRpcClientConfig { request_timeout_ms, ..self }),
    {
        McpJsonRpcClientConfig { request_timeout_ms, ..self }
    }

    pub fn with_output_limit_bytes(self, output_limit_bytes: usize) -> (config:
        McpJsonRpcClientConfig)
        ensures
            config == (McpJsonRpcClientConfig { output_limit_bytes, ..self }),
    {
        McpJsonRpcClientConfig { output_limit_bytes, ..self }
    }
}

/// Whether every byte lies between `!` and `~`.
pub open spec fn all_visible_ascii(bytes: Seq<u8>) -> bool {
    forall|i: int| 0 <= i < bytes.len() ==> 0x21 <= #[trigger] bytes[i] <= 0x7e
}

pub fn visible_ascii(bytes: &[u8]) -> (visible: bool)
    ensures
        visible == all_visible_ascii(bytes@),
{
    let mut i: usize = 0;
    while i < bytes.len()
        invariant
            i <= bytes@.len(),
            forall|k: int| 0 <= k < i ==> 0x21 <= #[trigger] bytes@[k] <= 0x7e,
        decreases bytes@.len() - i,
    {
        if bytes[i] < 0x21 || 0x7e < bytes[i] {
            return false;
        }
        i += 1;
    }
    true
}

/// A protocol version is a short run of visible ASCII.
pub open spec fn valid_protocol_version(value: Seq<char>) -> bool {
    &&& 0 < value.len()
    &&& encode_utf8(value).len() <= MCP_PROTOCOL_VERSION_LIMIT_BYTES
    &&& all_visible_ascii(encode_utf8(value))
}

pub open spec fn protocol_version_error() -> ErrorModel {
    ErrorModel::new(
        ErrorKind::InvalidArgument,
        "MCP protocol version must be bounded visible ASCII"@,
    ).code("mcp_protocol_version_invalid"@)
}

pub fn validate_mcp_protocol_version(value: &str) -> (outcome: Result<(), EvaError>)
    ensures
        match outcome {
            Ok(()) => valid_protocol_version(value@),
            Err(error) => !valid_protocol_version(value@) && error@ == protocol_version_error(),
        },
{
    if value.is_empty() || byte_len(value) > MCP_PROTOCOL_VERSION_LIMIT_BYTES || !visible_ascii(
        value.as_bytes(),
    ) {
        return Err(
            EvaError::invalid_argument(
                "MCP protocol version must be bounded visible ASCII",
            ).with_provider_code("mcp_protocol_version_invalid"),
        );
    }
    Ok(())
}

/// Why a configuration cannot be used, if it cannot. The first rule broken decides.
pub open spec fn config_refusal(config: McpJsonRpcClientConfig) -> Option<ErrorModel> {
    if !valid_protocol_version(config.protocol_version@) {
        Some(protocol_version_error())
    } else if text::trimmed(config.client_name@).len() == 0 {
        Some(
            ErrorModel::new(ErrorKind::InvalidArgument, "MCP client name must be non-empty"@),
        )
    } else if config.request_timeout_ms == 0 {
        Some(
            ErrorModel::new(
                ErrorKind::InvalidArgument,
                "MCP JSON-RPC request timeout must be greater than zero"@,
            ),
        )
    } else if config.output_limit_bytes == 0 {
        Some(
            ErrorModel::new(
                ErrorKind::InvalidArgument,
                "MCP JSON-RPC output limit must be greater than zero"@,
            ),
        )
    } else {
        None
    }
}

pub fn validate_client_config(config: &McpJsonRpcClientConfig) -> (outcome: Result<(), EvaError>)
    ensures
        match outcome {
            Ok(()) => config_refusal(*config) is None,
            Err(error) => config_refusal(*config) == Some(error@),
        },
{
    match validate_mcp_protocol_version(config.protocol_version.as_str()) {
        Ok(()) => {},
        Err(error) => return Err(error),
    }
    if trim(config.client_name.as_str()).as_str().is_empty() {
        return Err(EvaError::invalid_argument("MCP client name must be non-empty"));
    }
    if config.request_timeout_ms == 0 {
        return Err(
            EvaError::invalid_argument("MCP JSON-RPC request timeout must be greater than zero"),
        );
    }
    if config.output_limit_bytes == 0 {
        return Err(
            EvaError::invalid_argument("MCP JSON-RPC output limit must be greater than zero"),
        );
    }
    Ok(())
}

// ---------------------------------------------------------------------------
// Requests
// ---------------------------------------------------------------------------

/// The request that opens a session.
pub open spec fn initialize_text(
    id: u64,
    version: Seq<char>,
    name: Seq<char>,
    client_version: Seq<char>,
) -> Seq<char> {
    "{\"jsonrpc\":\"2.0\",\"id\":"@ + text::decimal(id as nat)
        + ",\"method\":\"initialize\",\"params\":{\"protocolVersion\":"@ + json::quoted(version)
        + ",\"capabilities\":{},\"clientInfo\":{\"name\":"@ + json::quoted(name) + ",\"version\":"@
        + json::quoted(client_version) + "}}}"@
}

/// The notification that the session is in use.
pub open spec fn initialized_text() -> Seq<char> {
    "{\"jsonrpc\":\"2.0\",\"method\":\"notifications/initialized\",\"params\":{}}"@
}

/// The request for the tools on offer.
pub open spec fn tools_list_text(id: u64) -> Seq<char> {
    "{\"jsonrpc\":\"2.0\",\"id\":"@ + text::decimal(id as nat)
        + ",\"method\":\"tools/list\",\"params\":{}}"@
}

/// The arguments that a tool is called with: an object as it is, nothing as an
/// empty object, and any other text under `input`.
pub open spec fn tool_arguments(input: Seq<char>) -> Seq<char> {
    let core = text::trimmed(input);
    if core.len() == 0 {
        "{}"@
    } else if core[0] == '{' && core.last() == '}' {
        core
    } else {
        "{\"input\":"@ + json::quoted(input) + "}"@
    }
}

/// The request that calls a tool.
pub open spec fn tools_call_text(id: u64, tool: Seq<char>, input: Seq<char>) -> Seq<char> {
    "{\"jsonrpc\":\"2.0\",\"id\":"@ + text::decimal(id as nat)
        + ",\"method\":\"tools/call\",\"params\":{\"name\":"@ + json::quoted(tool)
        + ",\"arguments\":"@ + tool_arguments(input) + "}}"@
}

pub fn initialize_request(id: u64, config: &McpJsonRpcClientConfig) -> (request: String)
    ensures
        request@ == initialize_text(
            id,
            config.protocol_version@,
            config.client_name@,
            config.client_version@,
        ),
{
    let mut out = String::new();
    out.append("{\"jsonrpc\":\"2.0\",\"id\":");
    out.append(decimal_u64(id).as_str());
    out.append(",\"method\":\"initialize\",\"params\":{\"protocolVersion\":");
    out.append(json_string(config.protocol_version.as_str()).as_str());
    out.append(",\"capabilities\":{},\"clientInfo\":{\"name\":");
    out.append(json_string(config.client_name.as_str()).as_str());
    out.append(",\"version\":");
    out.append(json_string(config.client_version.as_str()).as_str());
    out.append("}}}");
    assert(out@ =~= initialize_text(
        id,
        config.protocol_version@,
        config.client_name@,
        config.client_version@,
    ));
    out
}

pub fn initialized_notification() -> (notification: String)
    ensures
        notification@ == initialized_text(),
{
    "{\"jsonrpc\":\"2.0\",\"method\":\"notifications/initialized\",\"params\":{}}".to_owned()
}

pub fn tools_list_request(id: u64) -> (request: String)
    ensures
        request@ == tools_list_text(id),
{
    let mut out = String::new();
    out.append("{\"jsonrpc\":\"2.0\",\"id\":");
    out.append(decimal_u64(id).as_str());
    out.append(",\"method\":\"tools/list\",\"params\":{}}");
    assert(out@ =~= tools_list_text(id));
    out
}

pub fn tool_arguments_json(input: &str) -> (arguments: String)
    ensures
        arguments@ == tool_arguments(input@),
{
    let core = trim(input);
    let chars = chars_of(core.as_str());
    if chars.len() == 0 {
        return "{}".to_owned();
    }
    if chars[0] == '{' && chars[chars.len() - 1] == '}' {
        return core;
    }
    let mut out = String::new();
    out.append("{\"input\":");
    out.append(json_string(input).as_str());
    out.append("}");
    assert(out@ =~= tool_arguments(input@));
    out
}

pub fn tools_call_request(id: u64, tool: &str, input: &str) -> (request: String)
    ensures
        request@ == tools_call_text(id, tool@, input@),
{
    let mut out = String::new();
    out.append("{\"jsonrpc\":\"2.0\",\"id\":");
    out.append(decimal_u64(id).as_str());
    out.append(",\"method\":\"tools/call\",\"params\":{\"name\":");
    out.append(json_string(tool).as_str());
    out.append(",\"arguments\":");
    out.append(tool_arguments_json(input).as_str());
    out.append("}}");
    assert(out@ =~= tools_call_text(id, tool@, input@));
    out
}

/// Hand out the next identifier.
pub fn next_json_rpc_id(next: &mut u64) -> (id: u64)
    requires
        *old(next) < u64::MAX,
    ensures
        id == *old(next),
        *final(next) == *old(next) + 1,
{
    let id: u64 = *next;
    *next = *next + 1;
    id
}

// ---------------------------------------------------------------------------
// Replies
// ---------------------------------------------------------------------------

/// The first characters of a text, as many as an error carries along.
pub open spec fn truncated(value: Seq<char>) -> Seq<char> {
    if value.len() <= MAX_CONTEXT_CHARS {
        value
    } else {
        value.take(MAX_CONTEXT_CHARS as int)
    }
}

pub fn truncate_context(value: &str) -> (out: String)
    ensures
        out@ == truncated(value@),
{
    let chars = chars_of(value);
    if chars.len() <= MAX_CONTEXT_CHARS {
        return value.to_owned();
    }
    string_of(chars.as_slice(), 0, MAX_CONTEXT_CHARS)
}

/// The code of an error object; zero where it has none that can be read.
pub open spec fn error_object_code(error: Seq<char>) -> int {
    match i64_field(error, "code"@) {
        Ok(Some(code)) => code,
        _ => 0,
    }
}

/// The message of an error object, or the general one.
pub open spec fn error_object_message(error: Seq<char>) -> Seq<char> {
    match string_field(error, "message"@) {
        Ok(Some(message)) => message,
        _ => "MCP JSON-RPC error"@,
    }
}

/// The error that a peer's error object is reported as.
pub open spec fn error_object_model(error: Seq<char>, id: u64) -> ErrorModel {
    let code = error_object_code(error);
    ErrorModel::new(ErrorKind::Unavailable, "MCP JSON-RPC error object returned"@).code(
        "json_rpc_"@ + text::signed_decimal(code),
    ).ctx("json_rpc_id"@, text::decimal(id as nat)).ctx(
        "json_rpc_code"@,
        text::signed_decimal(code),
    ).ctx("json_rpc_message"@, truncated(error_object_message(error)))
}

pub fn map_json_rpc_error(error: &str, expected_id: u64) -> (mapped: EvaError)
    ensures
        mapped@ == error_object_model(error@, expected_id),
{
    let code: i64 = match json_i64_field(error, "code") {
        Ok(Some(code)) => code,
        _ => 0,
    };
    let message = match json_string_field(error, "message") {
        Ok(Some(message)) => message,
        _ => "MCP JSON-RPC error".to_owned(),
    };
    let code_text = decimal_i64(code);
    let mut provider = String::new();
    provider.append("json_rpc_");
    provider.append(code_text.as_str());
    assert(provider@ =~= "json_rpc_"@ + text::signed_decimal(code as int));
    EvaError::unavailable("MCP JSON-RPC error object returned").with_provider_code(
        provider.as_str(),
    ).with_context("json_rpc_id", decimal_u64(expected_id).as_str()).with_context(
        "json_rpc_code",
        code_text.as_str(),
    ).with_context("json_rpc_message", truncate_context(message.as_str()).as_str())
}

/// The result that a reply to the request with the given identifier carries.
pub open spec fn reply_result(s: Seq<char>, id: u64) -> Result<Seq<char>, ErrorModel> {
    match string_field(s, "jsonrpc"@) {
        Err(error) => Err(error),
        Ok(version) => if version != Some("2.0"@) {
            Err(
                json::protocol_model("MCP JSON-RPC response has invalid version"@).ctx(
                    "json_rpc_id"@,
                    text::decimal(id as nat),
                ),
            )
        } else {
            match u64_field(s, "id"@) {
                Err(error) => Err(error),
                Ok(None) => Err(
                    json::protocol_model("MCP JSON-RPC response is missing id"@).ctx(
                        "expected_id"@,
                        text::decimal(id as nat),
                    ),
                ),
                Ok(Some(actual)) => if actual != id {
                    Err(
                        json::protocol_model("MCP JSON-RPC response id mismatch"@).ctx(
                            "expected_id"@,
                            text::decimal(id as nat),
                        ).ctx("actual_id"@, text::decimal(actual as nat)),
                    )
                } else {
                    match field_value(s, "error"@) {
                        Err(error) => Err(error),
                        Ok(Some(object)) => Err(error_object_model(object, id)),
                        Ok(None) => match field_value(s, "result"@) {
                            Err(error) => Err(error),
                            Ok(Some(result)) => Ok(result),
                            Ok(None) => Err(
                                json::protocol_model(
                                    "MCP JSON-RPC response is missing result"@,
                                ).ctx("json_rpc_id"@, text::decimal(id as nat)),
                            ),
                        },
                    }
                },
            }
        },
    }
}

/// Whether a text or an error is the one that was specified.
pub open spec fn same_reply(found: Result<String, EvaError>, expected: Result<Seq<char>, ErrorModel>) -> bool {
    match found {
        Ok(text) => expected == Ok::<Seq<char>, ErrorModel>(text@),
        Err(error) => expected == Err::<Seq<char>, ErrorModel>(error@),
    }
}

/// The result that a reply to the request with the given identifier carries.
pub fn parse_json_rpc_response(response: &str, expected_id: u64) -> (result: Result<
    String,
    EvaError,
>)
    ensures
        same_reply(result, reply_result(response@, expected_id)),
{
    let id_text = decimal_u64(expected_id);
    let version = match json_string_field(response, "jsonrpc") {
        Ok(version) => version,
        Err(error) => return Err(error),
    };
    let current = match &version {
        Some(version) => str_eq(version.as_str(), "2.0"),
        None => false,
    };
    if !current {
        return Err(
            protocol_error("MCP JSON-RPC response has invalid version").with_context(
                "json_rpc_id",
                id_text.as_str(),
            ),
        );
    }
    match json_u64_field(response, "id") {
        Err(error) => return Err(error),
        Ok(None) => return Err(
            protocol_error("MCP JSON-RPC response is missing id").with_context(
                "expected_id",
                id_text.as_str(),
            ),
        ),
        Ok(Some(actual)) => {
            if actual != expected_id {
                return Err(
                    protocol_error("MCP JSON-RPC response id mismatch").with_context(
                        "expected_id",
                        id_text.as_str(),
                    ).with_context("actual_id", decimal_u64(actual).as_str()),
                );
            }
        },
    }
    match json_field_value(response, "error") {
        Err(error) => return Err(error),
        Ok(Some(object)) => return Err(map_json_rpc_error(object.as_str(), expected_id)),
        Ok(None) => {},
    }
    match json_field_value(response, "result") {
        Err(error) => Err(error),
        Ok(Some(result)) => Ok(result),
        Ok(None) => Err(
            protocol_error("MCP JSON-RPC response is missing result").with_context(
                "json_rpc_id",
                id_text.as_str(),
            ),
        ),
    }
}

/// The refusal of a reply that is longer than the limit, if it is.
pub open spec fn oversize_error(response: Seq<char>, limit: usize) -> Option<ErrorModel> {
    if encode_utf8(response).len() > limit {
        Some(
            ErrorModel::new(
                ErrorKind::Conflict,
                "MCP JSON-RPC response exceeded output limit"@,
            ).code("mcp_response_too_large"@).ctx(
                "output_limit_bytes"@,
                text::decimal(limit as nat),
            ).ctx("actual_bytes"@, text::decimal(encode_utf8(response).len())),
        )
    } else {
        None
    }
}

pub fn enforce_response_limit(response: &str, output_limit_bytes: usize) -> (outcome: Result<
    (),
    EvaError,
>)
    ensures
        match outcome {
            Ok(()) => oversize_error(response@, output_limit_bytes) is None,
            Err(error) => oversize_error(response@, output_limit_bytes) == Some(error@),
        },
{
    let actual: usize = byte_len(response);
    if actual > output_limit_bytes {
        Err(
            EvaError::conflict("MCP JSON-RPC response exceeded output limit").with_provider_code(
                "mcp_response_too_large",
            ).with_context(
                "output_limit_bytes",
                decimal_usize(output_limit_bytes).as_str(),
            ).with_context("actual_bytes", decimal_usize(actual).as_str()),
        )
    } else {
        Ok(())
    }
}

/// One tool that a server offers.
#[derive(Debug, Clone, PartialEq, Eq)]
pub struct McpJsonRpcTool {
    pub name: String,
}

/// The names of several tools.
pub open spec fn tool_names(tools: Seq<McpJsonRpcTool>) -> Seq<Seq<char>> {
    Seq::new(tools.len(), |i: int| tools[i].name@)
}

/// The names in a tools array from `at` on, behind those already found: the
/// string after every `"name"` and its colon. The search ends where no colon or
/// no value follows.
pub open spec fn names_from(s: Seq<char>, at: int, names: Seq<Seq<char>>) -> Result<
    Seq<Seq<char>>,
    JsonFault,
>
    decreases s.len() - at,
{
    match text::find_from(s, "\"name\""@, at) {
        None => Ok(names),
        Some(key) => match text::find_from(s, ":"@, key + 6) {
            None => Ok(names),
            Some(colon) => {
                let start = json::skip_space(s, colon + 1);
                match json::value_end(s, start, 0) {
                    Err(_) => Ok(names),
                    Ok(end) => match json::string_value(s.subrange(start, end)) {
                        Err(fault) => Err(fault),
                        Ok(name) => if at < key + 6 <= s.len() {
                            names_from(s, key + 6, names.push(name))
                        } else {
                            Ok(names.push(name))
                        },
                    },
                }
            },
        },
    }
}

/// The names of the tools that a reply to `tools/list` offers.
pub open spec fn listed_tools(result: Seq<char>) -> Result<Seq<Seq<char>>, ErrorModel> {
    match field_value(result, "tools"@) {
        Err(error) => Err(error),
        Ok(None) => Err(
            json::protocol_model("MCP tools/list response is missing tools"@).code(
                "mcp_tools_list_missing_tools"@,
            ),
        ),
        Ok(Some(tools)) => match names_from(tools, 0, Seq::empty()) {
            Ok(names) => Ok(names),
            Err(fault) => Err(fault.model()),
        },
    }
}

/// The tools that a reply to `tools/list` offers.
pub fn parse_tools_list(result: &str) -> (tools: Result<Vec<McpJsonRpcTool>, EvaError>)
    ensures
        match tools {
            Ok(list) => listed_tools(result@) == Ok::<Seq<Seq<char>>, ErrorModel>(
                tool_names(list@),
            ),
            Err(error) => listed_tools(result@) == Err::<Seq<Seq<char>>, ErrorModel>(error@),
        },
{
    let tools = match json_field_value(result, "tools") {
        Err(error) => return Err(error),
        Ok(Some(tools)) => tools,
        Ok(None) => return Err(
            protocol_error("MCP tools/list response is missing tools").with_provider_code(
                "mcp_tools_list_missing_tools",
            ),
        ),
    };
    match collect_names(chars_of(tools.as_str()).as_slice()) {
        Ok(list) => Ok(list),
        Err(fault) => Err(fault.to_error()),
    }
}

fn collect_names(s: &[char]) -> (tools: Result<Vec<McpJsonRpcTool>, JsonFault>)
    ensures
        match tools {
            Ok(list) => names_from(s@, 0, Seq::empty()) == Ok::<Seq<Seq<char>>, JsonFault>(
                tool_names(list@),
            ),
            Err(fault) => names_from(s@, 0, Seq::empty()) == Err::<Seq<Seq<char>>, JsonFault>(
                fault,
            ),
        },
{
    let key_pattern = chars_of("\"name\"");
    let colon_pattern = chars_of(":");
    proof {
        reveal_strlit("\"name\"");
        reveal_strlit(":");
    }
    let mut tools: Vec<McpJsonRpcTool> = Vec::new();
    let mut at: usize = 0;
    let len: usize = s.len();
    assert(tool_names(tools@) =~= Seq::<Seq<char>>::empty());
    loop
        invariant
            at <= s@.len() == len,
            key_pattern@ == "\"name\""@,
            colon_pattern@ == ":"@,
            key_pattern@.len() == 6,
            colon_pattern@.len() == 1,
            names_from(s@, 0, Seq::empty()) == names_from(s@, at as int, tool_names(tools@)),
        decreases s@.len() - at,
    {
        let key = match find_pattern(s, key_pattern.as_slice(), at) {
            Some(key) => key,
            None => return Ok(tools),
        };
        let colon = match find_pattern(s, colon_pattern.as_slice(), key + 6) {
            Some(colon) => colon,
            None => return Ok(tools),
        };
        let start: usize = json::skip_json_whitespace(s, colon + 1);
        let end = match json::json_value_token_end_at_depth(s, start, 0) {
            Ok(end) => end,
            Err(_) => return Ok(tools),
        };
        let name = match json::decode_json_string(vstd::slice::slice_subrange(s, start, end)) {
            Ok(name) => name,
            Err(fault) => return Err(fault),
        };
        let ghost before = tool_names(tools@);
        let ghost added = name@;
        tools.push(McpJsonRpcTool { name });
        assert(tool_names(tools@) =~= before.push(added));
        at = key + 6;
    }
}

// ---------------------------------------------------------------------------
// Envelopes carried by an event stream
// ---------------------------------------------------------------------------

/// The identifier that correlates a message.
#[derive(Clone, PartialEq, Eq)]
pub enum McpJsonRpcMessageId {
    /// A non-negative integer.
    Number(u64),
    /// An opaque string.
    String(String),
}

impl McpJsonRpcMessageId {
    /// A description of the identifier that keeps its value out.
    pub fn describe(&self) -> (text: &'static str)
        ensures
            text@ == match self {
                McpJsonRpcMessageId::Number(_) => "Number(<redacted>)"@,
                McpJsonRpcMessageId::String(_) => "String(<redacted>)"@,
            },
    {
        match self {
            McpJsonRpcMessageId::Number(_) => "Number(<redacted>)",
            McpJsonRpcMessageId::String(_) => "String(<redacted>)",
        }
    }
}

impl From<u64> for McpJsonRpcMessageId {
    fn from(value: u64) -> (id: McpJsonRpcMessageId) {
        McpJsonRpcMessageId::Number(value)
    }
}

impl vstd::std_specs::convert::FromSpecImpl<u64> for McpJsonRpcMessageId {
    open spec fn obeys_from_spec() -> bool {
        true
    }

    open spec fn from_spec(value: u64) -> McpJsonRpcMessageId {
        McpJsonRpcMessageId::Number(value)
    }
}

impl From<String> for McpJsonRpcMessageId {
    fn from(value: String) -> (id: McpJsonRpcMessageId) {
        McpJsonRpcMessageId::String(value)
    }
}

impl vstd::std_specs::convert::FromSpecImpl<String> for McpJsonRpcMessageId {
    open spec fn obeys_from_spec() -> bool {
        true
    }

    open spec fn from_spec(value: String) -> McpJsonRpcMessageId {
        McpJsonRpcMessageId::String(value)
    }
}

/// What an identifier is.
pub enum MessageIdModel {
    Number(int),
    Text(Seq<char>),
}

impl View for McpJsonRpcMessageId {
    type V = MessageIdModel;

    open spec fn view(&self) -> MessageIdModel {
        match self {
            McpJsonRpcMessageId::Number(number) => MessageIdModel::Number(*number as int),
            McpJsonRpcMessageId::String(text) => MessageIdModel::Text(text@),
        }
    }
}

/// The role of a message.
#[derive(Debug, Clone, Copy, PartialEq, Eq, Structural)]
pub enum McpJsonRpcMessageKind {
    /// A peer's message without an identifier.
    Notification,
    /// A peer's message that wants an answer.
    Request,
    /// A result or an error for an earlier request.
    Response,
}

/// The direct fields that classify one message.
pub struct ParsedSseJsonRpcEnvelope {
    pub request_id: Option<McpJsonRpcMessageId>,
    pub kind: McpJsonRpcMessageKind,
}

/// The identifier that a written value denotes.
pub open spec fn message_id(value: Seq<char>) -> Result<MessageIdModel, ErrorModel> {
    if json::holds(value, 0, '"') {
        match json::string_value(value) {
            Ok(content) => Ok(MessageIdModel::Text(content)),
            Err(fault) => Err(fault.model()),
        }
    } else {
        match text::unsigned_value(value) {
            Ok(number) => Ok(MessageIdModel::Number(number)),
            Err(_) => Err(
                json::protocol_model(
                    "MCP SSE JSON-RPC id must be a string or non-negative integer"@,
                ),
            ),
        }
    }
}

/// The role that the presence of the four direct fields gives a message.
pub open spec fn message_kind(id: bool, method: bool, result: bool, error: bool) -> Option<
    McpJsonRpcMessageKind,
> {
    if method && !result && !error {
        if id {
            Some(McpJsonRpcMessageKind::Request)
        } else {
            Some(McpJsonRpcMessageKind::Notification)
        }
    } else if id && !method && result != error {
        Some(McpJsonRpcMessageKind::Response)
    } else {
        None
    }
}

/// The identifier and the role of a message.
pub open spec fn message_envelope(s: Seq<char>) -> Result<
    (Option<MessageIdModel>, McpJsonRpcMessageKind),
    ErrorModel,
> {
    match string_field(s, "jsonrpc"@) {
        Err(error) => Err(error),
        Ok(version) => if version != Some("2.0"@) {
            Err(json::protocol_model("MCP SSE JSON-RPC message has invalid version"@))
        } else {
            let fields = json::object_fields(s)->Ok_0;
            let id = match json::lookup(fields, "id"@) {
                None => Ok(None),
                Some(value) => match message_id(value) {
                    Ok(id) => Ok(Some(id)),
                    Err(error) => Err(error),
                },
            };
            match id {
                Err(error) => Err(error),
                Ok(id) => match string_field(s, "method"@) {
                    Err(error) => Err(error),
                    Ok(method) => if method == Some(Seq::<char>::empty()) {
                        Err(json::protocol_model("MCP SSE JSON-RPC method is empty"@))
                    } else {
                        match message_kind(
                            id is Some,
                            method is Some,
                            json::lookup(fields, "result"@) is Some,
                            json::lookup(fields, "error"@) is Some,
                        ) {
                            Some(kind) => Ok((id, kind)),
                            None => Err(
                                json::protocol_model(
                                    "MCP SSE JSON-RPC envelope has conflicting message fields"@,
                                ),
                            ),
                        }
                    },
                },
            }
        },
    }
}

fn parse_sse_json_rpc_id(value: &str) -> (id: Result<McpJsonRpcMessageId, EvaError>)
    ensures
        match id {
            Ok(id) => message_id(value@) == Ok::<MessageIdModel, ErrorModel>(id@),
            Err(error) => message_id(value@) == Err::<MessageIdModel, ErrorModel>(error@),
        },
{
    let chars = chars_of(value);
    if chars.len() > 0 && chars[0] == '"' {
        return match json::parse_json_string(value) {
            Ok(content) => Ok(McpJsonRpcMessageId::String(content)),
            Err(error) => Err(error),
        };
    }
    match parse_u64(value) {
        Ok(number) => Ok(McpJsonRpcMessageId::Number(number)),
        Err(_) => Err(
            protocol_error("MCP SSE JSON-RPC id must be a string or non-negative integer"),
        ),
    }
}

/// The characters of an optional identifier.
pub open spec fn optional_id(id: Option<McpJsonRpcMessageId>) -> Option<MessageIdModel> {
    match id {
        Some(id) => Some(id@),
        None => None,
    }
}

/// Classify one message by its direct fields. Nested fields play no part.
pub fn parse_sse_json_rpc_envelope(message: &str) -> (envelope: Result<
    ParsedSseJsonRpcEnvelope,
    EvaError,
>)
    ensures
        match envelope {
            Ok(envelope) => message_envelope(message@) == Ok::<
                (Option<MessageIdModel>, McpJsonRpcMessageKind),
                ErrorModel,
            >((optional_id(envelope.request_id), envelope.kind)),
            Err(error) => message_envelope(message@) == Err::<
                (Option<MessageIdModel>, McpJsonRpcMessageKind),
                ErrorModel,
            >(error@),
        },
{
    let fields = match json::parse_json_object_fields(message) {
        Ok(fields) => fields,
        Err(error) => return Err(error),
    };
    let current = match fields.get("jsonrpc") {
        Some(value) => match json::parse_json_string(value) {
            Ok(version) => str_eq(version.as_str(), "2.0"),
            Err(error) => return Err(error),
        },
        None => false,
    };
    if !current {
        return Err(protocol_error("MCP SSE JSON-RPC message has invalid version"));
    }
    let request_id = match fields.get("id") {
        Some(value) => match parse_sse_json_rpc_id(value) {
            Ok(id) => Some(id),
            Err(error) => return Err(error),
        },
        None => None,
    };
    let has_method = match fields.get("method") {
        Some(value) => match json::parse_json_string(value) {
            Ok(method) => {
                if method.as_str().is_empty() {
                    assert(method@ =~= Seq::<char>::empty());
                    return Err(protocol_error("MCP SSE JSON-RPC method is empty"));
                }
                true
            },
            Err(error) => return Err(error),
        },
        None => false,
    };
    let has_result = fields.get("result").is_some();
    let has_error = fields.get("error").is_some();
    let kind = if has_method && !has_result && !has_error {
        if request_id.is_some() {
            McpJsonRpcMessageKind::Request
        } else {
            McpJsonRpcMessageKind::Notification
        }
    } else if request_id.is_some() && !has_method && has_result != has_error {
        McpJsonRpcMessageKind::Response
    } else {
        return Err(protocol_error("MCP SSE JSON-RPC envelope has conflicting message fields"));
    };
    Ok(ParsedSseJsonRpcEnvelope { request_id, kind })
}

// ---------------------------------------------------------------------------
// One tool call
// ---------------------------------------------------------------------------

/// What was handed to a transport, and what came back.
#[allow(inconsistent_fields)]
pub enum WireEvent {
    Exchange {
        id: u64,
        request: Seq<char>,
        timeout_ms: u64,
        limit: usize,
        reply: Result<Seq<char>, ErrorModel>,
    },
    Notify {
        notification: Seq<char>,
        timeout_ms: u64,
        limit: usize,
        reply: Result<(), ErrorModel>,
    },
}

/// What came back from an exchange.
pub open spec fn reply_model(reply: Result<String, EvaError>) -> Result<Seq<char>, ErrorModel> {
    match reply {
        Ok(text) => Ok(text@),
        Err(error) => Err(error@),
    }
}

/// What came back from a notification.
pub open spec fn ack_model(reply: Result<(), EvaError>) -> Result<(), ErrorModel> {
    match reply {
        Ok(()) => Ok(()),
        Err(error) => Err(error@),
    }
}

/// A way to reach a server. Nothing is assumed of the replies; the trace keeps
/// the record of what was handed over and what came back.
///
/// A verified transport overrides `trace`, and `audit_log` where it adds entries:
/// with a trace that never grows it could not meet the contracts of `exchange` and
/// `notify`. A transport in ordinary Rust, which has no specification functions,
/// leaves them out.
pub trait McpJsonRpcTransport {
    /// The exchanges and notifications so far.
    open spec fn trace(&self) -> Seq<WireEvent> {
        Seq::empty()
    }

    /// The entries that the transport adds to the audit of a call.
    open spec fn audit_log(&self) -> Seq<Seq<char>> {
        Seq::empty()
    }

    /// Send a request and wait for the reply.
    fn exchange(
        &mut self,
        expected_id: u64,
        request: &str,
        timeout_ms: u64,
        output_limit_bytes: usize,
    ) -> (reply: Result<String, EvaError>)
        ensures
            final(self).trace() == old(self).trace().push(
                (WireEvent::Exchange {
                    id: expected_id,
                    request: request@,
                    timeout_ms,
                    limit: output_limit_bytes,
                    reply: reply_model(reply),
                }),
            ),
    ;

    /// Send a notification.
    fn notify(&mut self, notification: &str, timeout_ms: u64, output_limit_bytes: usize) -> (reply:
        Result<(), EvaError>)
        ensures
            final(self).trace() == old(self).trace().push(
                (WireEvent::Notify {
                    notification: notification@,
                    timeout_ms,
                    limit: output_limit_bytes,
                    reply: ack_model(reply),
                }),
            ),
    ;

    /// The entries that the transport adds to the audit of a call.
    fn audit(&self) -> (entries: Vec<String>)
        ensures
            text::texts(entries@) == self.audit_log(),
    ;
}

/// A finished tool call.
#[derive(Clone, PartialEq, Eq)]
pub struct McpJsonRpcCallReport {
    pub request_id: RequestId,
    pub adapter_id: AdapterId,
    pub tool: String,
    pub output: InvokeOutput,
    pub audit: Vec<String>,
}

impl McpJsonRpcCallReport {
    /// How the report is described, without its output and its audit.
    pub open spec fn description(&self) -> Seq<char> {
        "McpJsonRpcCallReport { request_id: "@ + self.request_id@ + ", adapter_id: "@
            + self.adapter_id@ + ", tool: "@ + self.tool@
            + ", output: [REDACTED_OUTPUT], audit_count: "@ + text::decimal(self.audit@.len())
            + " }"@
    }

    /// A description of the report that keeps its output out.
    pub fn describe(&self) -> (text: String)
        ensures
            text@ == self.description(),
    {
        let mut text = String::new();
        text.append("McpJsonRpcCallReport { request_id: ");
        text.append(self.request_id.as_str());
        text.append(", adapter_id: ");
        text.append(self.adapter_id.as_str());
        text.append(", tool: ");
        text.append(self.tool.as_str());
        text.append(", output: [REDACTED_OUTPUT], audit_count: ");
        text.append(decimal_usize(self.audit.len()).as_str());
        text.append(" }");
        assert(text@ =~= self.description());
        text
    }
}

/// A client that calls allowlisted tools.
#[derive(Debug, Clone, PartialEq, Eq)]
pub struct McpJsonRpcClient {
    adapter_id: AdapterId,
    allowlist: McpAllowlist,
    config: McpJsonRpcClientConfig,
}

/// A reply within the limit, read as the answer to the given request.
pub open spec fn checked_reply(reply: Result<Seq<char>, ErrorModel>, id: u64, limit: usize) -> Result<
    Seq<char>,
    ErrorModel,
> {
    match reply {
        Err(error) => Err(error),
        Ok(text) => match oversize_error(text, limit) {
            Some(error) => Err(error),
            None => reply_result(text, id),
        },
    }
}

/// Why a call ends before anything is sent, if it does.
pub open spec fn call_refusal(
    config: McpJsonRpcClientConfig,
    allowed: Set<Seq<char>>,
    tool: Seq<char>,
) -> Option<ErrorModel> {
    if config_refusal(config) is Some {
        config_refusal(config)
    } else if !allowed.contains(tool) {
        Some(policy::tool_not_allowlisted(tool))
    } else {
        None
    }
}

/// The error for a tool that the server does not offer.
pub open spec fn tool_not_listed(adapter: Seq<char>, tool: Seq<char>) -> ErrorModel {
    ErrorModel::new(
        ErrorKind::NotFound,
        "MCP server did not advertise allowlisted tool"@,
    ).code("mcp_tool_not_listed"@).ctx("adapter_id"@, adapter).ctx("tool"@, tool)
}

/// The output of a finished call.
pub open spec fn call_output(adapter: Seq<char>, tool: Seq<char>, result: Seq<char>) -> Seq<char> {
    "{\"transport\":\"mcp\",\"adapter_id\":"@ + json::quoted(adapter) + ",\"tool\":"@
        + json::quoted(tool) + ",\"mode\":\"json-rpc\",\"result\":"@ + result + "}"@
}

/// The audit of a finished call, before what the transport adds.
pub open spec fn call_audit(tool: Seq<char>) -> Seq<Seq<char>> {
    seq![
        "transport:mcp"@,
        "mcp.client:json_rpc"@,
        "mcp.method:initialize"@,
        "mcp.notification:initialized"@,
        "mcp.method:tools/list"@,
        "mcp.method:tools/call"@,
        "mcp.tool:"@ + tool,
        "tool_allowlist:passed"@,
    ]
}

/// An exchange of the call: its request, and the time and size allowed.
pub open spec fn is_exchange(event: WireEvent, id: u64, request: Seq<char>, config: McpJsonRpcClientConfig) -> bool {
    event matches WireEvent::Exchange { id: i, request: r, timeout_ms: t, limit: l, .. } && i == id
        && r == request && t == config.request_timeout_ms && l == config.output_limit_bytes
}

/// How a call went. `events` is what went over the wire, in order, and the
/// replies in it decide where the call ends and with what outcome.
pub open spec fn call_went(
    client: McpJsonRpcClient,
    tool: Seq<char>,
    input: Seq<char>,
    events: Seq<WireEvent>,
    log: Seq<Seq<char>>,
    request_id: RequestId,
    outcome: Result<McpJsonRpcCallReport, EvaError>,
) -> bool {
    let config = client.settings();
    let limit = config.output_limit_bytes;
    match call_refusal(config, client.allowed_tools(), tool) {
        Some(error) => outcome matches Err(e) && e@ == error && events.len() == 0,
        None => {
            &&& events.len() >= 1
            &&& is_exchange(
                events[0],
                1,
                initialize_text(
                    1,
                    config.protocol_version@,
                    config.client_name@,
                    config.client_version@,
                ),
                config,
            )
            &&& match checked_reply(events[0]->Exchange_reply, 1, limit) {
                Err(error) => outcome matches Err(e) && e@ == error && events.len() == 1,
                Ok(_) => {
                    &&& events.len() >= 2
                    &&& events[1] matches WireEvent::Notify { notification, timeout_ms, limit: l, .. }
                        && notification == initialized_text() && timeout_ms
                        == config.request_timeout_ms && l == limit
                    &&& match events[1]->Notify_reply {
                        Err(error) => outcome matches Err(e) && e@ == error && events.len() == 2,
                        Ok(_) => {
                            &&& events.len() >= 3
                            &&& is_exchange(events[2], 2, tools_list_text(2), config)
                            &&& match checked_reply(events[2]->Exchange_reply, 2, limit) {
                                Err(error) => outcome matches Err(e) && e@ == error && events.len()
                                    == 3,
                                Ok(result) => match listed_tools(result) {
                                    Err(error) => outcome matches Err(e) && e@ == error
                                        && events.len() == 3,
                                    Ok(names) => if !names.contains(tool) {
                                        outcome matches Err(e) && e@ == tool_not_listed(
                                            client.adapter(),
                                            tool,
                                        ) && events.len() == 3
                                    } else {
                                        &&& events.len() == 4
                                        &&& is_exchange(
                                            events[3],
                                            3,
                                            tools_call_text(3, tool, input),
                                            config,
                                        )
                                        &&& match checked_reply(events[3]->Exchange_reply, 3, limit) {
                                            Err(error) => outcome matches Err(e) && e@ == error,
                                            Ok(result) => outcome matches Ok(report) && {
                                                &&& report.request_id == request_id
                                                &&& report.adapter_id@ == client.adapter()
                                                &&& report.tool@ == tool
                                                &&& report.output@ == call_output(
                                                    client.adapter(),
                                                    tool,
                                                    result,
                                                )
                                                &&& text::texts(report.audit@) == call_audit(tool)
                                                    + log
                                            },
                                        }
                                    },
                                },
                            }
                        },
                    }
                },
            }
        },
    }
}

/// Whether one of the tools has the given name.
fn offers(tools: &Vec<McpJsonRpcTool>, name: &str) -> (found: bool)
    ensures
        found == tool_names(tools@).contains(name@),
{
    let mut i: usize = 0;
    while i < tools.len()
        invariant
            i <= tools@.len(),
            forall|k: int| 0 <= k < i ==> #[trigger] tool_names(tools@)[k] != name@,
        decreases tools@.len() - i,
    {
        if str_eq(tools[i].name.as_str(), name) {
            assert(tool_names(tools@)[i as int] == name@);
            return true;
        }
        i += 1;
    }
    false
}

impl McpJsonRpcClient {
    pub closed spec fn wf(&self) -> bool {
        self.allowlist.wf()
    }

    /// The adapter that the client calls for.
    pub closed spec fn adapter(&self) -> Seq<char> {
        self.adapter_id@
    }

    /// The tools that the client may call.
    pub closed spec fn allowed_tools(&self) -> Set<Seq<char>> {
        self.allowlist.tool_set()
    }

    /// The configuration of the client.
    pub closed spec fn settings(&self) -> McpJsonRpcClientConfig {
        self.config
    }

    /// A client with the configuration that is used unless told otherwise.
    pub fn new(adapter_id: AdapterId, allowlist: McpAllowlist) -> (client: McpJsonRpcClient)
        requires
            allowlist.wf(),
        ensures
            client.wf(),
            client.adapter() == adapter_id@,
            client.allowed_tools() == allowlist.tool_set(),
            client.settings().protocol_version@ == DEFAULT_PROTOCOL_VERSION@,
            client.settings().client_name@ == "eva-mcp"@,
            client.settings().client_version@ == "0.1.0"@,
            client.settings().request_timeout_ms == DEFAULT_REQUEST_TIMEOUT_MS,
            client.settings().output_limit_bytes == DEFAULT_OUTPUT_LIMIT_BYTES,
    {
        McpJsonRpcClient { adapter_id, allowlist, config: McpJsonRpcClientConfig::new() }
    }

    /// The same client with another configuration.
    pub fn with_config(self, config: McpJsonRpcClientConfig) -> (client: McpJsonRpcClient)
        requires
            self.wf(),
        ensures
            client.wf(),
            client.settings() == config,
            client.adapter() == self.adapter(),
            client.allowed_tools() == self.allowed_tools(),
    {
        McpJsonRpcClient { config, ..self }
    }

    pub fn config(&self) -> (config: &McpJsonRpcClientConfig)
        ensures
            *config == self.settings(),
    {
        &self.config
    }

    /// Refuse a tool that is not listed, before anything is started.
    pub fn check_tool(&self, tool: &str) -> (outcome: Result<(), EvaError>)
        requires
            self.wf(),
        ensures
            match outcome {
                Ok(()) => self.allowed_tools().contains(tool@),
                Err(error) => !self.allowed_tools().contains(tool@) && error@
                    == policy::tool_not_allowlisted(tool@),
            },
    {
        self.allowlist.require_tool(tool)
    }

    /// Refuse a call before anything is sent.
    pub fn check_call(&self, tool: &str) -> (outcome: Result<(), EvaError>)
        requires
            self.wf(),
        ensures
            match outcome {
                Ok(()) => call_refusal(self.settings(), self.allowed_tools(), tool@) is None,
                Err(error) => call_refusal(self.settings(), self.allowed_tools(), tool@) == Some(
                    error@,
                ),
            },
    {
        match validate_client_config(&self.config) {
            Ok(()) => {},
            Err(error) => return Err(error),
        }
        self.allowlist.require_tool(tool)
    }

    /// Read a reply to the request with the given identifier.
    pub fn check_reply(&self, reply: Result<String, EvaError>, id: u64) -> (result: Result<
        String,
        EvaError,
    >)
        ensures
            same_reply(
                result,
                checked_reply(reply_model(reply), id, self.settings().output_limit_bytes),
            ),
    {
        let text = match reply {
            Ok(text) => text,
            Err(error) => return Err(error),
        };
        match enforce_response_limit(text.as_str(), self.config.output_limit_bytes) {
            Ok(()) => {},
            Err(error) => return Err(error),
        }
        parse_json_rpc_response(text.as_str(), id)
    }

    /// Read the reply to `tools/list` and refuse a tool that is not offered.
    pub fn check_listed(&self, result: &str, tool: &str) -> (outcome: Result<(), EvaError>)
        ensures
            match listed_tools(result@) {
                Err(error) => outcome matches Err(e) && e@ == error,
                Ok(names) => if names.contains(tool@) {
                    outcome is Ok
                } else {
                    outcome matches Err(e) && e@ == tool_not_listed(self.adapter(), tool@)
                },
            },
    {
        let tools = match parse_tools_list(result) {
            Ok(tools) => tools,
            Err(error) => return Err(error),
        };
        if !offers(&tools, tool) {
            return Err(
                EvaError::not_found(
                    "MCP server did not advertise allowlisted tool",
                ).with_provider_code("mcp_tool_not_listed").with_context(
                    "adapter_id",
                    self.adapter_id.as_str(),
                ).with_context("tool", tool),
            );
        }
        Ok(())
    }

    /// The report of a call with the given result.
    pub fn call_report(
        &self,
        request_id: RequestId,
        tool: &str,
        result: &str,
        transport_audit: Vec<String>,
    ) -> (report: McpJsonRpcCallReport)
        ensures
            report.request_id == request_id,
            report.adapter_id@ == self.adapter(),
            report.tool@ == tool@,
            report.output@ == call_output(self.adapter(), tool@, result@),
            text::texts(report.audit@) == call_audit(tool@) + text::texts(transport_audit@),
    {
        let mut entry = String::new();
        entry.append("mcp.tool:");
        entry.append(tool);
        let mut audit: Vec<String> = Vec::new();
        audit.push("transport:mcp".to_owned());
        audit.push("mcp.client:json_rpc".to_owned());
        audit.push("mcp.method:initialize".to_owned());
        audit.push("mcp.notification:initialized".to_owned());
        audit.push("mcp.method:tools/list".to_owned());
        audit.push("mcp.method:tools/call".to_owned());
        audit.push(entry);
        audit.push("tool_allowlist:passed".to_owned());
        let ghost head = audit@;
        let mut more = transport_audit;
        audit.append(&mut more);
        proof {
            assert("mcp.tool:"@ + tool@ =~= entry@);
            assert(text::texts(head) =~= call_audit(tool@));
            assert(text::texts(audit@) =~= call_audit(tool@) + text::texts(transport_audit@));
        }
        let mut out = String::new();
        out.append("{\"transport\":\"mcp\",\"adapter_id\":");
        out.append(json_string(self.adapter_id.as_str()).as_str());
        out.append(",\"tool\":");
        out.append(json_string(tool).as_str());
        out.append(",\"mode\":\"json-rpc\",\"result\":");
        out.append(result);
        out.append("}");
        assert(out@ =~= call_output(self.adapter(), tool@, result@));
        McpJsonRpcCallReport {
            request_id,
            adapter_id: self.adapter_id.copy(),
            tool: tool.to_owned(),
            output: InvokeOutput::text(out),
            audit,
        }
    }

    /// Initialize a session, see that the server offers the tool, and call it.
    pub fn call_tool_with_transport<T: McpJsonRpcTransport>(
        &self,
        transport: &mut T,
        request_id: RequestId,
        tool: &str,
        input: &str,
    ) -> (outcome: Result<McpJsonRpcCallReport, EvaError>)
        requires
            self.wf(),
        ensures
            old(transport).trace().is_prefix_of(final(transport).trace()),
            call_went(
                *self,
                tool@,
                input@,
                final(transport).trace().skip(old(transport).trace().len() as int),
                final(transport).audit_log(),
                request_id,
                outcome,
            ),
    {
        let ghost before = transport.trace();
        assert(before.skip(before.len() as int) =~= Seq::<WireEvent>::empty());
        match self.check_call(tool) {
            Ok(()) => {},
            Err(error) => return Err(error),
        }
        let timeout_ms: u64 = self.config.request_timeout_ms;
        let limit: usize = self.config.output_limit_bytes;
        let mut next_id: u64 = 1;

        let initialize_id = next_json_rpc_id(&mut next_id);
        let initialize = initialize_request(initialize_id, &self.config);
        let reply = transport.exchange(initialize_id, initialize.as_str(), timeout_ms, limit);
        let ghost events = transport.trace().skip(before.len() as int);
        assert(events.len() == 1);
        match self.check_reply(reply, initialize_id) {
            Ok(_) => {},
            Err(error) => return Err(error),
        }
        match transport.notify(initialized_notification().as_str(), timeout_ms, limit) {
            Ok(()) => {},
            Err(error) => return Err(error),
        }
        let list_id = next_json_rpc_id(&mut next_id);
        let reply = transport.exchange(
            list_id,
            tools_list_request(list_id).as_str(),
            timeout_ms,
            limit,
        );
        let listed = match self.check_reply(reply, list_id) {
            Ok(result) => result,
            Err(error) => return Err(error),
        };
        match self.check_listed(listed.as_str(), tool) {
            Ok(()) => {},
            Err(error) => return Err(error),
        }
        let call_id = next_json_rpc_id(&mut next_id);
        let reply = transport.exchange(
            call_id,
            tools_call_request(call_id, tool, input).as_str(),
            timeout_ms,
            limit,
        );
        let result = match self.check_reply(reply, call_id) {
            Ok(result) => result,
            Err(error) => return Err(error),
        };
        Ok(self.call_report(request_id, tool, result.as_str(), transport.audit()))
    }
}

/// A tool that is not allowlisted never reaches the transport.
pub proof fn law_refused_call_sends_nothing(
    client: McpJsonRpcClient,
    tool: Seq<char>,
    input: Seq<char>,
    events: Seq<WireEvent>,
    log: Seq<Seq<char>>,
    request_id: RequestId,
    outcome: Result<McpJsonRpcCallReport, EvaError>,
)
    requires
        call_went(client, tool, input, events, log, request_id, outcome),
        !client.allowed_tools().contains(tool),
    ensures
        events.len() == 0,
        outcome is Err,
{
}

/// A call that succeeds has made its four steps in order, and the server had
/// offered the tool before it was called.
pub proof fn law_successful_call_was_offered(
    client: McpJsonRpcClient,
    tool: Seq<char>,
    input: Seq<char>,
    events: Seq<WireEvent>,
    log: Seq<Seq<char>>,
    request_id: RequestId,
    outcome: Result<McpJsonRpcCallReport, EvaError>,
)
    requires
        call_went(client, tool, input, events, log, request_id, outcome),
        outcome is Ok,
    ensures
        client.allowed_tools().contains(tool),
        events.len() == 4,
        ({
            let limit = client.settings().output_limit_bytes;
            checked_reply(events[2]->Exchange_reply, 2, limit) matches Ok(result) && listed_tools(
                result,
            ) matches Ok(names) && names.contains(tool)
        }),
{
}

} // verus!
