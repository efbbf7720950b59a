//! The JSON-RPC messages that a server reads and writes.

use vstd::prelude::*;
use vstd::string::*;
use vstd::utf8::*;
use crate::error;
use crate::error::{ErrorKind, ErrorModel, EvaError};
use crate::json;
use crate::json::{
    hex_char, json_string, parse_json_object_fields, parse_json_string, Fields, JsonFields,
};
use crate::json_rpc;
use crate::json_rpc::{visible_ascii, DEFAULT_PROTOCOL_VERSION};
use crate::server;
use crate::server::{control_in, McpServerTool, McpServerToolResult, ToolModel};
use crate::text;
use crate::text::{byte_len, char_width, chars_of, decimal_i64, parse_u64, str_eq};

verus! {

pub const MAX_METHOD_BYTES: usize = 128;

pub const MAX_ID_STRING_BYTES: usize = 256;

pub const MAX_SESSION_ID_BYTES: usize = 256;

pub const MAX_CLIENT_INFO_BYTES: usize = 256;

/// The version that a server reports of itself.
pub const SERVER_VERSION: &'static str = "0.1.0";

/// Whether a text is not empty, within the limit and free of control
/// characters.
pub open spec fn is_bounded_text(s: Seq<char>, limit: usize) -> bool {
    0 < s.len() && encode_utf8(s).len() <= limit && !server::has_control(s)
}

fn bounded_text(s: &str, limit: usize) -> (bounded: bool)
    ensures
        bounded == is_bounded_text(s@, limit),
{
    !s.is_empty() && byte_len(s) <= limit && !control_in(s)
}

// ---------------------------------------------------------------------------
// Envelopes
// ---------------------------------------------------------------------------

/// Whether a written value can identify a request: a bounded string or an
/// unsigned number.
pub open spec fn is_request_id(value: Seq<char>) -> bool {
    if json::holds(value, 0, '"') {
        json::string_value(value) matches Ok(content) && is_bounded_text(
            content,
            MAX_ID_STRING_BYTES,
        )
    } else {
        text::unsigned_value(value) is Ok
    }
}

/// The identifier of a request, as it was written.
#[derive(Clone, PartialEq, Eq)]
pub struct ValidatedRequestId {
    raw: String,
}

impl View for ValidatedRequestId {
    type V = Seq<char>;

    closed spec fn view(&self) -> Seq<char> {
        self.raw@
    }
}

impl ValidatedRequestId {
    pub fn raw(&self) -> (raw: &str)
        ensures
            raw@ == self@,
    {
        self.raw.as_str()
    }

    /// The same identifier again.
    pub fn copy(&self) -> (id: ValidatedRequestId)
        ensures
            id@ == self@,
    {
        ValidatedRequestId { raw: self.raw.clone() }
    }
}

/// The identifier that a written value is, if it can be one.
pub fn validate_request_id(value: &str) -> (outcome: Result<ValidatedRequestId, ()>)
    ensures
        match outcome {
            Ok(id) => is_request_id(value@) && id@ == value@,
            Err(()) => !is_request_id(value@),
        },
{
    let chars = chars_of(value);
    if chars.len() > 0 && chars[0] == '"' {
        match parse_json_string(value) {
            Ok(decoded) => {
                if !bounded_text(decoded.as_str(), MAX_ID_STRING_BYTES) {
                    return Err(());
                }
            },
            Err(_) => return Err(()),
        }
    } else {
        match parse_u64(value) {
            Ok(_) => {},
            Err(_) => return Err(()),
        }
    }
    Ok(ValidatedRequestId { raw: value.to_owned() })
}

/// An optional identifier, as it was written.
pub open spec fn id_text(id: Option<ValidatedRequestId>) -> Option<Seq<char>> {
    match id {
        Some(id) => Some(id@),
        None => None,
    }
}

/// What a request asks for.
#[verifier::ext_equal]
pub struct EnvelopeModel {
    pub id: Option<Seq<char>>,
    pub method: Seq<char>,
    pub params: Option<Seq<char>>,
}

/// What a request asks for.
pub struct ParsedRequestEnvelope {
    pub id: Option<ValidatedRequestId>,
    pub method: String,
    pub params: Option<String>,
}

impl View for ParsedRequestEnvelope {
    type V = EnvelopeModel;

    open spec fn view(&self) -> EnvelopeModel {
        EnvelopeModel {
            id: id_text(self.id),
            method: self.method@,
            params: error::option_text(self.params),
        }
    }
}

/// Why a request is answered with an error.
#[verifier::ext_equal]
pub struct RpcFailureModel {
    pub id: Option<Seq<char>>,
    pub code: int,
    pub message: Seq<char>,
}

/// Why a request is answered with an error.
pub struct RpcFailure {
    pub id: Option<ValidatedRequestId>,
    pub code: i64,
    pub message: &'static str,
}

impl View for RpcFailure {
    type V = RpcFailureModel;

    open spec fn view(&self) -> RpcFailureModel {
        RpcFailureModel { id: id_text(self.id), code: self.code as int, message: self.message@ }
    }
}

pub open spec fn parse_failure(message: Seq<char>) -> RpcFailureModel {
    RpcFailureModel { id: None, code: -32700, message }
}

pub open spec fn invalid_failure(id: Option<Seq<char>>, message: Seq<char>) -> RpcFailureModel {
    RpcFailureModel { id, code: -32600, message }
}

impl RpcFailure {
    pub fn parse(message: &'static str) -> (failure: RpcFailure)
        ensures
            failure@ == parse_failure(message@),
    {
        RpcFailure { id: None, code: -32700, message }
    }

    pub fn invalid(id: Option<ValidatedRequestId>, message: &'static str) -> (failure: RpcFailure)
        ensures
            failure@ == invalid_failure(id_text(id), message@),
    {
        RpcFailure { id, code: -32600, message }
    }
}

/// How a failure is described, without the identifier of the request.
pub open spec fn failure_description(failure: RpcFailureModel) -> Seq<char> {
    "RpcFailure { id: "@ + (if failure.id is Some {
        "Some(ValidatedRequestId([REDACTED]))"@
    } else {
        "None"@
    }) + ", code: "@ + text::signed_decimal(failure.code) + ", message: \""@ + failure.message + "\" }"@
}

impl RpcFailure {
    /// A description of the failure that keeps the identifier of the request out.
    pub fn describe(&self) -> (text: String)
        ensures
            text@ == failure_description(self@),
    {
        let mut text = String::new();
        text.append("RpcFailure { id: ");
        text.append(
            if self.id.is_some() {
                "Some(ValidatedRequestId([REDACTED]))"
            } else {
                "None"
            },
        );
        text.append(", code: ");
        text.append(decimal_i64(self.code).as_str());
        text.append(", message: \"");
        text.append(self.message);
        text.append("\" }");
        assert(text@ =~= failure_description(self@));
        text
    }
}

pub open spec fn is_envelope_key(name: Seq<char>) -> bool {
    name == "jsonrpc"@ || name == "id"@ || name == "method"@ || name == "params"@
}

/// Whether every field has one of the names of an envelope.
pub open spec fn all_envelope_keys(fields: Fields) -> bool {
    forall|i: int| 0 <= i < fields.len() ==> is_envelope_key((#[trigger] fields[i]).0)
}

/// What the body of a request asks for, or why it asks for nothing.
pub open spec fn request_envelope(body: Seq<char>) -> Result<EnvelopeModel, RpcFailureModel> {
    match json::object_fields(body) {
        Err(_) => Err(parse_failure("request body is not one complete JSON object"@)),
        Ok(fields) => {
            let id = json::lookup(fields, "id"@);
            if id is Some && !is_request_id(id->0) {
                Err(invalid_failure(None, "request id is invalid"@))
            } else if !all_envelope_keys(fields) {
                Err(invalid_failure(id, "request contains an unknown envelope field"@))
            } else {
                match (json::lookup(fields, "jsonrpc"@), json::lookup(fields, "method"@)) {
                    (None, _) => Err(invalid_failure(id, "jsonrpc version is missing"@)),
                    (Some(version), method) => match json::string_value(version) {
                        Err(_) => Err(invalid_failure(id, "jsonrpc version is invalid"@)),
                        Ok(version) => if version != "2.0"@ {
                            Err(invalid_failure(id, "jsonrpc version is unsupported"@))
                        } else {
                            match method {
                                None => Err(invalid_failure(id, "request method is missing"@)),
                                Some(value) => match json::string_value(value) {
                                    Err(_) => Err(
                                        invalid_failure(id, "request method is invalid"@),
                                    ),
                                    Ok(method) => if is_bounded_text(method, MAX_METHOD_BYTES) {
                                        Ok(
                                            EnvelopeModel {
                                                id,
                                                method,
                                                params: json::lookup(fields, "params"@),
                                            },
                                        )
                                    } else {
                                        Err(invalid_failure(id, "request method is invalid"@))
                                    },
                                },
                            }
                        },
                    },
                }
            }
        },
    }
}

fn envelope_keys(fields: &JsonFields) -> (all: bool)
    ensures
        all == all_envelope_keys(fields@),
{
    let mut i: usize = 0;
    while i < fields.len()
        invariant
            i <= fields@.len(),
            forall|k: int| 0 <= k < i ==> is_envelope_key((#[trigger] fields@[k]).0),
        decreases fields@.len() - i,
    {
        let key = fields.key_at(i);
        if !(str_eq(key, "jsonrpc") || str_eq(key, "id") || str_eq(key, "method") || str_eq(
            key,
            "params",
        )) {
            assert(!is_envelope_key(fields@[i as int].0));
            return false;
        }
        i += 1;
    }
    true
}

/// What the body of a request asks for.
pub fn parse_request_envelope(body: &str) -> (outcome: Result<ParsedRequestEnvelope, RpcFailure>)
    ensures
        match outcome {
            Ok(envelope) => request_envelope(body@) == Ok::<EnvelopeModel, RpcFailureModel>(
                envelope@,
            ),
            Err(failure) => request_envelope(body@) == Err::<EnvelopeModel, RpcFailureModel>(
                failure@,
            ),
        },
{
    let fields = match parse_json_object_fields(body) {
        Ok(fields) => fields,
        Err(_) => return Err(RpcFailure::parse("request body is not one complete JSON object")),
    };
    let id = match fields.get("id") {
        None => None,
        Some(value) => match validate_request_id(value) {
            Ok(id) => Some(id),
            Err(()) => return Err(RpcFailure::invalid(None, "request id is invalid")),
        },
    };
    if !envelope_keys(&fields) {
        return Err(RpcFailure::invalid(id, "request contains an unknown envelope field"));
    }
    let version = match fields.get("jsonrpc") {
        None => return Err(RpcFailure::invalid(id, "jsonrpc version is missing")),
        Some(value) => match parse_json_string(value) {
            Ok(version) => version,
            Err(_) => return Err(RpcFailure::invalid(id, "jsonrpc version is invalid")),
        },
    };
    if !str_eq(version.as_str(), "2.0") {
        return Err(RpcFailure::invalid(id, "jsonrpc version is unsupported"));
    }
    let method = match fields.get("method") {
        None => return Err(RpcFailure::invalid(id, "request method is missing")),
        Some(value) => match parse_json_string(value) {
            Ok(method) => method,
            Err(_) => return Err(RpcFailure::invalid(id, "request method is invalid")),
        },
    };
    if !bounded_text(method.as_str(), MAX_METHOD_BYTES) {
        return Err(RpcFailure::invalid(id, "request method is invalid"));
    }
    let params = match fields.get("params") {
        Some(value) => Some(value.to_owned()),
        None => None,
    };
    Ok(ParsedRequestEnvelope { id, method, params })
}

// ---------------------------------------------------------------------------
// Parameters
// ---------------------------------------------------------------------------

/// Whether parameters are absent or an object without fields.
pub open spec fn no_params(params: Option<Seq<char>>) -> bool {
    match params {
        None => true,
        Some(text) => json::object_fields(text) matches Ok(fields) && fields.len() == 0,
    }
}

pub fn params_are_empty(params: &Option<String>) -> (empty: bool)
    ensures
        empty == no_params(error::option_text(*params)),
{
    match params {
        None => true,
        Some(text) => match parse_json_object_fields(text.as_str()) {
            Ok(fields) => fields.len() == 0,
            Err(_) => false,
        },
    }
}

/// Whether every field has one of three names.
pub open spec fn keys_within(fields: Fields, a: Seq<char>, b: Seq<char>, c: Seq<char>) -> bool {
    forall|i: int|
        0 <= i < fields.len() ==> (#[trigger] fields[i]).0 == a || fields[i].0 == b || fields[i].0
            == c
}

pub fn only_keys(fields: &JsonFields, a: &str, b: &str, c: &str) -> (all: bool)
    ensures
        all == keys_within(fields@, a@, b@, c@),
{
    let mut i: usize = 0;
    while i < fields.len()
        invariant
            i <= fields@.len(),
            forall|k: int|
                0 <= k < i ==> (#[trigger] fields@[k]).0 == a@ || fields@[k].0 == b@ || fields@[k].0
                    == c@,
        decreases fields@.len() - i,
    {
        let key = fields.key_at(i);
        if !(str_eq(key, a) || str_eq(key, b) || str_eq(key, c)) {
            assert(!(fields@[i as int].0 == a@ || fields@[i as int].0 == b@ || fields@[i as int].0
                == c@));
            return false;
        }
        i += 1;
    }
    true
}

/// Why a part of the client information is refused, if it is.
pub open spec fn client_info_part(fields: Fields, name: Seq<char>) -> Option<Seq<char>> {
    match json::lookup(fields, name) {
        None => Some("initialize clientInfo is incomplete"@),
        Some(value) => if json::string_value(value) matches Ok(content) && is_bounded_text(
            content,
            MAX_CLIENT_INFO_BYTES,
        ) {
            None
        } else {
            Some("initialize clientInfo is invalid"@)
        },
    }
}

/// Why client information is refused, if it is.
pub open spec fn client_info_refusal(info: Seq<char>) -> Option<Seq<char>> {
    match json::object_fields(info) {
        Err(_) => Some("initialize clientInfo is invalid"@),
        Ok(fields) => if !keys_within(fields, "name"@, "version"@, "version"@) {
            Some("initialize clientInfo contains an unknown field"@)
        } else if client_info_part(fields, "name"@) is Some {
            client_info_part(fields, "name"@)
        } else {
            client_info_part(fields, "version"@)
        },
    }
}

/// Why the parameters of `initialize` are refused, if they are.
pub open spec fn initialize_refusal(params: Option<Seq<char>>) -> Option<Seq<char>> {
    match params {
        None => Some("initialize params are required"@),
        Some(text) => match json::object_fields(text) {
            Err(_) => Some("initialize params are invalid"@),
            Ok(fields) => if !keys_within(
                fields,
                "protocolVersion"@,
                "capabilities"@,
                "clientInfo"@,
            ) {
                Some("initialize params contain an unknown field"@)
            } else {
                match json::lookup(fields, "protocolVersion"@) {
                    None => Some("initialize protocolVersion is required"@),
                    Some(value) => match json::string_value(value) {
                        Err(_) => Some("initialize protocolVersion is invalid"@),
                        Ok(version) => if version != DEFAULT_PROTOCOL_VERSION@ {
                            Some("initialize protocolVersion is unsupported"@)
                        } else {
                            match json::lookup(fields, "capabilities"@) {
                                None => Some("initialize capabilities are required"@),
                                Some(capabilities) => if json::object_fields(
                                    capabilities,
                                ) is Err {
                                    Some("initialize capabilities are invalid"@)
                                } else {
                                    match json::lookup(fields, "clientInfo"@) {
                                        None => Some("initialize clientInfo is required"@),
                                        Some(info) => client_info_refusal(info),
                                    }
                                },
                            }
                        },
                    },
                }
            },
        },
    }
}

/// A message that refuses as it was specified.
pub open spec fn objects_as(outcome: Result<(), &'static str>, refusal: Option<Seq<char>>) -> bool {
    match outcome {
        Ok(()) => refusal is None,
        Err(message) => refusal == Some(message@),
    }
}

fn check_client_info_part(fields: &JsonFields, name: &str) -> (outcome: Result<(), &'static str>)
    ensures
        objects_as(outcome, client_info_part(fields@, name@)),
{
    match fields.get(name) {
        None => Err("initialize clientInfo is incomplete"),
        Some(value) => match parse_json_string(value) {
            Ok(content) => if bounded_text(content.as_str(), MAX_CLIENT_INFO_BYTES) {
                Ok(())
            } else {
                Err("initialize clientInfo is invalid")
            },
            Err(_) => Err("initialize clientInfo is invalid"),
        },
    }
}

fn check_client_info(info: &str) -> (outcome: Result<(), &'static str>)
    ensures
        objects_as(outcome, client_info_refusal(info@)),
{
    let fields = match parse_json_object_fields(info) {
        Ok(fields) => fields,
        Err(_) => return Err("initialize clientInfo is invalid"),
    };
    if !only_keys(&fields, "name", "version", "version") {
        return Err("initialize clientInfo contains an unknown field");
    }
    match check_client_info_part(&fields, "name") {
        Ok(()) => {},
        Err(message) => return Err(message),
    }
    check_client_info_part(&fields, "version")
}

/// Refuse parameters that do not open a session.
pub fn validate_initialize_params(params: &Option<String>) -> (outcome: Result<(), &'static str>)
    ensures
        objects_as(outcome, initialize_refusal(error::option_text(*params))),
{
    let text = match params {
        None => return Err("initialize params are required"),
        Some(text) => text.as_str(),
    };
    let fields = match parse_json_object_fields(text) {
        Ok(fields) => fields,
        Err(_) => return Err("initialize params are invalid"),
    };
    if !only_keys(&fields, "protocolVersion", "capabilities", "clientInfo") {
        return Err("initialize params contain an unknown field");
    }
    let version = match fields.get("protocolVersion") {
        None => return Err("initialize protocolVersion is required"),
        Some(value) => match parse_json_string(value) {
            Ok(version) => version,
            Err(_) => return Err("initialize protocolVersion is invalid"),
        },
    };
    if !str_eq(version.as_str(), DEFAULT_PROTOCOL_VERSION) {
        return Err("initialize protocolVersion is unsupported");
    }
    match fields.get("capabilities") {
        None => return Err("initialize capabilities are required"),
        Some(value) => match parse_json_object_fields(value) {
            Ok(_) => {},
            Err(_) => return Err("initialize capabilities are invalid"),
        },
    }
    match fields.get("clientInfo") {
        None => Err("initialize clientInfo is required"),
        Some(info) => check_client_info(info),
    }
}

// ---------------------------------------------------------------------------
// Session identifiers
// ---------------------------------------------------------------------------

/// Whether a text can identify a session.
pub open spec fn is_session_id(value: Seq<char>) -> bool {
    &&& 0 < value.len()
    &&& encode_utf8(value).len() <= MAX_SESSION_ID_BYTES
    &&& json_rpc::all_visible_ascii(encode_utf8(value))
}

pub fn valid_session_id(value: &str) -> (valid: bool)
    ensures
        valid == is_session_id(value@),
{
    !value.is_empty() && byte_len(value) <= MAX_SESSION_ID_BYTES && visible_ascii(value.as_bytes())
}

/// Two hexadecimal digits for every byte.
pub open spec fn hex_text(bytes: Seq<u8>) -> Seq<char>
    decreases bytes.len(),
{
    if bytes.len() == 0 {
        Seq::empty()
    } else {
        hex_text(bytes.drop_last()).push(json::hex_digit(bytes.last() as int / 16)).push(
            json::hex_digit(bytes.last() as int % 16),
        )
    }
}

/// Two hexadecimal digits for every byte.
pub fn hex_string(bytes: &[u8]) -> (out: String)
    ensures
        out@ == hex_text(bytes@),
{
    let mut out = String::new();
    let mut i: usize = 0;
    assert(bytes@.take(0) =~= Seq::<u8>::empty());
    while i < bytes.len()
        invariant
            i <= bytes@.len(),
            out@ == hex_text(bytes@.take(i as int)),
        decreases bytes@.len() - i,
    {
        let byte: u8 = bytes[i];
        out.push(hex_char((byte / 16) as u32));
        out.push(hex_char((byte % 16) as u32));
        assert(bytes@.take(i + 1).drop_last() =~= bytes@.take(i as int));
        assert(bytes@.take(i + 1).last() == byte);
        i += 1;
    }
    assert(bytes@.take(i as int) =~= bytes@);
    out
}

/// `SecureRandom::fill` of the `ring` provider of `rustls` fills the bytes from
/// the random source of the system, or fails. Which bytes it gives rests on
/// chance, so nothing is stated of them but their number, which the type gives.
#[verifier::external_body]
fn secure_random_bytes() -> (bytes: Option<[u8; 32]>)
{
    let mut random = [0_u8; 32];
    match rustls::crypto::ring::default_provider().secure_random.fill(&mut random) {
        Ok(()) => Some(random),
        Err(_) => None,
    }
}

pub open spec fn session_random_model() -> ErrorModel {
    ErrorModel::new(
        ErrorKind::Unavailable,
        "secure MCP session randomness was unavailable"@,
    ).code("mcp_server_session_random_failed"@)
}

/// Whether a text spells out thirty-two bytes.
pub open spec fn is_fresh_id(id: Seq<char>) -> bool {
    exists|bytes: Seq<u8>| bytes.len() == 32 && id == #[trigger] hex_text(bytes)
}

/// A new identifier: thirty-two random bytes in hexadecimal digits.
pub fn new_session_id() -> (outcome: Result<String, EvaError>)
    ensures
        match outcome {
            Ok(id) => is_fresh_id(id@),
            Err(error) => error@ == session_random_model(),
        },
{
    match secure_random_bytes() {
        Some(random) => {
            let id = hex_string(random.as_slice());
            assert(random@.len() == 32);
            Ok(id)
        },
        None => Err(
            EvaError::unavailable(
                "secure MCP session randomness was unavailable",
            ).with_provider_code("mcp_server_session_random_failed"),
        ),
    }
}

/// Bytes are spelled out in hexadecimal digits, two for each.
pub proof fn lemma_hex_text(bytes: Seq<u8>)
    ensures
        hex_text(bytes).len() == 2 * bytes.len(),
        forall|i: int|
            0 <= i < hex_text(bytes).len() ==> json::is_hex_digit(#[trigger] hex_text(bytes)[i]),
    decreases bytes.len(),
{
    if bytes.len() > 0 {
        lemma_hex_text(bytes.drop_last());
        let v = bytes.last() as int;
        assert(0 <= v / 16 < 16 && 0 <= v % 16 < 16);
    }
}

/// A new identifier can identify a session: it is sent and accepted as it is.
pub proof fn law_new_ids_are_session_ids(id: Seq<char>)
    requires
        is_fresh_id(id),
    ensures
        id.len() == 64,
        is_session_id(id),
{
    let bytes = choose|bytes: Seq<u8>| bytes.len() == 32 && id == #[trigger] hex_text(bytes);
    lemma_hex_text(bytes);
    assert(is_ascii_chars(id)) by {
        assert forall|i: int| 0 <= i < id.len() implies '\0' <= #[trigger] id[i]
            <= '\u{7f}' by {
            assert(json::is_hex_digit(hex_text(bytes)[i]));
        }
    }
    is_ascii_chars_encode_utf8(id);
    text::lemma_encoded_len_bound(id);
    assert forall|i: int| 0 <= i < encode_utf8(id).len() implies 0x21 <= #[trigger] encode_utf8(
        id,
    )[i] <= 0x7e by {
        assert(encode_utf8(id)[i] == id[i] as u8);
        assert(json::is_hex_digit(hex_text(bytes)[i]));
    }
}

proof fn lemma_hex_digit_differs(a: int, b: int)
    requires
        0 <= a < 16,
        0 <= b < 16,
        json::hex_digit(a) == json::hex_digit(b),
    ensures
        a == b,
{
    assert(json::hex_digit_value(json::hex_digit(a)) == a);
    assert(json::hex_digit_value(json::hex_digit(b)) == b);
}

/// Different random bytes give different identifiers.
pub proof fn law_different_bytes_give_different_ids(a: Seq<u8>, b: Seq<u8>)
    requires
        a.len() == b.len(),
        hex_text(a) == hex_text(b),
    ensures
        a == b,
    decreases a.len(),
{
    if a.len() == 0 {
        assert(a =~= b);
    } else {
        let x = hex_text(a);
        let y = hex_text(b);
        lemma_hex_text(a);
        lemma_hex_text(b);
        let n = x.len() as int;
        let front_a = hex_text(a.drop_last());
        let front_b = hex_text(b.drop_last());
        lemma_hex_text(a.drop_last());
        lemma_hex_text(b.drop_last());
        assert(x[n - 1] == json::hex_digit(a.last() as int % 16));
        assert(y[n - 1] == json::hex_digit(b.last() as int % 16));
        assert(x[n - 2] == json::hex_digit(a.last() as int / 16));
        assert(y[n - 2] == json::hex_digit(b.last() as int / 16));
        lemma_hex_digit_differs(a.last() as int % 16, b.last() as int % 16);
        lemma_hex_digit_differs(a.last() as int / 16, b.last() as int / 16);
        assert(a.last() == b.last());
        assert(x.take(n - 2) =~= front_a);
        assert(y.take(n - 2) =~= front_b);
        law_different_bytes_give_different_ids(a.drop_last(), b.drop_last());
        assert(a =~= a.drop_last().push(a.last()));
        assert(b =~= b.drop_last().push(b.last()));
    }
}

// ---------------------------------------------------------------------------
// Answers
// ---------------------------------------------------------------------------

/// The body of an answer that reports an error.
pub open spec fn error_body(id: Option<Seq<char>>, code: int, message: Seq<char>) -> Seq<char> {
    "{\"jsonrpc\":\"2.0\",\"id\":"@ + match id {
        Some(raw) => raw,
        None => "null"@,
    } + ",\"error\":{\"code\":"@ + text::signed_decimal(code) + ",\"message\":"@ + json::quoted(
        message,
    ) + "}}"@
}

pub fn json_rpc_error_body(id: Option<&ValidatedRequestId>, code: i64, message: &str) -> (body:
    String)
    ensures
        body@ == error_body(
            match id {
                Some(id) => Some(id@),
                None => None,
            },
            code as int,
            message@,
        ),
{
    let raw = match id {
        Some(id) => id.raw(),
        None => "null",
    };
    let mut body = String::new();
    body.append("{\"jsonrpc\":\"2.0\",\"id\":");
    body.append(raw);
    body.append(",\"error\":{\"code\":");
    body.append(decimal_i64(code).as_str());
    body.append(",\"message\":");
    body.append(json_string(message).as_str());
    body.append("}}");
    assert(body@ =~= error_body(
        match id {
            Some(id) => Some(id@),
            None => None,
        },
        code as int,
        message@,
    ));
    body
}

/// The body of the answer to a request that opens a session.
pub open spec fn initialize_body(id: Seq<char>) -> Seq<char> {
    "{\"jsonrpc\":\"2.0\",\"id\":"@ + id + ",\"result\":{\"protocolVersion\":"@ + json::quoted(
        DEFAULT_PROTOCOL_VERSION@,
    ) + ",\"capabilities\":{\"tools\":{}},\"serverInfo\":{\"name\":\"eva\",\"version\":"@
        + json::quoted(SERVER_VERSION@) + "}}}"@
}

pub fn initialize_result_body(id: &ValidatedRequestId) -> (body: String)
    ensures
        body@ == initialize_body(id@),
{
    let mut body = String::new();
    body.append("{\"jsonrpc\":\"2.0\",\"id\":");
    body.append(id.raw());
    body.append(",\"result\":{\"protocolVersion\":");
    body.append(json_string(DEFAULT_PROTOCOL_VERSION).as_str());
    body.append(",\"capabilities\":{\"tools\":{}},\"serverInfo\":{\"name\":\"eva\",\"version\":");
    body.append(json_string(SERVER_VERSION).as_str());
    body.append("}}}");
    assert(body@ =~= initialize_body(id@));
    body
}

/// How a tool is listed.
pub open spec fn tool_entry(tool: ToolModel) -> Seq<char> {
    "{\"name\":"@ + json::quoted(tool.name) + ",\"description\":"@ + json::quoted(tool.description)
        + ",\"inputSchema\":"@ + tool.input_schema + ",\"annotations\":{\"readOnlyHint\":true}}"@
}

/// How tools are listed, with commas between them.
pub open spec fn tool_entries(tools: Seq<ToolModel>) -> Seq<char>
    decreases tools.len(),
{
    if tools.len() == 0 {
        Seq::empty()
    } else if tools.len() == 1 {
        tool_entry(tools[0])
    } else {
        tool_entries(tools.drop_last()) + ","@ + tool_entry(tools.last())
    }
}

/// The body of the answer that lists the tools.
pub open spec fn tools_list_body(id: Seq<char>, tools: Seq<ToolModel>) -> Seq<char> {
    "{\"jsonrpc\":\"2.0\",\"id\":"@ + id + ",\"result\":{\"tools\":["@ + tool_entries(tools)
        + "]}}"@
}

fn list_tools(tools: &[McpServerTool]) -> (out: String)
    ensures
        out@ == tool_entries(server::tool_models(tools@)),
{
    let ghost models = server::tool_models(tools@);
    let mut out = String::new();
    let mut i: usize = 0;
    assert(models.take(0) =~= Seq::<ToolModel>::empty());
    while i < tools.len()
        invariant
            i <= tools@.len(),
            models == server::tool_models(tools@),
            out@ == tool_entries(models.take(i as int)),
        decreases tools@.len() - i,
    {
        let tool = &tools[i];
        let ghost before = out@;
        let ghost upto = models.take(i + 1);
        assert(models[i as int] == tool@);
        if i > 0 {
            out.append(",");
        }
        out.append("{\"name\":");
        out.append(json_string(tool.name.as_str()).as_str());
        out.append(",\"description\":");
        out.append(json_string(tool.description.as_str()).as_str());
        out.append(",\"inputSchema\":");
        out.append(tool.input_schema.as_str());
        out.append(",\"annotations\":{\"readOnlyHint\":true}}");
        proof {
            assert(upto.drop_last() =~= models.take(i as int));
            assert(upto.last() == tool@);
            if i == 0 {
                assert(upto[0] == tool@);
                assert(out@ =~= tool_entry(tool@));
            } else {
                assert(out@ =~= before + ","@ + tool_entry(tool@));
            }
        }
        i += 1;
    }
    assert(models.take(i as int) =~= models);
    out
}

pub fn tools_list_result_body(id: &ValidatedRequestId, tools: &[McpServerTool]) -> (body: String)
    ensures
        body@ == tools_list_body(id@, server::tool_models(tools@)),
{
    let mut body = String::new();
    body.append("{\"jsonrpc\":\"2.0\",\"id\":");
    body.append(id.raw());
    body.append(",\"result\":{\"tools\":[");
    body.append(list_tools(tools).as_str());
    body.append("]}}");
    assert(body@ =~= tools_list_body(id@, server::tool_models(tools@)));
    body
}

/// The body of the answer that carries what a tool answered.
pub open spec fn tool_body(id: Seq<char>, content: Seq<char>, is_error: bool) -> Seq<char> {
    "{\"jsonrpc\":\"2.0\",\"id\":"@ + id
        + ",\"result\":{\"content\":[{\"type\":\"text\",\"text\":"@ + json::quoted(content)
        + "}],\"isError\":"@ + (if is_error {
        "true"@
    } else {
        "false"@
    }) + "}}"@
}

pub fn tool_result_body(id: &ValidatedRequestId, result: &McpServerToolResult) -> (body: String)
    ensures
        body@ == tool_body(id@, result@.text, result@.is_error),
{
    let mut body = String::new();
    body.append("{\"jsonrpc\":\"2.0\",\"id\":");
    body.append(id.raw());
    body.append(",\"result\":{\"content\":[{\"type\":\"text\",\"text\":");
    body.append(json_string(result.text_content()).as_str());
    body.append("}],\"isError\":");
    body.append(
        if result.is_error_result() {
            "true"
        } else {
            "false"
        },
    );
    body.append("}}");
    assert(body@ =~= tool_body(id@, result@.text, result@.is_error));
    body
}

/// How many bytes a character takes inside a JSON string.
pub open spec fn escaped_width(c: char) -> nat {
    if c == '"' || c == '\\' || c == '\u{8}' || c == '\u{c}' || c == '\n' || c == '\r' || c == '\t' {
        2
    } else if json::is_control(c) {
        6
    } else {
        text::utf8_width(c)
    }
}

/// How many bytes a text takes inside a JSON string.
pub open spec fn escaped_bytes(s: Seq<char>) -> nat {
    encode_utf8(json::escaped(s)).len()
}

/// ASCII takes one byte for every character.
proof fn lemma_ascii_len(s: Seq<char>)
    requires
        is_ascii_chars(s),
    ensures
        encode_utf8(s).len() == s.len(),
{
    is_ascii_chars_encode_utf8(s);
}

proof fn lemma_escaped_char_width(c: char)
    ensures
        encode_utf8(json::escaped_char(c)).len() == escaped_width(c),
{
    let e = json::escaped_char(c);
    if c == '"' || c == '\\' || c == '\u{8}' || c == '\u{c}' || c == '\n' || c == '\r' || c == '\t' {
        lemma_ascii_len(e);
    } else if json::is_control(c) {
        let v = c as int;
        assert(0 <= v / 16 < 16 && 0 <= v % 16 < 16);
        assert('\0' <= json::hex_digit(v / 16) <= '\u{7f}');
        assert('\0' <= json::hex_digit(v % 16) <= '\u{7f}');
        lemma_ascii_len(e);
    } else {
        text::lemma_encoded_len_first(e);
        assert(e.drop_first() =~= Seq::<char>::empty());
    }
}

proof fn lemma_escaped_bytes_step(s: Seq<char>)
    requires
        s.len() > 0,
    ensures
        escaped_bytes(s) == escaped_bytes(s.drop_last()) + escaped_width(s.last()),
{
    text::lemma_encode_concat(json::escaped(s.drop_last()), json::escaped_char(s.last()));
    lemma_escaped_char_width(s.last());
}

/// What stands around the identifier and the text in a result.
pub open spec fn tool_body_frame() -> Seq<char> {
    "{\"jsonrpc\":\"2.0\",\"id\":,\"result\":{\"content\":[{\"type\":\"text\",\"text\":\"\"}],\"isError\":false}}"@
}

proof fn lemma_tool_body_len(id: Seq<char>, content: Seq<char>, is_error: bool)
    ensures
        encode_utf8(tool_body(id, content, is_error)).len() == encode_utf8(tool_body_frame()).len()
            + encode_utf8(id).len() + escaped_bytes(content) - if is_error {
            1int
        } else {
            0int
        },
{
    let a = "{\"jsonrpc\":\"2.0\",\"id\":"@;
    let b = ",\"result\":{\"content\":[{\"type\":\"text\",\"text\":"@;
    let c = "}],\"isError\":"@;
    let d = if is_error {
        "true"@
    } else {
        "false"@
    };
    let e = "}}"@;
    let q = json::quoted(content);
    assert(encode_utf8(q).len() == escaped_bytes(content) + 2) by {
        let mark = seq!['"'];
        lemma_ascii_len(mark);
        text::lemma_encode_concat(mark, json::escaped(content));
        text::lemma_encode_concat(mark + json::escaped(content), mark);
    }
    text::lemma_encode_concat(a, id);
    text::lemma_encode_concat(a + id, b);
    text::lemma_encode_concat(a + id + b, q);
    text::lemma_encode_concat(a + id + b + q, c);
    text::lemma_encode_concat(a + id + b + q + c, d);
    text::lemma_encode_concat(a + id + b + q + c + d, e);
    lemma_frame_parts();
}

proof fn lemma_frame_parts()
    ensures
        encode_utf8("{\"jsonrpc\":\"2.0\",\"id\":"@).len() + encode_utf8(
            ",\"result\":{\"content\":[{\"type\":\"text\",\"text\":"@,
        ).len() + encode_utf8("}],\"isError\":"@).len() + encode_utf8("}}"@).len() + 7
            == encode_utf8(tool_body_frame()).len(),
        encode_utf8("true"@).len() == 4,
        encode_utf8("false"@).len() == 5,
        encode_utf8(tool_body_frame()).len() == 88,
{
    let a = "{\"jsonrpc\":\"2.0\",\"id\":"@;
    let b = ",\"result\":{\"content\":[{\"type\":\"text\",\"text\":"@;
    let c = "}],\"isError\":"@;
    let e = "}}"@;
    assert(a.len() == 22 && encode_utf8(a).len() == 22) by {
        reveal_strlit("{\"jsonrpc\":\"2.0\",\"id\":");
        assert(a.len() == 22);
        lemma_ascii_len(a);
    }
    assert(encode_utf8(b).len() == 44) by {
        reveal_strlit(",\"result\":{\"content\":[{\"type\":\"text\",\"text\":");
        assert(b.len() == 44);
        lemma_ascii_len(b);
    }
    assert(encode_utf8(c).len() == 13) by {
        reveal_strlit("}],\"isError\":");
        assert(c.len() == 13);
        lemma_ascii_len(c);
    }
    assert(encode_utf8(e).len() == 2) by {
        reveal_strlit("}}");
        lemma_ascii_len(e);
    }
    assert(encode_utf8("true"@).len() == 4) by {
        reveal_strlit("true");
        lemma_ascii_len("true"@);
    }
    assert(encode_utf8("false"@).len() == 5) by {
        reveal_strlit("false");
        lemma_ascii_len("false"@);
    }
    assert(encode_utf8(tool_body_frame()).len() == 88) by {
        reveal_strlit(
            "{\"jsonrpc\":\"2.0\",\"id\":,\"result\":{\"content\":[{\"type\":\"text\",\"text\":\"\"}],\"isError\":false}}",
        );
        lemma_ascii_len(tool_body_frame());
    }
}

/// Whether the body that carries the result stays within the limit, a result
/// that reports a failure counted like one that does not.
pub fn tool_result_fits(
    id: &ValidatedRequestId,
    result: &McpServerToolResult,
    response_limit_bytes: usize,
) -> (fits: bool)
    ensures
        fits == (encode_utf8(tool_body(id@, result@.text, false)).len() <= response_limit_bytes),
{
    proof {
        lemma_tool_body_len(id@, result@.text, false);
    }
    let ghost frame = encode_utf8(tool_body_frame()).len();
    let ghost id_bytes = encode_utf8(id@).len();
    let fixed: usize = byte_len(
        "{\"jsonrpc\":\"2.0\",\"id\":,\"result\":{\"content\":[{\"type\":\"text\",\"text\":\"\"}],\"isError\":false}}",
    );
    if fixed > response_limit_bytes {
        return false;
    }
    let mut room: usize = response_limit_bytes - fixed;
    let raw: usize = byte_len(id.raw());
    if raw > room {
        return false;
    }
    room = room - raw;
    let ghost content = result@.text;
    let chars = chars_of(result.text_content());
    let mut i: usize = 0;
    assert(content.take(0) =~= Seq::<char>::empty());
    assert(content.take(chars@.len() as int) =~= content);
    while i < chars.len()
        invariant
            i <= chars@.len(),
            chars@ == content,
            content == result@.text,
            frame == encode_utf8(tool_body_frame()).len(),
            id_bytes == encode_utf8(id@).len(),
            room + frame + id_bytes + escaped_bytes(content.take(i as int)) == response_limit_bytes,
            encode_utf8(tool_body(id@, content, false)).len() == frame + id_bytes + escaped_bytes(
                content,
            ),
        decreases chars@.len() - i,
    {
        let c = chars[i];
        let width: usize = if c == '"' || c == '\\' || c == '\u{8}' || c == '\u{c}' || c == '\n'
            || c == '\r' || c == '\t' {
            2
        } else if (c as u32) < 0x20 || (0x7f <= c as u32 && c as u32 <= 0x9f) {
            6
        } else {
            char_width(c)
        };
        proof {
            let upto = content.take(i + 1);
            assert(upto.drop_last() =~= content.take(i as int));
            assert(upto.last() == c);
            lemma_escaped_bytes_step(upto);
            assert(width == escaped_width(c));
        }
        if width > room {
            proof {
                lemma_escaped_bytes_grow(content, i + 1);
            }
            return false;
        }
        room = room - width;
        i += 1;
    }
    assert(content.take(i as int) =~= content);
    true
}

proof fn lemma_escaped_bytes_grow(s: Seq<char>, upto: int)
    requires
        0 <= upto <= s.len(),
    ensures
        escaped_bytes(s.take(upto)) <= escaped_bytes(s),
    decreases s.len() - upto,
{
    if upto == s.len() {
        assert(s.take(upto) =~= s);
    } else {
        lemma_escaped_bytes_grow(s, upto + 1);
        assert(s.take(upto + 1).drop_last() =~= s.take(upto));
        lemma_escaped_bytes_step(s.take(upto + 1));
    }
}

/// A result that is found to fit is sent within the limit.
pub proof fn law_fitting_results_stay_within_the_limit(
    id: Seq<char>,
    content: Seq<char>,
    is_error: bool,
    limit: int,
)
    requires
        encode_utf8(tool_body(id, content, false)).len() <= limit,
    ensures
        encode_utf8(tool_body(id, content, is_error)).len() <= limit,
{
    lemma_tool_body_len(id, content, false);
    lemma_tool_body_len(id, content, is_error);
}

} // verus!
