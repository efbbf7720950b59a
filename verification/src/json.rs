//! Strict JSON tokens: where a value ends, what a string holds, which direct
//! fields an object has. Nesting is bounded.

use vstd::prelude::*;
use vstd::string::*;
use vstd::utf8::*;
use crate::error::{ErrorKind, ErrorModel, EvaError};
use crate::text;
use crate::text::{char_width, chars_of, str_eq, string_of};

verus! {

/// The deepest nesting of objects and arrays that a value may have.
pub const MAX_JSON_NESTING_DEPTH: usize = 64;

/// Why a text is not the JSON that was asked for.
#[derive(Debug, Clone, Copy, PartialEq, Eq, Structural)]
pub enum JsonFault {
    NotAnObject,
    ObjectTrailingData,
    ObjectKey,
    ObjectColon,
    ObjectDuplicateField,
    ObjectTrailingComma,
    ObjectSeparator,
    StringArray,
    StringArrayTrailingData,
    StringArrayTrailingComma,
    StringArraySeparator,
    NestedKey,
    NestedColon,
    NestedTrailingComma,
    NestedSeparator,
    ArrayTrailingComma,
    ArraySeparator,
    Primitive,
    ValueMissing,
    NestingLimit,
    StringStart,
    StringUnterminated,
    ControlCharacter,
    EscapeIncomplete,
    EscapeUnsupported,
    UnicodeIncomplete,
    UnicodeInvalid,
    UnicodeDigits,
    SurrogateIncomplete,
    SurrogateInvalid,
}

impl JsonFault {
    /// The message under which the fault is reported.
    pub open spec fn text(self) -> Seq<char> {
        match self {
            JsonFault::NotAnObject => "MCP JSON-RPC value must be an object"@,
            JsonFault::ObjectTrailingData => "MCP JSON-RPC object has trailing non-whitespace data"@,
            JsonFault::ObjectKey => "MCP JSON-RPC object key is invalid"@,
            JsonFault::ObjectColon => "MCP JSON-RPC object key is missing a colon"@,
            JsonFault::ObjectDuplicateField => "MCP JSON-RPC object contains a duplicate field"@,
            JsonFault::ObjectTrailingComma => "MCP JSON-RPC object contains a trailing comma"@,
            JsonFault::ObjectSeparator => "MCP JSON-RPC object fields are not comma-separated"@,
            JsonFault::StringArray => "MCP JSON string array is invalid"@,
            JsonFault::StringArrayTrailingData => "MCP JSON string array has trailing data"@,
            JsonFault::StringArrayTrailingComma => "MCP JSON string array contains a trailing comma"@,
            JsonFault::StringArraySeparator => "MCP JSON string array values are not comma-separated"@,
            JsonFault::NestedKey => "MCP JSON-RPC nested object key is invalid"@,
            JsonFault::NestedColon => "MCP JSON-RPC nested object key is missing a colon"@,
            JsonFault::NestedTrailingComma => "MCP JSON-RPC nested object contains a trailing comma"@,
            JsonFault::NestedSeparator => "MCP JSON-RPC nested object fields are not comma-separated"@,
            JsonFault::ArrayTrailingComma => "MCP JSON-RPC array contains a trailing comma"@,
            JsonFault::ArraySeparator => "MCP JSON-RPC array values are not comma-separated"@,
            JsonFault::Primitive => "MCP JSON-RPC primitive value is invalid"@,
            JsonFault::ValueMissing => "MCP JSON-RPC object value is missing"@,
            JsonFault::NestingLimit => "MCP JSON-RPC nesting limit exceeded"@,
            JsonFault::StringStart => "MCP JSON-RPC string field is invalid"@,
            JsonFault::StringUnterminated => "MCP JSON-RPC string field is unterminated"@,
            JsonFault::ControlCharacter => "MCP JSON-RPC string contains an unescaped control character"@,
            JsonFault::EscapeIncomplete => "MCP JSON-RPC string escape is incomplete"@,
            JsonFault::EscapeUnsupported => "MCP JSON-RPC string escape is unsupported"@,
            JsonFault::UnicodeIncomplete => "MCP JSON-RPC unicode escape is incomplete"@,
            JsonFault::UnicodeInvalid => "MCP JSON-RPC unicode escape is invalid"@,
            JsonFault::UnicodeDigits => "MCP JSON-RPC unicode escape is invalid"@,
            JsonFault::SurrogateIncomplete => "MCP JSON-RPC unicode surrogate pair is incomplete"@,
            JsonFault::SurrogateInvalid => "MCP JSON-RPC unicode surrogate pair is invalid"@,
        }
    }

    /// The error under which the fault is reported.
    pub open spec fn model(self) -> ErrorModel {
        let base = protocol_model(self.text());
        if self == JsonFault::UnicodeDigits {
            base.ctx("parse_error"@, "invalid digit found in string"@)
        } else {
            base
        }
    }

    fn message(self) -> (message: &'static str)
        ensures
            message@ == self.text(),
    {
        match self {
            JsonFault::NotAnObject => "MCP JSON-RPC value must be an object",
            JsonFault::ObjectTrailingData => "MCP JSON-RPC object has trailing non-whitespace data",
            JsonFault::ObjectKey => "MCP JSON-RPC object key is invalid",
            JsonFault::ObjectColon => "MCP JSON-RPC object key is missing a colon",
            JsonFault::ObjectDuplicateField => "MCP JSON-RPC object contains a duplicate field",
            JsonFault::ObjectTrailingComma => "MCP JSON-RPC object contains a trailing comma",
            JsonFault::ObjectSeparator => "MCP JSON-RPC object fields are not comma-separated",
            JsonFault::StringArray => "MCP JSON string array is invalid",
            JsonFault::StringArrayTrailingData => "MCP JSON string array has trailing data",
            JsonFault::StringArrayTrailingComma => "MCP JSON string array contains a trailing comma",
            JsonFault::StringArraySeparator => "MCP JSON string array values are not comma-separated",
            JsonFault::NestedKey => "MCP JSON-RPC nested object key is invalid",
            JsonFault::NestedColon => "MCP JSON-RPC nested object key is missing a colon",
            JsonFault::NestedTrailingComma => "MCP JSON-RPC nested object contains a trailing comma",
            JsonFault::NestedSeparator => "MCP JSON-RPC nested object fields are not comma-separated",
            JsonFault::ArrayTrailingComma => "MCP JSON-RPC array contains a trailing comma",
            JsonFault::ArraySeparator => "MCP JSON-RPC array values are not comma-separated",
            JsonFault::Primitive => "MCP JSON-RPC primitive value is invalid",
            JsonFault::ValueMissing => "MCP JSON-RPC object value is missing",
            JsonFault::NestingLimit => "MCP JSON-RPC nesting limit exceeded",
            JsonFault::StringStart => "MCP JSON-RPC string field is invalid",
            JsonFault::StringUnterminated => "MCP JSON-RPC string field is unterminated",
            JsonFault::ControlCharacter => "MCP JSON-RPC string contains an unescaped control character",
            JsonFault::EscapeIncomplete => "MCP JSON-RPC string escape is incomplete",
            JsonFault::EscapeUnsupported => "MCP JSON-RPC string escape is unsupported",
            JsonFault::UnicodeIncomplete => "MCP JSON-RPC unicode escape is incomplete",
            JsonFault::UnicodeInvalid => "MCP JSON-RPC unicode escape is invalid",
            JsonFault::UnicodeDigits => "MCP JSON-RPC unicode escape is invalid",
            JsonFault::SurrogateIncomplete => "MCP JSON-RPC unicode surrogate pair is incomplete",
            JsonFault::SurrogateInvalid => "MCP JSON-RPC unicode surrogate pair is invalid",
        }
    }

    /// The error under which the fault is reported.
    pub fn to_error(self) -> (error: EvaError)
        ensures
            error@ == self.model(),
    {
        let base = protocol_error(self.message());
        if self == JsonFault::UnicodeDigits {
            base.with_context("parse_error", "invalid digit found in string")
        } else {
            base
        }
    }
}

/// What a protocol error with the given message says.
pub open spec fn protocol_model(message: Seq<char>) -> ErrorModel {
    ErrorModel::new(ErrorKind::Unavailable, message).code("mcp_protocol_error"@).retry(false)
}

/// A peer that broke the protocol: unavailable, and not worth a retry.
pub fn protocol_error(message: &str) -> (error: EvaError)
    ensures
        error@ == protocol_model(message@),
{
    EvaError::unavailable(message).with_provider_code("mcp_protocol_error").with_retryable(false)
}

// ---------------------------------------------------------------------------
// Tokens
// ---------------------------------------------------------------------------

/// The four characters JSON treats as whitespace.
pub open spec fn is_json_space(c: char) -> bool {
    c == ' ' || c == '\t' || c == '\r' || c == '\n'
}

/// The first position from `at` on that holds no whitespace.
pub open spec fn skip_space(s: Seq<char>, at: int) -> int
    decreases s.len() - at,
{
    if 0 <= at < s.len() && is_json_space(s[at]) {
        skip_space(s, at + 1)
    } else {
        at
    }
}

/// Whether the character `c` stands at position `at`.
pub open spec fn holds(s: Seq<char>, at: int, c: char) -> bool {
    0 <= at < s.len() && s[at] == c
}

pub open spec fn is_digit(c: char) -> bool {
    '0' <= c <= '9'
}

pub open spec fn is_hex_digit(c: char) -> bool {
    is_digit(c) || 'a' <= c <= 'f' || 'A' <= c <= 'F'
}

/// The characters that may follow a backslash on their own.
pub open spec fn is_short_escape(c: char) -> bool {
    c == '"' || c == '\\' || c == '/' || c == 'b' || c == 'f' || c == 'n' || c == 'r' || c == 't'
}

/// The position after the closing quote of a string whose content starts at `at`.
pub open spec fn string_end(s: Seq<char>, at: int) -> Result<int, JsonFault>
    decreases s.len() - at,
{
    if !(0 <= at < s.len()) {
        Err(JsonFault::StringUnterminated)
    } else if s[at] == '"' {
        Ok(at + 1)
    } else if s[at] == '\\' {
        if at + 1 >= s.len() {
            Err(JsonFault::EscapeIncomplete)
        } else if is_short_escape(s[at + 1]) {
            string_end(s, at + 2)
        } else if s[at + 1] != 'u' {
            Err(JsonFault::EscapeUnsupported)
        } else if encode_utf8(s.skip(at + 2)).len() < 4 {
            Err(JsonFault::UnicodeIncomplete)
        } else if at + 6 <= s.len() && is_hex_digit(s[at + 2]) && is_hex_digit(s[at + 3])
            && is_hex_digit(s[at + 4]) && is_hex_digit(s[at + 5]) {
            string_end(s, at + 6)
        } else {
            Err(JsonFault::UnicodeInvalid)
        }
    } else if (s[at] as u32) < 0x20 {
        Err(JsonFault::ControlCharacter)
    } else {
        string_end(s, at + 1)
    }
}

/// The first position from `at` on that ends a primitive token.
pub open spec fn primitive_end(s: Seq<char>, at: int) -> int
    decreases s.len() - at,
{
    if 0 <= at < s.len() && !is_json_space(s[at]) && s[at] != ',' && s[at] != '}' && s[at] != ']' {
        primitive_end(s, at + 1)
    } else {
        at
    }
}

/// The first position from `at` on that holds no decimal digit.
pub open spec fn digits_end(s: Seq<char>, at: int) -> int
    decreases s.len() - at,
{
    if 0 <= at < s.len() && is_digit(s[at]) {
        digits_end(s, at + 1)
    } else {
        at
    }
}

/// The end of the integer part that starts at `at`: a lone zero, or digits
/// without a leading zero.
pub open spec fn integer_end(s: Seq<char>, at: int) -> Option<int> {
    if holds(s, at, '0') {
        Some(at + 1)
    } else if 0 <= at < s.len() && is_digit(s[at]) {
        Some(digits_end(s, at))
    } else {
        None
    }
}

/// The end of the optional fraction at `at`.
pub open spec fn fraction_end(s: Seq<char>, at: int) -> Option<int> {
    if !holds(s, at, '.') {
        Some(at)
    } else if digits_end(s, at + 1) == at + 1 {
        None
    } else {
        Some(digits_end(s, at + 1))
    }
}

/// The end of the optional exponent at `at`.
pub open spec fn exponent_end(s: Seq<char>, at: int) -> Option<int> {
    if !holds(s, at, 'e') && !holds(s, at, 'E') {
        Some(at)
    } else {
        let digits = if holds(s, at + 1, '+') || holds(s, at + 1, '-') {
            at + 2
        } else {
            at + 1
        };
        if digits_end(s, digits) == digits {
            None
        } else {
            Some(digits_end(s, digits))
        }
    }
}

/// Whether the whole text is one JSON number.
pub open spec fn is_number(s: Seq<char>) -> bool {
    let start = if holds(s, 0, '-') {
        1int
    } else {
        0int
    };
    match integer_end(s, start) {
        None => false,
        Some(integer) => match fraction_end(s, integer) {
            None => false,
            Some(fraction) => exponent_end(s, fraction) == Some(s.len() as int),
        },
    }
}

/// Whether the whole text is a JSON literal or number.
pub open spec fn is_primitive(s: Seq<char>) -> bool {
    s == "true"@ || s == "false"@ || s == "null"@ || is_number(s)
}

pub proof fn lemma_skip_space(s: Seq<char>, at: int)
    requires
        0 <= at <= s.len(),
    ensures
        at <= skip_space(s, at) <= s.len(),
        skip_space(s, at) < s.len() ==> !is_json_space(s[skip_space(s, at)]),
    decreases s.len() - at,
{
    if at < s.len() && is_json_space(s[at]) {
        lemma_skip_space(s, at + 1);
    }
}

pub proof fn lemma_string_end(s: Seq<char>, at: int)
    ensures
        string_end(s, at) matches Ok(end) ==> at < end <= s.len(),
    decreases s.len() - at,
{
    if 0 <= at < s.len() && s[at] != '"' {
        if s[at] == '\\' {
            if at + 1 < s.len() {
                lemma_string_end(s, at + 2);
                if at + 6 <= s.len() {
                    lemma_string_end(s, at + 6);
                }
            }
        } else {
            lemma_string_end(s, at + 1);
        }
    }
}

pub proof fn lemma_primitive_end(s: Seq<char>, at: int)
    requires
        0 <= at <= s.len(),
    ensures
        at <= primitive_end(s, at) <= s.len(),
    decreases s.len() - at,
{
    if at < s.len() {
        lemma_primitive_end(s, at + 1);
    }
}

pub proof fn lemma_digits_end(s: Seq<char>, at: int)
    requires
        0 <= at <= s.len(),
    ensures
        at <= digits_end(s, at) <= s.len(),
    decreases s.len() - at,
{
    if at < s.len() {
        lemma_digits_end(s, at + 1);
    }
}

/// The end of the value that starts at `at`, inside `depth` objects and arrays.
pub open spec fn value_end(s: Seq<char>, at: int, depth: int) -> Result<int, JsonFault>
    decreases s.len() - at, 2int,
{
    if !(0 <= at < s.len()) {
        Err(JsonFault::ValueMissing)
    } else if s[at] == '"' {
        string_end(s, at + 1)
    } else if s[at] == '{' {
        if depth + 1 > MAX_JSON_NESTING_DEPTH {
            Err(JsonFault::NestingLimit)
        } else {
            object_end(s, at + 1, depth + 1)
        }
    } else if s[at] == '[' {
        if depth + 1 > MAX_JSON_NESTING_DEPTH {
            Err(JsonFault::NestingLimit)
        } else {
            array_end(s, at + 1, depth + 1)
        }
    } else {
        let end = primitive_end(s, at);
        if is_primitive(s.subrange(at, end)) {
            Ok(end)
        } else {
            Err(JsonFault::Primitive)
        }
    }
}

/// The end of an object whose content starts at `at`.
pub open spec fn object_end(s: Seq<char>, at: int, depth: int) -> Result<int, JsonFault>
    decreases s.len() - at, 1int,
{
    let first = skip_space(s, at);
    if holds(s, first, '}') {
        Ok(first + 1)
    } else if !(at <= first <= s.len()) {
        Err(JsonFault::NestedKey)
    } else {
        members_end(s, first, depth)
    }
}

/// The end of an object whose next member starts at `at`.
pub open spec fn members_end(s: Seq<char>, at: int, depth: int) -> Result<int, JsonFault>
    decreases s.len() - at, 0int,
{
    if !holds(s, at, '"') {
        Err(JsonFault::NestedKey)
    } else {
        match string_end(s, at + 1) {
            Err(fault) => Err(fault),
            Ok(key) => {
                let colon = skip_space(s, key);
                if !holds(s, colon, ':') {
                    Err(JsonFault::NestedColon)
                } else {
                    let start = skip_space(s, colon + 1);
                    // Positions only move forward: see `lemma_value_end`.
                    if !(at < start <= s.len()) {
                        Err(JsonFault::NestedSeparator)
                    } else {
                        match value_end(s, start, depth) {
                            Err(fault) => Err(fault),
                            Ok(end) => {
                                let next = skip_space(s, end);
                                if holds(s, next, '}') {
                                    Ok(next + 1)
                                } else if !holds(s, next, ',') {
                                    Err(JsonFault::NestedSeparator)
                                } else if holds(s, skip_space(s, next + 1), '}') {
                                    Err(JsonFault::NestedTrailingComma)
                                } else if !(at < skip_space(s, next + 1) <= s.len()) {
                                    Err(JsonFault::NestedSeparator)
                                } else {
                                    members_end(s, skip_space(s, next + 1), depth)
                                }
                            },
                        }
                    }
                }
            },
        }
    }
}

/// The end of an array whose content starts at `at`.
pub open spec fn array_end(s: Seq<char>, at: int, depth: int) -> Result<int, JsonFault>
    decreases s.len() - at, 4int,
{
    let first = skip_space(s, at);
    if holds(s, first, ']') {
        Ok(first + 1)
    } else if !(at <= first <= s.len()) {
        Err(JsonFault::ArraySeparator)
    } else {
        items_end(s, first, depth)
    }
}

/// The end of an array whose next item starts at `at`.
pub open spec fn items_end(s: Seq<char>, at: int, depth: int) -> Result<int, JsonFault>
    decreases s.len() - at, 3int,
{
    match value_end(s, at, depth) {
        Err(fault) => Err(fault),
        Ok(end) => {
            let next = skip_space(s, end);
            if holds(s, next, ']') {
                Ok(next + 1)
            } else if !holds(s, next, ',') {
                Err(JsonFault::ArraySeparator)
            } else if holds(s, skip_space(s, next + 1), ']') {
                Err(JsonFault::ArrayTrailingComma)
            } else if !(at < skip_space(s, next + 1) <= s.len()) {
                Err(JsonFault::ArraySeparator)
            } else {
                items_end(s, skip_space(s, next + 1), depth)
            }
        },
    }
}

/// A value ends after it starts and within the text.
pub proof fn lemma_value_end(s: Seq<char>, at: int, depth: int)
    ensures
        value_end(s, at, depth) matches Ok(end) ==> at < end <= s.len(),
    decreases s.len() - at, 2int,
{
    if 0 <= at < s.len() {
        if s[at] == '"' {
            lemma_string_end(s, at + 1);
        } else if s[at] == '{' {
            lemma_object_end(s, at + 1, depth + 1);
        } else if s[at] == '[' {
            lemma_array_end(s, at + 1, depth + 1);
        } else {
            let end = primitive_end(s, at);
            lemma_primitive_end(s, at);
            if end == at {
                assert(s.subrange(at, end) =~= Seq::<char>::empty());
                reveal_strlit("true");
                reveal_strlit("false");
                reveal_strlit("null");
                assert(!is_primitive(s.subrange(at, end)));
            }
        }
    }
}

pub proof fn lemma_object_end(s: Seq<char>, at: int, depth: int)
    requires
        0 <= at <= s.len(),
    ensures
        object_end(s, at, depth) matches Ok(end) ==> at < end <= s.len(),
    decreases s.len() - at, 1int,
{
    lemma_skip_space(s, at);
    let first = skip_space(s, at);
    if !holds(s, first, '}') {
        lemma_members_end(s, first, depth);
    }
}

pub proof fn lemma_members_end(s: Seq<char>, at: int, depth: int)
    requires
        0 <= at <= s.len(),
    ensures
        members_end(s, at, depth) matches Ok(end) ==> at < end <= s.len(),
    decreases s.len() - at, 0int,
{
    lemma_string_end(s, at + 1);
    if holds(s, at, '"') && string_end(s, at + 1) is Ok {
        let key = string_end(s, at + 1)->Ok_0;
        lemma_skip_space(s, key);
        let colon = skip_space(s, key);
        if holds(s, colon, ':') {
            lemma_skip_space(s, colon + 1);
            let start = skip_space(s, colon + 1);
            lemma_value_end(s, start, depth);
            if value_end(s, start, depth) is Ok {
                let end = value_end(s, start, depth)->Ok_0;
                lemma_skip_space(s, end);
                let next = skip_space(s, end);
                if holds(s, next, ',') {
                    lemma_skip_space(s, next + 1);
                    lemma_members_end(s, skip_space(s, next + 1), depth);
                }
            }
        }
    }
}

pub proof fn lemma_array_end(s: Seq<char>, at: int, depth: int)
    requires
        0 <= at <= s.len(),
    ensures
        array_end(s, at, depth) matches Ok(end) ==> at < end <= s.len(),
    decreases s.len() - at, 4int,
{
    lemma_skip_space(s, at);
    let first = skip_space(s, at);
    if !holds(s, first, ']') {
        lemma_items_end(s, first, depth);
    }
}

pub proof fn lemma_items_end(s: Seq<char>, at: int, depth: int)
    requires
        0 <= at <= s.len(),
    ensures
        items_end(s, at, depth) matches Ok(end) ==> at < end <= s.len(),
    decreases s.len() - at, 3int,
{
    lemma_value_end(s, at, depth);
    if value_end(s, at, depth) is Ok {
        let end = value_end(s, at, depth)->Ok_0;
        lemma_skip_space(s, end);
        let next = skip_space(s, end);
        if holds(s, next, ',') {
            lemma_skip_space(s, next + 1);
            lemma_items_end(s, skip_space(s, next + 1), depth);
        }
    }
}

/// Whether a computed position or fault is the one that was specified.
pub open spec fn same_end(found: Result<usize, JsonFault>, expected: Result<int, JsonFault>) -> bool {
    match found {
        Ok(end) => expected == Ok::<int, JsonFault>(end as int),
        Err(fault) => expected == Err::<int, JsonFault>(fault),
    }
}

fn char_is(s: &[char], at: usize, c: char) -> (found: bool)
    ensures
        found == holds(s@, at as int, c),
        found ==> at < usize::MAX,
{
    at < s.len() && s[at] == c
}

pub fn skip_json_whitespace(s: &[char], at: usize) -> (end: usize)
    requires
        at <= s@.len(),
    ensures
        end == skip_space(s@, at as int),
        at <= end <= s@.len(),
{
    let mut end: usize = at;
    while end < s.len() && (s[end] == ' ' || s[end] == '\t' || s[end] == '\r' || s[end] == '\n')
        invariant
            at <= end <= s@.len(),
            skip_space(s@, at as int) == skip_space(s@, end as int),
        decreases s@.len() - end,
    {
        end += 1;
    }
    end
}

fn is_hex(c: char) -> (hex: bool)
    ensures
        hex == is_hex_digit(c),
{
    ('0' <= c && c <= '9') || ('a' <= c && c <= 'f') || ('A' <= c && c <= 'F')
}

/// Whether the characters from `at` on take four bytes or more in UTF-8.
fn four_bytes_follow(s: &[char], at: usize) -> (enough: bool)
    requires
        at <= s@.len(),
    ensures
        enough == (encode_utf8(s@.skip(at as int)).len() >= 4),
{
    let mut bytes: usize = 0;
    let mut i: usize = at;
    while i < s.len() && bytes < 4
        invariant
            at <= i <= s@.len(),
            bytes < 8,
            encode_utf8(s@.skip(at as int)).len() == bytes + encode_utf8(s@.skip(i as int)).len(),
        decreases s@.len() - i,
    {
        proof {
            text::lemma_encoded_len_first(s@.skip(i as int));
            assert(s@.skip(i as int).drop_first() =~= s@.skip(i + 1));
        }
        bytes += char_width(s[i]);
        i += 1;
    }
    proof {
        text::lemma_encoded_len_bound(s@.skip(i as int));
    }
    bytes >= 4
}

/// The position after the string token that starts at `at`.
fn json_string_token_end(s: &[char], at: usize) -> (end: Result<usize, JsonFault>)
    requires
        at <= s@.len(),
    ensures
        holds(s@, at as int, '"') ==> same_end(end, string_end(s@, at + 1)),
        !holds(s@, at as int, '"') ==> end == Err::<usize, JsonFault>(JsonFault::StringStart),
        end matches Ok(e) ==> at < e <= s@.len(),
{
    if !char_is(s, at, '"') {
        return Err(JsonFault::StringStart);
    }
    let mut i: usize = at + 1;
    while i < s.len()
        invariant
            at < i <= s@.len(),
            holds(s@, at as int, '"'),
            string_end(s@, at + 1) == string_end(s@, i as int),
        decreases s@.len() - i,
    {
        let c = s[i];
        if c == '"' {
            return Ok(i + 1);
        }
        if c == '\\' {
            if s.len() - i < 2 {
                return Err(JsonFault::EscapeIncomplete);
            }
            let e = s[i + 1];
            if e == '"' || e == '\\' || e == '/' || e == 'b' || e == 'f' || e == 'n' || e == 'r'
                || e == 't' {
                i += 2;
            } else if e == 'u' {
                if !four_bytes_follow(s, i + 2) {
                    return Err(JsonFault::UnicodeIncomplete);
                }
                if s.len() - i >= 6 && is_hex(s[i + 2]) && is_hex(s[i + 3]) && is_hex(s[i + 4])
                    && is_hex(s[i + 5]) {
                    i += 6;
                } else {
                    return Err(JsonFault::UnicodeInvalid);
                }
            } else {
                return Err(JsonFault::EscapeUnsupported);
            }
        } else if (c as u32) < 0x20 {
            return Err(JsonFault::ControlCharacter);
        } else {
            i += 1;
        }
    }
    Err(JsonFault::StringUnterminated)
}

fn skip_digits(s: &[char], at: usize) -> (end: usize)
    requires
        at <= s@.len(),
    ensures
        end == digits_end(s@, at as int),
        at <= end <= s@.len(),
{
    let mut end: usize = at;
    while end < s.len() && '0' <= s[end] && s[end] <= '9'
        invariant
            at <= end <= s@.len(),
            digits_end(s@, at as int) == digits_end(s@, end as int),
        decreases s@.len() - end,
    {
        end += 1;
    }
    end
}

/// Whether the characters are one JSON number.
pub fn is_json_number(s: &[char]) -> (number: bool)
    ensures
        number == is_number(s@),
{
    let mut i: usize = 0;
    if char_is(s, 0, '-') {
        i = 1;
    }
    let ghost start = i as int;
    if char_is(s, i, '0') {
        i += 1;
    } else if i < s.len() && '1' <= s[i] && s[i] <= '9' {
        i = skip_digits(s, i);
    } else {
        return false;
    }
    assert(integer_end(s@, start) == Some(i as int));
    let ghost integer = i as int;
    if char_is(s, i, '.') {
        let digits: usize = i + 1;
        i = skip_digits(s, digits);
        if i == digits {
            return false;
        }
    }
    assert(fraction_end(s@, integer) == Some(i as int));
    let ghost fraction = i as int;
    if char_is(s, i, 'e') || char_is(s, i, 'E') {
        i += 1;
        if char_is(s, i, '+') || char_is(s, i, '-') {
            i += 1;
        }
        let digits: usize = i;
        i = skip_digits(s, digits);
        if i == digits {
            return false;
        }
    }
    assert(exponent_end(s@, fraction) == Some(i as int));
    i == s.len()
}

/// The position after the value that starts at `at`, which `depth` objects and
/// arrays enclose.
pub fn json_value_token_end_at_depth(s: &[char], at: usize, depth: usize) -> (end: Result<
    usize,
    JsonFault,
>)
    requires
        at <= s@.len(),
    ensures
        same_end(end, value_end(s@, at as int, depth as int)),
        end matches Ok(e) ==> at < e <= s@.len(),
    decreases s@.len() - at, 2int,
{
    if at >= s.len() {
        return Err(JsonFault::ValueMissing);
    }
    proof {
        lemma_value_end(s@, at as int, depth as int);
    }
    let c = s[at];
    if c == '"' {
        json_string_token_end(s, at)
    } else if c == '{' {
        if depth >= MAX_JSON_NESTING_DEPTH {
            return Err(JsonFault::NestingLimit);
        }
        json_object_token_end(s, at + 1, depth + 1)
    } else if c == '[' {
        if depth >= MAX_JSON_NESTING_DEPTH {
            return Err(JsonFault::NestingLimit);
        }
        json_array_token_end(s, at + 1, depth + 1)
    } else {
        json_primitive_token_end(s, at)
    }
}

fn json_primitive_token_end(s: &[char], at: usize) -> (end: Result<usize, JsonFault>)
    requires
        at < s@.len(),
        s@[at as int] != '"' && s@[at as int] != '{' && s@[at as int] != '[',
    ensures
        forall|depth: int| same_end(end, #[trigger] value_end(s@, at as int, depth)),
{
    let mut i: usize = at;
    while i < s.len() && !(s[i] == ' ' || s[i] == '\t' || s[i] == '\r' || s[i] == '\n') && s[i]
        != ',' && s[i] != '}' && s[i] != ']'
        invariant
            at <= i <= s@.len(),
            primitive_end(s@, at as int) == primitive_end(s@, i as int),
        decreases s@.len() - i,
    {
        i += 1;
    }
    let token = vstd::slice::slice_subrange(s, at, i);
    let word = string_of(s, at, i);
    if str_eq(word.as_str(), "true") || str_eq(word.as_str(), "false") || str_eq(
        word.as_str(),
        "null",
    ) || is_json_number(token) {
        Ok(i)
    } else {
        Err(JsonFault::Primitive)
    }
}

/// The position after the object whose content starts at `at`.
fn json_object_token_end(s: &[char], at: usize, depth: usize) -> (end: Result<usize, JsonFault>)
    requires
        at <= s@.len(),
    ensures
        same_end(end, object_end(s@, at as int, depth as int)),
    decreases s@.len() - at, 1int,
{
    let mut i: usize = skip_json_whitespace(s, at);
    if char_is(s, i, '}') {
        return Ok(i + 1);
    }
    loop
        invariant
            at <= i <= s@.len(),
            object_end(s@, at as int, depth as int) == members_end(s@, i as int, depth as int),
        decreases s@.len() - i,
    {
        let ghost member = i as int;
        proof {
            lemma_members_end(s@, member, depth as int);
        }
        if !char_is(s, i, '"') {
            return Err(JsonFault::NestedKey);
        }
        let key = match json_string_token_end(s, i) {
            Ok(end) => end,
            Err(fault) => return Err(fault),
        };
        let colon: usize = skip_json_whitespace(s, key);
        if !char_is(s, colon, ':') {
            return Err(JsonFault::NestedColon);
        }
        let start: usize = skip_json_whitespace(s, colon + 1);
        let value = match json_value_token_end_at_depth(s, start, depth) {
            Ok(end) => end,
            Err(fault) => return Err(fault),
        };
        let next: usize = skip_json_whitespace(s, value);
        if char_is(s, next, ',') {
            i = skip_json_whitespace(s, next + 1);
            if char_is(s, i, '}') {
                return Err(JsonFault::NestedTrailingComma);
            }
        } else if char_is(s, next, '}') {
            return Ok(next + 1);
        } else {
            return Err(JsonFault::NestedSeparator);
        }
    }
}

/// The position after the array whose content starts at `at`.
fn json_array_token_end(s: &[char], at: usize, depth: usize) -> (end: Result<usize, JsonFault>)
    requires
        at <= s@.len(),
    ensures
        same_end(end, array_end(s@, at as int, depth as int)),
    decreases s@.len() - at, 4int,
{
    let mut i: usize = skip_json_whitespace(s, at);
    if char_is(s, i, ']') {
        return Ok(i + 1);
    }
    loop
        invariant
            at <= i <= s@.len(),
            array_end(s@, at as int, depth as int) == items_end(s@, i as int, depth as int),
        decreases s@.len() - i,
    {
        proof {
            lemma_items_end(s@, i as int, depth as int);
        }
        let value = match json_value_token_end_at_depth(s, i, depth) {
            Ok(end) => end,
            Err(fault) => return Err(fault),
        };
        let next: usize = skip_json_whitespace(s, value);
        if char_is(s, next, ',') {
            i = skip_json_whitespace(s, next + 1);
            if char_is(s, i, ']') {
                return Err(JsonFault::ArrayTrailingComma);
            }
        } else if char_is(s, next, ']') {
            return Ok(next + 1);
        } else {
            return Err(JsonFault::ArraySeparator);
        }
    }
}

// ---------------------------------------------------------------------------
// Strings
// ---------------------------------------------------------------------------

/// The value of a hexadecimal digit.
pub open spec fn hex_digit_value(c: char) -> int {
    if is_digit(c) {
        c as int - '0' as int
    } else if 'a' <= c <= 'f' {
        c as int - 'a' as int + 10
    } else {
        c as int - 'A' as int + 10
    }
}

/// The value of the four characters at `at` read as a hexadecimal number. A
/// plus sign may stand in place of the first digit.
pub open spec fn hex_quad(s: Seq<char>, at: int) -> Option<int> {
    if at + 4 <= s.len() && (s[at] == '+' || is_hex_digit(s[at])) && is_hex_digit(s[at + 1])
        && is_hex_digit(s[at + 2]) && is_hex_digit(s[at + 3]) {
        let first = if s[at] == '+' {
            0int
        } else {
            hex_digit_value(s[at])
        };
        Some(
            4096 * first + 256 * hex_digit_value(s[at + 1]) + 16 * hex_digit_value(s[at + 2])
                + hex_digit_value(s[at + 3]),
        )
    } else {
        None
    }
}

/// The character a short escape stands for.
pub open spec fn short_escape_value(c: char) -> char {
    if c == 'b' {
        '\u{8}'
    } else if c == 'f' {
        '\u{c}'
    } else if c == 'n' {
        '\n'
    } else if c == 'r' {
        '\r'
    } else if c == 't' {
        '\t'
    } else {
        c
    }
}

/// The scalar value that a surrogate pair stands for.
pub open spec fn surrogate_scalar(high: int, low: int) -> int {
    0x10000 + (high - 0xd800) * 0x400 + (low - 0xdc00)
}

/// The character that the unicode escape with digits at `at` stands for, and
/// the position after it. A high surrogate takes its low half along.
pub open spec fn unicode_unit(s: Seq<char>, at: int) -> Result<(char, int), JsonFault> {
    if at + 4 > s.len() {
        Err(JsonFault::UnicodeIncomplete)
    } else {
        match hex_quad(s, at) {
            None => Err(JsonFault::UnicodeDigits),
            Some(code) => if 0xdc00 <= code <= 0xdfff {
                Err(JsonFault::SurrogateInvalid)
            } else if !(0xd800 <= code <= 0xdbff) {
                Ok((code as char, at + 4))
            } else if !holds(s, at + 4, '\\') || !holds(s, at + 5, 'u') || at + 10 > s.len() {
                Err(JsonFault::SurrogateIncomplete)
            } else {
                match hex_quad(s, at + 6) {
                    None => Err(JsonFault::UnicodeDigits),
                    Some(low) => if 0xdc00 <= low <= 0xdfff {
                        Ok((surrogate_scalar(code, low) as char, at + 10))
                    } else {
                        Err(JsonFault::SurrogateInvalid)
                    },
                }
            },
        }
    }
}

/// The character written at `at` inside a string, and the position after it.
pub open spec fn string_unit(s: Seq<char>, at: int) -> Result<(char, int), JsonFault> {
    if s[at] != '\\' {
        Ok((s[at], at + 1))
    } else if at + 1 >= s.len() {
        Err(JsonFault::EscapeIncomplete)
    } else if is_short_escape(s[at + 1]) {
        Ok((short_escape_value(s[at + 1]), at + 2))
    } else if s[at + 1] == 'u' {
        unicode_unit(s, at + 2)
    } else {
        Err(JsonFault::EscapeUnsupported)
    }
}

/// The text in front of a decoded rest.
pub open spec fn in_front(head: Seq<char>, rest: Result<Seq<char>, JsonFault>) -> Result<
    Seq<char>,
    JsonFault,
> {
    match rest {
        Ok(tail) => Ok(head + tail),
        Err(fault) => Err(fault),
    }
}

/// What a string holds whose content starts at `at`, up to its closing quote.
pub open spec fn string_content(s: Seq<char>, at: int) -> Result<Seq<char>, JsonFault>
    decreases s.len() - at,
{
    if !(0 <= at < s.len()) {
        Err(JsonFault::StringUnterminated)
    } else if s[at] == '"' {
        Ok(Seq::empty())
    } else {
        match string_unit(s, at) {
            Err(fault) => Err(fault),
            Ok((c, next)) => in_front(seq![c], string_content(s, next)),
        }
    }
}

/// What the string that the whole text is holds.
pub open spec fn string_value(s: Seq<char>) -> Result<Seq<char>, JsonFault> {
    if holds(s, 0, '"') {
        string_content(s, 1)
    } else {
        Err(JsonFault::StringStart)
    }
}

/// Whether a decoded string or fault is the one that was specified.
pub open spec fn same_text(found: Result<String, JsonFault>, expected: Result<Seq<char>, JsonFault>) -> bool {
    match found {
        Ok(text) => expected == Ok::<Seq<char>, JsonFault>(text@),
        Err(fault) => expected == Err::<Seq<char>, JsonFault>(fault),
    }
}

fn hex_value_of(c: char) -> (value: u32)
    requires
        is_hex_digit(c),
    ensures
        value == hex_digit_value(c),
        value < 16,
{
    if '0' <= c && c <= '9' {
        c as u32 - '0' as u32
    } else if 'a' <= c && c <= 'f' {
        c as u32 - 'a' as u32 + 10
    } else {
        c as u32 - 'A' as u32 + 10
    }
}

fn parse_hex_quad(s: &[char], at: usize) -> (value: Option<u32>)
    requires
        at + 4 <= s@.len(),
    ensures
        match value {
            Some(v) => hex_quad(s@, at as int) == Some(v as int) && v <= 0xffff,
            None => hex_quad(s@, at as int) is None,
        },
{
    let a = s[at];
    if (a == '+' || is_hex(a)) && is_hex(s[at + 1]) && is_hex(s[at + 2]) && is_hex(s[at + 3]) {
        let first: u32 = if a == '+' {
            0
        } else {
            hex_value_of(a)
        };
        Some(
            4096 * first + 256 * hex_value_of(s[at + 1]) + 16 * hex_value_of(s[at + 2])
                + hex_value_of(s[at + 3]),
        )
    } else {
        None
    }
}

/// The unicode escape with digits at `at`.
fn parse_unicode_unit(s: &[char], at: usize) -> (unit: Result<(char, usize), JsonFault>)
    requires
        at <= s@.len(),
    ensures
        match unit {
            Ok((c, next)) => unicode_unit(s@, at as int) == Ok::<(char, int), JsonFault>(
                (c, next as int),
            ) && at < next <= s@.len(),
            Err(fault) => unicode_unit(s@, at as int) == Err::<(char, int), JsonFault>(fault),
        },
{
    if s.len() - at < 4 {
        return Err(JsonFault::UnicodeIncomplete);
    }
    let code = match parse_hex_quad(s, at) {
        Some(code) => code,
        None => return Err(JsonFault::UnicodeDigits),
    };
    if 0xdc00 <= code && code <= 0xdfff {
        return Err(JsonFault::SurrogateInvalid);
    }
    if code < 0xd800 || 0xdbff < code {
        assert(is_scalar(code));
        return match char::from_u32(code) {
            Some(c) => Ok((c, at + 4)),
            None => Err(JsonFault::UnicodeInvalid),
        };
    }
    if s.len() - at < 10 || s[at + 4] != '\\' || s[at + 5] != 'u' {
        return Err(JsonFault::SurrogateIncomplete);
    }
    let low = match parse_hex_quad(s, at + 6) {
        Some(low) => low,
        None => return Err(JsonFault::UnicodeDigits),
    };
    if low < 0xdc00 || 0xdfff < low {
        return Err(JsonFault::SurrogateInvalid);
    }
    let scalar: u32 = 0x10000 + (code - 0xd800) * 0x400 + (low - 0xdc00);
    assert(is_scalar(scalar));
    match char::from_u32(scalar) {
        Some(c) => Ok((c, at + 10)),
        None => Err(JsonFault::UnicodeInvalid),
    }
}

/// What the JSON string at the front of the characters holds.
pub fn decode_json_string(s: &[char]) -> (text: Result<String, JsonFault>)
    ensures
        same_text(text, string_value(s@)),
{
    if !char_is(s, 0, '"') {
        return Err(JsonFault::StringStart);
    }
    let mut out = String::new();
    let mut i: usize = 1;
    while i < s.len()
        invariant
            1 <= i <= s@.len(),
            string_content(s@, 1) == in_front(out@, string_content(s@, i as int)),
            string_value(s@) == string_content(s@, 1),
        decreases s@.len() - i,
    {
        let c = s[i];
        if c == '"' {
            assert(out@ + Seq::<char>::empty() =~= out@);
            return Ok(out);
        }
        let ghost before = out@;
        let ghost start = i as int;
        if c != '\\' {
            out.push(c);
            i += 1;
        } else {
            if s.len() - i < 2 {
                return Err(JsonFault::EscapeIncomplete);
            }
            let e = s[i + 1];
            if e == '"' || e == '\\' || e == '/' {
                out.push(e);
                i += 2;
            } else if e == 'b' {
                out.push('\u{8}');
                i += 2;
            } else if e == 'f' {
                out.push('\u{c}');
                i += 2;
            } else if e == 'n' {
                out.push('\n');
                i += 2;
            } else if e == 'r' {
                out.push('\r');
                i += 2;
            } else if e == 't' {
                out.push('\t');
                i += 2;
            } else if e == 'u' {
                match parse_unicode_unit(s, i + 2) {
                    Ok((unit, next)) => {
                        out.push(unit);
                        i = next;
                    },
                    Err(fault) => return Err(fault),
                }
            } else {
                return Err(JsonFault::EscapeUnsupported);
            }
        }
        proof {
            let rest = string_content(s@, i as int);
            let unit = out@.last();
            assert(string_content(s@, start) == in_front(seq![unit], rest));
            if rest is Ok {
                assert(before + (seq![unit] + rest->Ok_0) =~= out@ + rest->Ok_0);
            }
        }
    }
    Err(JsonFault::StringUnterminated)
}

/// The lower-case hexadecimal digit for a value below sixteen.
pub open spec fn hex_digit(value: int) -> char {
    if value < 10 {
        ('0' as int + value) as char
    } else {
        ('a' as int + value - 10) as char
    }
}

/// The control characters of Unicode.
pub open spec fn is_control(c: char) -> bool {
    (c as u32) < 0x20 || 0x7f <= (c as u32) <= 0x9f
}

/// How a character is written inside a JSON string.
pub open spec fn escaped_char(c: char) -> Seq<char> {
    if c == '"' {
        seq!['\\', '"']
    } else if c == '\\' {
        seq!['\\', '\\']
    } else if c == '\u{8}' {
        seq!['\\', 'b']
    } else if c == '\u{c}' {
        seq!['\\', 'f']
    } else if c == '\n' {
        seq!['\\', 'n']
    } else if c == '\r' {
        seq!['\\', 'r']
    } else if c == '\t' {
        seq!['\\', 't']
    } else if is_control(c) {
        seq![
            '\\',
            'u',
            '0',
            '0',
            hex_digit(c as int / 16),
            hex_digit(c as int % 16),
        ]
    } else {
        seq![c]
    }
}

/// How a text is written inside a JSON string.
pub open spec fn escaped(s: Seq<char>) -> Seq<char>
    decreases s.len(),
{
    if s.len() == 0 {
        Seq::empty()
    } else {
        escaped(s.drop_last()) + escaped_char(s.last())
    }
}

/// A text as a JSON string, in quotes.
pub open spec fn quoted(s: Seq<char>) -> Seq<char> {
    seq!['"'] + escaped(s) + seq!['"']
}

/// The lower-case hexadecimal digit for a value below sixteen.
pub fn hex_char(value: u32) -> (digit: char)
    requires
        value < 16,
    ensures
        digit == hex_digit(value as int),
{
    if value == 0 { '0' } else if value == 1 { '1' } else if value == 2 { '2' } else if value == 3 {
        '3'
    } else if value == 4 { '4' } else if value == 5 { '5' } else if value == 6 { '6' } else if value
        == 7 { '7' } else if value == 8 { '8' } else if value == 9 { '9' } else if value == 10 {
        'a'
    } else if value == 11 { 'b' } else if value == 12 { 'c' } else if value == 13 {
        'd'
    } else if value == 14 { 'e' } else { 'f' }
}

/// Append a character the way it is written inside a JSON string.
pub fn push_escaped(out: &mut String, c: char)
    ensures
        final(out)@ == old(out)@ + escaped_char(c),
{
    let ghost before = out@;
    if c == '"' {
        out.push('\\');
        out.push('"');
    } else if c == '\\' {
        out.push('\\');
        out.push('\\');
    } else if c == '\u{8}' {
        out.push('\\');
        out.push('b');
    } else if c == '\u{c}' {
        out.push('\\');
        out.push('f');
    } else if c == '\n' {
        out.push('\\');
        out.push('n');
    } else if c == '\r' {
        out.push('\\');
        out.push('r');
    } else if c == '\t' {
        out.push('\\');
        out.push('t');
    } else if (c as u32) < 0x20 || (0x7f <= c as u32 && c as u32 <= 0x9f) {
        let v: u32 = c as u32;
        out.push('\\');
        out.push('u');
        out.push('0');
        out.push('0');
        out.push(hex_char(v / 16));
        out.push(hex_char(v % 16));
    } else {
        out.push(c);
    }
    assert(out@ =~= before + escaped_char(c));
}

/// The text the way it is written inside a JSON string.
pub fn escape_json(value: &str) -> (out: String)
    ensures
        out@ == escaped(value@),
{
    let chars = chars_of(value);
    let mut out = String::new();
    let mut i: usize = 0;
    while i < chars.len()
        invariant
            i <= chars@.len(),
            chars@ == value@,
            out@ == escaped(chars@.take(i as int)),
        decreases chars@.len() - i,
    {
        proof {
            let next = chars@.take(i + 1);
            assert(next.drop_last() =~= chars@.take(i as int));
            assert(next.last() == chars@[i as int]);
        }
        push_escaped(&mut out, chars[i]);
        i += 1;
    }
    assert(chars@.take(i as int) =~= value@);
    out
}

/// The text as a JSON string, in quotes.
pub fn json_string(value: &str) -> (out: String)
    ensures
        out@ == quoted(value@),
{
    let inner = escape_json(value);
    let mut out = String::new();
    out.push('"');
    out.append(inner.as_str());
    out.push('"');
    assert(out@ =~= quoted(value@));
    out
}

// ---------------------------------------------------------------------------
// Quoting and decoding
// ---------------------------------------------------------------------------

proof fn lemma_escape_from_front(s: Seq<char>)
    requires
        s.len() > 0,
    ensures
        escaped(s) == escaped_char(s[0]) + escaped(s.drop_first()),
    decreases s.len(),
{
    if s.len() == 1 {
        assert(s.drop_last() =~= Seq::<char>::empty());
        assert(s.drop_first() =~= Seq::<char>::empty());
        assert(escaped(s) =~= escaped_char(s[0]) + escaped(s.drop_first()));
    } else {
        lemma_escape_from_front(s.drop_last());
        let middle = s.drop_first().drop_last();
        assert(s.drop_last().drop_first() =~= middle);
        assert(s.drop_last()[0] == s[0]);
        assert(s.drop_first().last() == s.last());
        assert(escaped(s) =~= escaped_char(s[0]) + (escaped(middle) + escaped_char(s.last())));
    }
}

/// At an escaped character, both the token scan and the decoder step over it.
proof fn lemma_escaped_char_step(s: Seq<char>, at: int, c: char)
    requires
        0 <= at,
        at + escaped_char(c).len() < s.len(),
        s.subrange(at, at + escaped_char(c).len()) == escaped_char(c),
    ensures
        string_end(s, at) == string_end(s, at + escaped_char(c).len()),
        s[at] != '"',
        string_unit(s, at) == Ok::<(char, int), JsonFault>((c, at + escaped_char(c).len())),
{
    let e = escaped_char(c);
    let sub = s.subrange(at, at + e.len());
    assert(forall|k: int| 0 <= k < e.len() ==> sub[k] == s[at + k]);
    assert(s[at] == e[0]);
    if e.len() > 1 {
        assert(s[at + 1] == e[1]);
    }
    if e.len() == 6 {
        assert(s[at + 2] == e[2] && s[at + 3] == e[3] && s[at + 4] == e[4] && s[at + 5] == e[5]);
        text::lemma_encoded_len_bound(s.skip(at + 2));
        let v = c as int;
        assert(0 <= v / 16 < 16 && 0 <= v % 16 < 16 && v == 16 * (v / 16) + v % 16);
        assert(hex_digit_value(hex_digit(v / 16)) == v / 16);
        assert(hex_digit_value(hex_digit(v % 16)) == v % 16);
        assert(hex_quad(s, at + 2) == Some(v));
    }
}

/// A quoted text at any place in a text is one string token, and decodes to
/// what was quoted.
pub proof fn lemma_quoted_token(before: Seq<char>, text: Seq<char>, after: Seq<char>)
    ensures
        string_end(before + quoted(text) + after, before.len() as int + 1) == Ok::<int, JsonFault>(
            (before.len() + quoted(text).len()) as int,
        ),
        string_content(before + quoted(text) + after, before.len() as int + 1) == Ok::<
            Seq<char>,
            JsonFault,
        >(text),
{
    let s = before + quoted(text) + after;
    let tail = seq!['"'] + after;
    assert(s =~= (before + seq!['"']) + escaped(text) + tail);
    lemma_escaped_run(before + seq!['"'], text, tail);
}

proof fn lemma_escaped_run(before: Seq<char>, text: Seq<char>, tail: Seq<char>)
    requires
        tail.len() > 0,
        tail[0] == '"',
    ensures
        ({
            let s = before + escaped(text) + tail;
            &&& string_end(s, before.len() as int) == Ok::<int, JsonFault>(
                (before.len() + escaped(text).len() + 1) as int,
            )
            &&& string_content(s, before.len() as int) == Ok::<Seq<char>, JsonFault>(text)
        }),
    decreases text.len(),
{
    let s = before + escaped(text) + tail;
    let at = before.len() as int;
    if text.len() == 0 {
        assert(s[at] == '"');
        assert(text =~= Seq::<char>::empty());
    } else {
        lemma_escape_from_front(text);
        let e = escaped_char(text[0]);
        let rest = text.drop_first();
        assert(s =~= (before + e) + escaped(rest) + tail);
        lemma_escaped_run(before + e, rest, tail);
        assert(s.subrange(at, at + e.len()) =~= e);
        lemma_escaped_char_step(s, at, text[0]);
        assert(seq![text[0]] + rest =~= text);
    }
}

/// Decoding a quoted text gives the text back.
pub proof fn law_quoted_text_decodes(text: Seq<char>)
    ensures
        string_value(quoted(text)) == Ok::<Seq<char>, JsonFault>(text),
{
    lemma_quoted_token(Seq::empty(), text, Seq::empty());
    assert(Seq::<char>::empty() + quoted(text) + Seq::<char>::empty() =~= quoted(text));
}

// ---------------------------------------------------------------------------
// Objects and arrays
// ---------------------------------------------------------------------------

/// The fields of an object: key, and value as it is written, in written order.
pub type Fields = Seq<(Seq<char>, Seq<char>)>;

/// The written value of the field with the given key.
pub open spec fn lookup(fields: Fields, key: Seq<char>) -> Option<Seq<char>>
    decreases fields.len(),
{
    if fields.len() == 0 {
        None
    } else if fields.last().0 == key {
        Some(fields.last().1)
    } else {
        lookup(fields.drop_last(), key)
    }
}

/// The fields gathered so far, when nothing but whitespace follows.
pub open spec fn object_closed(s: Seq<char>, at: int, fields: Fields) -> Result<Fields, JsonFault> {
    if skip_space(s, at) == s.len() {
        Ok(fields)
    } else {
        Err(JsonFault::ObjectTrailingData)
    }
}

/// The fields of an object with `fields` already read and more to come at `at`.
pub open spec fn fields_from(s: Seq<char>, at: int, fields: Fields) -> Result<Fields, JsonFault>
    decreases s.len() - at,
{
    let key_at = skip_space(s, at);
    if holds(s, key_at, '}') {
        object_closed(s, key_at + 1, fields)
    } else if !holds(s, key_at, '"') {
        Err(JsonFault::ObjectKey)
    } else {
        match string_end(s, key_at + 1) {
            Err(fault) => Err(fault),
            Ok(key_end) => match string_value(s.subrange(key_at, key_end)) {
                Err(fault) => Err(fault),
                Ok(key) => {
                    let colon = skip_space(s, key_end);
                    if !holds(s, colon, ':') {
                        Err(JsonFault::ObjectColon)
                    } else {
                        let start = skip_space(s, colon + 1);
                        match value_end(s, start, 1) {
                            Err(fault) => Err(fault),
                            Ok(end) => {
                                let next = skip_space(s, end);
                                if lookup(fields, key) is Some {
                                    Err(JsonFault::ObjectDuplicateField)
                                } else if holds(s, next, '}') {
                                    object_closed(
                                        s,
                                        next + 1,
                                        fields.push((key, s.subrange(start, end))),
                                    )
                                } else if !holds(s, next, ',') {
                                    Err(JsonFault::ObjectSeparator)
                                } else if holds(s, skip_space(s, next + 1), '}') {
                                    Err(JsonFault::ObjectTrailingComma)
                                } else if !(at < skip_space(s, next + 1) <= s.len()) {
                                    // Positions only move forward: see `lemma_value_end`.
                                    Err(JsonFault::ObjectSeparator)
                                } else {
                                    fields_from(
                                        s,
                                        skip_space(s, next + 1),
                                        fields.push((key, s.subrange(start, end))),
                                    )
                                }
                            },
                        }
                    }
                },
            },
        }
    }
}

/// The direct fields of the object that the whole text is.
#[verifier::opaque]
pub open spec fn object_fields(s: Seq<char>) -> Result<Fields, JsonFault> {
    let open = skip_space(s, 0);
    if holds(s, open, '{') {
        fields_from(s, open + 1, Seq::empty())
    } else {
        Err(JsonFault::NotAnObject)
    }
}

/// No key occurs twice.
pub open spec fn distinct_keys(fields: Fields) -> bool {
    forall|i: int, j: int|
        0 <= i < j < fields.len() ==> (#[trigger] fields[i]).0 != (#[trigger] fields[j]).0
}

/// The direct fields of one JSON object, in written order.
#[derive(Debug)]
pub struct JsonFields {
    entries: Vec<(String, String)>,
}

impl View for JsonFields {
    type V = Fields;

    closed spec fn view(&self) -> Fields {
        crate::error::pair_texts(self.entries@)
    }
}

impl JsonFields {
    /// The value of the field with the given key, as it is written.
    pub fn get(&self, key: &str) -> (value: Option<&str>)
        ensures
            match value {
                Some(v) => lookup(self@, key@) == Some(v@),
                None => lookup(self@, key@) is None,
            },
    {
        let mut i: usize = self.entries.len();
        assert(self@.take(i as int) =~= self@);
        while i > 0
            invariant
                i <= self.entries@.len(),
                lookup(self@, key@) == lookup(self@.take(i as int), key@),
            decreases i,
        {
            i -= 1;
            proof {
                let head = self@.take(i + 1);
                assert(head.drop_last() =~= self@.take(i as int));
                assert(head.last() == self@[i as int]);
            }
            if str_eq(self.entries[i].0.as_str(), key) {
                return Some(self.entries[i].1.as_str());
            }
        }
        None
    }

    pub fn len(&self) -> (len: usize)
        ensures
            len == self@.len(),
    {
        self.entries.len()
    }

    /// The key of the field at the given position.
    pub fn key_at(&self, index: usize) -> (key: &str)
        requires
            index < self@.len(),
        ensures
            key@ == self@[index as int].0,
    {
        self.entries[index].0.as_str()
    }

    /// The written value of the field at the given position.
    pub fn value_at(&self, index: usize) -> (value: &str)
        requires
            index < self@.len(),
        ensures
            value@ == self@[index as int].1,
    {
        self.entries[index].1.as_str()
    }

    fn push(&mut self, key: String, value: String)
        ensures
            final(self)@ == old(self)@.push((key@, value@)),
    {
        self.entries.push((key, value));
        assert(self@ =~= old(self)@.push((key@, value@)));
    }
}

/// Whether the read fields or fault are the ones that were specified.
pub open spec fn same_fields(found: Result<JsonFields, JsonFault>, expected: Result<Fields, JsonFault>) -> bool {
    match found {
        Ok(fields) => expected == Ok::<Fields, JsonFault>(fields@),
        Err(fault) => expected == Err::<Fields, JsonFault>(fault),
    }
}

/// The direct fields of the object that the characters are.
pub fn read_object_fields(s: &[char]) -> (found: Result<JsonFields, JsonFault>)
    ensures
        same_fields(found, object_fields(s@)),
{
    proof {
        reveal(object_fields);
    }
    let open: usize = skip_json_whitespace(s, 0);
    if !char_is(s, open, '{') {
        return Err(JsonFault::NotAnObject);
    }
    let mut fields = JsonFields { entries: Vec::new() };
    assert(fields@ =~= Seq::<(Seq<char>, Seq<char>)>::empty());
    let mut i: usize = open + 1;
    loop
        invariant
            i <= s@.len(),
            object_fields(s@) == fields_from(s@, i as int, fields@),
        decreases s@.len() - i,
    {
        let ghost at = i as int;
        let key_at: usize = skip_json_whitespace(s, i);
        if char_is(s, key_at, '}') {
            let end: usize = skip_json_whitespace(s, key_at + 1);
            return if end == s.len() {
                Ok(fields)
            } else {
                Err(JsonFault::ObjectTrailingData)
            };
        }
        if !char_is(s, key_at, '"') {
            return Err(JsonFault::ObjectKey);
        }
        let key_end = match json_string_token_end(s, key_at) {
            Ok(end) => end,
            Err(fault) => return Err(fault),
        };
        let key = match decode_json_string(vstd::slice::slice_subrange(s, key_at, key_end)) {
            Ok(key) => key,
            Err(fault) => return Err(fault),
        };
        let colon: usize = skip_json_whitespace(s, key_end);
        if !char_is(s, colon, ':') {
            return Err(JsonFault::ObjectColon);
        }
        let start: usize = skip_json_whitespace(s, colon + 1);
        let end = match json_value_token_end_at_depth(s, start, 1) {
            Ok(end) => end,
            Err(fault) => return Err(fault),
        };
        let next: usize = skip_json_whitespace(s, end);
        if fields.get(key.as_str()).is_some() {
            return Err(JsonFault::ObjectDuplicateField);
        }
        fields.push(key, string_of(s, start, end));
        if char_is(s, next, ',') {
            i = skip_json_whitespace(s, next + 1);
            if char_is(s, i, '}') {
                return Err(JsonFault::ObjectTrailingComma);
            }
        } else if char_is(s, next, '}') {
            let close: usize = skip_json_whitespace(s, next + 1);
            return if close == s.len() {
                Ok(fields)
            } else {
                Err(JsonFault::ObjectTrailingData)
            };
        } else {
            return Err(JsonFault::ObjectSeparator);
        }
    }
}

/// The direct fields of the object that the text is; what they hold stays as
/// it is written.
pub fn parse_json_object_fields(text: &str) -> (found: Result<JsonFields, EvaError>)
    ensures
        match found {
            Ok(fields) => object_fields(text@) == Ok::<Fields, JsonFault>(fields@),
            Err(error) => object_fields(text@) matches Err(fault) && error@ == fault.model(),
        },
{
    let chars = chars_of(text);
    match read_object_fields(chars.as_slice()) {
        Ok(fields) => Ok(fields),
        Err(fault) => Err(fault.to_error()),
    }
}

/// What the JSON string at the front of the text holds.
pub fn parse_json_string(value: &str) -> (found: Result<String, EvaError>)
    ensures
        match found {
            Ok(text) => string_value(value@) == Ok::<Seq<char>, JsonFault>(text@),
            Err(error) => string_value(value@) matches Err(fault) && error@ == fault.model(),
        },
{
    let chars = chars_of(value);
    match decode_json_string(chars.as_slice()) {
        Ok(text) => Ok(text),
        Err(fault) => Err(fault.to_error()),
    }
}

/// A field is found under its key where no key occurs twice.
pub proof fn lemma_lookup_at(fields: Fields, at: int)
    requires
        0 <= at < fields.len(),
        distinct_keys(fields),
    ensures
        lookup(fields, fields[at].0) == Some(fields[at].1),
    decreases fields.len(),
{
    if at < fields.len() - 1 {
        assert(fields[at].0 != fields[fields.len() - 1].0);
        let front = fields.drop_last();
        assert forall|i: int, j: int| 0 <= i < j < front.len() implies (#[trigger] front[i]).0 != (
        #[trigger] front[j]).0 by {
            assert(front[i] == fields[i] && front[j] == fields[j]);
        }
        assert(front[at] == fields[at]);
        lemma_lookup_at(front, at);
    }
}

/// A key is absent exactly if no field has it.
pub proof fn lemma_lookup_absent(fields: Fields, key: Seq<char>)
    ensures
        lookup(fields, key) is None <==> forall|i: int|
            0 <= i < fields.len() ==> (#[trigger] fields[i]).0 != key,
    decreases fields.len(),
{
    if fields.len() > 0 {
        lemma_lookup_absent(fields.drop_last(), key);
        if fields.last().0 != key {
            assert(forall|i: int|
                0 <= i < fields.len() - 1 ==> fields.drop_last()[i] == fields[i]);
            if lookup(fields, key) is None {
                assert forall|i: int| 0 <= i < fields.len() implies (#[trigger] fields[i]).0
                    != key by {
                    if i < fields.len() - 1 {
                        assert(fields.drop_last()[i].0 != key);
                    }
                }
            } else {
                let k = choose|k: int|
                    0 <= k < fields.len() - 1 && (#[trigger] fields.drop_last()[k]).0 == key;
                assert(fields[k].0 == key);
            }
        }
    }
}

proof fn lemma_fields_stay_distinct(s: Seq<char>, at: int, fields: Fields)
    requires
        distinct_keys(fields),
    ensures
        fields_from(s, at, fields) matches Ok(all) ==> distinct_keys(all),
    decreases s.len() - at,
{
    let key_at = skip_space(s, at);
    if holds(s, key_at, '"') && string_end(s, key_at + 1) is Ok {
        let key_end = string_end(s, key_at + 1)->Ok_0;
        if string_value(s.subrange(key_at, key_end)) is Ok {
            let key = string_value(s.subrange(key_at, key_end))->Ok_0;
            let start = skip_space(s, skip_space(s, key_end) + 1);
            if value_end(s, start, 1) is Ok && lookup(fields, key) is None {
                let end = value_end(s, start, 1)->Ok_0;
                let more = fields.push((key, s.subrange(start, end)));
                lemma_lookup_absent(fields, key);
                assert(distinct_keys(more));
                let next = skip_space(s, skip_space(s, end) + 1);
                if at < next <= s.len() {
                    lemma_fields_stay_distinct(s, next, more);
                }
            }
        }
    }
}

/// An object that is accepted has no field twice.
pub proof fn law_accepted_fields_are_distinct(s: Seq<char>)
    ensures
        object_fields(s) matches Ok(fields) ==> distinct_keys(fields),
{
    reveal(object_fields);
    let open = skip_space(s, 0);
    lemma_fields_stay_distinct(s, open + 1, Seq::empty());
}

/// The strings gathered so far, when nothing but whitespace follows.
pub open spec fn array_closed(s: Seq<char>, at: int, values: Seq<Seq<char>>) -> Result<
    Seq<Seq<char>>,
    JsonFault,
> {
    if skip_space(s, at) == s.len() {
        Ok(values)
    } else {
        Err(JsonFault::StringArrayTrailingData)
    }
}

/// The strings of an array with `values` already read and the next one at `at`.
pub open spec fn strings_from(s: Seq<char>, at: int, values: Seq<Seq<char>>) -> Result<
    Seq<Seq<char>>,
    JsonFault,
>
    decreases s.len() - at,
{
    if !holds(s, at, '"') {
        Err(JsonFault::StringStart)
    } else {
        match string_end(s, at + 1) {
            Err(fault) => Err(fault),
            Ok(end) => match string_value(s.subrange(at, end)) {
                Err(fault) => Err(fault),
                Ok(value) => {
                    let next = skip_space(s, end);
                    if holds(s, next, ']') {
                        array_closed(s, next + 1, values.push(value))
                    } else if !holds(s, next, ',') {
                        Err(JsonFault::StringArraySeparator)
                    } else if holds(s, skip_space(s, next + 1), ']') {
                        Err(JsonFault::StringArrayTrailingComma)
                    } else if !(at < skip_space(s, next + 1) <= s.len()) {
                        // Positions only move forward: see `lemma_string_end`.
                        Err(JsonFault::StringArraySeparator)
                    } else {
                        strings_from(s, skip_space(s, next + 1), values.push(value))
                    }
                },
            },
        }
    }
}

/// The strings of the array that the whole text is.
pub open spec fn string_array(s: Seq<char>) -> Result<Seq<Seq<char>>, JsonFault> {
    let open = skip_space(s, 0);
    if !holds(s, open, '[') {
        Err(JsonFault::StringArray)
    } else {
        let first = skip_space(s, open + 1);
        if holds(s, first, ']') {
            array_closed(s, first + 1, Seq::empty())
        } else {
            strings_from(s, first, Seq::empty())
        }
    }
}

/// The strings of the array that the text is.
pub fn parse_json_string_array(text: &str) -> (found: Result<Vec<String>, EvaError>)
    ensures
        match found {
            Ok(values) => string_array(text@) == Ok::<Seq<Seq<char>>, JsonFault>(text::texts(values@)),
            Err(error) => string_array(text@) matches Err(fault) && error@ == fault.model(),
        },
{
    let chars = chars_of(text);
    match read_string_array(chars.as_slice()) {
        Ok(values) => Ok(values),
        Err(fault) => Err(fault.to_error()),
    }
}

fn read_string_array(s: &[char]) -> (found: Result<Vec<String>, JsonFault>)
    ensures
        match found {
            Ok(values) => string_array(s@) == Ok::<Seq<Seq<char>>, JsonFault>(text::texts(values@)),
            Err(fault) => string_array(s@) == Err::<Seq<Seq<char>>, JsonFault>(fault),
        },
{
    let open: usize = skip_json_whitespace(s, 0);
    if !char_is(s, open, '[') {
        return Err(JsonFault::StringArray);
    }
    let mut values: Vec<String> = Vec::new();
    assert(text::texts(values@) =~= Seq::<Seq<char>>::empty());
    let mut i: usize = skip_json_whitespace(s, open + 1);
    if char_is(s, i, ']') {
        return if skip_json_whitespace(s, i + 1) == s.len() {
            Ok(values)
        } else {
            Err(JsonFault::StringArrayTrailingData)
        };
    }
    loop
        invariant
            i <= s@.len(),
            string_array(s@) == strings_from(s@, i as int, text::texts(values@)),
        decreases s@.len() - i,
    {
        let end = match json_string_token_end(s, i) {
            Ok(end) => end,
            Err(fault) => return Err(fault),
        };
        let value = match decode_json_string(vstd::slice::slice_subrange(s, i, end)) {
            Ok(value) => value,
            Err(fault) => return Err(fault),
        };
        let ghost before = text::texts(values@);
        let ghost added = value@;
        values.push(value);
        assert(text::texts(values@) =~= before.push(added));
        let next: usize = skip_json_whitespace(s, end);
        if char_is(s, next, ',') {
            i = skip_json_whitespace(s, next + 1);
            if char_is(s, i, ']') {
                return Err(JsonFault::StringArrayTrailingComma);
            }
        } else if char_is(s, next, ']') {
            return if skip_json_whitespace(s, next + 1) == s.len() {
                Ok(values)
            } else {
                Err(JsonFault::StringArrayTrailingData)
            };
        } else {
            return Err(JsonFault::StringArraySeparator);
        }
    }
}

} // verus!
