//! What a server reads in the messages of its clients, however these are written.

use vstd::prelude::*;
use vstd::utf8::*;
use crate::json;
use crate::json::{Fields, JsonFault};
use crate::json_layout;
use crate::json_layout::{Member, Unit};
use crate::json_rpc::DEFAULT_PROTOCOL_VERSION;
use crate::server_rpc;
use crate::server_rpc::{EnvelopeModel, RpcFailureModel, MAX_CLIENT_INFO_BYTES, MAX_ID_STRING_BYTES, MAX_METHOD_BYTES};
use crate::text;

verus! {

/// Whether a field with the given value stands among others.
pub open spec fn has(fields: Fields, key: Seq<char>, value: Seq<char>) -> bool {
    exists|i: int| 0 <= i < fields.len() && #[trigger] fields[i] == (key, value)
}

/// Whether some field has the given key.
pub open spec fn names(fields: Fields, key: Seq<char>) -> bool {
    exists|i: int| 0 <= i < fields.len() && (#[trigger] fields[i]).0 == key
}

/// Whether a text has between one and so many bytes, and no control characters.
pub open spec fn is_short_text(s: Seq<char>, limit: int) -> bool {
    &&& 0 < s.len()
    &&& encode_utf8(s).len() <= limit
    &&& forall|i: int|
        0 <= i < s.len() ==> 0x20 <= (#[trigger] s[i]) as u32 && !(0x7f <= s[i] as u32 <= 0x9f)
}

/// Whether a value is written as a string that holds a short text.
pub open spec fn is_short_string(value: Seq<char>, limit: int) -> bool {
    json::string_value(value) matches Ok(content) && is_short_text(content, limit)
}

/// A field that stands among those that were read is found under its key, and
/// nothing else is.
pub proof fn law_fields_are_found_under_their_keys(s: Seq<char>, fields: Fields, key: Seq<char>)
    requires
        json::object_fields(s) == Ok::<Fields, JsonFault>(fields),
    ensures
        forall|v: Seq<char>| #[trigger] has(fields, key, v) <==> json::lookup(fields, key) == Some(v),
        names(fields, key) <==> json::lookup(fields, key) is Some,
{
    json::law_accepted_fields_are_distinct(s);
    lemma_found(fields, key);
}

proof fn lemma_found(fields: Fields, key: Seq<char>)
    requires
        json::distinct_keys(fields),
    ensures
        forall|v: Seq<char>| #[trigger] has(fields, key, v) <==> json::lookup(fields, key) == Some(v),
        names(fields, key) <==> json::lookup(fields, key) is Some,
{
    json::lemma_lookup_absent(fields, key);
    assert forall|v: Seq<char>| #[trigger] has(fields, key, v) implies json::lookup(fields, key)
        == Some(v) by {
        let i = choose|i: int| 0 <= i < fields.len() && #[trigger] fields[i] == (key, v);
        json::lemma_lookup_at(fields, i);
    }
    if json::lookup(fields, key) is Some {
        let i = choose|i: int| 0 <= i < fields.len() && (#[trigger] fields[i]).0 == key;
        json::lemma_lookup_at(fields, i);
        assert(fields[i] == (key, fields[i].1));
        assert(has(fields, key, fields[i].1));
    }
}

pub proof fn lemma_short(s: Seq<char>, limit: usize)
    ensures
        server_rpc::is_bounded_text(s, limit) == is_short_text(s, limit as int),
{
    if server_rpc::is_bounded_text(s, limit) {
        assert forall|i: int| 0 <= i < s.len() implies 0x20 <= (#[trigger] s[i]) as u32 && !(0x7f
            <= s[i] as u32 <= 0x9f) by {
            assert(!json::is_control(s[i]));
        }
    }
    if is_short_text(s, limit as int) {
        assert(!crate::server::has_control(s)) by {
            if crate::server::has_control(s) {
                let i = choose|i: int| 0 <= i < s.len() && json::is_control(#[trigger] s[i]);
                assert(0x20 <= s[i] as u32);
            }
        }
    }
}

// ---------------------------------------------------------------------------
// Openings
// ---------------------------------------------------------------------------

/// Whether the parameters of an opening are complete: they name the version that
/// is spoken here, some object of capabilities, and a client by its name and
/// version, and nothing else.
pub open spec fn is_complete_opening(fields: Fields) -> bool {
    &&& forall|i: int|
        0 <= i < fields.len() ==> (#[trigger] fields[i]).0 == "protocolVersion"@ || fields[i].0
            == "capabilities"@ || fields[i].0 == "clientInfo"@
    &&& exists|v: Seq<char>| #[trigger]
        has(fields, "protocolVersion"@, v) && json::string_value(v) == Ok::<Seq<char>, JsonFault>(
            DEFAULT_PROTOCOL_VERSION@,
        )
    &&& exists|v: Seq<char>| #[trigger]
        has(fields, "capabilities"@, v) && json::object_fields(v) is Ok
    &&& exists|v: Seq<char>| #[trigger] has(fields, "clientInfo"@, v) && is_client_info(v)
}

/// Whether a value describes a client by its name and version and nothing else.
pub open spec fn is_client_info(info: Seq<char>) -> bool {
    json::object_fields(info) matches Ok(fields) && {
        &&& forall|i: int|
            0 <= i < fields.len() ==> (#[trigger] fields[i]).0 == "name"@ || fields[i].0
                == "version"@
        &&& exists|v: Seq<char>| #[trigger]
            has(fields, "name"@, v) && is_short_string(v, MAX_CLIENT_INFO_BYTES as int)
        &&& exists|v: Seq<char>| #[trigger]
            has(fields, "version"@, v) && is_short_string(v, MAX_CLIENT_INFO_BYTES as int)
    }
}

proof fn lemma_client_info(info: Seq<char>)
    ensures
        server_rpc::client_info_refusal(info) is None <==> is_client_info(info),
{
    if json::object_fields(info) is Ok {
        let fields = json::object_fields(info)->Ok_0;
        law_fields_are_found_under_their_keys(info, fields, "name"@);
        law_fields_are_found_under_their_keys(info, fields, "version"@);
        assert forall|v: Seq<char>| #[trigger]
            is_short_string(v, MAX_CLIENT_INFO_BYTES as int) <==> (json::string_value(v) matches Ok(
                content,
            ) && server_rpc::is_bounded_text(content, MAX_CLIENT_INFO_BYTES)) by {
            if json::string_value(v) is Ok {
                lemma_short(json::string_value(v)->Ok_0, MAX_CLIENT_INFO_BYTES);
            }
        }
        if server_rpc::client_info_refusal(info) is None {
            let name = json::lookup(fields, "name"@)->0;
            let version = json::lookup(fields, "version"@)->0;
            assert(has(fields, "name"@, name) && has(fields, "version"@, version));
            assert(is_short_string(name, MAX_CLIENT_INFO_BYTES as int));
            assert(is_short_string(version, MAX_CLIENT_INFO_BYTES as int));
        }
    }
}

/// The parameters of an opening are taken exactly if they are complete. What the
/// object of capabilities holds does not matter.
pub proof fn law_complete_openings_are_taken(params: Seq<char>)
    ensures
        server_rpc::initialize_refusal(Some(params)) is None <==> (json::object_fields(
            params,
        ) matches Ok(fields) && is_complete_opening(fields)),
        server_rpc::initialize_refusal(None) is Some,
{
    if json::object_fields(params) is Ok {
        let fields = json::object_fields(params)->Ok_0;
        law_fields_are_found_under_their_keys(params, fields, "protocolVersion"@);
        law_fields_are_found_under_their_keys(params, fields, "capabilities"@);
        law_fields_are_found_under_their_keys(params, fields, "clientInfo"@);
        assert forall|v: Seq<char>|
            server_rpc::client_info_refusal(v) is None <==> #[trigger] is_client_info(v) by {
            lemma_client_info(v);
        }
        if server_rpc::initialize_refusal(Some(params)) is None {
            let version = json::lookup(fields, "protocolVersion"@)->0;
            let capabilities = json::lookup(fields, "capabilities"@)->0;
            let info = json::lookup(fields, "clientInfo"@)->0;
            assert(has(fields, "protocolVersion"@, version));
            assert(has(fields, "capabilities"@, capabilities));
            assert(has(fields, "clientInfo"@, info));
            assert(is_client_info(info));
        }
    }
}

/// Two openings that differ in their objects of capabilities alone have the same
/// fate.
pub proof fn law_capabilities_do_not_matter(a: Seq<char>, b: Seq<char>, at: int)
    requires
        json::object_fields(a) matches Ok(fields) && 0 <= at < fields.len() && fields[at].0
            == "capabilities"@ && json::object_fields(fields[at].1) is Ok,
        json::object_fields(b) matches Ok(fields) && 0 <= at < fields.len() && fields[at].0
            == "capabilities"@ && json::object_fields(fields[at].1) is Ok,
        json::object_fields(a)->Ok_0.len() == json::object_fields(b)->Ok_0.len(),
        forall|i: int|
            0 <= i < json::object_fields(a)->Ok_0.len() && i != at ==> json::object_fields(
                a,
            )->Ok_0[i] == #[trigger] json::object_fields(b)->Ok_0[i],
    ensures
        server_rpc::initialize_refusal(Some(a)) == server_rpc::initialize_refusal(Some(b)),
{
    let f = json::object_fields(a)->Ok_0;
    let g = json::object_fields(b)->Ok_0;
    json::law_accepted_fields_are_distinct(a);
    json::law_accepted_fields_are_distinct(b);
    json::lemma_lookup_at(f, at);
    json::lemma_lookup_at(g, at);
    assert forall|i: int| 0 <= i < f.len() implies (#[trigger] f[i]).0 == g[i].0 by {
        if i != at {
            assert(g[i] == f[i]);
        }
    }
    assert forall|i: int| 0 <= i < g.len() implies f[i].0 == (#[trigger] g[i]).0 by {
        assert(f[i].0 == g[i].0);
    }
    assert(server_rpc::keys_within(f, "protocolVersion"@, "capabilities"@, "clientInfo"@)
        == server_rpc::keys_within(g, "protocolVersion"@, "capabilities"@, "clientInfo"@));
    reveal_strlit("protocolVersion");
    reveal_strlit("capabilities");
    reveal_strlit("clientInfo");
    assert("protocolVersion"@.len() == 15 && "capabilities"@.len() == 12 && "clientInfo"@.len()
        == 10);
    lemma_same_lookup(f, g, at, "protocolVersion"@);
    lemma_same_lookup(f, g, at, "clientInfo"@);
}

proof fn lemma_same_lookup(f: Fields, g: Fields, at: int, key: Seq<char>)
    requires
        json::distinct_keys(f),
        json::distinct_keys(g),
        f.len() == g.len(),
        0 <= at < f.len(),
        f[at].0 != key,
        g[at].0 != key,
        forall|i: int| 0 <= i < f.len() && i != at ==> f[i] == #[trigger] g[i],
    ensures
        json::lookup(f, key) == json::lookup(g, key),
{
    lemma_found(f, key);
    lemma_found(g, key);
    if json::lookup(f, key) is Some {
        let v = json::lookup(f, key)->0;
        assert(has(f, key, v));
        let i = choose|i: int| 0 <= i < f.len() && #[trigger] f[i] == (key, v);
        assert(g[i] == (key, v));
        assert(has(g, key, v));
    } else if json::lookup(g, key) is Some {
        let v = json::lookup(g, key)->0;
        assert(has(g, key, v));
        let i = choose|i: int| 0 <= i < g.len() && #[trigger] g[i] == (key, v);
        assert(f[i] == (key, v));
        assert(has(f, key, v));
    }
}

proof fn lemma_info_of(text: Seq<char>, name: Seq<char>, version: Seq<char>)
    requires
        json::object_fields(text) == Ok::<Fields, JsonFault>(
            seq![("name"@, name), ("version"@, version)],
        ),
        is_short_string(name, MAX_CLIENT_INFO_BYTES as int),
        is_short_string(version, MAX_CLIENT_INFO_BYTES as int),
    ensures
        is_client_info(text),
{
    let inner: Fields = seq![("name"@, name), ("version"@, version)];
    assert(inner[0] == ("name"@, name));
    assert(inner[1] == ("version"@, version));
    assert(has(inner, "name"@, name));
    assert(has(inner, "version"@, version));
    assert(json::object_fields(text) matches Ok(f) && f == inner);
    assert(forall|i: int|
            0 <= i < inner.len() ==> (#[trigger] inner[i]).0 == "name"@ || inner[i].0
                == "version"@);
    assert(exists|v: Seq<char>| #[trigger]
            has(inner, "name"@, v) && is_short_string(v, MAX_CLIENT_INFO_BYTES as int));
    assert(exists|v: Seq<char>| #[trigger]
            has(inner, "version"@, v) && is_short_string(v, MAX_CLIENT_INFO_BYTES as int));
}

/// A client may describe itself with blanks between the parts of its description.
proof fn lemma_written_info(info: Seq<Member>, name: Seq<Unit>, version: Seq<Unit>)
    requires
        json_layout::members_wf(info, json::MAX_JSON_NESTING_DEPTH - 1),
        info.len() == 2,
        info[0].field() == ("name"@, json_layout::string_text(name)),
        info[1].field() == ("version"@, json_layout::string_text(version)),
        json_layout::units_wf(name),
        json_layout::units_wf(version),
        is_short_text(json_layout::units_value(name), MAX_CLIENT_INFO_BYTES as int),
        is_short_text(json_layout::units_value(version), MAX_CLIENT_INFO_BYTES as int),
    ensures
        is_client_info(json_layout::object_text(Seq::empty(), info)),
{
    let none = Seq::<char>::empty();
    let text = json_layout::object_text(none, info);
    let inner: Fields = seq![
        ("name"@, json_layout::string_text(name)),
        ("version"@, json_layout::string_text(version)),
    ];
    assert("name"@.len() == 4 && "version"@.len() == 7) by {
        reveal_strlit("name");
        reveal_strlit("version");
    }
    assert(json_layout::fields_of(info) =~= inner);
    assert(json::distinct_keys(inner));
    json_layout::law_objects_are_read(none, none, info, none);
    assert(none + text + none == text) by {
        assert(none + text + none =~= text);
    }
    json_layout::law_strings_are_read(name);
    json_layout::law_strings_are_read(version);
    lemma_info_of(text, json_layout::string_text(name), json_layout::string_text(version));
}

/// The parameters of an opening are taken however they are written: with blanks
/// between their parts, in any order, with any object of capabilities that does
/// not go too deep.
#[verifier::spinoff_prover]
#[verifier::rlimit(60)]
pub proof fn law_written_openings_are_taken(
    params: Seq<Member>,
    at: (int, int, int),
    version: Seq<Unit>,
    capabilities: Seq<Member>,
    info: Seq<Member>,
    name: Seq<Unit>,
    client_version: Seq<Unit>,
)
    requires
        params.len() == 3,
        0 <= at.0 < 3,
        0 <= at.1 < 3,
        0 <= at.2 < 3,
        json_layout::members_wf(params, json::MAX_JSON_NESTING_DEPTH - 1),
        params[at.0].field() == ("protocolVersion"@, json_layout::string_text(version)),
        json_layout::units_wf(version),
        json_layout::units_value(version) == DEFAULT_PROTOCOL_VERSION@,
        params[at.1].field() == (
            "capabilities"@,
            json_layout::object_text(Seq::empty(), capabilities),
        ),
        json_layout::members_wf(capabilities, json::MAX_JSON_NESTING_DEPTH - 1),
        json::distinct_keys(json_layout::fields_of(capabilities)),
        params[at.2].field() == ("clientInfo"@, json_layout::object_text(Seq::empty(), info)),
        json_layout::members_wf(info, json::MAX_JSON_NESTING_DEPTH - 1),
        info.len() == 2,
        info[0].field() == ("name"@, json_layout::string_text(name)),
        info[1].field() == ("version"@, json_layout::string_text(client_version)),
        json_layout::units_wf(name),
        json_layout::units_wf(client_version),
        is_short_text(json_layout::units_value(name), MAX_CLIENT_INFO_BYTES as int),
        is_short_text(json_layout::units_value(client_version), MAX_CLIENT_INFO_BYTES as int),
    ensures
        server_rpc::initialize_refusal(
            Some(json_layout::object_text(Seq::empty(), params)),
        ) is None,
{
    let none = Seq::<char>::empty();
    let text = json_layout::object_text(none, params);
    let fields = json_layout::fields_of(params);
    let caps_text = json_layout::object_text(none, capabilities);
    let info_text = json_layout::object_text(none, info);
    let said = json_layout::string_text(version);
    assert("protocolVersion"@.len() == 15 && "capabilities"@.len() == 12 && "clientInfo"@.len()
        == 10) by {
        reveal_strlit("protocolVersion");
        reveal_strlit("capabilities");
        reveal_strlit("clientInfo");
    }
    assert(fields[at.0] == params[at.0].field() && fields[at.1] == params[at.1].field()
        && fields[at.2] == params[at.2].field());
    assert(at.0 != at.1 && at.0 != at.2 && at.1 != at.2);
    assert forall|i: int, j: int| 0 <= i < j < fields.len() implies (#[trigger] fields[i]).0 != (
    #[trigger] fields[j]).0 by {
        assert(i == at.0 || i == at.1 || i == at.2);
        assert(j == at.0 || j == at.1 || j == at.2);
    }
    lemma_written_info(info, name, client_version);
    json_layout::law_objects_are_read(none, none, params, none);
    json_layout::law_objects_are_read(none, none, capabilities, none);
    json_layout::law_strings_are_read(version);
    assert(none + text + none == text) by {
        assert(none + text + none =~= text);
    }
    assert(none + caps_text + none == caps_text) by {
        assert(none + caps_text + none =~= caps_text);
    }
    assert(fields[at.0] == ("protocolVersion"@, said));
    assert(has(fields, "protocolVersion"@, said));
    assert(fields[at.1] == ("capabilities"@, caps_text));
    assert(has(fields, "capabilities"@, caps_text));
    assert(fields[at.2] == ("clientInfo"@, info_text));
    assert(has(fields, "clientInfo"@, info_text));
    assert forall|i: int| 0 <= i < fields.len() implies (#[trigger] fields[i]).0
        == "protocolVersion"@ || fields[i].0 == "capabilities"@ || fields[i].0 == "clientInfo"@ by {
        assert(i == at.0 || i == at.1 || i == at.2);
    }
    assert(is_complete_opening(fields));
    law_complete_openings_are_taken(text);
}

// ---------------------------------------------------------------------------
// Requests
// ---------------------------------------------------------------------------

/// Whether a value can identify a request: digits that denote a number below
/// 2^64, or a string that holds a short text.
pub open spec fn is_identifier(value: Seq<char>) -> bool {
    ||| value.len() > 0 && value[0] == '"' && is_short_string(value, MAX_ID_STRING_BYTES as int)
    ||| {
        let digits = if value.len() > 0 && value[0] == '+' {
            value.skip(1)
        } else {
            value
        };
        digits.len() > 0 && text::all_digits(digits) && text::number_of(digits) <= u64::MAX
    }
}

proof fn lemma_identifier(value: Seq<char>)
    ensures
        server_rpc::is_request_id(value) <==> is_identifier(value),
{
    if json::holds(value, 0, '"') {
        if json::string_value(value) is Ok {
            lemma_short(json::string_value(value)->Ok_0, MAX_ID_STRING_BYTES);
        }
        if text::all_digits(value) {
            assert('0' <= value[0] <= '9');
        }
    } else {
        if text::unsigned_value(value) is Ok {
            text::law_numbers_are_digits(value);
            let digits = if value[0] == '+' {
                value.skip(1)
            } else {
                value
            };
            text::law_digits_denote_their_number(digits, value[0] == '+');
            if value[0] == '+' {
                assert(seq!['+'] + digits =~= value);
            }
        }
        if is_identifier(value) {
            let plus = value[0] == '+';
            let digits = if plus {
                value.skip(1)
            } else {
                value
            };
            text::law_digits_denote_their_number(digits, plus);
            if plus {
                assert(seq!['+'] + digits =~= value);
            }
        }
    }
}

/// Whether the fields of a message make a request with the given parts.
pub open spec fn asks_for(fields: Fields, envelope: EnvelopeModel) -> bool {
    &&& forall|i: int|
        0 <= i < fields.len() ==> (#[trigger] fields[i]).0 == "jsonrpc"@ || fields[i].0 == "id"@
            || fields[i].0 == "method"@ || fields[i].0 == "params"@
    &&& exists|v: Seq<char>| #[trigger]
        has(fields, "jsonrpc"@, v) && json::string_value(v) == Ok::<Seq<char>, JsonFault>("2.0"@)
    &&& exists|v: Seq<char>| #[trigger]
        has(fields, "method"@, v) && json::string_value(v) == Ok::<Seq<char>, JsonFault>(
            envelope.method,
        )
    &&& is_short_text(envelope.method, MAX_METHOD_BYTES as int)
    &&& match envelope.id {
        Some(id) => has(fields, "id"@, id) && is_identifier(id),
        None => !names(fields, "id"@),
    }
    &&& match envelope.params {
        Some(params) => has(fields, "params"@, params),
        None => !names(fields, "params"@),
    }
}

/// A body is read as a request exactly if it is one object with the version of
/// the protocol, a method, an identifier or none, parameters or none, and nothing
/// else; what is read are these parts.
pub proof fn law_requests_are_read(body: Seq<char>, envelope: EnvelopeModel)
    ensures
        server_rpc::request_envelope(body) == Ok::<EnvelopeModel, RpcFailureModel>(envelope)
            <==> (json::object_fields(body) matches Ok(fields) && asks_for(fields, envelope)),
{
    if json::object_fields(body) is Ok {
        let fields = json::object_fields(body)->Ok_0;
        law_fields_are_found_under_their_keys(body, fields, "jsonrpc"@);
        law_fields_are_found_under_their_keys(body, fields, "id"@);
        law_fields_are_found_under_their_keys(body, fields, "method"@);
        law_fields_are_found_under_their_keys(body, fields, "params"@);
        let id = json::lookup(fields, "id"@);
        if id is Some {
            lemma_identifier(id->0);
            assert(has(fields, "id"@, id->0));
        }
        let method = json::lookup(fields, "method"@);
        if method is Some && json::string_value(method->0) is Ok {
            lemma_short(json::string_value(method->0)->Ok_0, MAX_METHOD_BYTES);
        }
        if json::lookup(fields, "jsonrpc"@) is Some {
            assert(has(fields, "jsonrpc"@, json::lookup(fields, "jsonrpc"@)->0));
        }
        if method is Some {
            assert(has(fields, "method"@, method->0));
        }
        if json::lookup(fields, "params"@) is Some {
            assert(has(fields, "params"@, json::lookup(fields, "params"@)->0));
        }
    }
}

/// Parameters count as none exactly if there are none, or they are an object
/// without a field.
pub proof fn law_empty_params(before: Seq<char>, inside: Seq<char>, behind: Seq<char>, members: Seq<Member>)
    requires
        json_layout::is_blank(before),
        json_layout::is_blank(inside),
        json_layout::is_blank(behind),
        json_layout::members_wf(members, json::MAX_JSON_NESTING_DEPTH - 1),
        json::distinct_keys(json_layout::fields_of(members)),
    ensures
        server_rpc::no_params(None),
        server_rpc::no_params(
            Some(before + json_layout::object_text(inside, members) + behind),
        ) <==> members.len() == 0,
{
    json_layout::law_objects_are_read(before, inside, members, behind);
}

/// What is no object is told as unreadable, without an identifier; an object that is
/// no request is told as invalid, with its identifier where that is one.
pub proof fn law_bad_requests_are_told_apart(body: Seq<char>, id: Seq<char>)
    requires
        server_rpc::request_envelope(body) is Err,
    ensures
        ({
            let failure = server_rpc::request_envelope(body)->Err_0;
            match json::object_fields(body) {
                Err(_) => failure.code == -32700 && failure.id is None,
                Ok(fields) => {
                    &&& failure.code == -32600
                    &&& has(fields, "id"@, id) && is_identifier(id) ==> failure.id == Some(id)
                    &&& has(fields, "id"@, id) && !is_identifier(id) ==> failure.id is None
                    &&& !names(fields, "id"@) ==> failure.id is None
                },
            }
        }),
{
    if json::object_fields(body) is Ok {
        let fields = json::object_fields(body)->Ok_0;
        law_fields_are_found_under_their_keys(body, fields, "id"@);
        if has(fields, "id"@, id) {
            assert(json::lookup(fields, "id"@) == Some(id));
            lemma_identifier(id);
        }
    }
}

} // verus!
