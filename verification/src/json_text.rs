//! JSON texts that are written from parts, and what reading them gives back.

use vstd::prelude::*;
use crate::json;
use crate::json::{Fields, JsonFault};
use crate::text;

verus! {

/// Whether a value ends where the given text goes on.
pub open spec fn ends_value(after: Seq<char>) -> bool {
    after.len() == 0 || after[0] == ',' || after[0] == '}' || after[0] == ']'
        || json::is_json_space(after[0])
}

/// Whether the text is one value, of at most so many nested objects and arrays,
/// wherever it stands.
#[verifier::opaque]
pub open spec fn is_token(v: Seq<char>, levels: int) -> bool {
    &&& v.len() > 0
    &&& !json::is_json_space(v[0])
    &&& v[0] != ']'
    &&& forall|before: Seq<char>, after: Seq<char>, depth: int|
        0 <= depth && depth + levels <= json::MAX_JSON_NESTING_DEPTH && ends_value(after)
            ==> #[trigger] json::value_end(before + v + after, before.len() as int, depth) == Ok::<
            int,
            JsonFault,
        >((before.len() + v.len()) as int)
}

/// A token of few levels is one of more.
pub proof fn lemma_token_levels(v: Seq<char>, levels: int, more: int)
    requires
        is_token(v, levels),
        levels <= more,
    ensures
        is_token(v, more),
{
    reveal(is_token);
}

/// A quoted text is one value.
pub proof fn lemma_quoted_is_token(content: Seq<char>)
    ensures
        is_token(json::quoted(content), 0),
{
    reveal(is_token);
    let v = json::quoted(content);
    assert(v[0] == '"');
    assert forall|before: Seq<char>, after: Seq<char>, depth: int|
        0 <= depth && depth <= json::MAX_JSON_NESTING_DEPTH && ends_value(after) implies #[trigger] json::value_end(
        before + v + after,
        before.len() as int,
        depth,
    ) == Ok::<int, JsonFault>((before.len() + v.len()) as int) by {
        json::lemma_quoted_token(before, content, after);
        assert((before + v + after)[before.len() as int] == '"');
    }
}

/// The characters that occur in a primitive.
pub open spec fn is_plain(c: char) -> bool {
    !json::is_json_space(c) && c != ',' && c != '}' && c != ']'
}

proof fn lemma_primitive_stops(s: Seq<char>, at: int, end: int)
    requires
        0 <= at <= end <= s.len(),
        forall|i: int| at <= i < end ==> is_plain(#[trigger] s[i]),
        end == s.len() || !is_plain(s[end]),
    ensures
        json::primitive_end(s, at) == end,
    decreases end - at,
{
    if at < end {
        assert(is_plain(s[at]));
        lemma_primitive_stops(s, at + 1, end);
    }
}

/// A primitive is one value.
pub proof fn lemma_primitive_is_token(v: Seq<char>)
    requires
        json::is_primitive(v),
        v.len() > 0,
        v[0] != '"' && v[0] != '{' && v[0] != '[',
        forall|i: int| 0 <= i < v.len() ==> is_plain(#[trigger] v[i]),
    ensures
        is_token(v, 0),
{
    reveal(is_token);
    assert(is_plain(v[0]));
    assert forall|before: Seq<char>, after: Seq<char>, depth: int|
        0 <= depth && depth <= json::MAX_JSON_NESTING_DEPTH && ends_value(after) implies #[trigger] json::value_end(
        before + v + after,
        before.len() as int,
        depth,
    ) == Ok::<int, JsonFault>((before.len() + v.len()) as int) by {
        let s = before + v + after;
        let at = before.len() as int;
        let end = at + v.len();
        assert forall|i: int| at <= i < end implies is_plain(#[trigger] s[i]) by {
            assert(s[i] == v[i - at]);
        }
        if end < s.len() {
            assert(s[end] == after[0]);
        }
        lemma_primitive_stops(s, at, end);
        assert(s[at] == v[0]);
        assert(s.subrange(at, end) =~= v);
    }
}

/// The literal `false` is one value.
pub proof fn lemma_false_is_token()
    ensures
        is_token("false"@, 0),
{
    reveal(is_token);
    reveal_strlit("false");
    lemma_primitive_is_token("false"@);
}

/// The literal `true` is one value.
pub proof fn lemma_true_is_token()
    ensures
        is_token("true"@, 0),
{
    reveal(is_token);
    reveal_strlit("true");
    lemma_primitive_is_token("true"@);
}

/// A decimal number is digits without a leading zero.
pub proof fn lemma_decimal_shape(n: nat)
    ensures
        text::decimal(n).len() > 0,
        forall|i: int| 0 <= i < text::decimal(n).len() ==> json::is_digit(#[trigger] text::decimal(n)[i]),
        text::decimal(n)[0] == '0' ==> text::decimal(n).len() == 1,
        n > 0 ==> text::decimal(n)[0] != '0',
    decreases n,
{
    if n >= 10 {
        lemma_decimal_shape(n / 10);
    }
}

/// A decimal number is one value.
pub proof fn lemma_decimal_is_token(n: nat)
    ensures
        is_token(text::decimal(n), 0),
{
    reveal(is_token);
    let v = text::decimal(n);
    lemma_decimal_shape(n);
    lemma_digits_to_end(v, 0);
    assert(json::is_digit(v[0]));
    assert(json::is_number(v));
    lemma_primitive_is_token(v);
}

/// A number with a sign, where it has one, is one value.
pub proof fn lemma_signed_decimal_is_token(n: int)
    ensures
        is_token(text::signed_decimal(n), 0),
{
    reveal(is_token);
    if n >= 0 {
        lemma_decimal_is_token(n as nat);
    } else {
        let v = text::signed_decimal(n);
        let d = text::decimal((-n) as nat);
        lemma_decimal_shape((-n) as nat);
        assert(v[0] == '-');
        assert forall|i: int| 1 <= i < v.len() implies json::is_digit(#[trigger] v[i]) by {
            assert(v[i] == d[i - 1]);
        }
        lemma_digits_to_end(v, 1);
        assert(v[1] == d[0]);
        assert(json::is_number(v));
        lemma_primitive_is_token(v);
    }
}

proof fn lemma_digits_to_end(s: Seq<char>, at: int)
    requires
        0 <= at <= s.len(),
        forall|i: int| at <= i < s.len() ==> json::is_digit(#[trigger] s[i]),
    ensures
        json::digits_end(s, at) == s.len(),
    decreases s.len() - at,
{
    if at < s.len() {
        lemma_digits_to_end(s, at + 1);
    }
}

/// Whether the character is written as it is.
pub open spec fn is_unescaped(c: char) -> bool {
    c != '"' && c != '\\' && !json::is_control(c)
}

/// A text without quotes, backslashes and control characters is written as it is.
pub proof fn lemma_plain_text_quoted(s: Seq<char>)
    requires
        forall|i: int| 0 <= i < s.len() ==> is_unescaped(#[trigger] s[i]),
    ensures
        json::escaped(s) == s,
        json::quoted(s) == seq!['"'] + s + seq!['"'],
    decreases s.len(),
{
    if s.len() > 0 {
        let front = s.drop_last();
        assert forall|i: int| 0 <= i < front.len() implies is_unescaped(#[trigger] front[i]) by {
            assert(front[i] == s[i]);
        }
        lemma_plain_text_quoted(front);
        assert(is_unescaped(s.last()));
        assert(json::escaped(s) =~= s);
    } else {
        assert(json::escaped(s) =~= s);
    }
}

// ---------------------------------------------------------------------------
// Objects
// ---------------------------------------------------------------------------

/// One member of an object.
pub open spec fn member_text(field: (Seq<char>, Seq<char>)) -> Seq<char> {
    json::quoted(field.0) + seq![':'] + field.1
}

/// The members of an object, with commas between them.
pub open spec fn members_text(fields: Fields) -> Seq<char>
    decreases fields.len(),
{
    if fields.len() == 0 {
        Seq::empty()
    } else if fields.len() == 1 {
        member_text(fields[0])
    } else {
        member_text(fields[0]) + seq![','] + members_text(fields.drop_first())
    }
}

/// An object with the given fields, written without whitespace.
pub open spec fn object_text(fields: Fields) -> Seq<char> {
    seq!['{'] + members_text(fields) + seq!['}']
}

/// Whether every value of the fields is a token.
pub open spec fn token_fields(fields: Fields, levels: int) -> bool {
    forall|i: int| 0 <= i < fields.len() ==> is_token((#[trigger] fields[i]).1, levels)
}

/// Tokens of few levels are tokens of more.
pub proof fn lemma_fields_levels(fields: Fields, levels: int, more: int)
    requires
        token_fields(fields, levels),
        levels <= more,
    ensures
        token_fields(fields, more),
{
    assert forall|i: int| 0 <= i < fields.len() implies is_token((#[trigger] fields[i]).1, more) by {
        lemma_token_levels(fields[i].1, levels, more);
    }
}

/// What stands behind the first member.
spec fn behind_member(fields: Fields, after: Seq<char>) -> Seq<char> {
    if fields.len() == 1 {
        seq!['}'] + after
    } else {
        seq![','] + members_text(fields.drop_first()) + seq!['}'] + after
    }
}

/// The positions inside the first member of the fields that stand between two
/// texts.
#[verifier::spinoff_prover]
#[verifier::rlimit(40)]
proof fn lemma_first_member(before: Seq<char>, fields: Fields, after: Seq<char>, levels: int, depth: int)
    requires
        fields.len() > 0,
        token_fields(fields, levels),
        0 <= depth,
        depth + levels <= json::MAX_JSON_NESTING_DEPTH,
    ensures
        ({
            let s = before + members_text(fields) + seq!['}'] + after;
            let b = before.len() as int;
            let key_end = b + json::quoted(fields[0].0).len();
            let end = key_end + 1 + fields[0].1.len();
            &&& json::holds(s, b, '"')
            &&& json::skip_space(s, b) == b
            &&& json::string_end(s, b + 1) == Ok::<int, JsonFault>(key_end)
            &&& s.subrange(b, key_end) == json::quoted(fields[0].0)
            &&& json::skip_space(s, key_end) == key_end
            &&& json::holds(s, key_end, ':')
            &&& json::skip_space(s, key_end + 1) == key_end + 1
            &&& json::value_end(s, key_end + 1, depth) == Ok::<int, JsonFault>(end)
            &&& s.subrange(key_end + 1, end) == fields[0].1
            &&& json::skip_space(s, end) == end
            &&& b < end < s.len()
            &&& s[end] == if fields.len() == 1 {
                '}'
            } else {
                ','
            }
            &&& fields.len() > 1 ==> json::holds(s, end + 1, '"') && json::skip_space(s, end + 1)
                == end + 1
            &&& fields.len() == 1 ==> s.len() == end + 1 + after.len() && s.subrange(
                end + 1,
                s.len() as int,
            ) == after
            &&& fields.len() > 1 ==> s == (before + member_text(fields[0]) + seq![','])
                + members_text(fields.drop_first()) + seq!['}'] + after && (before + member_text(
                fields[0],
            ) + seq![',']).len() == end + 1
        }),
{
    reveal(is_token);
    let s = before + members_text(fields) + seq!['}'] + after;
    let b = before.len() as int;
    let q = json::quoted(fields[0].0);
    let v = fields[0].1;
    let rest = behind_member(fields, after);
    assert(is_token(v, levels));
    let key_end = b + q.len();
    let end = key_end + 1 + v.len();
    assert(q[0] == '"');
    let tail = seq![':'] + v + rest;
    assert(s == before + q + tail) by {
        assert(s =~= before + q + tail);
    }
    assert(json::string_end(s, b + 1) == Ok::<int, JsonFault>(key_end)) by {
        json::lemma_quoted_token(before, fields[0].0, tail);
    }
    assert(s[b] == q[0]);
    assert(s[key_end] == tail[0]);
    assert(s.subrange(b, key_end) =~= q);
    assert(s[key_end + 1] == v[0]) by {
        assert(tail[1] == v[0]);
    }
    let front = before + q + seq![':'];
    assert(s == front + v + rest) by {
        assert(s =~= front + v + rest);
    }
    assert(ends_value(rest));
    assert(json::value_end(s, key_end + 1, depth) == Ok::<int, JsonFault>(end)) by {
        assert(json::value_end(front + v + rest, front.len() as int, depth) == Ok::<
            int,
            JsonFault,
        >((front.len() + v.len()) as int));
    }
    assert(s.subrange(key_end + 1, end) =~= v);
    assert(s[end] == rest[0]);
    if fields.len() > 1 {
        let next = fields.drop_first();
        assert(members_text(next)[0] == '"') by {
            assert(json::quoted(next[0].0)[0] == '"');
            assert(member_text(next[0])[0] == '"');
        }
        assert(rest[1] == '"');
        assert(s[end + 1] == rest[1]);
        assert(s =~= (before + member_text(fields[0]) + seq![',']) + members_text(next) + seq!['}']
            + after);
    } else {
        assert(s.subrange(end + 1, s.len() as int) =~= after);
    }
}

/// The members of an object end where they were written to end.
proof fn lemma_members_end_at(before: Seq<char>, fields: Fields, after: Seq<char>, levels: int, depth: int)
    requires
        fields.len() > 0,
        token_fields(fields, levels),
        0 <= depth,
        depth + levels <= json::MAX_JSON_NESTING_DEPTH,
    ensures
        json::members_end(
            before + members_text(fields) + seq!['}'] + after,
            before.len() as int,
            depth,
        ) == Ok::<int, JsonFault>((before.len() + members_text(fields).len() + 1) as int),
    decreases fields.len(),
{
    reveal(is_token);
    lemma_first_member(before, fields, after, levels, depth);
    let s = before + members_text(fields) + seq!['}'] + after;
    if fields.len() > 1 {
        let next = fields.drop_first();
        let front = before + member_text(fields[0]) + seq![','];
        assert(token_fields(next, levels)) by {
            assert forall|i: int| 0 <= i < next.len() implies is_token(
                (#[trigger] next[i]).1,
                levels,
            ) by {
                assert(is_token(fields[i + 1].1, levels));
            }
        }
        lemma_members_end_at(front, next, after, levels, depth);
        assert(json::members_end(s, front.len() as int, depth) == Ok::<int, JsonFault>(
            (front.len() + members_text(next).len() + 1) as int,
        ));
    }
}

/// An object of tokens is a token of one level more.
pub proof fn lemma_object_is_token(fields: Fields, levels: int)
    requires
        token_fields(fields, levels),
        0 <= levels,
    ensures
        is_token(object_text(fields), levels + 1),
{
    reveal(is_token);
    let v = object_text(fields);
    assert(v[0] == '{');
    assert forall|before: Seq<char>, after: Seq<char>, depth: int|
        0 <= depth && depth + (levels + 1) <= json::MAX_JSON_NESTING_DEPTH && ends_value(
            after,
        ) implies #[trigger] json::value_end(before + v + after, before.len() as int, depth) == Ok::<
        int,
        JsonFault,
    >((before.len() + v.len()) as int) by {
        let s = before + v + after;
        let front = before + seq!['{'];
        assert(s =~= front + members_text(fields) + seq!['}'] + after);
        let at = before.len() as int;
        assert(s[at] == '{');
        if fields.len() == 0 {
            assert(s[at + 1] == '}');
        } else {
            lemma_first_member(front, fields, after, levels, depth + 1);
            lemma_members_end_at(front, fields, after, levels, depth + 1);
            assert(json::object_end(s, at + 1, depth + 1) == json::members_end(
                s,
                at + 1,
                depth + 1,
            ));
        }
    }
}

#[verifier::rlimit(30)]
proof fn lemma_fields_read_from(before: Seq<char>, read: Fields, fields: Fields)
    requires
        fields.len() > 0,
        token_fields(fields, json::MAX_JSON_NESTING_DEPTH - 1),
        json::distinct_keys(read + fields),
    ensures
        json::fields_from(
            before + members_text(fields) + seq!['}'],
            before.len() as int,
            read,
        ) == Ok::<Fields, JsonFault>(read + fields),
    decreases fields.len(),
{
    reveal(is_token);
    let none = Seq::<char>::empty();
    let levels = json::MAX_JSON_NESTING_DEPTH - 1;
    lemma_first_member(before, fields, none, levels, 1);
    let s = before + members_text(fields) + seq!['}'];
    assert(s =~= before + members_text(fields) + seq!['}'] + none);
    json::law_quoted_text_decodes(fields[0].0);
    assert(json::lookup(read, fields[0].0) is None) by {
        json::lemma_lookup_absent(read, fields[0].0);
        let all = read + fields;
        assert(all[read.len() as int] == fields[0]);
        assert forall|i: int| 0 <= i < read.len() implies (#[trigger] read[i]).0
            != fields[0].0 by {
            assert(all[i] == read[i]);
            assert(all[i].0 != all[read.len() as int].0);
        }
    }
    let more = read.push(fields[0]);
    if fields.len() > 1 {
        let next = fields.drop_first();
        let front = before + member_text(fields[0]) + seq![','];
        assert(token_fields(next, levels)) by {
            assert forall|i: int| 0 <= i < next.len() implies is_token(
                (#[trigger] next[i]).1,
                levels,
            ) by {
                assert(is_token(fields[i + 1].1, levels));
            }
        }
        assert(more + next =~= read + fields);
        lemma_fields_read_from(front, more, next);
        assert(front + members_text(next) + seq!['}'] =~= s);
    } else {
        assert(more =~= read + fields);
    }
}

/// Reading an object gives back the fields it was written from.
pub proof fn law_written_object_reads_back(fields: Fields)
    requires
        token_fields(fields, json::MAX_JSON_NESTING_DEPTH - 1),
        json::distinct_keys(fields),
    ensures
        json::object_fields(object_text(fields)) == Ok::<Fields, JsonFault>(fields),
{
    reveal(json::object_fields);
    reveal(is_token);
    let s = object_text(fields);
    let front = seq!['{'];
    let read: Fields = Seq::empty();
    assert(s[0] == '{');
    if fields.len() == 0 {
        assert(s[1] == '}');
        assert(fields =~= read);
    } else {
        assert(read + fields =~= fields);
        lemma_fields_read_from(front, read, fields);
    }
}

// ---------------------------------------------------------------------------
// Arrays
// ---------------------------------------------------------------------------

/// The items of an array, with commas between them.
pub open spec fn items_text(items: Seq<Seq<char>>) -> Seq<char>
    decreases items.len(),
{
    if items.len() == 0 {
        Seq::empty()
    } else if items.len() == 1 {
        items[0]
    } else {
        items[0] + seq![','] + items_text(items.drop_first())
    }
}

/// An array with the given items, written without whitespace.
pub open spec fn array_text(items: Seq<Seq<char>>) -> Seq<char> {
    seq!['['] + items_text(items) + seq![']']
}

/// Whether every item is a token.
pub open spec fn token_items(items: Seq<Seq<char>>, levels: int) -> bool {
    forall|i: int| 0 <= i < items.len() ==> is_token(#[trigger] items[i], levels)
}

spec fn behind_item(items: Seq<Seq<char>>, after: Seq<char>) -> Seq<char> {
    if items.len() == 1 {
        seq![']'] + after
    } else {
        seq![','] + items_text(items.drop_first()) + seq![']'] + after
    }
}

/// The positions at the first of the items that stand between two texts.
proof fn lemma_first_item(
    before: Seq<char>,
    items: Seq<Seq<char>>,
    after: Seq<char>,
    levels: int,
    depth: int,
)
    requires
        items.len() > 0,
        token_items(items, levels),
        0 <= depth,
        depth + levels <= json::MAX_JSON_NESTING_DEPTH,
    ensures
        ({
            let s = before + items_text(items) + seq![']'] + after;
            let b = before.len() as int;
            let end = b + items[0].len();
            &&& json::skip_space(s, b) == b
            &&& s[b] == items[0][0]
            &&& s.subrange(b, end) == items[0]
            &&& json::value_end(s, b, depth) == Ok::<int, JsonFault>(end)
            &&& json::skip_space(s, end) == end
            &&& b < end < s.len()
            &&& s[end] == if items.len() == 1 {
                ']'
            } else {
                ','
            }
            &&& items.len() > 1 ==> !json::holds(s, end + 1, ']') && json::skip_space(s, end + 1)
                == end + 1 && end + 1 < s.len() && s[end + 1] == items[1][0]
            &&& items.len() == 1 ==> s.len() == end + 1 + after.len() && s.subrange(
                end + 1,
                s.len() as int,
            ) == after
            &&& items.len() > 1 ==> s == (before + items[0] + seq![',']) + items_text(
                items.drop_first(),
            ) + seq![']'] + after && (before + items[0] + seq![',']).len() == end + 1
        }),
{
    reveal(is_token);
    let s = before + items_text(items) + seq![']'] + after;
    let b = before.len() as int;
    let v = items[0];
    let rest = behind_item(items, after);
    assert(is_token(v, levels));
    let end = b + v.len();
    assert(s =~= before + v + rest);
    assert(s[b] == v[0]);
    assert(ends_value(rest));
    assert(json::value_end(before + v + rest, before.len() as int, depth) == Ok::<int, JsonFault>(
        (before.len() + v.len()) as int,
    ));
    assert(s.subrange(b, end) =~= v);
    assert(s[end] == rest[0]);
    if items.len() > 1 {
        let next = items.drop_first();
        assert(next[0] == items[1]);
        assert(is_token(items[1], levels));
        assert(items_text(next)[0] == next[0][0]);
        assert(rest[1] == next[0][0]);
        assert(s[end + 1] == rest[1]);
        assert(s =~= (before + v + seq![',']) + items_text(next) + seq![']'] + after);
    } else {
        assert(s.subrange(end + 1, s.len() as int) =~= after);
    }
}

proof fn lemma_items_end_at(
    before: Seq<char>,
    items: Seq<Seq<char>>,
    after: Seq<char>,
    levels: int,
    depth: int,
)
    requires
        items.len() > 0,
        token_items(items, levels),
        0 <= depth,
        depth + levels <= json::MAX_JSON_NESTING_DEPTH,
    ensures
        json::items_end(
            before + items_text(items) + seq![']'] + after,
            before.len() as int,
            depth,
        ) == Ok::<int, JsonFault>((before.len() + items_text(items).len() + 1) as int),
    decreases items.len(),
{
    reveal(is_token);
    lemma_first_item(before, items, after, levels, depth);
    let s = before + items_text(items) + seq![']'] + after;
    if items.len() > 1 {
        let next = items.drop_first();
        let front = before + items[0] + seq![','];
        lemma_rest_items(items, levels);
        lemma_items_end_at(front, next, after, levels, depth);
        assert(json::items_end(s, front.len() as int, depth) == Ok::<int, JsonFault>(
            (front.len() + items_text(next).len() + 1) as int,
        ));
    }
}

proof fn lemma_rest_items(items: Seq<Seq<char>>, levels: int)
    requires
        items.len() > 0,
        token_items(items, levels),
    ensures
        token_items(items.drop_first(), levels),
{
    reveal(is_token);
    assert forall|i: int| 0 <= i < items.drop_first().len() implies is_token(
        #[trigger] items.drop_first()[i],
        levels,
    ) by {
        assert(is_token(items[i + 1], levels));
    }
}

/// An array of tokens is a token of one level more.
pub proof fn lemma_array_is_token(items: Seq<Seq<char>>, levels: int)
    requires
        token_items(items, levels),
        0 <= levels,
    ensures
        is_token(array_text(items), levels + 1),
{
    reveal(is_token);
    let v = array_text(items);
    assert(v[0] == '[');
    assert forall|before: Seq<char>, after: Seq<char>, depth: int|
        0 <= depth && depth + (levels + 1) <= json::MAX_JSON_NESTING_DEPTH && ends_value(
            after,
        ) implies #[trigger] json::value_end(before + v + after, before.len() as int, depth) == Ok::<
        int,
        JsonFault,
    >((before.len() + v.len()) as int) by {
        let s = before + v + after;
        let front = before + seq!['['];
        assert(s =~= front + items_text(items) + seq![']'] + after);
        let at = before.len() as int;
        assert(s[at] == '[');
        if items.len() == 0 {
            assert(s[at + 1] == ']');
        } else {
            assert(is_token(items[0], levels));
            lemma_first_item(front, items, after, levels, depth + 1);
            lemma_items_end_at(front, items, after, levels, depth + 1);
            assert(json::array_end(s, at + 1, depth + 1) == json::items_end(s, at + 1, depth + 1));
        }
    }
}

/// The texts, each quoted.
pub open spec fn quoted_all(values: Seq<Seq<char>>) -> Seq<Seq<char>> {
    values.map_values(|v: Seq<char>| json::quoted(v))
}

proof fn lemma_strings_read_from(before: Seq<char>, read: Seq<Seq<char>>, values: Seq<Seq<char>>)
    requires
        values.len() > 0,
    ensures
        json::strings_from(
            before + items_text(quoted_all(values)) + seq![']'],
            before.len() as int,
            read,
        ) == Ok::<Seq<Seq<char>>, JsonFault>(read + values),
    decreases values.len(),
{
    let none = Seq::<char>::empty();
    let items = quoted_all(values);
    assert forall|i: int| 0 <= i < items.len() implies is_token(#[trigger] items[i], 0) by {
        lemma_quoted_is_token(values[i]);
    }
    lemma_first_item(before, items, none, 0, 0);
    let s = before + items_text(items) + seq![']'];
    assert(s =~= before + items_text(items) + seq![']'] + none);
    let rest = behind_item(items, none);
    assert(s =~= before + json::quoted(values[0]) + rest);
    json::lemma_quoted_token(before, values[0], rest);
    json::law_quoted_text_decodes(values[0]);
    assert(items[0][0] == '"');
    let more = read.push(values[0]);
    if values.len() > 1 {
        let next = values.drop_first();
        assert(quoted_all(next) =~= items.drop_first());
        assert(items[1][0] == '"');
        let front = before + items[0] + seq![','];
        assert(more + next =~= read + values);
        lemma_strings_read_from(front, more, next);
        assert(front + items_text(quoted_all(next)) + seq![']'] =~= s);
    } else {
        assert(more =~= read + values);
    }
}

/// Reading an array of strings gives back the strings it was written from.
pub proof fn law_written_strings_read_back(values: Seq<Seq<char>>)
    ensures
        json::string_array(array_text(quoted_all(values))) == Ok::<Seq<Seq<char>>, JsonFault>(
            values,
        ),
{
    let s = array_text(quoted_all(values));
    let read: Seq<Seq<char>> = Seq::empty();
    assert(s[0] == '[');
    if values.len() == 0 {
        assert(s[1] == ']');
        assert(values =~= read);
    } else {
        assert(read + values =~= values);
        let items = quoted_all(values);
        assert(items[0][0] == '"');
        assert(items_text(items)[0] == '"');
        assert(s[1] == '"');
        lemma_strings_read_from(seq!['['], read, values);
    }
}

// ---------------------------------------------------------------------------
// Values that stand elsewhere
// ---------------------------------------------------------------------------

/// Whether the characters of `s` between two positions stand in `t`, by `k`
/// further.
pub open spec fn stands_in(s: Seq<char>, from: int, to: int, t: Seq<char>, k: int) -> bool {
    &&& 0 <= from <= to <= s.len()
    &&& 0 <= from + k
    &&& to + k <= t.len()
    &&& forall|i: int| from <= i < to ==> #[trigger] s[i] == t[i + k]
}

proof fn lemma_space_moves(s: Seq<char>, at: int, to: int, t: Seq<char>, k: int)
    requires
        stands_in(s, at, to, t, k),
        json::skip_space(s, at) < to,
    ensures
        json::skip_space(t, at + k) == json::skip_space(s, at) + k,
    decreases to - at,
{
    json::lemma_skip_space(s, at);
    assert(s[at] == t[at + k]);
    if json::is_json_space(s[at]) {
        lemma_space_moves(s, at + 1, to, t, k);
    }
}

proof fn lemma_string_moves(s: Seq<char>, at: int, to: int, t: Seq<char>, k: int)
    requires
        stands_in(s, at, to, t, k),
        json::string_end(s, at) == Ok::<int, JsonFault>(to),
    ensures
        json::string_end(t, at + k) == Ok::<int, JsonFault>(to + k),
    decreases to - at,
{
    json::lemma_string_end(s, at);
    assert(s[at] == t[at + k]);
    if s[at] == '\\' {
        json::lemma_string_end(s, at + 2);
        json::lemma_string_end(s, at + 6);
        assert(s[at + 1] == t[at + 1 + k]);
        if s[at + 1] == 'u' {
            assert(s[at + 2] == t[at + 2 + k]);
            assert(s[at + 3] == t[at + 3 + k]);
            assert(s[at + 4] == t[at + 4 + k]);
            assert(s[at + 5] == t[at + 5 + k]);
            text::lemma_encoded_len_bound(t.skip(at + k + 2));
            lemma_string_moves(s, at + 6, to, t, k);
        } else {
            lemma_string_moves(s, at + 2, to, t, k);
        }
    } else if s[at] != '"' {
        lemma_string_moves(s, at + 1, to, t, k);
    }
}

proof fn lemma_primitive_moves(s: Seq<char>, at: int, to: int, t: Seq<char>, k: int)
    requires
        stands_in(s, at, to, t, k),
        json::primitive_end(s, at) == to,
        to + k == t.len() || !is_plain(t[to + k]),
    ensures
        json::primitive_end(t, at + k) == to + k,
    decreases to - at,
{
    if at < to {
        json::lemma_primitive_end(s, at);
        assert(s[at] == t[at + k]);
        json::lemma_primitive_end(s, at + 1);
        lemma_primitive_moves(s, at + 1, to, t, k);
    }
}

/// A value that ends before `to` in one text ends at the same character in a
/// text in which it stands with what follows it, inside no more objects and
/// arrays.
proof fn lemma_value_moves(s: Seq<char>, at: int, to: int, t: Seq<char>, k: int, depth: int, shallower: int)
    requires
        stands_in(s, at, to, t, k),
        shallower <= depth,
        json::value_end(s, at, depth) matches Ok(end) && (end < to || end == to && (s[at] == '{'
            || s[at] == '[')),
    ensures
        json::value_end(t, at + k, shallower) == Ok::<int, JsonFault>(
            json::value_end(s, at, depth)->Ok_0 + k,
        ),
    decreases s.len() - at, 2int,
{
    json::lemma_value_end(s, at, depth);
    let end = json::value_end(s, at, depth)->Ok_0;
    assert(s[at] == t[at + k]);
    if s[at] == '"' {
        lemma_string_moves(s, at + 1, end, t, k);
    } else if s[at] == '{' {
        lemma_object_moves(s, at + 1, to, t, k, depth + 1, shallower + 1);
    } else if s[at] == '[' {
        lemma_array_moves(s, at + 1, to, t, k, depth + 1, shallower + 1);
    } else {
        lemma_primitive_to(s, at);
        assert(s[end] == t[end + k]);
        lemma_primitive_moves(s, at, end, t, k);
        assert(s.subrange(at, end) =~= t.subrange(at + k, end + k));
    }
}

proof fn lemma_primitive_to(s: Seq<char>, at: int)
    requires
        0 <= at <= s.len(),
    ensures
        at <= json::primitive_end(s, at) <= s.len(),
        json::primitive_end(s, at) < s.len() ==> !is_plain(s[json::primitive_end(s, at)]),
    decreases s.len() - at,
{
    if at < s.len() && is_plain(s[at]) {
        lemma_primitive_to(s, at + 1);
    }
}

proof fn lemma_object_moves(s: Seq<char>, at: int, to: int, t: Seq<char>, k: int, depth: int, shallower: int)
    requires
        stands_in(s, at, to, t, k),
        shallower <= depth,
        json::object_end(s, at, depth) matches Ok(end) && end <= to,
    ensures
        json::object_end(t, at + k, shallower) == Ok::<int, JsonFault>(
            json::object_end(s, at, depth)->Ok_0 + k,
        ),
    decreases s.len() - at, 1int,
{
    json::lemma_object_end(s, at, depth);
    json::lemma_skip_space(s, at);
    let first = json::skip_space(s, at);
    if !json::holds(s, first, '}') {
        json::lemma_members_end(s, first, depth);
    }
    lemma_space_moves(s, at, to, t, k);
    assert(s[first] == t[first + k]);
    if !json::holds(s, first, '}') {
        lemma_members_move(s, first, to, t, k, depth, shallower);
    }
}

proof fn lemma_members_move(s: Seq<char>, at: int, to: int, t: Seq<char>, k: int, depth: int, shallower: int)
    requires
        stands_in(s, at, to, t, k),
        shallower <= depth,
        json::members_end(s, at, depth) matches Ok(end) && end <= to,
    ensures
        json::members_end(t, at + k, shallower) == Ok::<int, JsonFault>(
            json::members_end(s, at, depth)->Ok_0 + k,
        ),
    decreases s.len() - at, 0int,
{
    json::lemma_members_end(s, at, depth);
    assert(s[at] == t[at + k]);
    let key = json::string_end(s, at + 1)->Ok_0;
    json::lemma_string_end(s, at + 1);
    json::lemma_skip_space(s, key);
    let colon = json::skip_space(s, key);
    json::lemma_skip_space(s, colon + 1);
    let start = json::skip_space(s, colon + 1);
    json::lemma_value_end(s, start, depth);
    let end = json::value_end(s, start, depth)->Ok_0;
    json::lemma_skip_space(s, end);
    let next = json::skip_space(s, end);
    if !json::holds(s, next, '}') {
        json::lemma_skip_space(s, next + 1);
        json::lemma_members_end(s, json::skip_space(s, next + 1), depth);
    }
    lemma_string_moves(s, at + 1, key, t, k);
    lemma_space_moves(s, key, to, t, k);
    assert(s[colon] == t[colon + k]);
    lemma_space_moves(s, colon + 1, to, t, k);
    lemma_value_moves(s, start, to, t, k, depth, shallower);
    lemma_space_moves(s, end, to, t, k);
    assert(s[next] == t[next + k]);
    if !json::holds(s, next, '}') {
        let following = json::skip_space(s, next + 1);
        lemma_space_moves(s, next + 1, to, t, k);
        assert(s[following] == t[following + k]);
        lemma_members_move(s, following, to, t, k, depth, shallower);
    }
}

proof fn lemma_array_moves(s: Seq<char>, at: int, to: int, t: Seq<char>, k: int, depth: int, shallower: int)
    requires
        stands_in(s, at, to, t, k),
        shallower <= depth,
        json::array_end(s, at, depth) matches Ok(end) && end <= to,
    ensures
        json::array_end(t, at + k, shallower) == Ok::<int, JsonFault>(
            json::array_end(s, at, depth)->Ok_0 + k,
        ),
    decreases s.len() - at, 4int,
{
    json::lemma_array_end(s, at, depth);
    json::lemma_skip_space(s, at);
    let first = json::skip_space(s, at);
    if !json::holds(s, first, ']') {
        json::lemma_items_end(s, first, depth);
    }
    lemma_space_moves(s, at, to, t, k);
    assert(s[first] == t[first + k]);
    if !json::holds(s, first, ']') {
        lemma_items_move(s, first, to, t, k, depth, shallower);
    }
}

proof fn lemma_items_move(s: Seq<char>, at: int, to: int, t: Seq<char>, k: int, depth: int, shallower: int)
    requires
        stands_in(s, at, to, t, k),
        shallower <= depth,
        json::items_end(s, at, depth) matches Ok(end) && end <= to,
    ensures
        json::items_end(t, at + k, shallower) == Ok::<int, JsonFault>(
            json::items_end(s, at, depth)->Ok_0 + k,
        ),
    decreases s.len() - at, 3int,
{
    json::lemma_items_end(s, at, depth);
    json::lemma_value_end(s, at, depth);
    let end = json::value_end(s, at, depth)->Ok_0;
    json::lemma_skip_space(s, end);
    let next = json::skip_space(s, end);
    if !json::holds(s, next, ']') {
        json::lemma_skip_space(s, next + 1);
        json::lemma_items_end(s, json::skip_space(s, next + 1), depth);
    }
    lemma_value_moves(s, at, to, t, k, depth, shallower);
    lemma_space_moves(s, end, to, t, k);
    assert(s[next] == t[next + k]);
    if !json::holds(s, next, ']') {
        let following = json::skip_space(s, next + 1);
        lemma_space_moves(s, next + 1, to, t, k);
        assert(s[following] == t[following + k]);
        lemma_items_move(s, following, to, t, k, depth, shallower);
    }
}

/// An object that fills a text is one value wherever it stands, if it may be
/// nested so deep.
pub proof fn lemma_read_object_is_token(v: Seq<char>, levels: int)
    requires
        v.len() > 0,
        v[0] == '{',
        json::value_end(v, 0, json::MAX_JSON_NESTING_DEPTH - levels) == Ok::<int, JsonFault>(
            v.len() as int,
        ),
    ensures
        is_token(v, levels),
{
    reveal(is_token);
    assert forall|before: Seq<char>, after: Seq<char>, depth: int|
        0 <= depth && depth + levels <= json::MAX_JSON_NESTING_DEPTH && ends_value(after) implies #[trigger] json::value_end(
        before + v + after,
        before.len() as int,
        depth,
    ) == Ok::<int, JsonFault>((before.len() + v.len()) as int) by {
        let t = before + v + after;
        let k = before.len() as int;
        assert(stands_in(v, 0, v.len() as int, t, k));
        lemma_value_moves(v, 0, v.len() as int, t, k, json::MAX_JSON_NESTING_DEPTH - levels, depth);
    }
}

} // verus!
