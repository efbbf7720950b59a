//! Of what parts JSON texts that are accepted consist.

use vstd::prelude::*;
use crate::json;
use crate::json::{Fields, JsonFault, MAX_JSON_NESTING_DEPTH};
use crate::json_layout;
use crate::json_layout::Unit;

verus! {

/// Whether only blanks stand between two positions.
pub open spec fn blank_between(s: Seq<char>, from: int, to: int) -> bool {
    0 <= from <= to <= s.len() && forall|i: int|
        from <= i < to ==> (#[trigger] s[i] == ' ' || s[i] == '\t' || s[i] == '\r' || s[i] == '\n')
}

/// Blanks, and nothing else, are passed over.
pub proof fn law_only_blanks_are_passed_over(s: Seq<char>, at: int)
    requires
        0 <= at <= s.len(),
    ensures
        blank_between(s, at, json::skip_space(s, at)),
        json::skip_space(s, at) < s.len() ==> !json_layout::is_blank(
            seq![s[json::skip_space(s, at)]],
        ),
    decreases s.len() - at,
{
    if at < s.len() && json::is_json_space(s[at]) {
        law_only_blanks_are_passed_over(s, at + 1);
    }
    json::lemma_skip_space(s, at);
    let stop = json::skip_space(s, at);
    if stop < s.len() {
        assert(seq![s[stop]][0] == s[stop]);
    }
}

// ---------------------------------------------------------------------------
// Strings
// ---------------------------------------------------------------------------

/// Whether a unit is written as JSON allows, with halves of pairs on their own.
pub open spec fn is_written(unit: Unit) -> bool {
    match unit {
        Unit::Hex(a, b, c, d) => json_layout::are_hex(a, b, c, d),
        _ => unit.wf(),
    }
}

/// A string that ends consists of characters that may stand as they are and of
/// escapes, up to a quote.
pub proof fn law_ended_strings_consist_of_units(s: Seq<char>, at: int) -> (units: Seq<Unit>)
    requires
        json::string_end(s, at) is Ok,
    ensures
        ({
            let end = json::string_end(s, at)->Ok_0;
            &&& 0 <= at < end <= s.len()
            &&& s[end - 1] == '"'
            &&& s.subrange(at, end - 1) == json_layout::units_text(units)
            &&& forall|i: int| 0 <= i < units.len() ==> is_written(#[trigger] units[i])
        }),
    decreases s.len() - at,
{
    json::lemma_string_end(s, at);
    let end = json::string_end(s, at)->Ok_0;
    if s[at] == '"' {
        assert(s.subrange(at, end - 1) =~= Seq::<char>::empty());
        Seq::empty()
    } else {
        let (unit, next) = lemma_written_unit(s, at);
        let rest = law_ended_strings_consist_of_units(s, next);
        lemma_unit_in_front(unit, rest);
        assert(s.subrange(at, end - 1) =~= s.subrange(at, next) + s.subrange(next, end - 1));
        seq![unit] + rest
    }
}

proof fn lemma_written_unit(s: Seq<char>, at: int) -> (found: (Unit, int))
    requires
        0 <= at < s.len(),
        s[at] != '"',
        json::string_end(s, at) is Ok,
    ensures
        is_written(found.0),
        at < found.1 <= s.len(),
        found.0.text() == s.subrange(at, found.1),
        json::string_end(s, at) == json::string_end(s, found.1),
{
    if s[at] != '\\' {
        let unit = Unit::Plain(s[at]);
        assert(unit.text() =~= s.subrange(at, at + 1));
        (unit, at + 1)
    } else if json::is_short_escape(s[at + 1]) {
        let unit = Unit::Short(s[at + 1]);
        assert(unit.text() =~= s.subrange(at, at + 2));
        (unit, at + 2)
    } else {
        let unit = Unit::Hex(s[at + 2], s[at + 3], s[at + 4], s[at + 5]);
        assert(unit.text() =~= s.subrange(at, at + 6));
        (unit, at + 6)
    }
}

proof fn lemma_unit_in_front(unit: Unit, rest: Seq<Unit>)
    requires
        is_written(unit),
        forall|i: int| 0 <= i < rest.len() ==> is_written(#[trigger] rest[i]),
    ensures
        json_layout::units_text(seq![unit] + rest) == unit.text() + json_layout::units_text(rest),
        forall|i: int|
            0 <= i < (seq![unit] + rest).len() ==> is_written(#[trigger] (seq![unit] + rest)[i]),
{
    let units = seq![unit] + rest;
    assert(units.drop_first() =~= rest);
    assert forall|i: int| 0 <= i < units.len() implies is_written(#[trigger] units[i]) by {
        if i > 0 {
            assert(units[i] == rest[i - 1]);
        }
    }
}

/// A string that ends and is decoded is written as what it is decoded to.
#[verifier::spinoff_prover]
#[verifier::rlimit(40)]
pub proof fn law_decoded_strings_were_written(s: Seq<char>, at: int) -> (units: Seq<Unit>)
    requires
        json::string_end(s, at) is Ok,
        json::string_content(s, at) is Ok,
    ensures
        ({
            let end = json::string_end(s, at)->Ok_0;
            &&& s.subrange(at, end - 1) == json_layout::units_text(units)
            &&& json_layout::units_wf(units)
            &&& json::string_content(s, at)->Ok_0 == json_layout::units_value(units)
        }),
    decreases s.len() - at,
{
    json::lemma_string_end(s, at);
    let end = json::string_end(s, at)->Ok_0;
    if s[at] == '"' {
        assert(s.subrange(at, end - 1) =~= Seq::<char>::empty());
        let units: Seq<Unit> = Seq::empty();
        assert(json_layout::units_value(units) =~= Seq::<char>::empty());
        units
    } else {
        let (c, next) = json::string_unit(s, at)->Ok_0;
        let unit = lemma_unit(s, at);
        json::lemma_string_end(s, next);
        let rest = law_decoded_strings_were_written(s, next);
        let units = seq![unit] + rest;
        assert(units.drop_first() =~= rest);
        assert(s.subrange(at, end - 1) =~= s.subrange(at, next) + s.subrange(next, end - 1));
        assert forall|i: int| 0 <= i < units.len() implies (#[trigger] units[i]).wf() by {
            if i > 0 {
                assert(units[i] == rest[i - 1]);
            }
        }
        assert(json_layout::units_value(units) =~= seq![c] + json_layout::units_value(rest)) by {
            assert forall|i: int| 0 < i < units.len() implies units[i] == rest[i - 1] by {}
        }
        units
    }
}

proof fn lemma_unit(s: Seq<char>, at: int) -> (unit: Unit)
    requires
        0 <= at < s.len(),
        s[at] != '"',
        json::string_end(s, at) is Ok,
        json::string_unit(s, at) is Ok,
    ensures
        ({
            let (c, next) = json::string_unit(s, at)->Ok_0;
            &&& unit.wf()
            &&& at < next <= s.len()
            &&& unit.text() == s.subrange(at, next)
            &&& unit.value() == c
            &&& json::string_end(s, at) == json::string_end(s, next)
        }),
{
    let (c, next) = json::string_unit(s, at)->Ok_0;
    if s[at] != '\\' {
        let unit = Unit::Plain(s[at]);
        assert(unit.text() =~= s.subrange(at, next));
        unit
    } else if json::is_short_escape(s[at + 1]) {
        let unit = Unit::Short(s[at + 1]);
        assert(unit.text() =~= s.subrange(at, next));
        unit
    } else {
        let code = json::hex_quad(s, at + 2)->0;
        let (a, b, x, d) = (s[at + 2], s[at + 3], s[at + 4], s[at + 5]);
        assert(json_layout::are_hex(a, b, x, d));
        assert(code == json_layout::quad(a, b, x, d));
        if 0xd800 <= code <= 0xdbff {
            assert(json::string_end(s, at) == json::string_end(s, at + 6));
            assert(!json::is_short_escape('u'));
            assert(json::string_end(s, at + 6) == json::string_end(s, at + 12));
            let (e, f, g, h) = (s[at + 8], s[at + 9], s[at + 10], s[at + 11]);
            assert(json_layout::are_hex(e, f, g, h));
            let unit = Unit::Pair((a, b, x, d), (e, f, g, h));
            assert(json::hex_quad(s, at + 8) == Some(json_layout::quad(e, f, g, h)));
            assert(unit.text() =~= s.subrange(at, next));
            unit
        } else {
            let unit = Unit::Hex(a, b, x, d);
            assert(unit.text() =~= s.subrange(at, next));
            unit
        }
    }
}

// ---------------------------------------------------------------------------
// Objects and arrays
// ---------------------------------------------------------------------------

/// Where the parts of a member stand: the key and its end, the colon, the value and
/// its end, and what follows.
pub struct Place {
    pub key: int,
    pub key_end: int,
    pub colon: int,
    pub value: int,
    pub end: int,
    pub next: int,
}

/// Whether a member stands there, inside so many objects and arrays.
pub open spec fn stands(s: Seq<char>, p: Place, depth: int) -> bool {
    &&& 0 <= p.key < s.len() && s[p.key] == '"'
    &&& json::string_end(s, p.key + 1) == Ok::<int, JsonFault>(p.key_end)
    &&& blank_between(s, p.key_end, p.colon) && p.colon < s.len() && s[p.colon] == ':'
    &&& blank_between(s, p.colon + 1, p.value)
    &&& json::value_end(s, p.value, depth) == Ok::<int, JsonFault>(p.end)
    &&& blank_between(s, p.end, p.next) && p.next < s.len()
}

/// Whether members stand one behind the other, with one comma between two, none
/// behind the last, and a brace at the end.
pub open spec fn are_listed(s: Seq<char>, places: Seq<Place>, at: int, end: int, depth: int) -> bool
    decreases places.len(),
{
    &&& places.len() > 0
    &&& blank_between(s, at, places[0].key)
    &&& stands(s, places[0], depth)
    &&& if places.len() == 1 {
        s[places[0].next] == '}' && end == places[0].next + 1
    } else {
        s[places[0].next] == ',' && are_listed(
            s,
            places.drop_first(),
            places[0].next + 1,
            end,
            depth,
        )
    }
}

proof fn lemma_members(s: Seq<char>, at: int, depth: int) -> (places: Seq<Place>)
    requires
        0 <= at <= s.len(),
        json::members_end(s, at, depth) is Ok,
    ensures
        are_listed(s, places, at, json::members_end(s, at, depth)->Ok_0, depth),
        places[0].key == at,
    decreases s.len() - at,
{
    json::lemma_string_end(s, at + 1);
    let key_end = json::string_end(s, at + 1)->Ok_0;
    law_only_blanks_are_passed_over(s, key_end);
    let colon = json::skip_space(s, key_end);
    law_only_blanks_are_passed_over(s, colon + 1);
    let value = json::skip_space(s, colon + 1);
    json::lemma_value_end(s, value, depth);
    let end = json::value_end(s, value, depth)->Ok_0;
    law_only_blanks_are_passed_over(s, end);
    let next = json::skip_space(s, end);
    let p = Place { key: at, key_end, colon, value, end, next };
    assert(stands(s, p, depth));
    assert(blank_between(s, at, at));
    if json::holds(s, next, '}') {
        seq![p]
    } else {
        law_only_blanks_are_passed_over(s, next + 1);
        let rest = lemma_members(s, json::skip_space(s, next + 1), depth);
        let places = seq![p] + rest;
        assert(places.drop_first() =~= rest);
        lemma_listed_earlier(
            s,
            rest,
            next + 1,
            json::skip_space(s, next + 1),
            json::members_end(s, at, depth)->Ok_0,
            depth,
        );
        places
    }
}

proof fn lemma_listed_earlier(
    s: Seq<char>,
    places: Seq<Place>,
    from: int,
    at: int,
    end: int,
    depth: int,
)
    requires
        are_listed(s, places, at, end, depth),
        blank_between(s, from, at),
    ensures
        are_listed(s, places, from, end, depth),
{
}

/// The field that a member is.
pub open spec fn field_at(s: Seq<char>, p: Place) -> (Seq<char>, Seq<char>) {
    (json::string_value(s.subrange(p.key, p.key_end))->Ok_0, s.subrange(p.value, p.end))
}

/// The fields that members are.
pub open spec fn fields_at(s: Seq<char>, places: Seq<Place>) -> Fields {
    places.map_values(|p: Place| field_at(s, p))
}

proof fn lemma_fields(s: Seq<char>, at: int, read: Fields) -> (found: (Seq<Place>, int))
    requires
        0 <= at <= s.len(),
        json::fields_from(s, at, read) is Ok,
        !json::holds(s, json::skip_space(s, at), '}'),
    ensures
        are_listed(s, found.0, at, found.1, 1),
        blank_between(s, found.1, s.len() as int),
        json::fields_from(s, at, read)->Ok_0 == read + fields_at(s, found.0),
    decreases s.len() - at,
{
    law_only_blanks_are_passed_over(s, at);
    let key = json::skip_space(s, at);
    json::lemma_string_end(s, key + 1);
    let key_end = json::string_end(s, key + 1)->Ok_0;
    law_only_blanks_are_passed_over(s, key_end);
    let colon = json::skip_space(s, key_end);
    law_only_blanks_are_passed_over(s, colon + 1);
    let value = json::skip_space(s, colon + 1);
    json::lemma_value_end(s, value, 1);
    let end = json::value_end(s, value, 1)->Ok_0;
    law_only_blanks_are_passed_over(s, end);
    let next = json::skip_space(s, end);
    let p = Place { key, key_end, colon, value, end, next };
    assert(stands(s, p, 1));
    let more = read.push(field_at(s, p));
    if json::holds(s, next, '}') {
        law_only_blanks_are_passed_over(s, next + 1);
        let places = seq![p];
        assert(fields_at(s, places) =~= seq![field_at(s, p)]);
        assert(more =~= read + fields_at(s, places));
        (places, next + 1)
    } else {
        law_only_blanks_are_passed_over(s, next + 1);
        let start = json::skip_space(s, next + 1);
        lemma_space_is_passed_once(s, next + 1);
        let (rest, close) = lemma_fields(s, start, more);
        let places = seq![p] + rest;
        assert(places.drop_first() =~= rest);
        assert(fields_at(s, places) =~= seq![field_at(s, p)] + fields_at(s, rest));
        assert(more + fields_at(s, rest) =~= read + fields_at(s, places));
        lemma_listed_earlier(s, rest, next + 1, start, close, 1);
        (places, close)
    }
}

proof fn lemma_space_is_passed_once(s: Seq<char>, at: int)
    requires
        0 <= at <= s.len(),
    ensures
        json::skip_space(s, json::skip_space(s, at)) == json::skip_space(s, at),
{
    json::lemma_skip_space(s, at);
}

/// An object that is accepted consists of a brace, of members with one comma between
/// two and none behind the last, and of a closing brace, with blanks around all of
/// them and nothing else; its fields are these members.
pub proof fn law_accepted_objects_consist_of_members(s: Seq<char>) -> (found: (
    int,
    Seq<Place>,
    int,
))
    requires
        json::object_fields(s) is Ok,
    ensures
        ({
            let (open, places, end) = found;
            &&& blank_between(s, 0, open)
            &&& open < s.len() && s[open] == '{'
            &&& blank_between(s, end, s.len() as int)
            &&& json::object_fields(s)->Ok_0 == fields_at(s, places)
            &&& if places.len() == 0 {
                blank_between(s, open + 1, end - 1) && s[end - 1] == '}'
            } else {
                are_listed(s, places, open + 1, end, 1)
            }
        }),
{
    reveal(json::object_fields);
    law_only_blanks_are_passed_over(s, 0);
    let open = json::skip_space(s, 0);
    law_only_blanks_are_passed_over(s, open + 1);
    let first = json::skip_space(s, open + 1);
    if json::holds(s, first, '}') {
        law_only_blanks_are_passed_over(s, first + 1);
        let places: Seq<Place> = Seq::empty();
        assert(fields_at(s, places) =~= Seq::empty());
        (open, places, first + 1)
    } else {
        let (places, end) = lemma_fields(s, open + 1, Seq::empty());
        assert(Seq::empty() + fields_at(s, places) =~= fields_at(s, places));
        (open, places, end)
    }
}

/// An object inside a value consists of members in the same way, and lies no deeper
/// than the limit.
pub proof fn law_nested_objects_consist_of_members(s: Seq<char>, at: int, depth: int) -> (places: Seq<
    Place,
>)
    requires
        0 <= at < s.len(),
        s[at] == '{',
        json::value_end(s, at, depth) is Ok,
    ensures
        ({
            let end = json::value_end(s, at, depth)->Ok_0;
            &&& depth + 1 <= MAX_JSON_NESTING_DEPTH
            &&& if places.len() == 0 {
                blank_between(s, at + 1, end - 1) && s[end - 1] == '}'
            } else {
                are_listed(s, places, at + 1, end, depth + 1)
            }
        }),
{
    law_only_blanks_are_passed_over(s, at + 1);
    let first = json::skip_space(s, at + 1);
    if json::holds(s, first, '}') {
        Seq::empty()
    } else {
        let places = lemma_members(s, first, depth + 1);
        lemma_listed_earlier(
            s,
            places,
            at + 1,
            first,
            json::value_end(s, at, depth)->Ok_0,
            depth + 1,
        );
        places
    }
}

/// Where an item of an array stands: the value and its end, and what follows.
pub struct ItemPlace {
    pub value: int,
    pub end: int,
    pub next: int,
}

/// Whether values stand one behind the other, with one comma between two, none
/// behind the last, and a bracket at the end.
pub open spec fn are_lined_up(
    s: Seq<char>,
    items: Seq<ItemPlace>,
    at: int,
    end: int,
    depth: int,
) -> bool
    decreases items.len(),
{
    &&& items.len() > 0
    &&& blank_between(s, at, items[0].value)
    &&& json::value_end(s, items[0].value, depth) == Ok::<int, JsonFault>(items[0].end)
    &&& blank_between(s, items[0].end, items[0].next) && items[0].next < s.len()
    &&& if items.len() == 1 {
        s[items[0].next] == ']' && end == items[0].next + 1
    } else {
        s[items[0].next] == ',' && are_lined_up(
            s,
            items.drop_first(),
            items[0].next + 1,
            end,
            depth,
        )
    }
}

proof fn lemma_items(s: Seq<char>, at: int, depth: int) -> (items: Seq<ItemPlace>)
    requires
        0 <= at <= s.len(),
        json::items_end(s, at, depth) is Ok,
    ensures
        are_lined_up(s, items, at, json::items_end(s, at, depth)->Ok_0, depth),
        items[0].value == at,
    decreases s.len() - at,
{
    json::lemma_value_end(s, at, depth);
    let end = json::value_end(s, at, depth)->Ok_0;
    law_only_blanks_are_passed_over(s, end);
    let next = json::skip_space(s, end);
    let item = ItemPlace { value: at, end, next };
    assert(blank_between(s, at, at));
    if json::holds(s, next, ']') {
        seq![item]
    } else {
        law_only_blanks_are_passed_over(s, next + 1);
        let rest = lemma_items(s, json::skip_space(s, next + 1), depth);
        let items = seq![item] + rest;
        assert(items.drop_first() =~= rest);
        lemma_lined_up_earlier(
            s,
            rest,
            next + 1,
            json::skip_space(s, next + 1),
            json::items_end(s, at, depth)->Ok_0,
            depth,
        );
        items
    }
}

proof fn lemma_lined_up_earlier(
    s: Seq<char>,
    items: Seq<ItemPlace>,
    from: int,
    at: int,
    end: int,
    depth: int,
)
    requires
        are_lined_up(s, items, at, end, depth),
        blank_between(s, from, at),
    ensures
        are_lined_up(s, items, from, end, depth),
{
}

/// An array inside a value consists of values with one comma between two and none
/// behind the last, and lies no deeper than the limit.
pub proof fn law_nested_arrays_consist_of_values(s: Seq<char>, at: int, depth: int) -> (items: Seq<
    ItemPlace,
>)
    requires
        0 <= at < s.len(),
        s[at] == '[',
        json::value_end(s, at, depth) is Ok,
    ensures
        ({
            let end = json::value_end(s, at, depth)->Ok_0;
            &&& depth + 1 <= MAX_JSON_NESTING_DEPTH
            &&& if items.len() == 0 {
                blank_between(s, at + 1, end - 1) && s[end - 1] == ']'
            } else {
                are_lined_up(s, items, at + 1, end, depth + 1)
            }
        }),
{
    law_only_blanks_are_passed_over(s, at + 1);
    let first = json::skip_space(s, at + 1);
    if json::holds(s, first, ']') {
        Seq::empty()
    } else {
        let items = lemma_items(s, first, depth + 1);
        lemma_lined_up_earlier(
            s,
            items,
            at + 1,
            first,
            json::value_end(s, at, depth)->Ok_0,
            depth + 1,
        );
        items
    }
}

proof fn lemma_primitive(s: Seq<char>, at: int)
    requires
        0 <= at <= s.len(),
    ensures
        at <= json::primitive_end(s, at) <= s.len(),
        json::primitive_end(s, at) < s.len() ==> {
            let c = s[json::primitive_end(s, at)];
            c == ' ' || c == '\t' || c == '\r' || c == '\n' || c == ',' || c == '}' || c == ']'
        },
    decreases s.len() - at,
{
    if at < s.len() {
        lemma_primitive(s, at + 1);
    }
}

/// Any other value is one of the three literals or a number, and what follows it is a
/// blank, a comma, a closing brace or bracket, or nothing.
pub proof fn law_other_values_are_literals_or_numbers(s: Seq<char>, at: int, depth: int)
    requires
        0 <= at < s.len(),
        s[at] != '"',
        s[at] != '{',
        s[at] != '[',
        json::value_end(s, at, depth) is Ok,
    ensures
        ({
            let end = json::value_end(s, at, depth)->Ok_0;
            let value = s.subrange(at, end);
            &&& value == "true"@ || value == "false"@ || value == "null"@ || exists|
                n: json_layout::NumberText,
            |
                n.wf() && #[trigger] n.text() == value
            &&& end < s.len() ==> (blank_between(s, end, end + 1) || s[end] == ',' || s[end] == '}'
                || s[end] == ']')
        }),
{
    let end = json::value_end(s, at, depth)->Ok_0;
    lemma_primitive(s, at);
    let value = s.subrange(at, end);
    if json::is_number(value) {
        let n = json_layout::law_read_numbers_have_the_parts_of_one(value);
        assert(n.wf() && n.text() == value);
    }
}

// ---------------------------------------------------------------------------
// Arrays of strings
// ---------------------------------------------------------------------------

/// Whether strings stand one behind the other, with one comma between two, none
/// behind the last, and a bracket at the end.
pub open spec fn are_strings(s: Seq<char>, items: Seq<ItemPlace>, at: int, end: int) -> bool
    decreases items.len(),
{
    &&& items.len() > 0
    &&& blank_between(s, at, items[0].value)
    &&& items[0].value < s.len() && s[items[0].value] == '"'
    &&& json::string_end(s, items[0].value + 1) == Ok::<int, JsonFault>(items[0].end)
    &&& blank_between(s, items[0].end, items[0].next) && items[0].next < s.len()
    &&& if items.len() == 1 {
        s[items[0].next] == ']' && end == items[0].next + 1
    } else {
        s[items[0].next] == ',' && are_strings(s, items.drop_first(), items[0].next + 1, end)
    }
}

/// What the strings hold.
pub open spec fn strings_at(s: Seq<char>, items: Seq<ItemPlace>) -> Seq<Seq<char>> {
    items.map_values(|p: ItemPlace| json::string_value(s.subrange(p.value, p.end))->Ok_0)
}

proof fn lemma_strings(s: Seq<char>, at: int, read: Seq<Seq<char>>) -> (found: (
    Seq<ItemPlace>,
    int,
))
    requires
        0 <= at <= s.len(),
        json::strings_from(s, at, read) is Ok,
    ensures
        are_strings(s, found.0, at, found.1),
        found.0[0].value == at,
        blank_between(s, found.1, s.len() as int),
        json::strings_from(s, at, read)->Ok_0 == read + strings_at(s, found.0),
    decreases s.len() - at,
{
    json::lemma_string_end(s, at + 1);
    let end = json::string_end(s, at + 1)->Ok_0;
    law_only_blanks_are_passed_over(s, end);
    let next = json::skip_space(s, end);
    let item = ItemPlace { value: at, end, next };
    let content = json::string_value(s.subrange(at, end))->Ok_0;
    let more = read.push(content);
    assert(blank_between(s, at, at));
    law_only_blanks_are_passed_over(s, next + 1);
    if json::holds(s, next, ']') {
        let items = seq![item];
        assert(strings_at(s, items) =~= seq![content]);
        assert(more =~= read + strings_at(s, items));
        (items, next + 1)
    } else {
        let (rest, close) = lemma_strings(s, json::skip_space(s, next + 1), more);
        let items = seq![item] + rest;
        assert(items.drop_first() =~= rest);
        assert(strings_at(s, items) =~= seq![content] + strings_at(s, rest));
        assert(more + strings_at(s, rest) =~= read + strings_at(s, items));
        lemma_strings_earlier(s, rest, next + 1, json::skip_space(s, next + 1), close);
        (items, close)
    }
}

proof fn lemma_strings_earlier(
    s: Seq<char>,
    items: Seq<ItemPlace>,
    from: int,
    at: int,
    end: int,
)
    requires
        are_strings(s, items, at, end),
        blank_between(s, from, at),
    ensures
        are_strings(s, items, from, end),
{
}

/// An array of strings that is accepted consists of a bracket, of strings with one
/// comma between two and none behind the last, and of a closing bracket, with blanks
/// around all of them and nothing else.
pub proof fn law_accepted_string_arrays_consist_of_strings(s: Seq<char>) -> (found: (
    int,
    Seq<ItemPlace>,
    int,
))
    requires
        json::string_array(s) is Ok,
    ensures
        ({
            let (open, items, end) = found;
            &&& blank_between(s, 0, open)
            &&& open < s.len() && s[open] == '['
            &&& blank_between(s, end, s.len() as int)
            &&& json::string_array(s)->Ok_0 == strings_at(s, items)
            &&& if items.len() == 0 {
                blank_between(s, open + 1, end - 1) && s[end - 1] == ']'
            } else {
                are_strings(s, items, open + 1, end)
            }
        }),
{
    law_only_blanks_are_passed_over(s, 0);
    let open = json::skip_space(s, 0);
    law_only_blanks_are_passed_over(s, open + 1);
    let first = json::skip_space(s, open + 1);
    if json::holds(s, first, ']') {
        law_only_blanks_are_passed_over(s, first + 1);
        let items: Seq<ItemPlace> = Seq::empty();
        assert(strings_at(s, items) =~= Seq::empty());
        (open, items, first + 1)
    } else {
        let (items, end) = lemma_strings(s, first, Seq::empty());
        lemma_strings_earlier(s, items, open + 1, first, end);
        assert(Seq::empty() + strings_at(s, items) =~= strings_at(s, items));
        (open, items, end)
    }
}

} // verus!
