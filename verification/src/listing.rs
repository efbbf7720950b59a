//! What a client finds in a server's list of tools.

use vstd::prelude::*;
use crate::dialogue;
use crate::error::ErrorModel;
use crate::json;
use crate::json::JsonFault;
use crate::json_layout;
use crate::json_layout::{Item, Member, Unit};
use crate::json_rpc;
use crate::json_text;
use crate::server::ToolModel;
use crate::server_rpc;
use crate::text;

verus! {

/// What a client looks for in a list of tools.
pub open spec fn name_mark() -> Seq<char> {
    "\"name\""@
}

/// Whether what a client looks for stands in the entry of a tool only where it
/// should.
pub open spec fn is_named_once(tool: ToolModel) -> bool {
    forall|j: int|
        1 < j && #[trigger] text::stands_at(server_rpc::tool_entry(tool), name_mark(), j) ==> false
}

/// The names of tools.
pub open spec fn names_of(tools: Seq<ToolModel>) -> Seq<Seq<char>> {
    tools.map_values(|tool: ToolModel| tool.name)
}

proof fn lemma_mark()
    ensures
        name_mark() == seq!['"', 'n', 'a', 'm', 'e', '"'],
        name_mark().len() == 6,
{
    reveal_strlit("\"name\"");
    assert(name_mark() =~= seq!['"', 'n', 'a', 'm', 'e', '"']);
}

proof fn lemma_found_at(s: Seq<char>, pattern: Seq<char>, at: int, to: int)
    requires
        0 <= at <= to < s.len(),
        text::stands_at(s, pattern, to),
        forall|j: int| at <= j < to ==> !#[trigger] text::stands_at(s, pattern, j),
    ensures
        text::find_from(s, pattern, at) == Some(to),
    decreases to - at,
{
    if at < to {
        assert(!text::stands_at(s, pattern, at));
        lemma_found_at(s, pattern, at + 1, to);
    }
}

proof fn lemma_not_found(s: Seq<char>, pattern: Seq<char>, at: int)
    requires
        0 <= at,
        forall|j: int| at <= j < s.len() ==> !#[trigger] text::stands_at(s, pattern, j),
    ensures
        text::find_from(s, pattern, at) is None,
    decreases s.len() - at,
{
    if at < s.len() {
        assert(!text::stands_at(s, pattern, at));
        lemma_not_found(s, pattern, at + 1);
    }
}

/// What stands in the entry of a tool behind its name.
spec fn behind_name(tool: ToolModel) -> Seq<char> {
    ",\"description\":"@ + json::quoted(tool.description) + ",\"inputSchema\":"@ + tool.input_schema
        + ",\"annotations\":{\"readOnlyHint\":true}}"@
}

proof fn lemma_entry_shape(tool: ToolModel)
    ensures
        server_rpc::tool_entry(tool) == seq!['{'] + name_mark() + seq![':'] + json::quoted(
            tool.name,
        ) + behind_name(tool),
{
    lemma_mark();
    assert("{\"name\":"@ =~= seq!['{'] + name_mark() + seq![':']) by {
        reveal_strlit("{\"name\":");
    }
    let head = "{\"name\":"@ + json::quoted(tool.name);
    assert(server_rpc::tool_entry(tool) =~= head + behind_name(tool));
}

/// What stands in a text within an entry stands in the entry.
proof fn lemma_within(before: Seq<char>, entry: Seq<char>, after: Seq<char>, j: int)
    requires
        before.len() <= j,
        j + 6 <= before.len() + entry.len(),
        text::stands_at(before + entry + after, name_mark(), j),
    ensures
        text::stands_at(entry, name_mark(), j - before.len()),
{
    lemma_mark();
    let s = before + entry + after;
    let i = j - before.len();
    assert(entry.subrange(i, i + 6) =~= s.subrange(j, j + 6));
}

/// Nothing that a client looks for stands behind the name of an entry up to the
/// mark that ends the entry.
proof fn lemma_nothing_behind(before: Seq<char>, tool: ToolModel, end: char, after: Seq<char>, j: int)
    requires
        is_named_once(tool),
        end == ',' || end == ']',
        before.len() + 1 < j <= before.len() + server_rpc::tool_entry(tool).len(),
    ensures
        !text::stands_at(
            before + server_rpc::tool_entry(tool) + (seq![end] + after),
            name_mark(),
            j,
        ),
{
    let entry = server_rpc::tool_entry(tool);
    let tail = seq![end] + after;
    let s = before + entry + tail;
    lemma_mark();
    if text::stands_at(s, name_mark(), j) {
        if j + 6 <= before.len() + entry.len() {
            lemma_within(before, entry, tail, j);
            assert(text::stands_at(entry, name_mark(), j - before.len()));
        } else {
            let place = before.len() + entry.len();
            assert(s[place as int] == end);
            assert(s.subrange(j, j + 6)[place - j] == s[place as int]);
            assert(name_mark()[place - j] == end);
        }
    }
}

/// Where the name of an entry stands between other texts.
proof fn lemma_name_place(before: Seq<char>, tool: ToolModel, tail: Seq<char>)
    ensures
        ({
            let s = before + server_rpc::tool_entry(tool) + tail;
            let key = before.len() as int + 1;
            let start = key + 7;
            let quoted = json::quoted(tool.name);
            &&& s[before.len() as int] == '{'
            &&& text::stands_at(s, name_mark(), key)
            &&& text::stands_at(s, ":"@, key + 6)
            &&& s == s.take(start) + quoted + (behind_name(tool) + tail)
            &&& start + quoted.len() <= s.len()
            &&& s[start] == '"'
        }),
{
    let entry = server_rpc::tool_entry(tool);
    let s = before + entry + tail;
    let b = before.len() as int;
    let key = b + 1;
    let start = key + 7;
    let quoted = json::quoted(tool.name);
    lemma_mark();
    lemma_entry_shape(tool);
    assert(entry[0] == '{');
    assert(s[b] == entry[0]);
    assert(s.subrange(key, key + 6) =~= name_mark());
    reveal_strlit(":");
    assert(s[key + 6] == ':');
    assert(s.subrange(key + 6, key + 7) =~= ":"@);
    assert(s =~= s.take(start) + quoted + (behind_name(tool) + tail));
    assert(quoted[0] == '"');
    assert(s[start] == quoted[0]);
}

/// A client finds the name of the next entry.
proof fn lemma_one_name(before: Seq<char>, tool: ToolModel, tail: Seq<char>, read: Seq<Seq<char>>, at: int)
    requires
        0 <= at <= before.len(),
        forall|j: int|
            at <= j < before.len() ==> !#[trigger] text::stands_at(
                before + server_rpc::tool_entry(tool) + tail,
                name_mark(),
                j,
            ),
    ensures
        json_rpc::names_from(before + server_rpc::tool_entry(tool) + tail, at, read)
            == json_rpc::names_from(
            before + server_rpc::tool_entry(tool) + tail,
            before.len() as int + 7,
            read.push(tool.name),
        ),
{
    let s = before + server_rpc::tool_entry(tool) + tail;
    let b = before.len() as int;
    let key = b + 1;
    let start = key + 7;
    let quoted = json::quoted(tool.name);
    let stop = start + quoted.len();
    lemma_mark();
    lemma_name_place(before, tool, tail);
    assert(!text::stands_at(s, name_mark(), b)) by {
        if text::stands_at(s, name_mark(), b) {
            assert(s.subrange(b, b + 6)[0] == s[b]);
        }
    }
    lemma_found_at(s, name_mark(), at, key);
    lemma_found_at(s, ":"@, key + 6, key + 6);
    json::lemma_quoted_token(s.take(start), tool.name, behind_name(tool) + tail);
    assert(json::skip_space(s, start) == start);
    assert(json::value_end(s, start, 0) == Ok::<int, JsonFault>(stop));
    assert(s.subrange(start, stop) =~= quoted);
    json::law_quoted_text_decodes(tool.name);
}

/// The entries of tools, with what ends them, as the first entry and the rest.
proof fn lemma_first_entry(before: Seq<char>, tools: Seq<ToolModel>)
    requires
        tools.len() > 0,
    ensures
        ({
            let entry = server_rpc::tool_entry(tools[0]);
            let rest = dialogue::entry_texts(tools.drop_first());
            before + json_text::items_text(dialogue::entry_texts(tools)) + seq![']'] == (
            if tools.len() == 1 {
                before + entry + (seq![']'] + Seq::empty())
            } else {
                before + entry + (seq![','] + (json_text::items_text(rest) + seq![']']))
            })
        }),
{
    let items = dialogue::entry_texts(tools);
    let rest = dialogue::entry_texts(tools.drop_first());
    let entry = server_rpc::tool_entry(tools[0]);
    dialogue::lemma_entry_text(tools[0]);
    assert(items[0] == entry);
    assert(items.drop_first() =~= rest);
    let s = before + json_text::items_text(items) + seq![']'];
    if tools.len() == 1 {
        assert(s =~= before + entry + (seq![']'] + Seq::empty()));
    } else {
        assert(s =~= before + entry + (seq![','] + (json_text::items_text(rest) + seq![']'])));
    }
}

/// The names that a client finds from the end of some text on, which holds
/// nothing more that it looks for.
proof fn lemma_names_found(before: Seq<char>, tools: Seq<ToolModel>, read: Seq<Seq<char>>, at: int)
    requires
        tools.len() > 0,
        0 <= at <= before.len(),
        forall|i: int| 0 <= i < tools.len() ==> is_named_once(#[trigger] tools[i]),
        forall|j: int|
            at <= j < before.len() ==> !#[trigger] text::stands_at(
                before + json_text::items_text(dialogue::entry_texts(tools)) + seq![']'],
                name_mark(),
                j,
            ),
    ensures
        json_rpc::names_from(
            before + json_text::items_text(dialogue::entry_texts(tools)) + seq![']'],
            at,
            read,
        ) == Ok::<Seq<Seq<char>>, JsonFault>(read + names_of(tools)),
    decreases tools.len(),
{
    let s = before + json_text::items_text(dialogue::entry_texts(tools)) + seq![']'];
    let tool = tools[0];
    let entry = server_rpc::tool_entry(tool);
    let rest = tools.drop_first();
    let last = tools.len() == 1;
    let end = if last {
        ']'
    } else {
        ','
    };
    let after = if last {
        Seq::empty()
    } else {
        json_text::items_text(dialogue::entry_texts(rest)) + seq![']']
    };
    let behind = before.len() + 7;
    let found = read.push(tool.name);
    lemma_first_entry(before, tools);
    assert(s == before + entry + (seq![end] + after));
    lemma_one_name(before, tool, seq![end] + after, read, at);
    assert(read + names_of(tools) =~= found + names_of(rest));
    assert(is_named_once(tools[0]));
    assert forall|j: int| behind <= j <= before.len() + entry.len() implies !#[trigger] text::stands_at(
        s,
        name_mark(),
        j,
    ) by {
        lemma_nothing_behind(before, tool, end, after, j);
    }
    if last {
        assert(names_of(rest) =~= Seq::empty());
        lemma_not_found(s, name_mark(), behind as int);
        assert(found + names_of(rest) =~= found);
    } else {
        let next = before + entry + seq![','];
        assert(s =~= next + json_text::items_text(dialogue::entry_texts(rest)) + seq![']']);
        assert forall|i: int| 0 <= i < rest.len() implies is_named_once(#[trigger] rest[i]) by {
            assert(rest[i] == tools[i + 1]);
        }
        lemma_entry_shape(tool);
        lemma_mark();
        lemma_names_found(next, rest, found, behind as int);
    }
}

/// A client finds the tools that a server lists, in their order and no others,
/// where no entry holds the mark of a name but once. An entry holds it again where
/// its schema has a property called `name`.
pub proof fn law_clients_find_the_listed_tools(id: u64, tools: Seq<ToolModel>)
    requires
        forall|i: int|
            0 <= i < tools.len() ==> dialogue::has_listable_schema(#[trigger] tools[i])
                && is_named_once(tools[i]),
    ensures
        json_rpc::reply_result(
            server_rpc::tools_list_body(text::decimal(id as nat), tools),
            id,
        ) matches Ok(result) && json_rpc::listed_tools(result) == Ok::<
            Seq<Seq<char>>,
            ErrorModel,
        >(names_of(tools)),
{
    let items = dialogue::entry_texts(tools);
    let none: Seq<Seq<char>> = Seq::empty();
    let s = json_text::array_text(items);
    dialogue::law_clients_read_lists(id, tools);
    lemma_mark();
    if tools.len() == 0 {
        assert(names_of(tools) =~= none);
        assert(s =~= seq!['[', ']']);
        assert forall|j: int| 0 <= j < s.len() implies !#[trigger] text::stands_at(
            s,
            name_mark(),
            j,
        ) by {}
        lemma_not_found(s, name_mark(), 0);
    } else {
        let before = seq!['['];
        assert(s =~= before + json_text::items_text(items) + seq![']']);
        assert(!text::stands_at(s, name_mark(), 0)) by {
            if text::stands_at(s, name_mark(), 0) {
                assert(s.subrange(0, 6)[0] == s[0]);
            }
        }
        assert(none + names_of(tools) =~= names_of(tools));
        lemma_names_found(before, tools, none, 0);
    }
}

// ---------------------------------------------------------------------------
// Lists from elsewhere
// ---------------------------------------------------------------------------

/// A name as it stands in a list: the key, blanks, a colon, blanks, and a string.
pub struct NameText {
    pub before_colon: Seq<char>,
    pub before_value: Seq<char>,
    pub name: Seq<Unit>,
}

impl NameText {
    pub open spec fn wf(self) -> bool {
        &&& json_layout::is_blank(self.before_colon)
        &&& json_layout::is_blank(self.before_value)
        &&& json_layout::units_wf(self.name)
    }

    pub open spec fn text(self) -> Seq<char> {
        name_mark() + self.before_colon + seq![':'] + self.before_value + json_layout::string_text(
            self.name,
        )
    }
}

/// Whether the places are all those at which the mark of a name stands, in order.
pub open spec fn are_all_marks(s: Seq<char>, places: Seq<int>) -> bool {
    &&& forall|i: int, j: int| 0 <= i < j < places.len() ==> #[trigger] places[i] < #[trigger] places[j]
    &&& forall|j: int| #[trigger] text::stands_at(s, name_mark(), j) <==> places.contains(j)
}

/// What names are read as.
pub open spec fn read_names(names: Seq<NameText>) -> Seq<Seq<char>> {
    names.map_values(|n: NameText| json_layout::units_value(n.name))
}

/// What stands where at a name between two texts.
#[verifier::spinoff_prover]
#[verifier::rlimit(60)]
proof fn lemma_name_parts(front: Seq<char>, name: NameText, rest: Seq<char>)
    requires
        name.wf(),
    ensures
        ({
            let s = front + name.text() + rest;
            let q = json_layout::string_text(name.name);
            let place = front.len() as int;
            let colon = place + 6 + name.before_colon.len();
            let start = colon + 1 + name.before_value.len();
            &&& text::stands_at(s, name_mark(), place)
            &&& text::stands_at(s, ":"@, colon)
            &&& forall|j: int| place + 6 <= j < colon ==> !#[trigger] text::stands_at(s, ":"@, j)
            &&& json::skip_space(s, colon + 1) == start
            &&& json::value_end(s, start, 0) == Ok::<int, JsonFault>(start + q.len())
            &&& s.subrange(start, start + q.len()) == q
            &&& place + 6 < s.len()
            &&& s[place + 6] != 'n'
        }),
{
    lemma_mark();
    reveal_strlit(":");
    let s = front + name.text() + rest;
    let q = json_layout::string_text(name.name);
    let place = front.len() as int;
    let colon = place + 6 + name.before_colon.len();
    let start = colon + 1 + name.before_value.len();
    let f1 = front + name_mark();
    let f3 = f1 + name.before_colon + seq![':'];
    let f4 = f3 + name.before_value;
    let r4 = q + rest;
    let r2 = seq![':'] + name.before_value + r4;
    assert(s == f4 + q + rest) by {
        assert(s =~= f4 + q + rest);
    }
    assert(s == f3 + name.before_value + r4) by {
        assert(s =~= f3 + name.before_value + r4);
    }
    assert(s == f1 + name.before_colon + r2) by {
        assert(s =~= f1 + name.before_colon + r2);
    }
    assert(q[0] == '"');
    assert(r4[0] == '"');
    assert(s.subrange(place, place + 6) =~= name_mark());
    assert(s[colon] == ':');
    assert(s.subrange(colon, colon + 1) =~= ":"@);
    assert forall|j: int| place + 6 <= j < colon implies !#[trigger] text::stands_at(
        s,
        ":"@,
        j,
    ) by {
        let c = name.before_colon[j - place - 6];
        assert(s[j] == c);
        assert(s.subrange(j, j + 1)[0] == s[j]);
        assert(c == ' ' || c == '\t' || c == '\r' || c == '\n');
    }
    json_layout::lemma_blank_is_skipped(f3, name.before_value, r4);
    json_layout::lemma_string_stands(f4, name.name, rest);
    assert(s[start] == q[0]);
    assert(s.subrange(start, start + q.len()) =~= q);
    if name.before_colon.len() > 0 {
        let c = name.before_colon[0];
        assert(s[place + 6] == c);
        assert(c == ' ' || c == '\t' || c == '\r' || c == '\n');
    }
}

/// A name that stands at a place is read, and the search goes on behind its key.
#[verifier::spinoff_prover]
proof fn lemma_name_is_read(s: Seq<char>, at: int, place: int, name: NameText, read: Seq<Seq<char>>)
    requires
        name.wf(),
        0 <= at <= place,
        text::stands_at(s, name.text(), place),
        forall|j: int| at <= j < place ==> !#[trigger] text::stands_at(s, name_mark(), j),
    ensures
        json_rpc::names_from(s, at, read) == json_rpc::names_from(
            s,
            place + 6,
            read.push(json_layout::units_value(name.name)),
        ),
        place + 6 < s.len(),
        s[place + 6] != 'n',
{
    let whole = name.text();
    let front = s.take(place);
    let rest = s.skip(place + whole.len());
    assert(s == front + whole + rest) by {
        assert(s.subrange(place, place + whole.len()) == whole);
        assert(s =~= front + whole + rest);
    }
    let colon = place + 6 + name.before_colon.len();
    lemma_name_parts(front, name, rest);
    lemma_found_at(s, name_mark(), at, place);
    lemma_found_at(s, ":"@, place + 6, colon);
    json_layout::law_strings_are_read(name.name);
}

/// No mark stands between two of the marks that follow each other, nor behind the
/// last.
proof fn lemma_no_mark_between(s: Seq<char>, places: Seq<int>, n: int, j: int)
    requires
        are_all_marks(s, places),
        0 <= n <= places.len(),
        n == 0 || places[n - 1] < j,
        n == places.len() || j < places[n],
    ensures
        !text::stands_at(s, name_mark(), j),
{
    if text::stands_at(s, name_mark(), j) {
        let i = choose|i: int| 0 <= i < places.len() && places[i] == j;
        if i < n - 1 {
            assert(places[i] < places[n - 1]);
        } else if i > n {
            assert(places[n] < places[i]);
        }
    }
}

#[verifier::spinoff_prover]
proof fn lemma_names_read(s: Seq<char>, places: Seq<int>, names: Seq<NameText>, n: int)
    requires
        are_all_marks(s, places),
        places.len() == names.len(),
        forall|i: int|
            0 <= i < names.len() ==> (#[trigger] names[i]).wf() && text::stands_at(
                s,
                names[i].text(),
                places[i],
            ),
        0 <= n <= names.len(),
    ensures
        json_rpc::names_from(
            s,
            if n == 0 {
                0
            } else {
                places[n - 1] + 6
            },
            read_names(names).take(n),
        ) == Ok::<Seq<Seq<char>>, JsonFault>(read_names(names)),
    decreases names.len() - n,
{
    let all = read_names(names);
    let at = if n == 0 {
        0
    } else {
        places[n - 1] + 6
    };
    if n > 0 {
        assert(places.contains(places[n - 1]));
        assert(text::stands_at(s, name_mark(), places[n - 1]));
    }
    if n == names.len() {
        assert(all.take(n) =~= all);
        assert forall|j: int| at <= j < s.len() implies !#[trigger] text::stands_at(
            s,
            name_mark(),
            j,
        ) by {
            lemma_no_mark_between(s, places, n, j);
        }
        lemma_not_found(s, name_mark(), at);
    } else {
        let place = places[n];
        assert(names[n].wf());
        assert(places.contains(place));
        assert(text::stands_at(s, name_mark(), place));
        if n > 0 {
            let last = places[n - 1];
            let name = names[n - 1];
            assert(name.wf());
            assert(last < place);
            assert(s == s.take(last) + name.text() + s.skip(last + name.text().len())) by {
                assert(s.subrange(last, last + name.text().len()) == name.text());
                assert(s =~= s.take(last) + name.text() + s.skip(last + name.text().len()));
            }
            lemma_name_parts(s.take(last), name, s.skip(last + name.text().len()));
            lemma_marks_apart(s, last, place);
        }
        assert forall|j: int| at <= j < place implies !#[trigger] text::stands_at(
            s,
            name_mark(),
            j,
        ) by {
            lemma_no_mark_between(s, places, n, j);
        }
        lemma_name_is_read(s, at, place, names[n], all.take(n));
        assert(all.take(n + 1) =~= all.take(n).push(json_layout::units_value(names[n].name)));
        lemma_names_read(s, places, names, n + 1);
    }
}

/// Two marks share no more than a quote, and not that if the first is followed by
/// something else than a letter.
proof fn lemma_marks_apart(s: Seq<char>, a: int, b: int)
    requires
        a < b,
        text::stands_at(s, name_mark(), a),
        text::stands_at(s, name_mark(), b),
        a + 6 < s.len(),
        s[a + 6] != 'n',
    ensures
        a + 6 <= b,
{
    lemma_mark();
    if b < a + 6 {
        let m = s.subrange(a, a + 6);
        let k = s.subrange(b, b + 6);
        assert(m[b - a] == s[b]);
        assert(k[0] == s[b]);
        assert(b == a + 5);
        assert(k[1] == s[b + 1]);
    }
}

/// The names in a list of tools are read in their order, each as the string behind
/// its key and colon, whatever blanks stand between these and whatever stands
/// around them, where the mark of a name stands nowhere else.
pub proof fn law_names_are_read_in_order(s: Seq<char>, places: Seq<int>, names: Seq<NameText>)
    requires
        are_all_marks(s, places),
        places.len() == names.len(),
        forall|i: int|
            0 <= i < names.len() ==> (#[trigger] names[i]).wf() && text::stands_at(
                s,
                names[i].text(),
                places[i],
            ),
    ensures
        json_rpc::names_from(s, 0, Seq::empty()) == Ok::<Seq<Seq<char>>, JsonFault>(
            read_names(names),
        ),
{
    assert forall|j: int| #[trigger] text::stands_at(s, name_mark(), j) implies 0 <= j by {}
    lemma_names_read(s, places, names, 0);
    assert(read_names(names).take(0) =~= Seq::<Seq<char>>::empty());
}

/// Where an item of an array stands behind the bracket.
pub open spec fn item_start(items: Seq<Item>, i: int) -> int
    decreases items.len(),
{
    if i <= 0 || items.len() == 0 {
        0
    } else {
        items[0].text().len() + 1 + item_start(items.drop_first(), i - 1)
    }
}

/// Where a member of an object stands behind the brace.
pub open spec fn member_start(members: Seq<Member>, i: int) -> int
    decreases members.len(),
{
    if i <= 0 || members.len() == 0 {
        0
    } else {
        members[0].text().len() + 1 + member_start(members.drop_first(), i - 1)
    }
}

proof fn lemma_stands_within(a: Seq<char>, b: Seq<char>, c: Seq<char>, p: int, q: int)
    requires
        text::stands_at(a, b, p),
        text::stands_at(b, c, q),
    ensures
        text::stands_at(a, c, p + q),
{
    assert(a.subrange(p, p + b.len()) == b);
    assert(b.subrange(q, q + c.len()) == c);
    assert(a.subrange(p + q, p + q + c.len()) =~= c) by {
        assert forall|k: int| 0 <= k < c.len() implies a[p + q + k] == c[k] by {
            assert(b.subrange(q, q + c.len())[k] == b[q + k]);
            assert(a.subrange(p, p + b.len())[q + k] == a[p + q + k]);
        }
    }
}

proof fn lemma_item_stands(items: Seq<Item>, i: int)
    requires
        0 <= i < items.len(),
    ensures
        text::stands_at(json_layout::items_text(items), items[i].text(), item_start(items, i)),
    decreases items.len(),
{
    let all = json_layout::items_text(items);
    let first = items[0].text();
    if i == 0 {
        assert(all.subrange(0, first.len() as int) =~= first);
    } else {
        let rest = items.drop_first();
        let tail = json_layout::items_text(rest);
        lemma_item_stands(rest, i - 1);
        assert(rest[i - 1] == items[i]);
        assert(all.subrange(first.len() as int + 1, all.len() as int) =~= tail);
        assert(text::stands_at(all, tail, first.len() as int + 1));
        lemma_stands_within(all, tail, items[i].text(), first.len() as int + 1, item_start(rest, i - 1));
    }
}

proof fn lemma_member_stands(members: Seq<Member>, i: int)
    requires
        0 <= i < members.len(),
    ensures
        text::stands_at(
            json_layout::members_text(members),
            members[i].text(),
            member_start(members, i),
        ),
    decreases members.len(),
{
    let all = json_layout::members_text(members);
    let first = members[0].text();
    if i == 0 {
        assert(all.subrange(0, first.len() as int) =~= first);
    } else {
        let rest = members.drop_first();
        let tail = json_layout::members_text(rest);
        lemma_member_stands(rest, i - 1);
        assert(rest[i - 1] == members[i]);
        assert(all.subrange(first.len() as int + 1, all.len() as int) =~= tail);
        assert(text::stands_at(all, tail, first.len() as int + 1));
        lemma_stands_within(
            all,
            tail,
            members[i].text(),
            first.len() as int + 1,
            member_start(rest, i - 1),
        );
    }
}

proof fn lemma_items_follow(items: Seq<Item>, i: int, j: int)
    requires
        0 <= i < j < items.len(),
    ensures
        item_start(items, i) + items[i].text().len() < item_start(items, j),
    decreases items.len(),
{
    let rest = items.drop_first();
    if i == 0 {
        lemma_start_is_positive(rest, j - 1);
    } else {
        assert(rest[i - 1] == items[i]);
        lemma_items_follow(rest, i - 1, j - 1);
    }
}

proof fn lemma_start_is_positive(items: Seq<Item>, i: int)
    ensures
        0 <= item_start(items, i),
    decreases items.len(),
{
    if i > 0 && items.len() > 0 {
        lemma_start_is_positive(items.drop_first(), i - 1);
    }
}

/// A tool as a server may list it: an object, one of whose members is its name.
pub struct ToolText {
    pub before: Seq<char>,
    pub members: Seq<Member>,
    pub behind: Seq<char>,
    /// Which of the members is the name, and how that is written.
    pub at: int,
    pub name: Seq<Unit>,
}

impl ToolText {
    pub open spec fn wf(self) -> bool {
        &&& json_layout::is_blank(self.before)
        &&& json_layout::is_blank(self.behind)
        &&& json_layout::members_wf(self.members, 60)
        &&& 0 <= self.at < self.members.len()
        &&& json_layout::string_text(self.members[self.at].key) == name_mark()
        &&& self.members[self.at].value == json_layout::string_text(self.name)
        &&& json_layout::units_wf(self.name)
    }

    pub open spec fn item(self) -> Item {
        Item {
            before: self.before,
            value: json_layout::object_text(Seq::empty(), self.members),
            behind: self.behind,
        }
    }

    /// Where the mark of the name stands in the item.
    pub open spec fn mark(self) -> int {
        self.before.len() + 1 + member_start(self.members, self.at)
            + self.members[self.at].before_key.len()
    }

    pub open spec fn named(self) -> NameText {
        NameText {
            before_colon: self.members[self.at].before_colon,
            before_value: self.members[self.at].before_value,
            name: self.name,
        }
    }
}

pub open spec fn items_of(tools: Seq<ToolText>) -> Seq<Item> {
    tools.map_values(|t: ToolText| t.item())
}

/// Where the marks of the names stand in an array of tools.
pub open spec fn marks_of(tools: Seq<ToolText>) -> Seq<int> {
    Seq::new(tools.len(), |i: int| 1 + item_start(items_of(tools), i) + tools[i].mark())
}

proof fn lemma_name_in_item(tool: ToolText)
    requires
        tool.wf(),
    ensures
        text::stands_at(tool.item().text(), tool.named().text(), tool.mark()),
        0 <= tool.mark() < tool.item().text().len(),
        tool.named().wf(),
{
    lemma_mark();
    let m = tool.members[tool.at];
    let inner = json_layout::members_text(tool.members);
    let object = tool.item().value;
    let item = tool.item().text();
    let start = member_start(tool.members, tool.at);
    assert(m.wf(60));
    lemma_member_stands(tool.members, tool.at);
    assert(text::stands_at(m.text(), tool.named().text(), m.before_key.len() as int)) by {
        let k = m.before_key.len() as int;
        let w = tool.named().text();
        assert(m.text() =~= m.before_key + w + m.behind);
        assert(m.text().subrange(k, k + w.len()) =~= w);
    }
    lemma_stands_within(inner, m.text(), tool.named().text(), start, m.before_key.len() as int);
    assert(text::stands_at(object, inner, 1)) by {
        assert(object.subrange(1, 1 + inner.len() as int) =~= inner);
    }
    lemma_stands_within(object, inner, tool.named().text(), 1, start + m.before_key.len());
    assert(text::stands_at(item, object, tool.before.len() as int)) by {
        assert(item.subrange(tool.before.len() as int, tool.before.len() as int + object.len()) =~= object);
    }
    lemma_stands_within(
        item,
        object,
        tool.named().text(),
        tool.before.len() as int,
        1 + start + m.before_key.len(),
    );
}

/// The names of the tools that a server lists are read in their order, whatever
/// else it tells of each and whatever blanks stand between the parts of the array,
/// where the mark of a name stands nowhere but at the names.
pub proof fn law_listed_names_are_read(tools: Seq<ToolText>, inside: Seq<char>)
    requires
        forall|i: int| 0 <= i < tools.len() ==> (#[trigger] tools[i]).wf(),
        json_layout::is_blank(inside),
        forall|j: int|
            text::stands_at(json_layout::array_text(inside, items_of(tools)), name_mark(), j)
                ==> #[trigger] marks_of(tools).contains(j),
    ensures
        json_rpc::names_from(
            json_layout::array_text(inside, items_of(tools)),
            0,
            Seq::empty(),
        ) == Ok::<Seq<Seq<char>>, JsonFault>(
            tools.map_values(|t: ToolText| json_layout::units_value(t.name)),
        ),
{
    lemma_mark();
    let s = json_layout::array_text(inside, items_of(tools));
    let items = items_of(tools);
    let inner = json_layout::items_text(items);
    let places = marks_of(tools);
    let names = tools.map_values(|t: ToolText| t.named());
    assert forall|i: int| 0 <= i < names.len() implies (#[trigger] names[i]).wf()
        && text::stands_at(s, names[i].text(), places[i]) by {
        assert(tools[i].wf());
        lemma_name_in_item(tools[i]);
        lemma_item_stands(items, i);
        assert(text::stands_at(s, inner, 1)) by {
            assert(s.subrange(1, 1 + inner.len() as int) =~= inner);
        }
        lemma_stands_within(s, inner, items[i].text(), 1, item_start(items, i));
        lemma_stands_within(
            s,
            items[i].text(),
            names[i].text(),
            1 + item_start(items, i),
            tools[i].mark(),
        );
    }
    assert forall|i: int, j: int| 0 <= i < j < places.len() implies #[trigger] places[i]
        < #[trigger] places[j] by {
        lemma_items_follow(items, i, j);
        assert(tools[i].wf() && tools[j].wf());
        lemma_name_in_item(tools[i]);
        lemma_name_in_item(tools[j]);
    }
    assert forall|j: int| #[trigger] text::stands_at(s, name_mark(), j) <==> places.contains(
        j,
    ) by {
        if places.contains(j) {
            let i = choose|i: int| 0 <= i < places.len() && places[i] == j;
            assert(names[i].wf());
            let w = names[i].text();
            assert(w.subrange(0, 6) =~= name_mark());
            lemma_stands_within(s, w, name_mark(), j, 0);
        }
    }
    law_names_are_read_in_order(s, places, names);
    assert(read_names(names) =~= tools.map_values(
        |t: ToolText| json_layout::units_value(t.name),
    ));
}

} // verus!
