//! JSON as it may be written, whitespace, escapes and all, and what reading it
//! gives.

use vstd::prelude::*;
use vstd::utf8::*;
use crate::json;
use crate::json::{Fields, JsonFault};
use crate::json_text;
use crate::text;

verus! {

// ---------------------------------------------------------------------------
// Whitespace
// ---------------------------------------------------------------------------

/// Whether a text is spaces, tabs and line ends and nothing else.
pub open spec fn is_blank(w: Seq<char>) -> bool {
    forall|i: int|
        0 <= i < w.len() ==> (#[trigger] w[i] == ' ' || w[i] == '\t' || w[i] == '\r' || w[i]
            == '\n')
}

/// Blanks are passed over up to what follows them.
pub proof fn lemma_blank_is_skipped(before: Seq<char>, w: Seq<char>, after: Seq<char>)
    requires
        is_blank(w),
        after.len() == 0 || !json::is_json_space(after[0]),
    ensures
        json::skip_space(before + w + after, before.len() as int) == before.len() + w.len(),
    decreases w.len(),
{
    let s = before + w + after;
    if w.len() == 0 {
        if after.len() > 0 {
            assert(s[before.len() as int] == after[0]);
        }
    } else {
        let rest = w.drop_first();
        assert(s[before.len() as int] == w[0]);
        assert(s =~= before.push(w[0]) + rest + after);
        assert(is_blank(rest)) by {
            assert forall|i: int| 0 <= i < rest.len() implies (#[trigger] rest[i] == ' '
                || rest[i] == '\t' || rest[i] == '\r' || rest[i] == '\n') by {
                assert(rest[i] == w[i + 1]);
            }
        }
        lemma_blank_is_skipped(before.push(w[0]), rest, after);
    }
}

/// From a place in a text on, blanks are passed over up to what follows them.
proof fn lemma_skipped_to(s: Seq<char>, at: int, to: int)
    requires
        0 <= at <= to <= s.len(),
        is_blank(s.subrange(at, to)),
        to == s.len() || !json::is_json_space(s[to]),
    ensures
        json::skip_space(s, at) == to,
{
    lemma_blank_is_skipped(s.take(at), s.subrange(at, to), s.skip(to));
    assert(s.take(at) + s.subrange(at, to) + s.skip(to) =~= s);
    if to < s.len() {
        assert(s.skip(to)[0] == s[to]);
    }
}

// ---------------------------------------------------------------------------
// Strings
// ---------------------------------------------------------------------------

/// One character of a string, in one of the ways to write it.
pub enum Unit {
    /// As it is.
    Plain(char),
    /// Behind a backslash.
    Short(char),
    /// As four hexadecimal digits.
    Hex(char, char, char, char),
    /// As two halves of four hexadecimal digits each.
    Pair((char, char, char, char), (char, char, char, char)),
}

pub open spec fn nibble(c: char) -> Option<int> {
    if '0' <= c <= '9' {
        Some(c as int - 0x30)
    } else if 'A' <= c <= 'F' {
        Some(c as int - 0x41 + 10)
    } else if 'a' <= c <= 'f' {
        Some(c as int - 0x61 + 10)
    } else {
        None
    }
}

/// The number that four hexadecimal digits denote.
pub open spec fn quad(a: char, b: char, c: char, d: char) -> int {
    ((nibble(a)->0 * 16 + nibble(b)->0) * 16 + nibble(c)->0) * 16 + nibble(d)->0
}

pub open spec fn are_hex(a: char, b: char, c: char, d: char) -> bool {
    nibble(a) is Some && nibble(b) is Some && nibble(c) is Some && nibble(d) is Some
}

impl Unit {
    /// Whether the character may be written so.
    pub open spec fn wf(self) -> bool {
        match self {
            Unit::Plain(c) => c != '"' && c != '\\' && (c as u32) >= 0x20,
            Unit::Short(c) => c == '"' || c == '\\' || c == '/' || c == 'b' || c == 'f' || c == 'n'
                || c == 'r' || c == 't',
            Unit::Hex(a, b, c, d) => are_hex(a, b, c, d) && !(0xd800 <= quad(a, b, c, d)
                <= 0xdfff),
            Unit::Pair(high, low) => {
                &&& are_hex(high.0, high.1, high.2, high.3)
                &&& are_hex(low.0, low.1, low.2, low.3)
                &&& 0xd800 <= quad(high.0, high.1, high.2, high.3) <= 0xdbff
                &&& 0xdc00 <= quad(low.0, low.1, low.2, low.3) <= 0xdfff
            },
        }
    }

    /// How it is written.
    pub open spec fn text(self) -> Seq<char> {
        match self {
            Unit::Plain(c) => seq![c],
            Unit::Short(c) => seq!['\\', c],
            Unit::Hex(a, b, c, d) => seq!['\\', 'u', a, b, c, d],
            Unit::Pair(high, low) => seq![
                '\\',
                'u',
                high.0,
                high.1,
                high.2,
                high.3,
                '\\',
                'u',
                low.0,
                low.1,
                low.2,
                low.3,
            ],
        }
    }

    /// The character itself.
    pub open spec fn value(self) -> char {
        match self {
            Unit::Plain(c) => c,
            Unit::Short('b') => '\u{8}',
            Unit::Short('f') => '\u{c}',
            Unit::Short('n') => '\n',
            Unit::Short('r') => '\r',
            Unit::Short('t') => '\t',
            Unit::Short(c) => c,
            Unit::Hex(a, b, c, d) => quad(a, b, c, d) as char,
            Unit::Pair(high, low) => (0x10000 + (quad(high.0, high.1, high.2, high.3) - 0xd800)
                * 0x400 + (quad(low.0, low.1, low.2, low.3) - 0xdc00)) as char,
        }
    }
}

/// What several characters are written as.
pub open spec fn units_text(units: Seq<Unit>) -> Seq<char>
    decreases units.len(),
{
    if units.len() == 0 {
        Seq::empty()
    } else {
        units[0].text() + units_text(units.drop_first())
    }
}

pub open spec fn units_value(units: Seq<Unit>) -> Seq<char> {
    units.map_values(|u: Unit| u.value())
}

pub open spec fn units_wf(units: Seq<Unit>) -> bool {
    forall|i: int| 0 <= i < units.len() ==> (#[trigger] units[i]).wf()
}

/// A string in quotes.
pub open spec fn string_text(units: Seq<Unit>) -> Seq<char> {
    seq!['"'] + units_text(units) + seq!['"']
}

proof fn lemma_hex_digits(a: char, b: char, c: char, d: char)
    requires
        are_hex(a, b, c, d),
    ensures
        json::is_hex_digit(a) && json::is_hex_digit(b) && json::is_hex_digit(c)
            && json::is_hex_digit(d),
        4096 * json::hex_digit_value(a) + 256 * json::hex_digit_value(b) + 16
            * json::hex_digit_value(c) + json::hex_digit_value(d) == quad(a, b, c, d),
        0 <= quad(a, b, c, d) <= 0xffff,
{
}

/// One character is passed over, and read.
proof fn lemma_unit_step(s: Seq<char>, at: int, unit: Unit)
    requires
        unit.wf(),
        0 <= at,
        at + unit.text().len() < s.len(),
        s.subrange(at, at + unit.text().len()) == unit.text(),
    ensures
        s[at] != '"',
        json::string_end(s, at) == json::string_end(s, at + unit.text().len()),
        json::string_unit(s, at) == Ok::<(char, int), JsonFault>(
            (unit.value(), at + unit.text().len()),
        ),
{
    let t = unit.text();
    let sub = s.subrange(at, at + t.len());
    assert(forall|k: int| 0 <= k < t.len() ==> sub[k] == s[at + k]);
    assert(s[at] == t[0]);
    match unit {
        Unit::Plain(c) => {},
        Unit::Short(c) => {
            assert(s[at + 1] == t[1]);
        },
        Unit::Hex(a, b, c, d) => {
            assert(s[at + 1] == t[1] && s[at + 2] == t[2] && s[at + 3] == t[3] && s[at + 4] == t[4]
                && s[at + 5] == t[5]);
            lemma_hex_digits(a, b, c, d);
            text::lemma_encoded_len_bound(s.skip(at + 2));
        },
        Unit::Pair(high, low) => {
            assert(s[at + 1] == t[1] && s[at + 2] == t[2] && s[at + 3] == t[3] && s[at + 4] == t[4]
                && s[at + 5] == t[5]);
            assert(s[at + 6] == t[6] && s[at + 7] == t[7] && s[at + 8] == t[8] && s[at + 9] == t[9]
                && s[at + 10] == t[10] && s[at + 11] == t[11]);
            lemma_hex_digits(high.0, high.1, high.2, high.3);
            lemma_hex_digits(low.0, low.1, low.2, low.3);
            text::lemma_encoded_len_bound(s.skip(at + 2));
            text::lemma_encoded_len_bound(s.skip(at + 8));
            assert(json::string_end(s, at) == json::string_end(s, at + 6));
            assert(json::string_end(s, at + 6) == json::string_end(s, at + 12));
        },
    }
}

#[verifier::spinoff_prover]
#[verifier::rlimit(40)]
proof fn lemma_units_run(before: Seq<char>, units: Seq<Unit>, tail: Seq<char>)
    requires
        units_wf(units),
        tail.len() > 0,
        tail[0] == '"',
    ensures
        ({
            let s = before + units_text(units) + tail;
            &&& json::string_end(s, before.len() as int) == Ok::<int, JsonFault>(
                (before.len() + units_text(units).len() + 1) as int,
            )
            &&& json::string_content(s, before.len() as int) == Ok::<Seq<char>, JsonFault>(
                units_value(units),
            )
        }),
    decreases units.len(),
{
    let s = before + units_text(units) + tail;
    let at = before.len() as int;
    if units.len() == 0 {
        assert(s[at] == '"');
        assert(units_value(units) =~= Seq::<char>::empty());
    } else {
        let unit = units[0];
        let rest = units.drop_first();
        assert(unit.wf());
        assert(units_wf(rest)) by {
            assert forall|i: int| 0 <= i < rest.len() implies (#[trigger] rest[i]).wf() by {
                assert(units[i + 1].wf());
            }
        }
        assert(s =~= (before + unit.text()) + units_text(rest) + tail);
        lemma_units_run(before + unit.text(), rest, tail);
        assert(s.subrange(at, at + unit.text().len()) =~= unit.text());
        lemma_unit_step(s, at, unit);
        assert(seq![unit.value()] + units_value(rest) =~= units_value(units));
    }
}

/// A string stands between other texts as one token.
pub proof fn lemma_string_stands(before: Seq<char>, units: Seq<Unit>, after: Seq<char>)
    requires
        units_wf(units),
    ensures
        json::string_end(before + string_text(units) + after, before.len() as int + 1) == Ok::<
            int,
            JsonFault,
        >((before.len() + string_text(units).len()) as int),
        json::string_value(string_text(units)) == Ok::<Seq<char>, JsonFault>(units_value(units)),
{
    let tail = seq!['"'] + after;
    lemma_units_run(before + seq!['"'], units, tail);
    assert(before + string_text(units) + after =~= (before + seq!['"']) + units_text(units) + tail);
    lemma_units_run(seq!['"'], units, seq!['"']);
    assert(string_text(units) =~= seq!['"'] + units_text(units) + seq!['"']);
    assert(string_text(units)[0] == '"');
}

/// A string is read as the characters that were written, in whichever of the ways
/// each was written: as it is, behind a backslash, or as hexadecimal digits, large
/// or small, in one half or two.
pub proof fn law_strings_are_read(units: Seq<Unit>)
    requires
        units_wf(units),
    ensures
        json::string_value(string_text(units)) == Ok::<Seq<char>, JsonFault>(units_value(units)),
{
    lemma_string_stands(Seq::empty(), units, Seq::empty());
}

/// A string is one value wherever it stands.
pub proof fn law_strings_are_values(units: Seq<Unit>)
    requires
        units_wf(units),
    ensures
        json_text::is_token(string_text(units), 0),
{
    reveal(json_text::is_token);
    let v = string_text(units);
    assert(v[0] == '"');
    assert forall|before: Seq<char>, after: Seq<char>, depth: int|
        0 <= depth && depth <= json::MAX_JSON_NESTING_DEPTH && json_text::ends_value(
            after,
        ) implies #[trigger] json::value_end(
        before + v + after,
        before.len() as int,
        depth,
    ) == Ok::<int, JsonFault>((before.len() + v.len()) as int) by {
        lemma_string_stands(before, units, after);
        assert((before + v + after)[before.len() as int] == '"');
    }
}

// ---------------------------------------------------------------------------
// Numbers
// ---------------------------------------------------------------------------

/// The parts of a number.
pub struct NumberText {
    pub negative: bool,
    pub integer: Seq<char>,
    pub fraction: Option<Seq<char>>,
    /// The letter, the sign and the digits.
    pub exponent: Option<(char, Option<char>, Seq<char>)>,
}

impl NumberText {
    pub open spec fn wf(self) -> bool {
        &&& self.integer.len() > 0
        &&& text::all_digits(self.integer)
        &&& self.integer[0] == '0' ==> self.integer.len() == 1
        &&& self.fraction matches Some(digits) ==> digits.len() > 0 && text::all_digits(digits)
        &&& self.exponent matches Some((letter, sign, digits)) ==> {
            &&& letter == 'e' || letter == 'E'
            &&& sign matches Some(c) ==> c == '+' || c == '-'
            &&& digits.len() > 0
            &&& text::all_digits(digits)
        }
    }

    pub open spec fn sign_text(self) -> Seq<char> {
        if self.negative {
            seq!['-']
        } else {
            Seq::empty()
        }
    }

    pub open spec fn fraction_text(self) -> Seq<char> {
        match self.fraction {
            Some(digits) => seq!['.'] + digits,
            None => Seq::empty(),
        }
    }

    pub open spec fn exponent_text(self) -> Seq<char> {
        match self.exponent {
            Some((letter, Some(sign), digits)) => seq![letter, sign] + digits,
            Some((letter, None, digits)) => seq![letter] + digits,
            None => Seq::empty(),
        }
    }

    pub open spec fn text(self) -> Seq<char> {
        self.sign_text() + self.integer + self.fraction_text() + self.exponent_text()
    }
}

proof fn lemma_digits_stop(s: Seq<char>, at: int, end: int)
    requires
        0 <= at <= end <= s.len(),
        forall|i: int| at <= i < end ==> '0' <= #[trigger] s[i] <= '9',
        end == s.len() || !('0' <= s[end] <= '9'),
    ensures
        json::digits_end(s, at) == end,
    decreases end - at,
{
    if at < end {
        lemma_digits_stop(s, at + 1, end);
    }
}

proof fn lemma_number(n: NumberText)
    requires
        n.wf(),
    ensures
        json::is_number(n.text()),
        n.text().len() > 0,
        n.text()[0] == '-' || '0' <= n.text()[0] <= '9',
        forall|i: int| 0 <= i < n.text().len() ==> json_text::is_plain(#[trigger] n.text()[i]),
{
    let s = n.text();
    let a = n.sign_text().len() as int;
    let b = a + n.integer.len();
    let c = b + n.fraction_text().len();
    let d = c + n.exponent_text().len();
    assert(s.len() == d);
    assert forall|i: int| a <= i < b implies '0' <= #[trigger] s[i] <= '9' by {
        assert(s[i] == n.integer[i - a]);
    }
    assert('0' <= s[a] <= '9');
    assert(s[a] == n.integer[0]);
    if n.negative {
        assert(s[0] == '-');
    }
    if b < d {
        if b < c {
            assert(s[b] == n.fraction_text()[0]);
        } else {
            assert(s[b] == n.exponent_text()[0]);
        }
    }
    lemma_digits_stop(s, a, b);
    assert(json::integer_end(s, a) == Some(b)) by {
        if s[a] == '0' {
            assert(b == a + 1);
        }
    }
    if n.fraction is Some {
        let digits = n.fraction->0;
        assert forall|i: int| b + 1 <= i < c implies '0' <= #[trigger] s[i] <= '9' by {
            assert(s[i] == n.fraction_text()[i - b]);
            assert(n.fraction_text()[i - b] == digits[i - b - 1]);
        }
        if c < d {
            assert(s[c] == n.exponent_text()[0]);
        }
        lemma_digits_stop(s, b + 1, c);
    } else {
        if c < d {
            assert(s[c] == n.exponent_text()[0]);
        }
    }
    assert(json::fraction_end(s, b) == Some(c));
    if n.exponent is Some {
        let (letter, sign, digits) = n.exponent->0;
        let e = n.exponent_text();
        assert(s[c] == e[0]);
        let from = if sign is Some {
            c + 2
        } else {
            c + 1
        };
        assert(s[c + 1] == e[1]);
        assert forall|i: int| from <= i < d implies '0' <= #[trigger] s[i] <= '9' by {
            assert(s[i] == e[i - c]);
            assert(e[i - c] == digits[i - from]);
        }
        assert('0' <= digits[0] <= '9');
        if sign is None {
            assert(s[c + 1] == digits[0]);
        }
        lemma_digits_stop(s, from, d);
    }
    assert(json::exponent_end(s, c) == Some(d));
    assert forall|i: int| 0 <= i < s.len() implies json_text::is_plain(#[trigger] s[i]) by {
        if a <= i < b {
        } else if b <= i < c {
            assert(s[i] == n.fraction_text()[i - b]);
            if i > b {
                assert('0' <= n.fraction->0[i - b - 1] <= '9');
            }
        } else if c <= i {
            let (letter, sign, digits) = n.exponent->0;
            let e = n.exponent_text();
            assert(s[i] == e[i - c]);
            let from = if sign is Some {
                c + 2
            } else {
                c + 1
            };
            if from <= i {
                assert('0' <= digits[i - from] <= '9');
            }
        }
    }
}

/// A number is one value wherever it stands: digits without a leading zero, a sign
/// or none, a fraction or none, an exponent or none.
pub proof fn law_numbers_are_values(n: NumberText)
    requires
        n.wf(),
    ensures
        json::is_number(n.text()),
        json_text::is_token(n.text(), 0),
{
    lemma_number(n);
    json_text::lemma_primitive_is_token(n.text());
}

/// The three literals are values wherever they stand.
pub proof fn law_literals_are_values()
    ensures
        json_text::is_token("true"@, 0),
        json_text::is_token("false"@, 0),
        json_text::is_token("null"@, 0),
{
    json_text::lemma_true_is_token();
    json_text::lemma_false_is_token();
    reveal_strlit("null");
    json_text::lemma_primitive_is_token("null"@);
}

proof fn lemma_digits_read(s: Seq<char>, at: int)
    requires
        0 <= at <= s.len(),
    ensures
        at <= json::digits_end(s, at) <= s.len(),
        text::all_digits(s.subrange(at, json::digits_end(s, at))),
    decreases s.len() - at,
{
    if at < s.len() && json::is_digit(s[at]) {
        lemma_digits_read(s, at + 1);
        let end = json::digits_end(s, at);
        let sub = s.subrange(at, end);
        assert forall|i: int| 0 <= i < sub.len() implies '0' <= #[trigger] sub[i] <= '9' by {
            if i > 0 {
                assert(sub[i] == s.subrange(at + 1, end)[i - 1]);
            }
        }
    }
}

/// What is read as a number has the parts of one: nothing else is.
#[verifier::spinoff_prover]
#[verifier::rlimit(40)]
pub proof fn law_read_numbers_have_the_parts_of_one(s: Seq<char>) -> (n: NumberText)
    requires
        json::is_number(s),
    ensures
        n.wf(),
        n.text() == s,
{
    let negative = json::holds(s, 0, '-');
    let a = if negative {
        1int
    } else {
        0int
    };
    let b = json::integer_end(s, a)->0;
    let c = json::fraction_end(s, b)->0;
    let d = s.len() as int;
    lemma_digits_read(s, a);
    let integer = s.subrange(a, b);
    assert(text::all_digits(integer)) by {
        if s[a] == '0' {
            assert(integer =~= seq!['0']);
        }
    }
    assert(a < b <= d);
    assert(integer[0] == s[a]);
    if json::holds(s, b, '.') {
        lemma_digits_read(s, b + 1);
    }
    let fraction = if json::holds(s, b, '.') {
        Some(s.subrange(b + 1, c))
    } else {
        None
    };
    let has = json::holds(s, c, 'e') || json::holds(s, c, 'E');
    let signed = json::holds(s, c + 1, '+') || json::holds(s, c + 1, '-');
    let from = if signed {
        c + 2
    } else {
        c + 1
    };
    if has {
        lemma_digits_read(s, from);
    }
    let exponent = if has {
        Some(
            (
                s[c],
                if signed {
                    Some(s[c + 1])
                } else {
                    None
                },
                s.subrange(from, d),
            ),
        )
    } else {
        None
    };
    let n = NumberText { negative, integer, fraction, exponent };
    assert(n.wf());
    assert(n.fraction_text() =~= s.subrange(b, c));
    assert(n.exponent_text() =~= s.subrange(c, d));
    assert(n.sign_text() =~= s.subrange(0, a));
    assert(n.text() =~= s);
    n
}

// ---------------------------------------------------------------------------
// Objects
// ---------------------------------------------------------------------------

/// A member of an object with the blanks around its parts.
pub struct Member {
    pub before_key: Seq<char>,
    pub key: Seq<Unit>,
    pub before_colon: Seq<char>,
    pub before_value: Seq<char>,
    pub value: Seq<char>,
    pub behind: Seq<char>,
}

impl Member {
    pub open spec fn wf(self, levels: int) -> bool {
        &&& is_blank(self.before_key)
        &&& units_wf(self.key)
        &&& is_blank(self.before_colon)
        &&& is_blank(self.before_value)
        &&& json_text::is_token(self.value, levels)
        &&& is_blank(self.behind)
    }

    pub open spec fn text(self) -> Seq<char> {
        self.before_key + string_text(self.key) + self.before_colon + seq![':'] + self.before_value
            + self.value + self.behind
    }

    pub open spec fn field(self) -> (Seq<char>, Seq<char>) {
        (units_value(self.key), self.value)
    }
}

pub open spec fn members_wf(members: Seq<Member>, levels: int) -> bool {
    forall|i: int| 0 <= i < members.len() ==> (#[trigger] members[i]).wf(levels)
}

/// The members of an object, with commas between them.
pub open spec fn members_text(members: Seq<Member>) -> Seq<char>
    decreases members.len(),
{
    if members.len() == 0 {
        Seq::empty()
    } else if members.len() == 1 {
        members[0].text()
    } else {
        members[0].text() + seq![','] + members_text(members.drop_first())
    }
}

pub open spec fn fields_of(members: Seq<Member>) -> Fields {
    members.map_values(|m: Member| m.field())
}

/// An object in braces. One without members may hold blanks.
pub open spec fn object_text(inside: Seq<char>, members: Seq<Member>) -> Seq<char> {
    if members.len() == 0 {
        seq!['{'] + inside + seq!['}']
    } else {
        seq!['{'] + members_text(members) + seq!['}']
    }
}

spec fn behind_member(members: Seq<Member>, after: Seq<char>) -> Seq<char> {
    if members.len() == 1 {
        seq!['}'] + after
    } else {
        seq![','] + members_text(members.drop_first()) + seq!['}'] + after
    }
}

/// A value ends where it was written to end.
pub proof fn lemma_token_ends(before: Seq<char>, v: Seq<char>, after: Seq<char>, levels: int, depth: int)
    requires
        json_text::is_token(v, levels),
        json_text::ends_value(after),
        0 <= depth,
        depth + levels <= json::MAX_JSON_NESTING_DEPTH,
    ensures
        v.len() > 0,
        !json::is_json_space(v[0]),
        v[0] != ']',
        json::value_end(before + v + after, before.len() as int, depth) == Ok::<int, JsonFault>(
            (before.len() + v.len()) as int,
        ),
{
    reveal(json_text::is_token);
}

/// Where the parts of a member stand, from the place of its key on.
pub open spec fn colon_of(m: Member, at: int) -> int {
    at + string_text(m.key).len() + m.before_colon.len()
}

pub open spec fn value_of(m: Member, at: int) -> int {
    colon_of(m, at) + 1 + m.before_value.len()
}

pub open spec fn end_of(m: Member, at: int) -> int {
    value_of(m, at) + m.value.len()
}

/// What reading finds at a member that stands between two texts.
pub open spec fn member_stands(s: Seq<char>, b: int, m: Member, depth: int) -> bool {
    let key = b + m.before_key.len();
    let colon = colon_of(m, key);
    let value = value_of(m, key);
    let end = end_of(m, key);
    let next = end + m.behind.len();
    &&& json::skip_space(s, b) == key
    &&& json::skip_space(s, key) == key
    &&& json::holds(s, key, '"')
    &&& json::string_end(s, key + 1) == Ok::<int, JsonFault>(key + string_text(m.key).len())
    &&& s.subrange(key, key + string_text(m.key).len()) == string_text(m.key)
    &&& json::skip_space(s, key + string_text(m.key).len()) == colon
    &&& json::holds(s, colon, ':')
    &&& json::skip_space(s, colon + 1) == value
    &&& json::value_end(s, value, depth) == Ok::<int, JsonFault>(end)
    &&& s.subrange(value, end) == m.value
    &&& json::skip_space(s, end) == next
    &&& 0 <= b <= key < value < end <= next < s.len()
}

#[verifier::spinoff_prover]
#[verifier::rlimit(50)]
proof fn lemma_member_stands(before: Seq<char>, m: Member, rest: Seq<char>, levels: int, depth: int)
    requires
        m.wf(levels),
        rest.len() > 0,
        rest[0] == ',' || rest[0] == '}',
        0 <= depth,
        depth + levels <= json::MAX_JSON_NESTING_DEPTH,
    ensures
        member_stands(before + m.text() + rest, before.len() as int, m, depth),
{
    let s = before + m.text() + rest;
    let b = before.len() as int;
    let q = string_text(m.key);
    assert(q[0] == '"');
    let f1 = before + m.before_key;
    let f2 = f1 + q;
    let f3 = f2 + m.before_colon;
    let f4 = f3 + seq![':'];
    let f5 = f4 + m.before_value;
    let f6 = f5 + m.value;
    let r6 = m.behind + rest;
    let r5 = m.value + r6;
    let r4 = m.before_value + r5;
    let r3 = seq![':'] + r4;
    let r2 = m.before_colon + r3;
    let r1 = q + r2;
    assert(json_text::ends_value(r6)) by {
        if m.behind.len() > 0 {
            assert(r6[0] == m.behind[0]);
        } else {
            assert(r6[0] == rest[0]);
        }
    }
    lemma_token_ends(f5, m.value, r6, levels, depth);
    assert(r1[0] == '"');
    assert(r3[0] == ':');
    assert(r5[0] == m.value[0]);
    lemma_blank_is_skipped(before, m.before_key, r1);
    lemma_blank_is_skipped(f2, m.before_colon, r3);
    lemma_blank_is_skipped(f4, m.before_value, r5);
    lemma_blank_is_skipped(f6, m.behind, rest);
    lemma_string_stands(f1, m.key, r2);
    assert(s == f6 + m.behind + rest) by {
        assert(s =~= f6 + m.behind + rest);
    }
    assert(s == f5 + m.value + r6) by {
        assert(s =~= f5 + m.value + r6);
    }
    assert(s == f4 + m.before_value + r5) by {
        assert(s =~= f4 + m.before_value + r5);
    }
    assert(s == f2 + m.before_colon + r3) by {
        assert(s =~= f2 + m.before_colon + r3);
    }
    assert(s == f1 + q + r2) by {
        assert(s =~= f1 + q + r2);
    }
    assert(s == before + m.before_key + r1) by {
        assert(s =~= before + m.before_key + r1);
    }
    let key = b + m.before_key.len();
    assert(f1.len() == key && f2.len() == key + q.len() && f3.len() == colon_of(m, key)
        && f5.len() == value_of(m, key) && f6.len() == end_of(m, key));
    assert(s[key] == r1[0]);
    assert(s[colon_of(m, key)] == r3[0]);
    assert(s.subrange(key, key + q.len()) =~= q);
    assert(s.subrange(value_of(m, key), end_of(m, key)) =~= m.value);
}

proof fn lemma_first_member(before: Seq<char>, members: Seq<Member>, after: Seq<char>, levels: int, depth: int)
    requires
        members.len() > 0,
        members_wf(members, levels),
        0 <= depth,
        depth + levels <= json::MAX_JSON_NESTING_DEPTH,
    ensures
        ({
            let s = before + members_text(members) + seq!['}'] + after;
            let m = members[0];
            let next = (before + m.text()).len() as int;
            &&& member_stands(s, before.len() as int, m, depth)
            &&& next == end_of(m, (before.len() + m.before_key.len()) as int) + m.behind.len()
            &&& s[next] == if members.len() == 1 {
                '}'
            } else {
                ','
            }
            &&& members.len() == 1 ==> s == before + m.text() + (seq!['}'] + after)
        }),
{
    let s = before + members_text(members) + seq!['}'] + after;
    let m = members[0];
    let rest = behind_member(members, after);
    assert(m.wf(levels));
    assert(s =~= before + m.text() + rest);
    lemma_member_stands(before, m, rest, levels, depth);
    assert(s[(before + m.text()).len() as int] == rest[0]);
}

proof fn lemma_rest_members(before: Seq<char>, members: Seq<Member>, after: Seq<char>, levels: int)
    requires
        members.len() > 1,
        members_wf(members, levels),
    ensures
        members_wf(members.drop_first(), levels),
        before + members_text(members) + seq!['}'] + after == (before + members[0].text() + seq![
            ',',
        ]) + members_text(members.drop_first()) + seq!['}'] + after,
{
    let next = members.drop_first();
    assert forall|i: int| 0 <= i < next.len() implies (#[trigger] next[i]).wf(levels) by {
        assert(members[i + 1].wf(levels));
    }
    assert(before + members_text(members) + seq!['}'] + after =~= (before + members[0].text()
        + seq![',']) + members_text(next) + seq!['}'] + after);
}

#[verifier::spinoff_prover]
#[verifier::rlimit(40)]
proof fn lemma_members_end_at(before: Seq<char>, members: Seq<Member>, after: Seq<char>, levels: int, depth: int)
    requires
        members.len() > 0,
        members_wf(members, levels),
        0 <= depth,
        depth + levels <= json::MAX_JSON_NESTING_DEPTH,
    ensures
        json::members_end(
            before + members_text(members) + seq!['}'] + after,
            (before.len() + members[0].before_key.len()) as int,
            depth,
        ) == Ok::<int, JsonFault>((before.len() + members_text(members).len() + 1) as int),
    decreases members.len(),
{
    let s = before + members_text(members) + seq!['}'] + after;
    lemma_first_member(before, members, after, levels, depth);
    if members.len() > 1 {
        let next = members.drop_first();
        let front = before + members[0].text() + seq![','];
        lemma_rest_members(before, members, after, levels);
        lemma_first_member(front, next, after, levels, depth);
        lemma_members_end_at(front, next, after, levels, depth);
    }
}

/// An object is one value wherever it stands, whatever blanks stand between its
/// parts and however its keys are written, of one level more than its values.
#[verifier::spinoff_prover]
#[verifier::rlimit(40)]
pub proof fn law_objects_are_values(inside: Seq<char>, members: Seq<Member>, levels: int)
    requires
        is_blank(inside),
        members_wf(members, levels),
        0 <= levels,
    ensures
        json_text::is_token(object_text(inside, members), levels + 1),
{
    reveal(json_text::is_token);
    let v = object_text(inside, members);
    assert(v[0] == '{');
    assert forall|before: Seq<char>, after: Seq<char>, depth: int|
        0 <= depth && depth + (levels + 1) <= json::MAX_JSON_NESTING_DEPTH && json_text::ends_value(
            after,
        ) implies #[trigger] json::value_end(before + v + after, before.len() as int, depth) == Ok::<
        int,
        JsonFault,
    >((before.len() + v.len()) as int) by {
        let s = before + v + after;
        let front = before + seq!['{'];
        let at = before.len() as int;
        assert(s[at] == '{');
        if members.len() == 0 {
            assert(s =~= front + inside + (seq!['}'] + after));
            lemma_blank_is_skipped(front, inside, seq!['}'] + after);
            assert(s[(front.len() + inside.len()) as int] == '}');
        } else {
            assert(s =~= front + members_text(members) + seq!['}'] + after);
            lemma_first_member(front, members, after, levels, depth + 1);
            lemma_members_end_at(front, members, after, levels, depth + 1);
        }
    }
}

#[verifier::rlimit(40)]
proof fn lemma_fields_read_from(before: Seq<char>, read: Fields, members: Seq<Member>, after: Seq<char>, at: int)
    requires
        members.len() > 0,
        members_wf(members, json::MAX_JSON_NESTING_DEPTH - 1),
        json::distinct_keys(read + fields_of(members)),
        is_blank(after),
        at == before.len() || at == before.len() + members[0].before_key.len(),
    ensures
        json::fields_from(before + members_text(members) + seq!['}'] + after, at, read) == Ok::<
            Fields,
            JsonFault,
        >(read + fields_of(members)),
    decreases members.len(),
{
    let levels = json::MAX_JSON_NESTING_DEPTH - 1;
    let s = before + members_text(members) + seq!['}'] + after;
    let m = members[0];
    let fields = fields_of(members);
    lemma_first_member(before, members, after, levels, 1);
    law_strings_are_read(m.key);
    assert(m.wf(levels));
    assert(fields[0] == m.field());
    assert(json::lookup(read, fields[0].0) is None) by {
        json::lemma_lookup_absent(read, fields[0].0);
        let all = read + fields;
        assert(all[read.len() as int] == fields[0]);
        assert forall|i: int| 0 <= i < read.len() implies (#[trigger] read[i]).0
            != fields[0].0 by {
            assert(all[i] == read[i]);
            assert(all[i].0 != all[read.len() as int].0);
        }
    }
    let more = read.push(fields[0]);
    let next = (before + m.text()).len() as int;
    if members.len() > 1 {
        let rest = members.drop_first();
        let front = before + m.text() + seq![','];
        lemma_rest_members(before, members, after, levels);
        lemma_first_member(front, rest, after, levels, 1);
        assert(fields_of(rest) =~= fields.drop_first());
        assert(more + fields_of(rest) =~= read + fields);
        lemma_fields_read_from(
            front,
            more,
            rest,
            after,
            (front.len() + rest[0].before_key.len()) as int,
        );
    } else {
        assert(more =~= read + fields);
        lemma_skipped_to(s, next + 1, s.len() as int);
        assert(s.subrange(next + 1, s.len() as int) =~= after);
    }
}

/// An object is read as its fields, in order, whatever blanks stand before, behind
/// and between its parts and however its keys are written.
pub proof fn law_objects_are_read(before: Seq<char>, inside: Seq<char>, members: Seq<Member>, behind: Seq<char>)
    requires
        is_blank(before),
        is_blank(inside),
        is_blank(behind),
        members_wf(members, json::MAX_JSON_NESTING_DEPTH - 1),
        json::distinct_keys(fields_of(members)),
    ensures
        json::object_fields(before + object_text(inside, members) + behind) == Ok::<
            Fields,
            JsonFault,
        >(fields_of(members)),
{
    reveal(json::object_fields);
    let s = before + object_text(inside, members) + behind;
    let none: Fields = Seq::empty();
    let tail = object_text(inside, members) + behind;
    assert(s =~= Seq::<char>::empty() + before + tail);
    assert(tail[0] == '{');
    lemma_blank_is_skipped(Seq::empty(), before, tail);
    assert(s[before.len() as int] == '{');
    let front = before + seq!['{'];
    if members.len() == 0 {
        let close = (front.len() + inside.len()) as int;
        assert(s =~= front + inside + (seq!['}'] + behind));
        lemma_blank_is_skipped(front, inside, seq!['}'] + behind);
        assert(s[close] == '}');
        assert(s.subrange(close + 1, s.len() as int) =~= behind);
        lemma_skipped_to(s, close + 1, s.len() as int);
        assert(fields_of(members) =~= none);
    } else {
        assert(s =~= front + members_text(members) + seq!['}'] + behind);
        assert(none + fields_of(members) =~= fields_of(members));
        lemma_fields_read_from(front, none, members, behind, front.len() as int);
    }
}

// ---------------------------------------------------------------------------
// Arrays
// ---------------------------------------------------------------------------

/// An item of an array with the blanks around it.
pub struct Item {
    pub before: Seq<char>,
    pub value: Seq<char>,
    pub behind: Seq<char>,
}

impl Item {
    pub open spec fn wf(self, levels: int) -> bool {
        is_blank(self.before) && json_text::is_token(self.value, levels) && is_blank(self.behind)
    }

    pub open spec fn text(self) -> Seq<char> {
        self.before + self.value + self.behind
    }
}

pub open spec fn items_wf(items: Seq<Item>, levels: int) -> bool {
    forall|i: int| 0 <= i < items.len() ==> (#[trigger] items[i]).wf(levels)
}

/// The items of an array, with commas between them.
pub open spec fn items_text(items: Seq<Item>) -> Seq<char>
    decreases items.len(),
{
    if items.len() == 0 {
        Seq::empty()
    } else if items.len() == 1 {
        items[0].text()
    } else {
        items[0].text() + seq![','] + items_text(items.drop_first())
    }
}

/// An array in brackets. One without items may hold blanks.
pub open spec fn array_text(inside: Seq<char>, items: Seq<Item>) -> Seq<char> {
    if items.len() == 0 {
        seq!['['] + inside + seq![']']
    } else {
        seq!['['] + items_text(items) + seq![']']
    }
}

spec fn behind_item(items: Seq<Item>, after: Seq<char>) -> Seq<char> {
    if items.len() == 1 {
        seq![']'] + after
    } else {
        seq![','] + items_text(items.drop_first()) + seq![']'] + after
    }
}

/// What reading finds at an item that stands between two texts.
pub open spec fn item_stands(s: Seq<char>, b: int, m: Item, depth: int) -> bool {
    let value = b + m.before.len();
    let end = value + m.value.len();
    let next = end + m.behind.len();
    &&& json::skip_space(s, b) == value
    &&& s[value] == m.value[0]
    &&& s[value] != ']'
    &&& json::value_end(s, value, depth) == Ok::<int, JsonFault>(end)
    &&& s.subrange(value, end) == m.value
    &&& json::skip_space(s, end) == next
    &&& 0 <= b <= value < end <= next < s.len()
}

#[verifier::spinoff_prover]
#[verifier::rlimit(40)]
proof fn lemma_item_stands(before: Seq<char>, m: Item, rest: Seq<char>, levels: int, depth: int)
    requires
        m.wf(levels),
        rest.len() > 0,
        rest[0] == ',' || rest[0] == ']',
        0 <= depth,
        depth + levels <= json::MAX_JSON_NESTING_DEPTH,
    ensures
        item_stands(before + m.text() + rest, before.len() as int, m, depth),
{
    let s = before + m.text() + rest;
    let f1 = before + m.before;
    let f2 = f1 + m.value;
    let r2 = m.behind + rest;
    let r1 = m.value + r2;
    assert(json_text::ends_value(r2)) by {
        if m.behind.len() > 0 {
            assert(r2[0] == m.behind[0]);
        } else {
            assert(r2[0] == rest[0]);
        }
    }
    lemma_token_ends(f1, m.value, r2, levels, depth);
    assert(r1[0] == m.value[0]);
    lemma_blank_is_skipped(before, m.before, r1);
    lemma_blank_is_skipped(f2, m.behind, rest);
    assert(s == f2 + m.behind + rest) by {
        assert(s =~= f2 + m.behind + rest);
    }
    assert(s == f1 + m.value + r2) by {
        assert(s =~= f1 + m.value + r2);
    }
    assert(s == before + m.before + r1) by {
        assert(s =~= before + m.before + r1);
    }
    let value = before.len() as int + m.before.len();
    assert(s[value] == r1[0]);
    assert(s.subrange(value, value + m.value.len()) =~= m.value);
}

proof fn lemma_first_item(before: Seq<char>, items: Seq<Item>, after: Seq<char>, levels: int, depth: int)
    requires
        items.len() > 0,
        items_wf(items, levels),
        0 <= depth,
        depth + levels <= json::MAX_JSON_NESTING_DEPTH,
    ensures
        ({
            let s = before + items_text(items) + seq![']'] + after;
            let m = items[0];
            let next = (before + m.text()).len() as int;
            &&& item_stands(s, before.len() as int, m, depth)
            &&& next == before.len() + m.before.len() + m.value.len() + m.behind.len()
            &&& s[next] == if items.len() == 1 {
                ']'
            } else {
                ','
            }
            &&& items.len() == 1 ==> s == before + m.text() + (seq![']'] + after)
        }),
{
    let s = before + items_text(items) + seq![']'] + after;
    let m = items[0];
    let rest = behind_item(items, after);
    assert(m.wf(levels));
    assert(s =~= before + m.text() + rest);
    lemma_item_stands(before, m, rest, levels, depth);
    assert(s[(before + m.text()).len() as int] == rest[0]);
}

proof fn lemma_rest_items(before: Seq<char>, items: Seq<Item>, after: Seq<char>, levels: int)
    requires
        items.len() > 1,
        items_wf(items, levels),
    ensures
        items_wf(items.drop_first(), levels),
        before + items_text(items) + seq![']'] + after == (before + items[0].text() + seq![','])
            + items_text(items.drop_first()) + seq![']'] + after,
{
    let next = items.drop_first();
    assert forall|i: int| 0 <= i < next.len() implies (#[trigger] next[i]).wf(levels) by {
        assert(items[i + 1].wf(levels));
    }
    assert(before + items_text(items) + seq![']'] + after =~= (before + items[0].text() + seq![','])
        + items_text(next) + seq![']'] + after);
}

#[verifier::spinoff_prover]
#[verifier::rlimit(40)]
proof fn lemma_items_end_at(before: Seq<char>, items: Seq<Item>, after: Seq<char>, levels: int, depth: int)
    requires
        items.len() > 0,
        items_wf(items, levels),
        0 <= depth,
        depth + levels <= json::MAX_JSON_NESTING_DEPTH,
    ensures
        json::items_end(
            before + items_text(items) + seq![']'] + after,
            (before.len() + items[0].before.len()) as int,
            depth,
        ) == Ok::<int, JsonFault>((before.len() + items_text(items).len() + 1) as int),
    decreases items.len(),
{
    let s = before + items_text(items) + seq![']'] + after;
    lemma_first_item(before, items, after, levels, depth);
    if items.len() > 1 {
        let next = items.drop_first();
        let front = before + items[0].text() + seq![','];
        lemma_rest_items(before, items, after, levels);
        lemma_first_item(front, next, after, levels, depth);
        lemma_items_end_at(front, next, after, levels, depth);
    }
}

/// An array is one value wherever it stands, whatever blanks stand between its
/// parts, of one level more than its items.
#[verifier::spinoff_prover]
#[verifier::rlimit(40)]
pub proof fn law_arrays_are_values(inside: Seq<char>, items: Seq<Item>, levels: int)
    requires
        is_blank(inside),
        items_wf(items, levels),
        0 <= levels,
    ensures
        json_text::is_token(array_text(inside, items), levels + 1),
{
    reveal(json_text::is_token);
    let v = array_text(inside, items);
    assert(v[0] == '[');
    assert forall|before: Seq<char>, after: Seq<char>, depth: int|
        0 <= depth && depth + (levels + 1) <= json::MAX_JSON_NESTING_DEPTH && json_text::ends_value(
            after,
        ) implies #[trigger] json::value_end(before + v + after, before.len() as int, depth) == Ok::<
        int,
        JsonFault,
    >((before.len() + v.len()) as int) by {
        let s = before + v + after;
        let front = before + seq!['['];
        let at = before.len() as int;
        assert(s[at] == '[');
        if items.len() == 0 {
            assert(s =~= front + inside + (seq![']'] + after));
            lemma_blank_is_skipped(front, inside, seq![']'] + after);
            assert(s[(front.len() + inside.len()) as int] == ']');
        } else {
            assert(s =~= front + items_text(items) + seq![']'] + after);
            lemma_first_item(front, items, after, levels, depth + 1);
            lemma_items_end_at(front, items, after, levels, depth + 1);
        }
    }
}

/// A string as an item of an array.
pub struct StringItem {
    pub before: Seq<char>,
    pub units: Seq<Unit>,
    pub behind: Seq<char>,
}

impl StringItem {
    pub open spec fn wf(self) -> bool {
        is_blank(self.before) && units_wf(self.units) && is_blank(self.behind)
    }

    pub open spec fn item(self) -> Item {
        Item { before: self.before, value: string_text(self.units), behind: self.behind }
    }
}

pub open spec fn strings_wf(strings: Seq<StringItem>) -> bool {
    forall|i: int| 0 <= i < strings.len() ==> (#[trigger] strings[i]).wf()
}

pub open spec fn string_items(strings: Seq<StringItem>) -> Seq<Item> {
    strings.map_values(|s: StringItem| s.item())
}

pub open spec fn string_values(strings: Seq<StringItem>) -> Seq<Seq<char>> {
    strings.map_values(|s: StringItem| units_value(s.units))
}

proof fn lemma_string_items(strings: Seq<StringItem>)
    requires
        strings_wf(strings),
    ensures
        items_wf(string_items(strings), 0),
{
    let items = string_items(strings);
    assert forall|i: int| 0 <= i < items.len() implies (#[trigger] items[i]).wf(0) by {
        assert(strings[i].wf());
        law_strings_are_values(strings[i].units);
    }
}

#[verifier::spinoff_prover]
#[verifier::rlimit(40)]
proof fn lemma_strings_read_from(before: Seq<char>, read: Seq<Seq<char>>, strings: Seq<StringItem>, after: Seq<char>)
    requires
        strings.len() > 0,
        strings_wf(strings),
        is_blank(after),
    ensures
        json::strings_from(
            before + items_text(string_items(strings)) + seq![']'] + after,
            (before.len() + strings[0].before.len()) as int,
            read,
        ) == Ok::<Seq<Seq<char>>, JsonFault>(read + string_values(strings)),
    decreases strings.len(),
{
    let items = string_items(strings);
    let s = before + items_text(items) + seq![']'] + after;
    let first = strings[0];
    let q = string_text(first.units);
    let at = (before.len() + first.before.len()) as int;
    lemma_string_items(strings);
    assert(first.wf());
    assert(items[0] == first.item());
    lemma_first_item(before, items, after, 0, 0);
    assert(q[0] == '"');
    assert(s[at] == '"');
    law_strings_are_read(first.units);
    assert(json::value_end(s, at, 0) == json::string_end(s, at + 1));
    let more = read.push(units_value(first.units));
    let next = (before + items[0].text()).len() as int;
    if strings.len() > 1 {
        let rest = strings.drop_first();
        let front = before + items[0].text() + seq![','];
        assert(string_items(rest) =~= items.drop_first());
        assert(strings_wf(rest)) by {
            assert forall|i: int| 0 <= i < rest.len() implies (#[trigger] rest[i]).wf() by {
                assert(strings[i + 1].wf());
            }
        }
        lemma_rest_items(before, items, after, 0);
        lemma_first_item(front, items.drop_first(), after, 0, 0);
        assert(items.drop_first()[0] == rest[0].item());
        assert(more + string_values(rest) =~= read + string_values(strings));
        lemma_strings_read_from(front, more, rest, after);
        assert(rest[0].wf());
    } else {
        assert(more =~= read + string_values(strings));
        assert(s.subrange(next + 1, s.len() as int) =~= after) by {
            assert(s == before + items[0].text() + (seq![']'] + after));
        }
        lemma_skipped_to(s, next + 1, s.len() as int);
    }
}

/// An array of strings is read as the strings, in order, whatever blanks stand
/// around them and however they are written.
pub proof fn law_string_arrays_are_read(
    before: Seq<char>,
    inside: Seq<char>,
    strings: Seq<StringItem>,
    behind: Seq<char>,
)
    requires
        is_blank(before),
        is_blank(inside),
        strings_wf(strings),
        is_blank(behind),
    ensures
        json::string_array(before + array_text(inside, string_items(strings)) + behind) == Ok::<
            Seq<Seq<char>>,
            JsonFault,
        >(string_values(strings)),
{
    let items = string_items(strings);
    let none: Seq<Seq<char>> = Seq::empty();
    let s = before + array_text(inside, items) + behind;
    let tail = array_text(inside, items) + behind;
    assert(s =~= Seq::<char>::empty() + before + tail);
    assert(tail[0] == '[');
    lemma_blank_is_skipped(Seq::empty(), before, tail);
    assert(s[before.len() as int] == '[');
    let front = before + seq!['['];
    if strings.len() == 0 {
        let close = (front.len() + inside.len()) as int;
        assert(s =~= front + inside + (seq![']'] + behind));
        lemma_blank_is_skipped(front, inside, seq![']'] + behind);
        assert(s[close] == ']');
        assert(s.subrange(close + 1, s.len() as int) =~= behind);
        lemma_skipped_to(s, close + 1, s.len() as int);
        assert(string_values(strings) =~= none);
    } else {
        assert(s =~= front + items_text(items) + seq![']'] + behind);
        lemma_string_items(strings);
        assert(strings[0].wf());
        assert(items[0] == strings[0].item());
        lemma_first_item(front, items, behind, 0, 0);
        assert(none + string_values(strings) =~= string_values(strings));
        lemma_strings_read_from(front, none, strings, behind);
    }
}

} // verus!
