//! Characters, bytes and decimal numbers: the vocabulary the other modules share.

use vstd::prelude::*;
use vstd::string::*;
use vstd::utf8::*;

verus! {

/// `String::push` appends one character to the end of the string.
pub assume_specification[ std::string::String::push ](s: &mut std::string::String, ch: char)
    ensures
        final(s)@ == old(s)@.push(ch),
;

/// The characters of a string, in order.
pub fn chars_of(s: &str) -> (out: Vec<char>)
    ensures
        out@ == s@,
{
    let mut out: Vec<char> = Vec::new();
    for c in it: s.chars()
        invariant
            out@ == it.seq().take(it.index() as int),
            it.seq() == s@,
    {
        out.push(c);
    }
    out
}

/// The string made of the characters `from..to`.
pub fn string_of(chars: &[char], from: usize, to: usize) -> (out: String)
    requires
        from <= to <= chars@.len(),
    ensures
        out@ == chars@.subrange(from as int, to as int),
{
    let mut out = String::new();
    let mut i: usize = from;
    while i < to
        invariant
            from <= i <= to <= chars@.len(),
            out@ == chars@.subrange(from as int, i as int),
        decreases to - i,
    {
        out.push(chars[i]);
        i += 1;
    }
    out
}

/// Two strings with the same UTF-8 encoding hold the same characters.
pub proof fn lemma_encoding_is_injective(a: Seq<char>, b: Seq<char>)
    requires
        encode_utf8(a) == encode_utf8(b),
    ensures
        a == b,
{
    encode_utf8_decode_utf8(a);
    encode_utf8_decode_utf8(b);
}

/// Whether two byte slices hold the same bytes.
pub fn bytes_eq(a: &[u8], b: &[u8]) -> (same: bool)
    ensures
        same == (a@ == b@),
{
    if a.len() != b.len() {
        return false;
    }
    let mut i: usize = 0;
    while i < a.len()
        invariant
            i <= a@.len() == b@.len(),
            forall|k: int| 0 <= k < i ==> a@[k] == b@[k],
        decreases a@.len() - i,
    {
        if a[i] != b[i] {
            return false;
        }
        i += 1;
    }
    assert(a@ =~= b@);
    true
}

/// Whether two strings hold the same characters.
pub fn str_eq(a: &str, b: &str) -> (same: bool)
    ensures
        same == (a@ == b@),
{
    let same = bytes_eq(a.as_bytes(), b.as_bytes());
    proof {
        if same {
            lemma_encoding_is_injective(a@, b@);
        }
    }
    same
}

/// The number of bytes UTF-8 spends on a character.
pub open spec fn utf8_width(c: char) -> nat {
    let v = c as u32;
    if v < 0x80 {
        1
    } else if v < 0x800 {
        2
    } else if v < 0x10000 {
        3
    } else {
        4
    }
}

pub fn char_width(c: char) -> (width: usize)
    ensures
        width == utf8_width(c),
{
    let v: u32 = c as u32;
    if v < 0x80 {
        1
    } else if v < 0x800 {
        2
    } else if v < 0x10000 {
        3
    } else {
        4
    }
}

/// The encoded length is the sum of the widths.
pub proof fn lemma_encoded_len_first(s: Seq<char>)
    requires
        s.len() > 0,
    ensures
        encode_utf8(s).len() == utf8_width(s[0]) + encode_utf8(s.drop_first()).len(),
{
    char_is_scalar(s[0]);
}

/// Every character takes at least one byte.
pub proof fn lemma_encoded_len_bound(s: Seq<char>)
    ensures
        s.len() <= encode_utf8(s).len() <= 4 * s.len(),
    decreases s.len(),
{
    if s.len() > 0 {
        lemma_encoded_len_first(s);
        lemma_encoded_len_bound(s.drop_first());
    }
}

/// Concatenation and encoding commute.
pub proof fn lemma_encode_concat(a: Seq<char>, b: Seq<char>)
    ensures
        encode_utf8(a + b) == encode_utf8(a) + encode_utf8(b),
    decreases a.len(),
{
    if a.len() == 0 {
        assert(a + b =~= b);
    } else {
        assert((a + b).drop_first() =~= a.drop_first() + b);
        lemma_encode_concat(a.drop_first(), b);
        assert(encode_utf8(a + b) =~= encode_utf8(a) + encode_utf8(b));
    }
}

/// `char::from_u32` is the character with the given scalar value; values that
/// are no Unicode scalars give none.
pub assume_specification[ char::from_u32 ](i: u32) -> (c: Option<char>)
    ensures
        is_scalar(i) ==> c == Some(i as char),
        !is_scalar(i) ==> c is None,
;

/// The characters of each of several strings.
pub open spec fn texts(strings: Seq<String>) -> Seq<Seq<char>> {
    Seq::new(strings.len(), |i: int| strings[i]@)
}

// ---------------------------------------------------------------------------
// Whitespace
// ---------------------------------------------------------------------------

/// The characters with the Unicode `White_Space` property.
pub open spec fn is_whitespace(c: char) -> bool {
    let v = c as u32;
    ||| 0x9 <= v <= 0xd
    ||| v == 0x20
    ||| v == 0x85
    ||| v == 0xa0
    ||| v == 0x1680
    ||| 0x2000 <= v <= 0x200a
    ||| v == 0x2028
    ||| v == 0x2029
    ||| v == 0x202f
    ||| v == 0x205f
    ||| v == 0x3000
}

pub fn char_is_whitespace(c: char) -> (white: bool)
    ensures
        white == is_whitespace(c),
{
    let v: u32 = c as u32;
    (0x9 <= v && v <= 0xd) || v == 0x20 || v == 0x85 || v == 0xa0 || v == 0x1680 || (0x2000 <= v
        && v <= 0x200a) || v == 0x2028 || v == 0x2029 || v == 0x202f || v == 0x205f || v == 0x3000
}

/// Whether any character is whitespace.
pub open spec fn has_whitespace(s: Seq<char>) -> bool {
    exists|i: int| 0 <= i < s.len() && is_whitespace(#[trigger] s[i])
}

pub fn contains_whitespace(s: &str) -> (found: bool)
    ensures
        found == has_whitespace(s@),
{
    let chars = chars_of(s);
    let mut i: usize = 0;
    while i < chars.len()
        invariant
            i <= chars@.len(),
            chars@ == s@,
            forall|k: int| 0 <= k < i ==> !is_whitespace(#[trigger] s@[k]),
        decreases chars@.len() - i,
    {
        if char_is_whitespace(chars[i]) {
            assert(is_whitespace(s@[i as int]));
            return true;
        }
        i += 1;
    }
    false
}

/// The text without its leading whitespace.
pub open spec fn trim_front(s: Seq<char>) -> Seq<char>
    decreases s.len(),
{
    if s.len() > 0 && is_whitespace(s[0]) {
        trim_front(s.drop_first())
    } else {
        s
    }
}

/// The text without its trailing whitespace.
pub open spec fn trim_back(s: Seq<char>) -> Seq<char>
    decreases s.len(),
{
    if s.len() > 0 && is_whitespace(s.last()) {
        trim_back(s.drop_last())
    } else {
        s
    }
}

/// The text without the whitespace around it.
pub open spec fn trimmed(s: Seq<char>) -> Seq<char> {
    trim_back(trim_front(s))
}

/// The text without the whitespace around it.
pub fn trim(s: &str) -> (out: String)
    ensures
        out@ == trimmed(s@),
{
    let chars = chars_of(s);
    let mut from: usize = 0;
    assert(s@.skip(0) =~= s@);
    while from < chars.len() && char_is_whitespace(chars[from])
        invariant
            from <= chars@.len(),
            chars@ == s@,
            trim_front(s@) == trim_front(s@.skip(from as int)),
        decreases chars@.len() - from,
    {
        assert(s@.skip(from as int).drop_first() =~= s@.skip(from + 1));
        from += 1;
    }
    let mut to: usize = chars.len();
    let ghost front = s@.skip(from as int);
    assert(trim_front(s@) == front);
    assert(s@.subrange(from as int, to as int) =~= front);
    while from < to && char_is_whitespace(chars[to - 1])
        invariant
            from <= to <= chars@.len(),
            chars@ == s@,
            trim_back(front) == trim_back(s@.subrange(from as int, to as int)),
        decreases to,
    {
        assert(s@.subrange(from as int, to as int).drop_last() =~= s@.subrange(
            from as int,
            to - 1,
        ));
        to -= 1;
    }
    string_of(chars.as_slice(), from, to)
}

/// Nothing is left of a text exactly when it is all whitespace.
pub proof fn lemma_trimmed_is_empty(s: Seq<char>)
    ensures
        trimmed(s).len() == 0 <==> forall|i: int| 0 <= i < s.len() ==> is_whitespace(#[trigger] s[i]),
    decreases s.len(),
{
    let front = trim_front(s);
    if s.len() > 0 && is_whitespace(s[0]) {
        lemma_trimmed_is_empty(s.drop_first());
        let rest = s.drop_first();
        assert(forall|i: int| 0 <= i < rest.len() ==> rest[i] == s[i + 1]);
        if trimmed(s).len() == 0 {
            assert forall|i: int| 0 <= i < s.len() implies is_whitespace(#[trigger] s[i]) by {
                if i > 0 {
                    assert(is_whitespace(rest[i - 1]));
                }
            }
        }
    } else if s.len() > 0 {
        lemma_trim_back_keeps_first(s);
    }
}

/// A text without whitespace at its ends stays as it is.
pub proof fn lemma_trimmed_stays(s: Seq<char>)
    requires
        s.len() > 0,
        !is_whitespace(s[0]),
        !is_whitespace(s.last()),
    ensures
        trimmed(s) == s,
{
}

proof fn lemma_trim_back_keeps_first(s: Seq<char>)
    requires
        s.len() > 0,
        !is_whitespace(s[0]),
    ensures
        trim_back(s).len() > 0,
    decreases s.len(),
{
    if is_whitespace(s.last()) {
        lemma_trim_back_keeps_first(s.drop_last());
    }
}

// ---------------------------------------------------------------------------
// Decimal numbers
// ---------------------------------------------------------------------------

/// A number in decimal, without leading zeros.
pub open spec fn decimal(n: nat) -> Seq<char>
    decreases n,
{
    if n < 10 {
        seq![('0' as int + n) as char]
    } else {
        decimal(n / 10).push(('0' as int + n % 10) as char)
    }
}

/// A signed number in decimal.
pub open spec fn signed_decimal(n: int) -> Seq<char> {
    if n < 0 {
        seq!['-'] + decimal((-n) as nat)
    } else {
        decimal(n as nat)
    }
}

fn digit_char(d: u64) -> (c: char)
    requires
        d < 10,
    ensures
        c == ('0' as int + d) as char,
{
    if d == 0 { '0' } else if d == 1 { '1' } else if d == 2 { '2' } else if d == 3 { '3' } else if d
        == 4 { '4' } else if d == 5 { '5' } else if d == 6 { '6' } else if d == 7 { '7' } else if d
        == 8 { '8' } else { '9' }
}

/// Append a number in decimal.
pub fn push_decimal(out: &mut String, n: u64)
    ensures
        final(out)@ == old(out)@ + decimal(n as nat),
    decreases n,
{
    let ghost before = out@;
    if n >= 10 {
        push_decimal(out, n / 10);
    }
    out.push(digit_char(n % 10));
    assert(out@ =~= before + decimal(n as nat));
}

/// A number in decimal.
pub fn decimal_u64(n: u64) -> (out: String)
    ensures
        out@ == decimal(n as nat),
{
    let mut out = String::new();
    push_decimal(&mut out, n);
    assert(out@ =~= decimal(n as nat));
    out
}

/// A number in decimal.
pub fn decimal_usize(n: usize) -> (out: String)
    ensures
        out@ == decimal(n as nat),
{
    decimal_u64(n as u64)
}

/// A signed number in decimal.
pub fn decimal_i64(n: i64) -> (out: String)
    ensures
        out@ == signed_decimal(n as int),
{
    if n >= 0 {
        return decimal_u64(n as u64);
    }
    let mut out = String::new();
    out.push('-');
    let magnitude: u64 = if n == i64::MIN {
        0x8000_0000_0000_0000
    } else {
        (-n) as u64
    };
    push_decimal(&mut out, magnitude);
    assert(out@ =~= signed_decimal(n as int));
    out
}

/// Why a text is not the integer that was asked for.
#[derive(Debug, Clone, Copy, PartialEq, Eq, Structural)]
pub enum IntegerFault {
    Empty,
    InvalidDigit,
    TooLarge,
    TooSmall,
}

impl IntegerFault {
    pub open spec fn text(self) -> Seq<char> {
        match self {
            IntegerFault::Empty => "cannot parse integer from empty string"@,
            IntegerFault::InvalidDigit => "invalid digit found in string"@,
            IntegerFault::TooLarge => "number too large to fit in target type"@,
            IntegerFault::TooSmall => "number too small to fit in target type"@,
        }
    }

    pub fn message(self) -> (message: &'static str)
        ensures
            message@ == self.text(),
    {
        match self {
            IntegerFault::Empty => "cannot parse integer from empty string",
            IntegerFault::InvalidDigit => "invalid digit found in string",
            IntegerFault::TooLarge => "number too large to fit in target type",
            IntegerFault::TooSmall => "number too small to fit in target type",
        }
    }
}

pub open spec fn is_decimal_digit(c: char) -> bool {
    '0' <= c <= '9'
}

/// The number that `acc` becomes when the digits from `at` on follow it, within
/// `min..=max`. The first position that is no digit or leaves the range decides.
pub open spec fn digits_value(s: Seq<char>, at: int, acc: int, negative: bool, min: int, max: int) -> Result<
    int,
    IntegerFault,
>
    decreases s.len() - at,
{
    if !(0 <= at < s.len()) {
        Ok(acc)
    } else if !is_decimal_digit(s[at]) {
        Err(IntegerFault::InvalidDigit)
    } else {
        let digit = s[at] as int - '0' as int;
        let next = if negative {
            10 * acc - digit
        } else {
            10 * acc + digit
        };
        if next > max {
            Err(IntegerFault::TooLarge)
        } else if next < min {
            Err(IntegerFault::TooSmall)
        } else {
            digits_value(s, at + 1, next, negative, min, max)
        }
    }
}

/// The unsigned number below 2^64 that a text denotes. A plus sign may lead.
pub open spec fn unsigned_value(s: Seq<char>) -> Result<int, IntegerFault> {
    if s.len() == 0 {
        Err(IntegerFault::Empty)
    } else if s == seq!['+'] {
        Err(IntegerFault::InvalidDigit)
    } else if s[0] == '+' {
        digits_value(s, 1, 0, false, 0, u64::MAX as int)
    } else {
        digits_value(s, 0, 0, false, 0, u64::MAX as int)
    }
}

/// The signed 64-bit number that a text denotes. A sign may lead.
pub open spec fn signed_value(s: Seq<char>) -> Result<int, IntegerFault> {
    if s.len() == 0 {
        Err(IntegerFault::Empty)
    } else if s == seq!['+'] || s == seq!['-'] {
        Err(IntegerFault::InvalidDigit)
    } else if s[0] == '+' {
        digits_value(s, 1, 0, false, i64::MIN as int, i64::MAX as int)
    } else if s[0] == '-' {
        digits_value(s, 1, 0, true, i64::MIN as int, i64::MAX as int)
    } else {
        digits_value(s, 0, 0, false, i64::MIN as int, i64::MAX as int)
    }
}

/// The unsigned number that a text denotes.
pub fn parse_u64(text: &str) -> (value: Result<u64, IntegerFault>)
    ensures
        match value {
            Ok(v) => unsigned_value(text@) == Ok::<int, IntegerFault>(v as int),
            Err(fault) => unsigned_value(text@) == Err::<int, IntegerFault>(fault),
        },
{
    let s = chars_of(text);
    if s.len() == 0 {
        return Err(IntegerFault::Empty);
    }
    let mut i: usize = 0;
    if s[0] == '+' {
        if s.len() == 1 {
            assert(text@ =~= seq!['+']);
            return Err(IntegerFault::InvalidDigit);
        }
        i = 1;
    }
    let mut acc: u64 = 0;
    while i < s.len()
        invariant
            i <= s@.len(),
            s@ == text@,
            unsigned_value(text@) == digits_value(s@, i as int, acc as int, false, 0, u64::MAX as int),
        decreases s@.len() - i,
    {
        let c = s[i];
        if c < '0' || '9' < c {
            return Err(IntegerFault::InvalidDigit);
        }
        let digit: u64 = (c as u32 - '0' as u32) as u64;
        if acc > u64::MAX / 10 || acc * 10 > u64::MAX - digit {
            return Err(IntegerFault::TooLarge);
        }
        acc = acc * 10 + digit;
        i += 1;
    }
    Ok(acc)
}

/// The signed number that a text denotes.
pub fn parse_i64(text: &str) -> (value: Result<i64, IntegerFault>)
    ensures
        match value {
            Ok(v) => signed_value(text@) == Ok::<int, IntegerFault>(v as int),
            Err(fault) => signed_value(text@) == Err::<int, IntegerFault>(fault),
        },
{
    let s = chars_of(text);
    if s.len() == 0 {
        return Err(IntegerFault::Empty);
    }
    let mut i: usize = 0;
    let negative = s[0] == '-';
    if s[0] == '+' || negative {
        if s.len() == 1 {
            assert(text@ =~= seq![text@[0]]);
            return Err(IntegerFault::InvalidDigit);
        }
        i = 1;
    }
    let mut acc: i64 = 0;
    while i < s.len()
        invariant
            i <= s@.len(),
            s@ == text@,
            signed_value(text@) == digits_value(
                s@,
                i as int,
                acc as int,
                negative,
                i64::MIN as int,
                i64::MAX as int,
            ),
        decreases s@.len() - i,
    {
        let c = s[i];
        if c < '0' || '9' < c {
            return Err(IntegerFault::InvalidDigit);
        }
        let digit: i64 = (c as u32 - '0' as u32) as i64;
        let wide: i128 = if negative {
            acc as i128 * 10 - digit as i128
        } else {
            acc as i128 * 10 + digit as i128
        };
        if wide > i64::MAX as i128 {
            return Err(IntegerFault::TooLarge);
        }
        if wide < i64::MIN as i128 {
            return Err(IntegerFault::TooSmall);
        }
        acc = wide as i64;
        i += 1;
    }
    Ok(acc)
}

/// A number in decimal is digits.
pub proof fn lemma_decimal_digits(n: nat)
    ensures
        decimal(n).len() > 0,
        forall|i: int| 0 <= i < decimal(n).len() ==> is_decimal_digit(#[trigger] decimal(n)[i]),
    decreases n,
{
    if n >= 10 {
        lemma_decimal_digits(n / 10);
    }
}

proof fn lemma_decimal_reads(before: Seq<char>, n: nat, after: Seq<char>, negative: bool, min: int, max: int)
    requires
        min <= 0 <= max,
        !negative ==> n <= max,
        negative ==> min <= -(n as int),
    ensures
        digits_value(before + decimal(n) + after, before.len() as int, 0, negative, min, max)
            == digits_value(
            before + decimal(n) + after,
            (before.len() + decimal(n).len()) as int,
            if negative {
                -(n as int)
            } else {
                n as int
            },
            negative,
            min,
            max,
        ),
    decreases n,
{
    let s = before + decimal(n) + after;
    lemma_decimal_digits(n);
    if n < 10 {
        assert(s[before.len() as int] == decimal(n)[0]);
    } else {
        let last = ('0' as int + n % 10) as char;
        lemma_decimal_reads(before, n / 10, seq![last] + after, negative, min, max);
        assert(s =~= before + decimal(n / 10) + (seq![last] + after));
        assert(s[(before.len() + decimal(n / 10).len()) as int] == last);
        assert(n == 10 * (n / 10) + n % 10);
    }
}

/// Reading the digits of a number up to a bound gives the number back.
pub proof fn lemma_digits_read_back(n: nat, max: int)
    requires
        n <= max,
    ensures
        digits_value(decimal(n), 0, 0, false, 0, max) == Ok::<int, IntegerFault>(n as int),
{
    lemma_decimal_reads(Seq::empty(), n, Seq::empty(), false, 0, max);
    assert(Seq::<char>::empty() + decimal(n) + Seq::<char>::empty() =~= decimal(n));
}

/// Reading a number written in decimal gives the number back.
pub proof fn law_decimal_reads_back(n: u64)
    ensures
        unsigned_value(decimal(n as nat)) == Ok::<int, IntegerFault>(n as int),
{
    lemma_decimal_digits(n as nat);
    lemma_decimal_reads(Seq::empty(), n as nat, Seq::empty(), false, 0, u64::MAX as int);
    assert(Seq::<char>::empty() + decimal(n as nat) + Seq::<char>::empty() =~= decimal(n as nat));
    assert(is_decimal_digit(decimal(n as nat)[0]));
}

/// Reading a signed number written in decimal gives the number back.
pub proof fn law_signed_decimal_reads_back(n: i64)
    ensures
        signed_value(signed_decimal(n as int)) == Ok::<int, IntegerFault>(n as int),
{
    let m = if n < 0 {
        (-(n as int)) as nat
    } else {
        n as nat
    };
    let sign = if n < 0 {
        seq!['-']
    } else {
        Seq::<char>::empty()
    };
    lemma_decimal_digits(m);
    lemma_decimal_reads(sign, m, Seq::empty(), n < 0, i64::MIN as int, i64::MAX as int);
    assert(sign + decimal(m) + Seq::<char>::empty() =~= signed_decimal(n as int));
    assert(is_decimal_digit(decimal(m)[0]));
}

/// The number of bytes of a string.
pub fn byte_len(s: &str) -> (len: usize)
    ensures
        len == encode_utf8(s@).len(),
{
    s.as_bytes().len()
}

/// Whether `pattern` stands at position `at`.
pub open spec fn stands_at(s: Seq<char>, pattern: Seq<char>, at: int) -> bool {
    0 <= at && at + pattern.len() <= s.len() && s.subrange(at, at + pattern.len()) == pattern
}

/// The first position from `at` on where `pattern`, which is not empty, stands.
pub open spec fn find_from(s: Seq<char>, pattern: Seq<char>, at: int) -> Option<int>
    decreases s.len() - at,
{
    if !(0 <= at < s.len()) {
        None
    } else if stands_at(s, pattern, at) {
        Some(at)
    } else {
        find_from(s, pattern, at + 1)
    }
}

/// Whether `pattern` stands at position `at`.
pub fn pattern_at(s: &[char], pattern: &[char], at: usize) -> (found: bool)
    requires
        at <= s@.len(),
    ensures
        found == stands_at(s@, pattern@, at as int),
{
    let len: usize = s.len();
    if pattern.len() > len - at {
        return false;
    }
    let mut i: usize = 0;
    while i < pattern.len()
        invariant
            i <= pattern@.len(),
            at + pattern@.len() <= s@.len() == len,
            forall|k: int| 0 <= k < i ==> s@[at + k] == pattern@[k],
        decreases pattern@.len() - i,
    {
        if s[at + i] != pattern[i] {
            assert(s@.subrange(at as int, at + pattern@.len())[i as int] != pattern@[i as int]);
            return false;
        }
        i += 1;
    }
    assert(s@.subrange(at as int, at + pattern@.len()) =~= pattern@);
    true
}

/// The first position from `at` on where `pattern` stands.
pub fn find_pattern(s: &[char], pattern: &[char], at: usize) -> (found: Option<usize>)
    requires
        at <= s@.len(),
        pattern@.len() > 0,
    ensures
        match found {
            Some(p) => find_from(s@, pattern@, at as int) == Some(p as int) && at <= p && p
                + pattern@.len() <= s@.len(),
            None => find_from(s@, pattern@, at as int) is None,
        },
{
    let mut i: usize = at;
    while i < s.len()
        invariant
            at <= i <= s@.len(),
            find_from(s@, pattern@, at as int) == find_from(s@, pattern@, i as int),
        decreases s@.len() - i,
    {
        if pattern_at(s, pattern, i) {
            return Some(i);
        }
        i += 1;
    }
    None
}

// ---------------------------------------------------------------------------
// Bytes to text
// ---------------------------------------------------------------------------

/// How `FromUtf8Error` describes bytes that are not UTF-8.
pub uninterp spec fn utf8_error_text(bytes: Seq<u8>) -> Seq<char>;

/// `String::from_utf8` gives the text that the bytes encode, exactly when they
/// are valid UTF-8. Otherwise the error describes itself, which is a function
/// of the bytes; what the description says is not stated.
#[verifier::external_body]
pub(crate) fn string_from_utf8(bytes: Vec<u8>) -> (text: Result<String, String>)
    ensures
        match text {
            Ok(s) => valid_utf8(bytes@) && s@ == decode_utf8(bytes@),
            Err(description) => !valid_utf8(bytes@) && description@ == utf8_error_text(bytes@),
        },
{
    String::from_utf8(bytes).map_err(|error| error.to_string())
}

/// What `String::from_utf8_lossy` makes of bytes that are not UTF-8: a text with
/// replacement characters in place of what is wrong.
pub uninterp spec fn replaced_text(bytes: Seq<u8>) -> Seq<char>;

/// The text that bytes are read as: what they encode, with replacement
/// characters where they are not UTF-8.
pub open spec fn lossy_text(bytes: Seq<u8>) -> Seq<char> {
    if valid_utf8(bytes) {
        decode_utf8(bytes)
    } else {
        replaced_text(bytes)
    }
}

/// `String::from_utf8_lossy` gives the text that valid UTF-8 encodes. What it
/// gives for other bytes is a function of the bytes; how it replaces invalid
/// sequences is not stated.
#[verifier::external_body]
pub(crate) fn string_from_utf8_lossy(bytes: &[u8]) -> (text: String)
    ensures
        text@ == if valid_utf8(bytes@) {
            decode_utf8(bytes@)
        } else {
            replaced_text(bytes@)
        },
{
    String::from_utf8_lossy(bytes).into_owned()
}

/// A copy of the bytes `from..to`.
pub fn bytes_of(bytes: &[u8], from: usize, to: usize) -> (out: Vec<u8>)
    requires
        from <= to <= bytes@.len(),
    ensures
        out@ == bytes@.subrange(from as int, to as int),
{
    let mut out: Vec<u8> = Vec::new();
    let mut i: usize = from;
    while i < to
        invariant
            from <= i <= to <= bytes@.len(),
            out@ == bytes@.subrange(from as int, i as int),
        decreases to - i,
    {
        out.push(bytes[i]);
        i += 1;
    }
    out
}

// ---------------------------------------------------------------------------
// ASCII case, splitting
// ---------------------------------------------------------------------------

/// An ASCII capital as the small letter; any other character as it is.
pub open spec fn lower_char(c: char) -> char {
    if 'A' <= c <= 'Z' {
        (c as u32 + 32) as char
    } else {
        c
    }
}

/// The text with ASCII capitals as small letters.
pub open spec fn lower(s: Seq<char>) -> Seq<char> {
    Seq::new(s.len(), |i: int| lower_char(s[i]))
}

fn lower_of(c: char) -> (out: char)
    ensures
        out == lower_char(c),
{
    if 'A' <= c && c <= 'Z' {
        let v: u32 = c as u32 + 32;
        assert(is_scalar(v));
        match char::from_u32(v) {
            Some(small) => small,
            None => c,
        }
    } else {
        c
    }
}

/// The text with ASCII capitals as small letters.
pub fn to_lower(s: &str) -> (out: String)
    ensures
        out@ == lower(s@),
{
    let chars = chars_of(s);
    let mut out = String::new();
    let mut i: usize = 0;
    while i < chars.len()
        invariant
            i <= chars@.len(),
            chars@ == s@,
            out@ == lower(s@).take(i as int),
        decreases chars@.len() - i,
    {
        out.push(lower_of(chars[i]));
        assert(lower(s@).take(i + 1) =~= lower(s@).take(i as int).push(lower(s@)[i as int]));
        i += 1;
    }
    assert(lower(s@).take(i as int) =~= lower(s@));
    out
}

/// The first position from `at` on that holds `c`, or the end.
pub open spec fn char_position(s: Seq<char>, c: char, at: int) -> int
    decreases s.len() - at,
{
    if !(0 <= at < s.len()) || s[at] == c {
        at
    } else {
        char_position(s, c, at + 1)
    }
}

pub proof fn lemma_char_position(s: Seq<char>, c: char, at: int)
    requires
        0 <= at <= s.len(),
    ensures
        at <= char_position(s, c, at) <= s.len(),
        char_position(s, c, at) < s.len() ==> s[char_position(s, c, at)] == c,
        forall|k: int| at <= k < char_position(s, c, at) ==> #[trigger] s[k] != c,
    decreases s.len() - at,
{
    if at < s.len() && s[at] != c {
        lemma_char_position(s, c, at + 1);
    }
}

/// The first position from `at` on that holds `c`, or the end.
pub fn find_char(s: &[char], c: char, at: usize) -> (position: usize)
    requires
        at <= s@.len(),
    ensures
        position == char_position(s@, c, at as int),
        at <= position <= s@.len(),
{
    let mut i: usize = at;
    while i < s.len() && s[i] != c
        invariant
            at <= i <= s@.len(),
            char_position(s@, c, at as int) == char_position(s@, c, i as int),
        decreases s@.len() - i,
    {
        i += 1;
    }
    i
}

/// The parts of the text from `at` on, between the separators.
pub open spec fn parts_from(s: Seq<char>, separator: char, at: int) -> Seq<Seq<char>>
    decreases s.len() - at,
{
    let end = char_position(s, separator, at);
    if 0 <= at <= end < s.len() {
        seq![s.subrange(at, end)] + parts_from(s, separator, end + 1)
    } else {
        seq![s.subrange(at, s.len() as int)]
    }
}

/// The parts of a text between the separators: one more than there are of these.
pub open spec fn split(s: Seq<char>, separator: char) -> Seq<Seq<char>> {
    parts_from(s, separator, 0)
}

/// The parts of a text between the separators.
pub fn split_text(text: &str, separator: char) -> (parts: Vec<String>)
    ensures
        texts(parts@) == split(text@, separator),
{
    let s = chars_of(text);
    let mut parts: Vec<String> = Vec::new();
    let mut at: usize = 0;
    assert(texts(parts@) + parts_from(s@, separator, 0) =~= split(text@, separator));
    loop
        invariant
            at <= s@.len(),
            s@ == text@,
            texts(parts@) + parts_from(s@, separator, at as int) == split(text@, separator),
        decreases s@.len() - at,
    {
        let end: usize = find_char(s.as_slice(), separator, at);
        let part = string_of(s.as_slice(), at, end);
        let ghost before = texts(parts@);
        let ghost added = part@;
        parts.push(part);
        assert(texts(parts@) =~= before.push(added));
        if end >= s.len() {
            assert(texts(parts@) =~= before + seq![added]);
            return parts;
        }
        assert(texts(parts@) + parts_from(s@, separator, end + 1) =~= before + (seq![added]
            + parts_from(s@, separator, end + 1)));
        at = end + 1;
    }
}

/// Whether one of the parts of a list, trimmed and in small letters, is `token`.
pub open spec fn lists_token(value: Seq<char>, separator: char, token: Seq<char>) -> bool {
    exists|i: int|
        0 <= i < split(value, separator).len() && lower(trimmed(#[trigger] split(value, separator)[i]))
            == token
}

/// Whether one of the parts of a list, trimmed and in small letters, is `token`.
pub fn has_list_token(value: &str, separator: char, token: &str) -> (found: bool)
    ensures
        found == lists_token(value@, separator, token@),
{
    let parts = split_text(value, separator);
    let mut i: usize = 0;
    while i < parts.len()
        invariant
            i <= parts@.len(),
            texts(parts@) == split(value@, separator),
            forall|k: int|
                0 <= k < i ==> lower(trimmed(#[trigger] split(value@, separator)[k])) != token@,
        decreases parts@.len() - i,
    {
        assert(split(value@, separator)[i as int] == parts@[i as int]@);
        if str_eq(to_lower(trim(parts[i].as_str()).as_str()).as_str(), token) {
            return true;
        }
        i += 1;
    }
    assert(split(value@, separator).len() == parts@.len());
    false
}

/// Whether the character stands in the text.
pub open spec fn has_char(s: Seq<char>, c: char) -> bool {
    exists|i: int| 0 <= i < s.len() && #[trigger] s[i] == c
}

/// Whether the character stands in the text.
pub fn contains_char(s: &str, c: char) -> (found: bool)
    ensures
        found == has_char(s@, c),
{
    let chars = chars_of(s);
    let position: usize = find_char(chars.as_slice(), c, 0);
    proof {
        lemma_char_position(s@, c, 0);
    }
    position < chars.len()
}

/// Whether the text starts with the prefix.
pub fn starts_with(s: &str, prefix: &str) -> (starts: bool)
    ensures
        starts == stands_at(s@, prefix@, 0),
{
    let a = chars_of(s);
    let b = chars_of(prefix);
    pattern_at(a.as_slice(), b.as_slice(), 0)
}

/// A character whose encoding is all ASCII bytes is ASCII itself.
pub proof fn lemma_ascii_bytes_are_ascii_chars(s: Seq<char>)
    requires
        forall|i: int| 0 <= i < encode_utf8(s).len() ==> #[trigger] encode_utf8(s)[i] < 0x80,
    ensures
        is_ascii_chars(s),
        encode_utf8(s).len() == s.len(),
        forall|i: int| 0 <= i < s.len() ==> encode_utf8(s)[i] == #[trigger] s[i] as u8,
    decreases s.len(),
{
    if s.len() > 0 {
        let first = encode_scalar(s[0] as u32);
        let rest = s.drop_first();
        char_is_scalar(s[0]);
        assert(encode_utf8(s) == first + encode_utf8(rest));
        let v = s[0] as u32;
        assert(first[0] == encode_utf8(s)[0]);
        assert(0xC0u8 | ((v >> 6) & 0x1F) as u8 >= 0x80) by (bit_vector);
        assert(0xE0u8 | ((v >> 12) & 0x0F) as u8 >= 0x80) by (bit_vector);
        assert(0xF0u8 | ((v >> 18) & 0x7) as u8 >= 0x80) by (bit_vector);
        assert(has_width_1_encoding(v));
        assert forall|i: int| 0 <= i < encode_utf8(rest).len() implies #[trigger] encode_utf8(
            rest,
        )[i] < 0x80 by {
            assert(encode_utf8(s)[i + 1] == encode_utf8(rest)[i]);
        }
        lemma_ascii_bytes_are_ascii_chars(rest);
        assert forall|i: int| 0 <= i < s.len() implies '\0' <= #[trigger] s[i] <= '\u{7f}' by {
            if i > 0 {
                assert(s[i] == rest[i - 1]);
            } else {
                let c = s[0];
                char_u32_cast(c, v);
                assert(c as u32 == v && v <= 0x7f);
                assert('\0' <= c <= '\u{7f}');
            }
        }
        is_ascii_chars_encode_utf8(s);
    }
}

// ---------------------------------------------------------------------------
// Laws
// ---------------------------------------------------------------------------

/// Whether a text is whitespace and nothing else.
pub open spec fn all_whitespace(s: Seq<char>) -> bool {
    forall|i: int| 0 <= i < s.len() ==> is_whitespace(#[trigger] s[i])
}

/// The ASCII characters that count as whitespace: tab, line feed, vertical tab,
/// form feed, carriage return and space.
pub proof fn law_ascii_whitespace(c: char)
    requires
        (c as u32) < 0x80,
    ensures
        is_whitespace(c) <==> c == ' ' || c == '\t' || c == '\n' || c == '\r' || c == '\u{b}' || c
            == '\u{c}',
{
}

proof fn lemma_trim_front_cuts(a: Seq<char>, m: Seq<char>)
    requires
        all_whitespace(a),
        m.len() == 0 || !is_whitespace(m[0]),
    ensures
        trim_front(a + m) == m,
    decreases a.len(),
{
    if a.len() == 0 {
        assert(a + m =~= m);
    } else {
        assert(is_whitespace(a[0]));
        assert((a + m).drop_first() =~= a.drop_first() + m);
        assert(all_whitespace(a.drop_first())) by {
            assert forall|i: int| 0 <= i < a.drop_first().len() implies is_whitespace(
                #[trigger] a.drop_first()[i],
            ) by {
                assert(is_whitespace(a[i + 1]));
            }
        }
        lemma_trim_front_cuts(a.drop_first(), m);
    }
}

proof fn lemma_trim_back_cuts(m: Seq<char>, b: Seq<char>)
    requires
        all_whitespace(b),
        m.len() == 0 || !is_whitespace(m.last()),
    ensures
        trim_back(m + b) == m,
    decreases b.len(),
{
    if b.len() == 0 {
        assert(m + b =~= m);
    } else {
        assert(is_whitespace(b.last()));
        assert((m + b).drop_last() =~= m + b.drop_last());
        assert(all_whitespace(b.drop_last())) by {
            assert forall|i: int| 0 <= i < b.drop_last().len() implies is_whitespace(
                #[trigger] b.drop_last()[i],
            ) by {
                assert(is_whitespace(b[i]));
            }
        }
        lemma_trim_back_cuts(m, b.drop_last());
    }
}

/// Whitespace around a text that starts and ends with something else is cut off,
/// and nothing but that.
pub proof fn law_trimming_cuts_whitespace(a: Seq<char>, m: Seq<char>, b: Seq<char>)
    requires
        all_whitespace(a),
        all_whitespace(b),
        m.len() > 0,
        !is_whitespace(m[0]),
        !is_whitespace(m.last()),
    ensures
        trimmed(a + m + b) == m,
{
    assert(a + m + b =~= a + (m + b));
    lemma_trim_front_cuts(a, m + b);
    lemma_trim_back_cuts(m, b);
}

/// A text is what is left of it when it is trimmed, between two runs of
/// whitespace; what is left starts and ends with something else.
pub proof fn law_trimmed_stands_between_whitespace(s: Seq<char>) -> (ends: (int, int))
    ensures
        0 <= ends.0 <= ends.1 <= s.len(),
        trimmed(s) == s.subrange(ends.0, ends.1),
        all_whitespace(s.take(ends.0)),
        all_whitespace(s.skip(ends.1)),
        trimmed(s).len() > 0 ==> !is_whitespace(trimmed(s)[0]) && !is_whitespace(trimmed(s).last()),
    decreases s.len(),
{
    if s.len() == 0 {
        assert(trimmed(s) =~= s.subrange(0, 0));
        (0, 0)
    } else if is_whitespace(s[0]) {
        let rest = s.drop_first();
        let (from, to) = law_trimmed_stands_between_whitespace(rest);
        assert(rest.subrange(from, to) =~= s.subrange(from + 1, to + 1));
        assert forall|i: int| 0 <= i < s.take(from + 1).len() implies is_whitespace(
            #[trigger] s.take(from + 1)[i],
        ) by {
            if i > 0 {
                assert(is_whitespace(rest.take(from)[i - 1]));
            }
        }
        assert(s.skip(to + 1) =~= rest.skip(to));
        (from + 1, to + 1)
    } else if is_whitespace(s.last()) {
        let front = s.drop_last();
        let (from, to) = law_trimmed_stands_between_whitespace(front);
        assert(front[0] == s[0]);
        assert(trim_front(front) == front && trim_front(s) == s);
        assert(front.subrange(from, to) =~= s.subrange(from, to));
        assert(s.take(from) =~= front.take(from));
        assert forall|i: int| 0 <= i < s.skip(to).len() implies is_whitespace(
            #[trigger] s.skip(to)[i],
        ) by {
            if to + i < front.len() {
                assert(is_whitespace(front.skip(to)[i]));
            }
        }
        (from, to)
    } else {
        assert(s.subrange(0, s.len() as int) =~= s);
        (0, s.len() as int)
    }
}

/// What a pattern is found at is the first place where it stands; if it is not
/// found it stands nowhere.
pub proof fn law_found_is_first(s: Seq<char>, pattern: Seq<char>, at: int)
    requires
        0 <= at,
        pattern.len() > 0,
    ensures
        match find_from(s, pattern, at) {
            Some(place) => {
                &&& at <= place
                &&& place + pattern.len() <= s.len()
                &&& s.subrange(place, place + pattern.len()) == pattern
                &&& forall|j: int| at <= j < place ==> !#[trigger] stands_at(s, pattern, j)
            },
            None => forall|j: int| at <= j ==> !#[trigger] stands_at(s, pattern, j),
        },
    decreases s.len() - at,
{
    if at < s.len() && !stands_at(s, pattern, at) {
        law_found_is_first(s, pattern, at + 1);
    }
}

/// Small letters stand in place of the capitals from A to Z, and every other
/// character stays.
pub proof fn law_lower_changes_capitals_only(s: Seq<char>, i: int)
    requires
        0 <= i < s.len(),
    ensures
        lower(s).len() == s.len(),
        !('A' <= s[i] <= 'Z') ==> lower(s)[i] == s[i],
        'A' <= s[i] <= 'Z' ==> 'a' <= lower(s)[i] <= 'z' && lower(s)[i] as int - 'a' as int
            == s[i] as int - 'A' as int,
        lower(lower(s)) == lower(s),
{
    assert(lower(lower(s)) =~= lower(s));
}

/// Parts with the separator between them.
pub open spec fn joined_by(parts: Seq<Seq<char>>, separator: char) -> Seq<char>
    decreases parts.len(),
{
    if parts.len() == 0 {
        Seq::empty()
    } else if parts.len() == 1 {
        parts[0]
    } else {
        parts[0] + seq![separator] + joined_by(parts.drop_first(), separator)
    }
}

proof fn lemma_parts_join(s: Seq<char>, separator: char, at: int)
    requires
        0 <= at <= s.len(),
    ensures
        parts_from(s, separator, at).len() > 0,
        joined_by(parts_from(s, separator, at), separator) == s.skip(at),
        forall|i: int|
            0 <= i < parts_from(s, separator, at).len() ==> !has_char(
                #[trigger] parts_from(s, separator, at)[i],
                separator,
            ),
    decreases s.len() - at,
{
    lemma_char_position(s, separator, at);
    let end = char_position(s, separator, at);
    let parts = parts_from(s, separator, at);
    if end < s.len() {
        let rest = parts_from(s, separator, end + 1);
        lemma_parts_join(s, separator, end + 1);
        assert(parts.drop_first() =~= rest);
        assert(s.skip(at) =~= s.subrange(at, end) + seq![separator] + s.skip(end + 1));
        assert forall|i: int| 0 <= i < parts.len() implies !has_char(
            #[trigger] parts[i],
            separator,
        ) by {
            if i > 0 {
                assert(parts[i] == rest[i - 1]);
            } else {
                let part = s.subrange(at, end);
                assert(forall|k: int| 0 <= k < part.len() ==> part[k] == s[at + k]);
            }
        }
    } else {
        let part = s.subrange(at, s.len() as int);
        assert(part =~= s.skip(at));
        assert(forall|k: int| 0 <= k < part.len() ==> part[k] == s[at + k]);
    }
}

/// The parts of a text hold no separator, and with separators between them they
/// are the text again.
pub proof fn law_parts_join_to_the_text(s: Seq<char>, separator: char)
    ensures
        split(s, separator).len() > 0,
        joined_by(split(s, separator), separator) == s,
        forall|i: int|
            0 <= i < split(s, separator).len() ==> !has_char(
                #[trigger] split(s, separator)[i],
                separator,
            ),
{
    lemma_parts_join(s, separator, 0);
    assert(s.skip(0) =~= s);
}

/// The number that decimal digits denote.
pub open spec fn number_of(digits: Seq<char>) -> int
    decreases digits.len(),
{
    if digits.len() == 0 {
        0
    } else {
        10 * number_of(digits.drop_last()) + (digits.last() as int - '0' as int)
    }
}

pub open spec fn all_digits(s: Seq<char>) -> bool {
    forall|i: int| 0 <= i < s.len() ==> '0' <= #[trigger] s[i] <= '9'
}

proof fn lemma_number_is_monotone(s: Seq<char>, at: int)
    requires
        all_digits(s),
        0 <= at <= s.len(),
    ensures
        0 <= number_of(s.take(at)) <= number_of(s),
    decreases s.len(),
{
    if s.len() == 0 {
        assert(s.take(at) =~= s);
    } else {
        let front = s.drop_last();
        assert(all_digits(front)) by {
            assert forall|i: int| 0 <= i < front.len() implies '0' <= #[trigger] front[i]
                <= '9' by {
                assert(front[i] == s[i]);
            }
        }
        assert('0' <= s[s.len() - 1] <= '9');
        if at == s.len() {
            assert(s.take(at) =~= s);
            lemma_number_is_monotone(front, front.len() as int);
            assert(front.take(front.len() as int) =~= front);
        } else {
            assert(s.take(at) =~= front.take(at));
            lemma_number_is_monotone(front, at);
        }
    }
}

proof fn lemma_digits_are_read(s: Seq<char>, from: int, at: int, negative: bool, min: int, max: int)
    requires
        0 <= from <= at <= s.len(),
        all_digits(s.skip(from)),
        min <= 0 <= max,
        negative ==> min <= -number_of(s.subrange(from, at)),
        !negative ==> number_of(s.subrange(from, at)) <= max,
    ensures
        ({
            let n = number_of(s.skip(from));
            let so_far = number_of(s.subrange(from, at));
            digits_value(
                s,
                at,
                if negative {
                    -so_far
                } else {
                    so_far
                },
                negative,
                min,
                max,
            ) == if negative && -n < min {
                Err::<int, IntegerFault>(IntegerFault::TooSmall)
            } else if !negative && n > max {
                Err(IntegerFault::TooLarge)
            } else if negative {
                Ok(-n)
            } else {
                Ok(n)
            }
        }),
    decreases s.len() - at,
{
    let all = s.skip(from);
    lemma_number_is_monotone(all, at - from);
    assert(all.take(at - from) =~= s.subrange(from, at));
    if at < s.len() {
        let more = s.subrange(from, at + 1);
        assert(more.drop_last() =~= s.subrange(from, at));
        assert(more.last() == s[at]);
        assert(all[at - from] == s[at]);
        assert('0' <= s[at] <= '9');
        assert(all.take(at + 1 - from) =~= more);
        lemma_number_is_monotone(all, at + 1 - from);
        if (negative && min <= -number_of(more)) || (!negative && number_of(more) <= max) {
            lemma_digits_are_read(s, from, at + 1, negative, min, max);
        }
    } else {
        assert(s.subrange(from, at) =~= all);
    }
}

/// Digits, with or without leading zeros and a plus sign, denote their number
/// where it is below 2^64, and are refused as too large where it is not.
pub proof fn law_digits_denote_their_number(digits: Seq<char>, plus: bool)
    requires
        digits.len() > 0,
        all_digits(digits),
    ensures
        unsigned_value(
            if plus {
                seq!['+'] + digits
            } else {
                digits
            },
        ) == if number_of(digits) <= u64::MAX {
            Ok::<int, IntegerFault>(number_of(digits))
        } else {
            Err(IntegerFault::TooLarge)
        },
{
    let s = if plus {
        seq!['+'] + digits
    } else {
        digits
    };
    let from = if plus {
        1int
    } else {
        0int
    };
    assert('0' <= digits[0] <= '9');
    assert(s.skip(from) =~= digits);
    assert(s.subrange(from, from) =~= Seq::<char>::empty());
    if plus {
        assert(s[1] == digits[0]);
    }
    lemma_digits_are_read(s, from, from, false, 0, u64::MAX as int);
}

/// Digits behind a sign or none denote their number, with the sign, where it fits
/// in 64 bits, and are refused as too large or too small where it does not.
pub proof fn law_signed_digits_denote_their_number(digits: Seq<char>, sign: Option<char>)
    requires
        digits.len() > 0,
        all_digits(digits),
        sign matches Some(c) ==> c == '+' || c == '-',
    ensures
        ({
            let s = match sign {
                Some(c) => seq![c] + digits,
                None => digits,
            };
            let n = if sign == Some('-') {
                -number_of(digits)
            } else {
                number_of(digits)
            };
            signed_value(s) == if n < i64::MIN {
                Err::<int, IntegerFault>(IntegerFault::TooSmall)
            } else if n > i64::MAX {
                Err(IntegerFault::TooLarge)
            } else {
                Ok(n)
            }
        }),
{
    let s = match sign {
        Some(c) => seq![c] + digits,
        None => digits,
    };
    let from = if sign is Some {
        1int
    } else {
        0int
    };
    assert('0' <= digits[0] <= '9');
    assert(s.skip(from) =~= digits);
    assert(s.subrange(from, from) =~= Seq::<char>::empty());
    if sign is Some {
        assert(s[1] == digits[0]);
    }
    lemma_number_is_monotone(digits, 0);
    assert(digits.take(0) =~= Seq::<char>::empty());
    lemma_digits_are_read(s, from, from, sign == Some('-'), i64::MIN as int, i64::MAX as int);
}

proof fn lemma_read_digits(s: Seq<char>, at: int, acc: int, negative: bool, min: int, max: int)
    requires
        0 <= at <= s.len(),
        digits_value(s, at, acc, negative, min, max) is Ok,
    ensures
        all_digits(s.skip(at)),
    decreases s.len() - at,
{
    if at < s.len() {
        let digit = s[at] as int - '0' as int;
        let next = if negative {
            10 * acc - digit
        } else {
            10 * acc + digit
        };
        lemma_read_digits(s, at + 1, next, negative, min, max);
        assert forall|i: int| 0 <= i < s.skip(at).len() implies '0' <= #[trigger] s.skip(at)[i]
            <= '9' by {
            if i > 0 {
                assert(s.skip(at + 1)[i - 1] == s.skip(at)[i]);
            }
        }
    }
}

/// Nothing but digits, behind a plus sign or none, is read as an unsigned number.
pub proof fn law_numbers_are_digits(s: Seq<char>)
    requires
        unsigned_value(s) is Ok,
    ensures
        ({
            let digits = if s[0] == '+' {
                s.skip(1)
            } else {
                s
            };
            &&& s.len() > 0
            &&& digits.len() > 0
            &&& all_digits(digits)
            &&& unsigned_value(s) == Ok::<int, IntegerFault>(number_of(digits))
        }),
{
    if s[0] == '+' {
        lemma_read_digits(s, 1, 0, false, 0, u64::MAX as int);
        if s.len() == 1 {
            assert(s =~= seq!['+']);
        }
        assert(seq!['+'] + s.skip(1) =~= s);
        law_digits_denote_their_number(s.skip(1), true);
    } else {
        lemma_read_digits(s, 0, 0, false, 0, u64::MAX as int);
        assert(s.skip(0) =~= s);
        law_digits_denote_their_number(s, false);
    }
}

/// A number in decimal is made of digits that denote it, the first of which is no
/// zero unless it is the only one.
pub proof fn law_decimal_denotes_its_number(n: nat)
    ensures
        all_digits(decimal(n)),
        number_of(decimal(n)) == n,
        decimal(n).len() > 0,
        decimal(n).len() > 1 ==> decimal(n)[0] != '0',
    decreases n,
{
    if n >= 10 {
        law_decimal_denotes_its_number(n / 10);
        assert(decimal(n).drop_last() =~= decimal(n / 10));
        assert(decimal(n)[0] == decimal(n / 10)[0]);
        if n / 10 < 10 {
            assert(decimal(n / 10)[0] != '0');
        } else {
            lemma_decimal_digits(n / 10 / 10);
        }
    } else {
        assert(decimal(n).drop_last() =~= Seq::<char>::empty());
        reveal_with_fuel(number_of, 2);
    }
}

/// Digits up to a bound denote their number, and are refused beyond it.
pub proof fn lemma_bounded_digits(digits: Seq<char>, max: int)
    requires
        digits.len() > 0,
        all_digits(digits),
        0 <= max,
    ensures
        digits_value(digits, 0, 0, false, 0, max) == if number_of(digits) <= max {
            Ok::<int, IntegerFault>(number_of(digits))
        } else {
            Err(IntegerFault::TooLarge)
        },
        0 <= number_of(digits),
{
    assert(digits.skip(0) =~= digits);
    assert(digits.subrange(0, 0) =~= Seq::<char>::empty());
    lemma_number_is_monotone(digits, 0);
    assert(digits.take(0) =~= Seq::<char>::empty());
    lemma_digits_are_read(digits, 0, 0, false, 0, max);
}

/// What digits are read as lies in the range that was asked for.
pub proof fn lemma_value_range(s: Seq<char>, at: int, acc: int, max: int)
    requires
        0 <= acc <= max,
    ensures
        digits_value(s, at, acc, false, 0, max) matches Ok(n) ==> 0 <= n <= max,
    decreases s.len() - at,
{
    if 0 <= at < s.len() && is_decimal_digit(s[at]) {
        let next = 10 * acc + (s[at] as int - '0' as int);
        if 0 <= next <= max {
            lemma_value_range(s, at + 1, next, max);
        }
    }
}

} // verus!
