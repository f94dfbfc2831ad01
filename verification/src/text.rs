//! Text as sequences of characters: the operations the rest of the library
//! builds its parsers, labels and orders from.

use crate::sums;
use vstd::prelude::*;
use vstd::string::*;

verus! {

// ---------------------------------------------------------------------------
// What std gives, stated
// ---------------------------------------------------------------------------

/// `String::push` appends one character.
pub assume_specification[ String::push ](s: &mut String, ch: char)
    ensures
        final(s)@ == old(s)@.push(ch),
;

/// `==` between string slices compares the characters they hold.
pub assume_specification[ <str as PartialEq<str>>::eq ](a: &str, b: &str) -> (same: bool)
    ensures
        same == (a@ == b@),
;

/// Whether two texts hold the same characters.
pub fn same_text(a: &str, b: &str) -> (same: bool)
    ensures
        same == (a@ == b@),
{
    *a == *b
}

/// The lowercase form of a text, as `str::to_lowercase` derives it from
/// Unicode's tables.
pub uninterp spec fn lowercase(text: Seq<char>) -> Seq<char>;

/// `str::to_lowercase`: a function of the characters alone. Which characters
/// the tables map to which is left unsaid.
#[verifier::external_body]
pub(crate) fn to_lower(text: &str) -> (lower: String)
    ensures
        lower@ == lowercase(text@),
{
    text.to_lowercase()
}

// ---------------------------------------------------------------------------
// Conversions and concatenation
// ---------------------------------------------------------------------------

/// The characters of a text, one by one.
pub fn chars_of(text: &str) -> (chars: Vec<char>)
    ensures
        chars@ == text@,
{
    let mut chars: Vec<char> = Vec::new();
    for c in it: text.chars()
        invariant
            it.seq() == text@,
            chars@ == text@.take(it.index()),
    {
        chars.push(c);
    }
    assert(text@.take(text@.len() as int) =~= text@);
    chars
}

/// The text made of the characters `chars[from..to]`.
pub fn text_of_range(chars: &Vec<char>, from: usize, to: usize) -> (text: String)
    requires
        from <= to <= chars@.len(),
    ensures
        text@ == chars@.subrange(from as int, to as int),
{
    let mut text = String::new();
    let mut i: usize = from;
    while i < to
        invariant
            from <= i <= to <= chars@.len(),
            text@ == chars@.subrange(from as int, i as int),
        decreases to - i,
    {
        text.push(chars[i]);
        i += 1;
        assert(chars@.subrange(from as int, i as int) =~= chars@.subrange(
            from as int,
            i - 1,
        ).push(chars@[i - 1]));
    }
    text
}

/// The text made of all of `chars`.
pub fn text_of(chars: &Vec<char>) -> (text: String)
    ensures
        text@ == chars@,
{
    let text = text_of_range(chars, 0, chars.len());
    assert(chars@.subrange(0, chars@.len() as int) =~= chars@);
    text
}

pub fn join2(a: &str, b: &str) -> (text: String)
    ensures
        text@ == a@ + b@,
{
    let mut text = a.to_owned();
    text.append(b);
    text
}

pub fn join3(a: &str, b: &str, c: &str) -> (text: String)
    ensures
        text@ == a@ + b@ + c@,
{
    let mut text = a.to_owned();
    text.append(b);
    text.append(c);
    text
}

pub fn join4(a: &str, b: &str, c: &str, d: &str) -> (text: String)
    ensures
        text@ == a@ + b@ + c@ + d@,
{
    let mut text = join3(a, b, c);
    text.append(d);
    text
}

pub fn join5(a: &str, b: &str, c: &str, d: &str, e: &str) -> (text: String)
    ensures
        text@ == a@ + b@ + c@ + d@ + e@,
{
    let mut text = join4(a, b, c, d);
    text.append(e);
    text
}

/// `count` copies of one character.
pub open spec fn repeated(c: char, count: nat) -> Seq<char> {
    Seq::new(count, |i: int| c)
}

pub fn repeat_char(c: char, count: usize) -> (text: String)
    ensures
        text@ == repeated(c, count as nat),
{
    let mut text = String::new();
    let mut i: usize = 0;
    while i < count
        invariant
            i <= count,
            text@ == repeated(c, i as nat),
        decreases count - i,
    {
        text.push(c);
        i += 1;
        assert(repeated(c, i as nat) =~= repeated(c, (i - 1) as nat).push(c));
    }
    text
}

// ---------------------------------------------------------------------------
// Decimal numbers
// ---------------------------------------------------------------------------

/// The character of a decimal digit.
pub open spec fn digit_char(d: nat) -> char {
    (48 + d) as char
}

/// The decimal form of a number, without leading zeros.
pub open spec fn decimal(n: nat) -> Seq<char>
    decreases n,
{
    if n < 10 {
        seq![digit_char(n)]
    } else {
        decimal(n / 10).push(digit_char(n % 10))
    }
}

fn digit_to_char(d: u64) -> (c: char)
    requires
        d < 10,
    ensures
        c == digit_char(d as nat),
{
    ((48 + d) as u8) as char
}

/// `n` in decimal.
pub fn decimal_text(n: u64) -> (text: String)
    ensures
        text@ == decimal(n as nat),
    decreases n,
{
    if n < 10 {
        let mut text = String::new();
        text.push(digit_to_char(n));
        assert(text@ =~= decimal(n as nat));
        text
    } else {
        let mut text = decimal_text(n / 10);
        text.push(digit_to_char(n % 10));
        text
    }
}

/// The decimal form has at least one digit, and only digits.
pub proof fn decimal_is_digits(n: nat)
    ensures
        decimal(n).len() >= 1,
        forall|i: int| 0 <= i < decimal(n).len() ==> '0' <= #[trigger] decimal(n)[i] <= '9',
    decreases n,
{
    if n >= 10 {
        decimal_is_digits(n / 10);
    }
}

pub open spec fn is_digit(c: char) -> bool {
    '0' <= c <= '9'
}

pub open spec fn digit_value(c: char) -> nat {
    (c as int - 48) as nat
}

pub fn is_ascii_digit(c: char) -> (r: bool)
    ensures
        r == is_digit(c),
{
    '0' <= c && c <= '9'
}

/// Every character is a decimal digit.
pub open spec fn all_digits(s: Seq<char>) -> bool {
    forall|i: int| 0 <= i < s.len() ==> is_digit(#[trigger] s[i])
}

/// The number that a sequence of decimal digits denotes.
pub open spec fn digits_value(s: Seq<char>) -> nat
    decreases s.len(),
{
    if s.len() == 0 {
        0
    } else {
        digits_value(s.drop_last()) * 10 + digit_value(s.last())
    }
}

/// What `decimal` writes, `digits_value` reads back.
pub proof fn decimal_round_trip(n: nat)
    ensures
        digits_value(decimal(n)) == n,
        all_digits(decimal(n)),
    decreases n,
{
    decimal_is_digits(n);
    if n < 10 {
        assert(decimal(n).drop_last() =~= Seq::<char>::empty());
        assert(digits_value(Seq::<char>::empty()) == 0);
        assert(decimal(n).last() == digit_char(n));
        assert(digit_value(digit_char(n)) == n);
    } else {
        decimal_round_trip(n / 10);
        assert(decimal(n).drop_last() =~= decimal(n / 10));
        assert(digit_value(digit_char(n % 10)) == n % 10);
    }
}

/// The digits that an unsigned number's text must consist of: what follows one
/// optional plus sign.
pub open spec fn unsigned_digits(s: Seq<char>) -> Seq<char> {
    if s.len() > 0 && s[0] == '+' {
        s.subrange(1, s.len() as int)
    } else {
        s
    }
}

/// The value of an unsigned decimal number of at most `limit`: one optional
/// plus sign, then at least one digit and nothing else.
pub open spec fn unsigned_value(s: Seq<char>, limit: nat) -> Option<nat> {
    let digits = unsigned_digits(s);
    if digits.len() > 0 && all_digits(digits) && digits_value(digits) <= limit {
        Some(digits_value(digits))
    } else {
        None
    }
}

proof fn digits_value_grows(s: Seq<char>, k: int)
    requires
        0 <= k <= s.len(),
        all_digits(s),
    ensures
        digits_value(s.take(k)) <= digits_value(s),
    decreases s.len(),
{
    if k < s.len() {
        assert(s.drop_last().take(k) =~= s.take(k));
        digits_value_grows(s.drop_last(), k);
    } else {
        assert(s.take(k) =~= s);
    }
}

/// Reads an unsigned decimal number of at most `limit`.
pub fn parse_unsigned(text: &str, limit: u64) -> (value: Option<u64>)
    ensures
        match value {
            Some(v) => unsigned_value(text@, limit as nat) == Some(v as nat),
            None => unsigned_value(text@, limit as nat) is None,
        },
{
    let chars = chars_of(text);
    let start: usize = if chars.len() > 0 && chars[0] == '+' {
        1
    } else {
        0
    };
    let ghost digits = unsigned_digits(text@);
    assert(digits =~= chars@.subrange(start as int, chars@.len() as int));
    if start == chars.len() {
        return None;
    }
    let mut value: u64 = 0;
    let mut i: usize = start;
    assert(digits.take(0) =~= Seq::<char>::empty());
    while i < chars.len()
        invariant
            start <= i <= chars@.len(),
            digits == chars@.subrange(start as int, chars@.len() as int),
            digits == unsigned_digits(text@),
            digits.len() > 0,
            all_digits(digits.take(i - start)),
            value == digits_value(digits.take(i - start)),
            value <= limit,
        decreases chars@.len() - i,
    {
        let c = chars[i];
        let ghost k = i - start;
        assert(digits[k] == c);
        if !is_ascii_digit(c) {
            assert(!is_digit(digits[k]));
            return None;
        }
        let d: u64 = (c as u32 - 48) as u64;
        assert(digits.take(k + 1).drop_last() =~= digits.take(k));
        assert(digits.take(k + 1).last() == c);
        assert(digits_value(digits.take(k + 1)) == value * 10 + d);
        assert(all_digits(digits.take(k + 1))) by {
            assert forall|j: int| 0 <= j < k + 1 implies is_digit(
                #[trigger] digits.take(k + 1)[j],
            ) by {
                if j < k {
                    assert(is_digit(digits.take(k)[j]));
                }
            }
        }
        let next: Option<u64> = match value.checked_mul(10) {
            Some(scaled) => scaled.checked_add(d),
            None => None,
        };
        match next {
            Some(v) => {
                if v > limit {
                    proof {
                        unsigned_overflow(digits, k + 1, limit as nat);
                    }
                    return None;
                }
                value = v;
            },
            None => {
                proof {
                    unsigned_overflow(digits, k + 1, limit as nat);
                }
                return None;
            },
        }
        i += 1;
    }
    assert(digits.take(digits.len() as int) =~= digits);
    Some(value)
}

proof fn unsigned_overflow(digits: Seq<char>, k: int, limit: nat)
    requires
        0 <= k <= digits.len(),
        digits_value(digits.take(k)) > limit,
    ensures
        !(all_digits(digits) && digits_value(digits) <= limit),
{
    if all_digits(digits) {
        digits_value_grows(digits, k);
    }
}

// ---------------------------------------------------------------------------
// Characters
// ---------------------------------------------------------------------------

/// The characters with Unicode's `White_Space` property.
pub open spec fn is_space(c: char) -> bool {
    let n = c as int;
    ||| 0x9 <= n <= 0xD
    ||| n == 0x20
    ||| n == 0x85
    ||| n == 0xA0
    ||| n == 0x1680
    ||| 0x2000 <= n <= 0x200A
    ||| n == 0x2028
    ||| n == 0x2029
    ||| n == 0x202F
    ||| n == 0x205F
    ||| n == 0x3000
}

pub fn is_whitespace(c: char) -> (r: bool)
    ensures
        r == is_space(c),
{
    let n: u32 = c as u32;
    (0x9 <= n && n <= 0xD) || n == 0x20 || n == 0x85 || n == 0xA0 || n == 0x1680 || (0x2000 <= n
        && n <= 0x200A) || n == 0x2028 || n == 0x2029 || n == 0x202F || n == 0x205F || n == 0x3000
}

/// ASCII capitals become small letters; every other character stays.
pub open spec fn ascii_lower(c: char) -> char {
    if 'A' <= c <= 'Z' {
        (c as int + 32) as char
    } else {
        c
    }
}

pub fn ascii_lower_char(c: char) -> (r: char)
    ensures
        r == ascii_lower(c),
{
    if 'A' <= c && c <= 'Z' {
        ((c as u8) + 32) as char
    } else {
        c
    }
}

// ---------------------------------------------------------------------------
// Trimming
// ---------------------------------------------------------------------------

/// The text without the white space at its start.
pub open spec fn trimmed_start(s: Seq<char>) -> Seq<char>
    decreases s.len(),
{
    if s.len() > 0 && is_space(s[0]) {
        trimmed_start(s.subrange(1, s.len() as int))
    } else {
        s
    }
}

/// The text without the white space at its end.
pub open spec fn trimmed_end(s: Seq<char>) -> Seq<char>
    decreases s.len(),
{
    if s.len() > 0 && is_space(s.last()) {
        trimmed_end(s.drop_last())
    } else {
        s
    }
}

/// The text without the white space around it.
pub open spec fn trimmed(s: Seq<char>) -> Seq<char> {
    trimmed_end(trimmed_start(s))
}

/// Trims `chars[from..to]` and returns the bounds of what is left.
pub fn trim_range(chars: &Vec<char>, from: usize, to: usize) -> (r: (usize, usize))
    requires
        from <= to <= chars@.len(),
    ensures
        from <= r.0 <= r.1 <= to,
        chars@.subrange(r.0 as int, r.1 as int) == trimmed(
            chars@.subrange(from as int, to as int),
        ),
{
    let ghost whole = chars@.subrange(from as int, to as int);
    let mut a: usize = from;
    while a < to && is_whitespace(chars[a])
        invariant
            from <= a <= to <= chars@.len(),
            trimmed_start(chars@.subrange(a as int, to as int)) == trimmed_start(whole),
        decreases to - a,
    {
        assert(chars@.subrange(a as int, to as int).subrange(1, to - a) =~= chars@.subrange(
            a + 1,
            to as int,
        ));
        a += 1;
    }
    let ghost left = chars@.subrange(a as int, to as int);
    assert(trimmed_start(whole) == left);
    let mut b: usize = to;
    while b > a && is_whitespace(chars[b - 1])
        invariant
            a <= b <= to <= chars@.len(),
            trimmed_end(chars@.subrange(a as int, b as int)) == trimmed_end(left),
        decreases b,
    {
        assert(chars@.subrange(a as int, b as int).drop_last() =~= chars@.subrange(
            a as int,
            b - 1,
        ));
        b -= 1;
    }
    (a, b)
}

/// The text without the white space around it.
pub fn trim_text(text: &str) -> (r: String)
    ensures
        r@ == trimmed(text@),
{
    let chars = chars_of(text);
    assert(chars@.subrange(0, chars@.len() as int) =~= text@);
    let (a, b) = trim_range(&chars, 0, chars.len());
    text_of_range(&chars, a, b)
}

// ---------------------------------------------------------------------------
// Prefixes, suffixes, containment
// ---------------------------------------------------------------------------

pub open spec fn has_prefix(s: Seq<char>, p: Seq<char>) -> bool {
    s.len() >= p.len() && s.subrange(0, p.len() as int) == p
}

pub open spec fn has_suffix(s: Seq<char>, p: Seq<char>) -> bool {
    s.len() >= p.len() && s.subrange(s.len() - p.len(), s.len() as int) == p
}

/// `needle` stands somewhere in `s` as a run of consecutive characters.
pub open spec fn has_part(s: Seq<char>, needle: Seq<char>) -> bool {
    exists|at: int| part_at(s, needle, at)
}

/// `needle` stands in `s` from position `at` on.
pub open spec fn part_at(s: Seq<char>, needle: Seq<char>, at: int) -> bool {
    0 <= at && at + needle.len() <= s.len() && s.subrange(at, at + needle.len()) == needle
}

/// Whether `needle` stands in `chars` from `at` on.
pub fn matches_at(chars: &Vec<char>, needle: &Vec<char>, at: usize) -> (r: bool)
    ensures
        r == part_at(chars@, needle@, at as int),
{
    let count: usize = chars.len();
    if at > count || needle.len() > count - at {
        return false;
    }
    let mut i: usize = 0;
    while i < needle.len()
        invariant
            i <= needle@.len(),
            count == chars@.len(),
            at + needle@.len() <= count,
            forall|k: int| 0 <= k < i ==> chars@[at + k] == needle@[k],
        decreases needle@.len() - i,
    {
        if chars[at + i] != needle[i] {
            assert(chars@.subrange(at as int, at + needle@.len())[i as int] != needle@[i as int]);
            return false;
        }
        i += 1;
    }
    assert(chars@.subrange(at as int, at + needle@.len()) =~= needle@);
    true
}

pub fn starts_with_text(text: &str, prefix: &str) -> (r: bool)
    ensures
        r == has_prefix(text@, prefix@),
{
    let chars = chars_of(text);
    let needle = chars_of(prefix);
    matches_at(&chars, &needle, 0)
}

pub fn ends_with_text(text: &str, suffix: &str) -> (r: bool)
    ensures
        r == has_suffix(text@, suffix@),
{
    let chars = chars_of(text);
    let needle = chars_of(suffix);
    if needle.len() > chars.len() {
        return false;
    }
    matches_at(&chars, &needle, chars.len() - needle.len())
}

pub fn contains_text(text: &str, needle: &str) -> (r: bool)
    ensures
        r == has_part(text@, needle@),
{
    let chars = chars_of(text);
    let part = chars_of(needle);
    if part.len() > chars.len() {
        return false;
    }
    let last: usize = chars.len() - part.len();
    let mut at: usize = 0;
    while at < last
        invariant
            at <= last,
            last + part@.len() == chars@.len(),
            forall|k: int| 0 <= k < at ==> !part_at(chars@, part@, k),
            chars@ == text@,
            part@ == needle@,
        decreases last - at,
    {
        if matches_at(&chars, &part, at) {
            return true;
        }
        at += 1;
    }
    matches_at(&chars, &part, last)
}

/// What follows `prefix`, where the text starts with it.
pub fn strip_prefix_text(text: &str, prefix: &str) -> (r: Option<String>)
    ensures
        match r {
            Some(rest) => has_prefix(text@, prefix@) && rest@ == text@.subrange(
                prefix@.len() as int,
                text@.len() as int,
            ),
            None => !has_prefix(text@, prefix@),
        },
{
    let chars = chars_of(text);
    let needle = chars_of(prefix);
    if matches_at(&chars, &needle, 0) {
        Some(text_of_range(&chars, needle.len(), chars.len()))
    } else {
        None
    }
}

/// A text without its last character.
pub fn without_last(text: &str) -> (r: String)
    ensures
        r@ == if text@.len() > 0 {
            text@.drop_last()
        } else {
            Seq::empty()
        },
{
    let chars = chars_of(text);
    if chars.len() == 0 {
        return String::new();
    }
    assert(chars@.subrange(0, chars@.len() - 1) =~= text@.drop_last());
    text_of_range(&chars, 0, chars.len() - 1)
}

// ---------------------------------------------------------------------------
// Splitting
// ---------------------------------------------------------------------------

/// The pieces between the separators; `n` separators give `n + 1` pieces.
pub open spec fn split_on(s: Seq<char>, sep: char) -> Seq<Seq<char>>
    decreases s.len(),
{
    if s.len() == 0 {
        seq![Seq::<char>::empty()]
    } else {
        let before = split_on(s.drop_last(), sep);
        if s.last() == sep {
            before.push(Seq::<char>::empty())
        } else {
            before.update(before.len() - 1, before.last().push(s.last()))
        }
    }
}

/// A split has at least one piece.
pub proof fn split_on_not_empty(s: Seq<char>, sep: char)
    ensures
        split_on(s, sep).len() >= 1,
    decreases s.len(),
{
    if s.len() > 0 {
        split_on_not_empty(s.drop_last(), sep);
    }
}

/// The texts of a vector of strings.
pub open spec fn texts(v: Seq<String>) -> Seq<Seq<char>> {
    v.map_values(|s: String| s@)
}

pub proof fn texts_push(v: Seq<String>, s: String)
    ensures
        texts(v.push(s)) == texts(v).push(s@),
{
    assert(texts(v.push(s)) =~= texts(v).push(s@));
}

/// Splits a text at every `sep`.
pub fn split_text(text: &str, sep: char) -> (pieces: Vec<String>)
    ensures
        texts(pieces@) == split_on(text@, sep),
{
    let chars = chars_of(text);
    let mut pieces: Vec<String> = Vec::new();
    let mut current = String::new();
    let mut i: usize = 0;
    assert(text@.take(0) =~= Seq::<char>::empty());
    assert(texts(pieces@).push(current@) =~= seq![Seq::<char>::empty()]);
    while i < chars.len()
        invariant
            i <= chars@.len(),
            chars@ == text@,
            texts(pieces@).push(current@) == split_on(text@.take(i as int), sep),
        decreases chars@.len() - i,
    {
        let c = chars[i];
        let ghost done = text@.take(i as int);
        let ghost next = text@.take(i + 1);
        assert(next.drop_last() =~= done);
        assert(next.last() == c);
        if c == sep {
            proof {
                texts_push(pieces@, current);
            }
            pieces.push(current);
            current = String::new();
        } else {
            let ghost held = current@;
            current.push(c);
            assert(texts(pieces@).push(current@) =~= texts(pieces@).push(held).update(
                texts(pieces@).len() as int,
                held.push(c),
            ));
        }
        i += 1;
    }
    assert(text@.take(text@.len() as int) =~= text@);
    proof {
        texts_push(pieces@, current);
    }
    pieces.push(current);
    pieces
}

/// A line's text: what stands before a carriage return at its end.
pub open spec fn line_body(s: Seq<char>) -> Seq<char> {
    if s.len() > 0 && s.last() == '\r' {
        s.drop_last()
    } else {
        s
    }
}

/// The lines of a text: split at line feeds, a final line feed starting no
/// further line, and one carriage return before a line feed left out.
pub open spec fn lines_of(s: Seq<char>) -> Seq<Seq<char>> {
    let pieces = split_on(s, '\n');
    let ended = pieces.drop_last().map_values(|p: Seq<char>| line_body(p));
    if pieces.last().len() == 0 {
        ended
    } else {
        ended.push(pieces.last())
    }
}

/// The lines of a text.
pub fn text_lines(text: &str) -> (lines: Vec<String>)
    ensures
        texts(lines@) == lines_of(text@),
{
    let pieces = split_text(text, '\n');
    proof {
        split_on_not_empty(text@, '\n');
    }
    let ghost parts = split_on(text@, '\n');
    assert(parts.len() == pieces@.len());
    let mut lines: Vec<String> = Vec::new();
    let last: usize = pieces.len() - 1;
    let ghost ended = parts.drop_last().map_values(|p: Seq<char>| line_body(p));
    let mut i: usize = 0;
    while i < last
        invariant
            i <= last,
            last + 1 == pieces@.len(),
            parts == texts(pieces@),
            ended == parts.drop_last().map_values(|p: Seq<char>| line_body(p)),
            texts(lines@) == ended.take(i as int),
        decreases last - i,
    {
        let chars = chars_of(pieces[i].as_str());
        assert(parts[i as int] == chars@);
        let end: usize = if chars.len() > 0 && chars[chars.len() - 1] == '\r' {
            chars.len() - 1
        } else {
            chars.len()
        };
        let line = text_of_range(&chars, 0, end);
        assert(line@ =~= line_body(parts[i as int]));
        proof {
            texts_push(lines@, line);
        }
        lines.push(line);
        i += 1;
        assert(ended.take(i as int) =~= ended.take(i - 1).push(ended[i - 1]));
    }
    assert(ended.take(last as int) =~= ended);
    assert(parts.last() == pieces@[last as int]@);
    if pieces[last].as_str().is_empty() {
        assert(parts.last().len() == 0);
    } else {
        let line = pieces[last].clone();
        proof {
            texts_push(lines@, line);
        }
        lines.push(line);
    }
    lines
}

/// The lines of a text, each without the white space around it.
pub open spec fn trimmed_lines(s: Seq<char>) -> Seq<Seq<char>> {
    lines_of(s).map_values(|l: Seq<char>| trimmed(l))
}

pub fn trim_lines(text: &str) -> (lines: Vec<String>)
    ensures
        texts(lines@) == trimmed_lines(text@),
{
    let raw = text_lines(text);
    let ghost all = trimmed_lines(text@);
    let mut lines: Vec<String> = Vec::new();
    let mut i: usize = 0;
    assert(texts(lines@) =~= all.take(0));
    while i < raw.len()
        invariant
            i <= raw@.len(),
            texts(raw@) == lines_of(text@),
            all == trimmed_lines(text@),
            texts(lines@) == all.take(i as int),
        decreases raw@.len() - i,
    {
        let line = trim_text(raw[i].as_str());
        assert(lines_of(text@)[i as int] == raw@[i as int]@);
        proof {
            texts_push(lines@, line);
            assert(all.take(i + 1) =~= all.take(i as int).push(all[i as int]));
        }
        lines.push(line);
        i += 1;
    }
    assert(all.take(all.len() as int) =~= all);
    lines
}

/// The words of a text and the one that is still being read at its end.
pub open spec fn words_and_rest(s: Seq<char>) -> (Seq<Seq<char>>, Seq<char>)
    decreases s.len(),
{
    if s.len() == 0 {
        (Seq::empty(), Seq::empty())
    } else {
        let (words, rest) = words_and_rest(s.drop_last());
        if !is_space(s.last()) {
            (words, rest.push(s.last()))
        } else if rest.len() > 0 {
            (words.push(rest), Seq::empty())
        } else {
            (words, rest)
        }
    }
}

/// The words of a text: what stands between white space.
pub open spec fn words_of(s: Seq<char>) -> Seq<Seq<char>> {
    let (words, rest) = words_and_rest(s);
    if rest.len() > 0 {
        words.push(rest)
    } else {
        words
    }
}

pub fn split_words(text: &str) -> (words: Vec<String>)
    ensures
        texts(words@) == words_of(text@),
{
    let chars = chars_of(text);
    let mut words: Vec<String> = Vec::new();
    let mut rest = String::new();
    let mut empty = true;
    let mut i: usize = 0;
    assert(text@.take(0) =~= Seq::<char>::empty());
    assert(texts(words@) =~= Seq::<Seq<char>>::empty());
    while i < chars.len()
        invariant
            i <= chars@.len(),
            chars@ == text@,
            empty == (rest@.len() == 0),
            (texts(words@), rest@) == words_and_rest(text@.take(i as int)),
        decreases chars@.len() - i,
    {
        let c = chars[i];
        assert(text@.take(i + 1).drop_last() =~= text@.take(i as int));
        assert(text@.take(i + 1).last() == c);
        if !is_whitespace(c) {
            rest.push(c);
            empty = false;
        } else if !empty {
            proof {
                texts_push(words@, rest);
            }
            words.push(rest);
            rest = String::new();
            empty = true;
        }
        i += 1;
    }
    assert(text@.take(text@.len() as int) =~= text@);
    if !empty {
        proof {
            texts_push(words@, rest);
        }
        words.push(rest);
    }
    words
}

/// The pieces between occurrences of a separator, found from the left.
pub open spec fn split_at_text(s: Seq<char>, sep: Seq<char>) -> Seq<Seq<char>>
    decreases s.len(),
{
    if sep.len() == 0 || s.len() == 0 {
        seq![s]
    } else if has_prefix(s, sep) {
        seq![Seq::<char>::empty()] + split_at_text(s.subrange(sep.len() as int, s.len() as int), sep)
    } else {
        let rest = split_at_text(s.subrange(1, s.len() as int), sep);
        seq![seq![s[0]] + rest[0]] + rest.subrange(1, rest.len() as int)
    }
}

/// Finished pieces, then a piece in the making that goes on with the first of
/// `rest`, then the others.
spec fn glued(done: Seq<Seq<char>>, current: Seq<char>, rest: Seq<Seq<char>>) -> Seq<Seq<char>> {
    done + seq![current + rest[0]] + rest.subrange(1, rest.len() as int)
}

proof fn split_at_text_not_empty(s: Seq<char>, sep: Seq<char>)
    ensures
        split_at_text(s, sep).len() >= 1,
    decreases s.len(),
{
    if sep.len() == 0 || s.len() == 0 {
    } else if has_prefix(s, sep) {
        split_at_text_not_empty(s.subrange(sep.len() as int, s.len() as int), sep);
    } else {
        split_at_text_not_empty(s.subrange(1, s.len() as int), sep);
    }
}

/// Splits a text at every occurrence of a separator.
pub fn split_by(text: &str, separator: &str) -> (pieces: Vec<String>)
    requires
        separator@.len() > 0,
    ensures
        texts(pieces@) == split_at_text(text@, separator@),
{
    let chars = chars_of(text);
    let sep = chars_of(separator);
    let count: usize = chars.len();
    let mut pieces: Vec<String> = Vec::new();
    let mut current = String::new();
    let mut i: usize = 0;
    proof {
        let whole = split_at_text(text@, separator@);
        split_at_text_not_empty(text@, separator@);
        assert(text@.subrange(0, text@.len() as int) =~= text@);
        assert(glued(texts(pieces@), current@, whole) =~= whole);
    }
    while i < count
        invariant
            i <= count,
            count == chars@.len(),
            chars@ == text@,
            sep@ == separator@,
            sep@.len() > 0,
            glued(
                texts(pieces@),
                current@,
                split_at_text(text@.subrange(i as int, text@.len() as int), separator@),
            ) == split_at_text(text@, separator@),
        decreases count - i,
    {
        let ghost rest = text@.subrange(i as int, text@.len() as int);
        let ghost split = split_at_text(rest, separator@);
        let found = matches_at(&chars, &sep, i);
        assert(found == has_prefix(rest, separator@)) by {
            if part_at(chars@, sep@, i as int) {
                assert(rest.subrange(0, sep@.len() as int) =~= chars@.subrange(
                    i as int,
                    i + sep@.len(),
                ));
            }
            if has_prefix(rest, separator@) {
                assert(rest.subrange(0, sep@.len() as int) =~= chars@.subrange(
                    i as int,
                    i + sep@.len(),
                ));
            }
        }
        if found {
            let ghost below = text@.subrange(i + sep@.len(), text@.len() as int);
            proof {
                assert(rest.subrange(sep@.len() as int, rest.len() as int) =~= below);
                let tail = split_at_text(below, separator@);
                split_at_text_not_empty(below, separator@);
                assert(split == seq![Seq::<char>::empty()] + tail);
                texts_push(pieces@, current);
                assert(glued(texts(pieces@), current@, split) =~= glued(
                    texts(pieces@).push(current@),
                    Seq::empty(),
                    tail,
                ));
            }
            pieces.push(current);
            current = String::new();
            i += sep.len();
        } else {
            let ghost below = text@.subrange(i + 1, text@.len() as int);
            let ghost held = current@;
            proof {
                assert(rest.subrange(1, rest.len() as int) =~= below);
                assert(rest[0] == chars@[i as int]);
                let tail = split_at_text(below, separator@);
                split_at_text_not_empty(below, separator@);
                assert(split == seq![seq![rest[0]] + tail[0]] + tail.subrange(
                    1,
                    tail.len() as int,
                ));
                assert(held + (seq![rest[0]] + tail[0]) =~= held.push(rest[0]) + tail[0]);
                assert(glued(texts(pieces@), held, split) =~= glued(
                    texts(pieces@),
                    held.push(rest[0]),
                    tail,
                ));
            }
            current.push(chars[i]);
            i += 1;
        }
    }
    proof {
        assert(text@.subrange(text@.len() as int, text@.len() as int) =~= Seq::<char>::empty());
        let last = split_at_text(Seq::<char>::empty(), separator@);
        assert(last == seq![Seq::<char>::empty()]);
        texts_push(pieces@, current);
        assert(glued(texts(pieces@), current@, last) =~= texts(pieces@).push(current@));
    }
    pieces.push(current);
    pieces
}

/// The texts that are not empty, each without the white space around it.
pub open spec fn trimmed_items(items: Seq<Seq<char>>) -> Seq<Seq<char>>
    decreases items.len(),
{
    if items.len() == 0 {
        Seq::empty()
    } else {
        let before = trimmed_items(items.drop_last());
        let item = trimmed(items.last());
        if item.len() > 0 {
            before.push(item)
        } else {
            before
        }
    }
}

pub fn trim_items(items: &Vec<String>) -> (r: Vec<String>)
    ensures
        texts(r@) == trimmed_items(texts(items@)),
{
    let ghost all = texts(items@);
    let mut r: Vec<String> = Vec::new();
    let mut i: usize = 0;
    assert(all.take(0) =~= Seq::<Seq<char>>::empty());
    assert(texts(r@) =~= Seq::<Seq<char>>::empty());
    while i < items.len()
        invariant
            i <= items@.len(),
            all == texts(items@),
            texts(r@) == trimmed_items(all.take(i as int)),
        decreases items@.len() - i,
    {
        let item = trim_text(items[i].as_str());
        assert(all.take(i + 1).drop_last() =~= all.take(i as int));
        assert(all.take(i + 1).last() == items@[i as int]@);
        if !item.as_str().is_empty() {
            proof {
                texts_push(r@, item);
            }
            r.push(item);
        }
        i += 1;
    }
    assert(all.take(all.len() as int) =~= all);
    r
}

/// Texts with a separator between them.
pub open spec fn joined(items: Seq<Seq<char>>, sep: Seq<char>) -> Seq<char>
    decreases items.len(),
{
    if items.len() == 0 {
        Seq::empty()
    } else if items.len() == 1 {
        items[0]
    } else {
        joined(items.drop_last(), sep) + sep + items.last()
    }
}

pub fn join_texts(items: &Vec<String>, sep: &str) -> (r: String)
    ensures
        r@ == joined(texts(items@), sep@),
{
    let ghost all = texts(items@);
    let mut r = String::new();
    let mut i: usize = 0;
    assert(all.take(0) =~= Seq::<Seq<char>>::empty());
    while i < items.len()
        invariant
            i <= items@.len(),
            all == texts(items@),
            r@ == joined(all.take(i as int), sep@),
        decreases items@.len() - i,
    {
        assert(all.take(i + 1).drop_last() =~= all.take(i as int));
        assert(all.take(i + 1).last() == items@[i as int]@);
        if i > 0 {
            r.append(sep);
        } else {
            assert(r@ =~= Seq::<char>::empty());
        }
        r.append(items[i].as_str());
        assert(r@ =~= joined(all.take(i + 1), sep@));
        i += 1;
    }
    assert(all.take(all.len() as int) =~= all);
    r
}

/// Some text of a list is this one.
pub fn list_has(items: &Vec<String>, wanted: &str) -> (r: bool)
    ensures
        r == texts(items@).contains(wanted@),
{
    let ghost all = texts(items@);
    let mut i: usize = 0;
    while i < items.len()
        invariant
            i <= items@.len(),
            all == texts(items@),
            forall|k: int| 0 <= k < i ==> all[k] != wanted@,
        decreases items@.len() - i,
    {
        if same_text(items[i].as_str(), wanted) {
            assert(all[i as int] == wanted@);
            return true;
        }
        i += 1;
    }
    false
}

/// The items that are not the given one.
pub open spec fn without(items: Seq<Seq<char>>, unwanted: Seq<char>) -> Seq<Seq<char>> {
    items.filter(|t: Seq<char>| t != unwanted)
}

pub fn list_without(items: &Vec<String>, unwanted: &str) -> (r: Vec<String>)
    ensures
        texts(r@) == without(texts(items@), unwanted@),
{
    let ghost all = texts(items@);
    let ghost wanted = |t: Seq<char>| t != unwanted@;
    let mut r: Vec<String> = Vec::new();
    let mut i: usize = 0;
    proof {
        reveal(Seq::filter);
        assert(all.take(0) =~= Seq::<Seq<char>>::empty());
        assert(texts(r@) =~= Seq::<Seq<char>>::empty());
    }
    while i < items.len()
        invariant
            i <= items@.len(),
            all == texts(items@),
            wanted == (|t: Seq<char>| t != unwanted@),
            texts(r@) == all.take(i as int).filter(wanted),
        decreases items@.len() - i,
    {
        proof {
            reveal(Seq::filter);
            assert(all.take(i + 1).drop_last() =~= all.take(i as int));
            assert(all.take(i + 1).last() == items@[i as int]@);
        }
        if !same_text(items[i].as_str(), unwanted) {
            let item = items[i].clone();
            proof {
                texts_push(r@, item);
            }
            r.push(item);
        }
        i += 1;
    }
    assert(all.take(all.len() as int) =~= all);
    r
}

/// Whether a text starts with a character.
pub fn starts_with_char(text: &str, c: char) -> (r: bool)
    ensures
        r == (text@.len() > 0 && text@[0] == c),
{
    let chars = chars_of(text);
    chars.len() > 0 && chars[0] == c
}

/// Whether a text holds a character.
pub fn contains_char(text: &str, c: char) -> (r: bool)
    ensures
        r == text@.contains(c),
{
    let chars = chars_of(text);
    let mut i: usize = 0;
    while i < chars.len()
        invariant
            i <= chars@.len(),
            chars@ == text@,
            forall|k: int| 0 <= k < i ==> chars@[k] != c,
        decreases chars@.len() - i,
    {
        if chars[i] == c {
            assert(text@[i as int] == c);
            return true;
        }
        i += 1;
    }
    false
}

/// The place of the first such character, or the length.
pub open spec fn first_place(s: Seq<char>, c: char) -> nat
    decreases s.len(),
{
    if s.len() == 0 || s[0] == c {
        0
    } else {
        1 + first_place(s.subrange(1, s.len() as int), c)
    }
}

/// The place of the first `c` among `chars`, or their number.
pub fn find_char(chars: &Vec<char>, c: char) -> (at: usize)
    ensures
        at == first_place(chars@, c),
        at <= chars@.len(),
        at < chars@.len() ==> chars@[at as int] == c,
{
    let mut i: usize = 0;
    assert(chars@.subrange(0, chars@.len() as int) =~= chars@);
    while i < chars.len() && chars[i] != c
        invariant
            i <= chars@.len(),
            first_place(chars@, c) == i + first_place(
                chars@.subrange(i as int, chars@.len() as int),
                c,
            ),
        decreases chars@.len() - i,
    {
        assert(chars@.subrange(i as int, chars@.len() as int).subrange(
            1,
            chars@.len() - i,
        ) =~= chars@.subrange(i + 1, chars@.len() as int));
        i += 1;
    }
    i
}

// ---------------------------------------------------------------------------
// The order of texts
// ---------------------------------------------------------------------------

/// `a` comes before `b` character by character; a text comes before the texts
/// that it starts.
pub open spec fn text_less(a: Seq<char>, b: Seq<char>) -> bool
    decreases a.len(),
{
    if b.len() == 0 {
        false
    } else if a.len() == 0 {
        true
    } else if a[0] != b[0] {
        a[0] < b[0]
    } else {
        text_less(a.subrange(1, a.len() as int), b.subrange(1, b.len() as int))
    }
}

/// Of two texts at most one comes before the other, and exactly one does
/// unless they are equal.
pub proof fn text_order_total(a: Seq<char>, b: Seq<char>)
    ensures
        !(text_less(a, b) && text_less(b, a)),
        a != b ==> text_less(a, b) || text_less(b, a),
        a == b ==> !text_less(a, b),
    decreases a.len(),
{
    if a.len() > 0 && b.len() > 0 && a[0] == b[0] {
        let ta = a.subrange(1, a.len() as int);
        let tb = b.subrange(1, b.len() as int);
        text_order_total(ta, tb);
        if ta == tb {
            assert(a =~= seq![a[0]] + ta);
            assert(b =~= seq![b[0]] + tb);
        }
    } else if a.len() == 0 && b.len() == 0 {
        assert(a =~= b);
    }
}

/// The order of texts is transitive.
pub proof fn text_order_transitive(a: Seq<char>, b: Seq<char>, c: Seq<char>)
    requires
        text_less(a, b),
        text_less(b, c),
    ensures
        text_less(a, c),
    decreases a.len(),
{
    if a.len() > 0 && b.len() > 0 && c.len() > 0 && a[0] == b[0] && b[0] == c[0] {
        text_order_transitive(
            a.subrange(1, a.len() as int),
            b.subrange(1, b.len() as int),
            c.subrange(1, c.len() as int),
        );
    }
}

/// Being no later is transitive in the order of texts.
pub proof fn text_order_weak(a: Seq<char>, b: Seq<char>, c: Seq<char>)
    ensures
        !(text_less(a, b) && text_less(b, a)),
        !text_less(b, a) && !text_less(c, b) ==> !text_less(c, a),
{
    text_order_total(a, b);
    text_order_total(b, c);
    text_order_total(a, c);
    if text_less(c, a) && text_less(a, b) {
        text_order_transitive(c, a, b);
    }
    if text_less(b, c) && text_less(c, a) {
        text_order_transitive(b, c, a);
    }
}

/// Whether `a` comes before `b`.
pub fn text_is_less(a: &str, b: &str) -> (r: bool)
    ensures
        r == text_less(a@, b@),
{
    let x = chars_of(a);
    let y = chars_of(b);
    let mut i: usize = 0;
    assert(x@.subrange(0, x@.len() as int) =~= a@);
    assert(y@.subrange(0, y@.len() as int) =~= b@);
    while i < x.len() && i < y.len()
        invariant
            i <= x@.len(),
            i <= y@.len(),
            text_less(a@, b@) == text_less(
                x@.subrange(i as int, x@.len() as int),
                y@.subrange(i as int, y@.len() as int),
            ),
        decreases x@.len() - i,
    {
        let ghost rx = x@.subrange(i as int, x@.len() as int);
        let ghost ry = y@.subrange(i as int, y@.len() as int);
        if x[i] != y[i] {
            assert(rx[0] == x@[i as int]);
            assert(ry[0] == y@[i as int]);
            return x[i] < y[i];
        }
        assert(rx.subrange(1, rx.len() as int) =~= x@.subrange(i + 1, x@.len() as int));
        assert(ry.subrange(1, ry.len() as int) =~= y@.subrange(i + 1, y@.len() as int));
        i += 1;
    }
    i < y.len()
}

// ---------------------------------------------------------------------------
// Laws
// ---------------------------------------------------------------------------

/// Trimming takes white space away at both ends, all of it, and nothing else.
pub proof fn trimming_takes_only_space(s: Seq<char>) -> (r: (int, int))
    ensures
        0 <= r.0 <= r.1 <= s.len(),
        trimmed(s) == s.subrange(r.0, r.1),
        forall|i: int| 0 <= i < r.0 || r.1 <= i < s.len() ==> is_space(#[trigger] s[i]),
        r.0 < r.1 ==> !is_space(s[r.0]) && !is_space(s[r.1 - 1]),
{
    let a = start_is_cut(s);
    let left = s.subrange(a, s.len() as int);
    let b = end_is_cut(left);
    assert(left.subrange(0, b) =~= s.subrange(a, a + b));
    assert forall|i: int| 0 <= i < a || a + b <= i < s.len() implies is_space(#[trigger] s[i]) by {
        if i >= a + b {
            assert(left[i - a] == s[i]);
        }
    }
    if b > 0 {
        assert(left[0] == s[a] && left[b - 1] == s[a + b - 1]);
    }
    (a, a + b)
}

proof fn start_is_cut(s: Seq<char>) -> (a: int)
    ensures
        0 <= a <= s.len(),
        trimmed_start(s) == s.subrange(a, s.len() as int),
        forall|i: int| 0 <= i < a ==> is_space(#[trigger] s[i]),
        a < s.len() ==> !is_space(s[a]),
    decreases s.len(),
{
    if s.len() > 0 && is_space(s[0]) {
        let tail = s.subrange(1, s.len() as int);
        let a = start_is_cut(tail);
        assert(tail.subrange(a, tail.len() as int) =~= s.subrange(a + 1, s.len() as int));
        assert forall|i: int| 0 <= i < a + 1 implies is_space(#[trigger] s[i]) by {
            if i > 0 {
                assert(tail[i - 1] == s[i]);
            }
        }
        a + 1
    } else {
        assert(s.subrange(0, s.len() as int) =~= s);
        0
    }
}

proof fn end_is_cut(s: Seq<char>) -> (b: int)
    ensures
        0 <= b <= s.len(),
        trimmed_end(s) == s.subrange(0, b),
        forall|i: int| b <= i < s.len() ==> is_space(#[trigger] s[i]),
        b > 0 ==> !is_space(s[b - 1]),
    decreases s.len(),
{
    if s.len() > 0 && is_space(s.last()) {
        let less = s.drop_last();
        let b = end_is_cut(less);
        assert(less.subrange(0, b) =~= s.subrange(0, b));
        assert forall|i: int| b <= i < s.len() implies is_space(#[trigger] s[i]) by {
            if i < less.len() {
                assert(less[i] == s[i]);
            }
        }
        b
    } else {
        assert(s.subrange(0, s.len() as int) =~= s);
        s.len() as int
    }
}

/// Pieces with a separator between them.
pub open spec fn put_together(pieces: Seq<Seq<char>>, sep: Seq<char>) -> Seq<char>
    decreases pieces.len(),
{
    if pieces.len() == 0 {
        Seq::empty()
    } else if pieces.len() == 1 {
        pieces[0]
    } else {
        put_together(pieces.drop_last(), sep) + sep + pieces.last()
    }
}

/// A text split at a character: the pieces with the character between them are
/// the text, and none of them holds the character.
pub proof fn pieces_make_the_text(s: Seq<char>, sep: char)
    ensures
        put_together(split_on(s, sep), seq![sep]) == s,
        forall|i: int, k: int|
            0 <= i < split_on(s, sep).len() && 0 <= k < split_on(s, sep)[i].len() ==> (
            #[trigger] split_on(s, sep)[i][k]) != sep,
    decreases s.len(),
{
    let pieces = split_on(s, sep);
    split_on_not_empty(s, sep);
    if s.len() == 0 {
        assert(put_together(pieces, seq![sep]) =~= s);
    } else {
        let before = split_on(s.drop_last(), sep);
        pieces_make_the_text(s.drop_last(), sep);
        split_on_not_empty(s.drop_last(), sep);
        if s.last() == sep {
            assert(pieces.drop_last() =~= before);
            assert(put_together(pieces, seq![sep]) =~= s.drop_last() + seq![sep]);
            assert(s.drop_last() + seq![sep] =~= s);
        } else {
            assert(pieces.drop_last() =~= before.drop_last());
            let longer = before.last().push(s.last());
            if before.len() == 1 {
                assert(before[0].push(s.last()) =~= s);
            } else {
                let head = put_together(before.drop_last(), seq![sep]) + seq![sep];
                assert(head + longer =~= (head + before.last()).push(s.last()));
                assert((head + before.last()).push(s.last()) =~= s);
            }
        }
        assert forall|i: int, k: int|
            0 <= i < pieces.len() && 0 <= k < pieces[i].len() implies (#[trigger] pieces[i][k])
            != sep by {
            if i < before.len() - 1 || (s.last() == sep && i < before.len()) {
                assert(pieces[i] == before[i]);
                assert(before[i][k] != sep);
            } else if s.last() != sep && k < before[i].len() {
                assert(before[i][k] == pieces[i][k]);
                assert(before[i][k] != sep);
            }
        }
    }
}

/// A text split at another: the pieces with the other between them are the text.
pub proof fn parts_make_the_text(s: Seq<char>, sep: Seq<char>)
    requires
        sep.len() > 0,
    ensures
        split_at_text(s, sep).len() >= 1,
        put_together(split_at_text(s, sep), sep) == s,
    decreases s.len(),
{
    let pieces = split_at_text(s, sep);
    if s.len() == 0 {
    } else if has_prefix(s, sep) {
        let rest = s.subrange(sep.len() as int, s.len() as int);
        parts_make_the_text(rest, sep);
        first_piece_apart(Seq::empty(), split_at_text(rest, sep), sep);
        assert(Seq::<char>::empty() + sep + rest =~= s) by {
            assert(sep == s.subrange(0, sep.len() as int));
        }
    } else {
        let tail = s.subrange(1, s.len() as int);
        let rest = split_at_text(tail, sep);
        parts_make_the_text(tail, sep);
        longer_first_piece(s[0], rest, sep);
        assert(seq![s[0]] + tail =~= s);
    }
}

proof fn first_piece_apart(first: Seq<char>, rest: Seq<Seq<char>>, sep: Seq<char>)
    requires
        rest.len() > 0,
    ensures
        put_together(seq![first] + rest, sep) == first + sep + put_together(rest, sep),
    decreases rest.len(),
{
    let all = seq![first] + rest;
    assert(all.drop_last() =~= seq![first] + rest.drop_last());
    assert(all.last() == rest.last());
    if rest.len() == 1 {
        assert(all.drop_last() =~= seq![first]);
        reveal_with_fuel(put_together, 2);
    } else {
        first_piece_apart(first, rest.drop_last(), sep);
        assert(first + sep + put_together(rest.drop_last(), sep) + sep + rest.last() =~= first + sep
            + (put_together(rest.drop_last(), sep) + sep + rest.last()));
    }
}

proof fn longer_first_piece(c: char, rest: Seq<Seq<char>>, sep: Seq<char>)
    requires
        rest.len() > 0,
    ensures
        put_together(seq![seq![c] + rest[0]] + rest.subrange(1, rest.len() as int), sep) == seq![c]
            + put_together(rest, sep),
    decreases rest.len(),
{
    let all = seq![seq![c] + rest[0]] + rest.subrange(1, rest.len() as int);
    if rest.len() == 1 {
        assert(all =~= seq![seq![c] + rest[0]]);
    } else {
        let less = rest.drop_last();
        longer_first_piece(c, less, sep);
        assert(all.drop_last() =~= seq![seq![c] + less[0]] + less.subrange(1, less.len() as int));
        assert(all.last() == rest.last());
        assert(seq![c] + put_together(less, sep) + sep + rest.last() =~= seq![c] + (put_together(
            less,
            sep,
        ) + sep + rest.last()));
    }
}

/// Items joined with a separator are the items with the separator between them.
pub proof fn joined_items_are_put_together(items: Seq<Seq<char>>, sep: Seq<char>)
    ensures
        joined(items, sep) == put_together(items, sep),
    decreases items.len(),
{
    if items.len() > 1 {
        joined_items_are_put_together(items.drop_last(), sep);
    }
}

/// Words one behind the other.
pub open spec fn run_together(words: Seq<Seq<char>>) -> Seq<char>
    decreases words.len(),
{
    if words.len() == 0 {
        Seq::empty()
    } else {
        run_together(words.drop_last()) + words.last()
    }
}

/// The words of a text are what is left of it without the white space; none is
/// empty, and one begins wherever white space, or nothing, stands in front of
/// another character.
pub proof fn words_are_what_space_leaves(s: Seq<char>)
    ensures
        run_together(words_of(s)) == s.filter(|c: char| !is_space(c)),
        forall|i: int| 0 <= i < words_of(s).len() ==> (#[trigger] words_of(s)[i]).len() > 0,
        words_of(s).len() == sums::places_where(
            s.len(),
            |i: int| !is_space(s[i]) && (i == 0 || is_space(s[i - 1])),
        ),
{
    words_so_far(s);
    let (words, rest) = words_and_rest(s);
    if rest.len() > 0 {
        assert(words.push(rest).drop_last() =~= words);
    } else {
        assert(run_together(words) + rest =~= run_together(words));
    }
}

proof fn words_so_far(s: Seq<char>)
    ensures
        ({
            let (words, rest) = words_and_rest(s);
            &&& run_together(words) + rest == s.filter(|c: char| !is_space(c))
            &&& forall|i: int| 0 <= i < words.len() ==> (#[trigger] words[i]).len() > 0
            &&& words.len() + (if rest.len() > 0 {
                1nat
            } else {
                0
            }) == sums::places_where(
                s.len(),
                |i: int| !is_space(s[i]) && (i == 0 || is_space(s[i - 1])),
            )
            &&& rest.len() > 0 <==> s.len() > 0 && !is_space(s.last())
        }),
    decreases s.len(),
{
    reveal(Seq::filter);
    let kept = |c: char| !is_space(c);
    if s.len() == 0 {
        assert(run_together(Seq::empty()) + Seq::<char>::empty() =~= s.filter(kept));
    } else {
        let less = s.drop_last();
        words_so_far(less);
        let (words, rest) = words_and_rest(less);
        sums::same_places(
            less.len(),
            |i: int| !is_space(less[i]) && (i == 0 || is_space(less[i - 1])),
            |i: int| !is_space(s[i]) && (i == 0 || is_space(s[i - 1])),
        );
        if !is_space(s.last()) {
            assert(run_together(words) + rest.push(s.last()) =~= (run_together(words) + rest).push(
                s.last(),
            ));
        } else if rest.len() > 0 {
            assert(words.push(rest).drop_last() =~= words);
            assert(run_together(words.push(rest)) + Seq::<char>::empty() =~= run_together(words)
                + rest);
        }
        if less.len() > 0 {
            assert(less.last() == s[s.len() - 2]);
        }
    }
}

/// Lines written one behind the other, each with a line feed, are read back as
/// they were, where none holds a line feed or ends in a carriage return.
pub proof fn lines_are_read_back(lines: Seq<Seq<char>>)
    requires
        forall|i: int|
            0 <= i < lines.len() ==> !(#[trigger] lines[i]).contains('\n') && !(lines[i].len() > 0
                && lines[i].last() == '\r'),
    ensures
        lines_of(with_feeds(lines)) == lines,
{
    lines_are_split(lines);
    let pieces = split_on(with_feeds(lines), '\n');
    assert(pieces.drop_last() =~= lines);
    assert(lines.map_values(|p: Seq<char>| line_body(p)) =~= lines);
}

/// Lines, each with a line feed behind it.
pub open spec fn with_feeds(lines: Seq<Seq<char>>) -> Seq<char>
    decreases lines.len(),
{
    if lines.len() == 0 {
        Seq::empty()
    } else {
        (with_feeds(lines.drop_last()) + lines.last()).push('\n')
    }
}

proof fn lines_are_split(lines: Seq<Seq<char>>)
    requires
        forall|i: int| 0 <= i < lines.len() ==> !(#[trigger] lines[i]).contains('\n'),
    ensures
        split_on(with_feeds(lines), '\n') == lines.push(Seq::<char>::empty()),
    decreases lines.len(),
{
    if lines.len() == 0 {
        assert(seq![Seq::<char>::empty()] =~= lines.push(Seq::<char>::empty()));
    } else {
        let less = lines.drop_last();
        assert forall|i: int| 0 <= i < less.len() implies !(#[trigger] less[i]).contains('\n') by {
            assert(less[i] == lines[i]);
        }
        lines_are_split(less);
        let front = with_feeds(less);
        let line = lines.last();
        assert(lines[lines.len() - 1] == line);
        one_more_piece(front, less, line);
        let all = (front + line).push('\n');
        assert(all.drop_last() =~= front + line);
        assert(less.push(line) =~= lines);
    }
}

proof fn one_more_piece(front: Seq<char>, pieces: Seq<Seq<char>>, line: Seq<char>)
    requires
        split_on(front, '\n') == pieces.push(Seq::<char>::empty()),
        !line.contains('\n'),
    ensures
        split_on(front + line, '\n') == pieces.push(line),
    decreases line.len(),
{
    if line.len() == 0 {
        assert(front + line =~= front);
        assert(line =~= Seq::<char>::empty());
    } else {
        let less = line.drop_last();
        assert(line[line.len() - 1] != '\n');
        assert forall|i: int| 0 <= i < less.len() implies less[i] != '\n' by {
            assert(line.contains(line[i]));
        }
        one_more_piece(front, pieces, less);
        assert((front + line).drop_last() =~= front + less);
        let before = pieces.push(less);
        assert(less.push(line.last()) =~= line);
        assert(before.update(before.len() - 1, line) =~= pieces.push(line));
    }
}

/// The place of a character is the first at which it stands, or the end where it
/// stands nowhere.
pub proof fn the_first_place_is_first(s: Seq<char>, c: char)
    ensures
        first_place(s, c) <= s.len(),
        first_place(s, c) < s.len() ==> s[first_place(s, c) as int] == c,
        forall|i: int| 0 <= i < first_place(s, c) ==> #[trigger] s[i] != c,
        s.contains(c) <==> first_place(s, c) < s.len(),
    decreases s.len(),
{
    if s.len() > 0 && s[0] != c {
        let tail = s.subrange(1, s.len() as int);
        the_first_place_is_first(tail, c);
        assert forall|i: int| 0 <= i < first_place(s, c) implies #[trigger] s[i] != c by {
            if i > 0 {
                assert(s[i] == tail[i - 1]);
            }
        }
        if first_place(s, c) < s.len() {
            assert(s[first_place(s, c) as int] == tail[first_place(tail, c) as int]);
        }
    }
}

/// A text comes before another where they first differ, by the character there,
/// or where it ends while the other goes on.
pub proof fn texts_are_ordered_where_they_differ(a: Seq<char>, b: Seq<char>, k: int)
    requires
        0 <= k <= a.len() && k <= b.len(),
        a.subrange(0, k) == b.subrange(0, k),
        k == a.len() || k == b.len() || a[k] != b[k],
    ensures
        text_less(a, b) <==> k < b.len() && (k == a.len() || a[k] < b[k]),
    decreases k,
{
    if k > 0 {
        let (x, y) = (a.subrange(1, a.len() as int), b.subrange(1, b.len() as int));
        assert(a[0] == a.subrange(0, k)[0] && b[0] == b.subrange(0, k)[0]);
        assert(x.subrange(0, k - 1) =~= a.subrange(0, k).subrange(1, k));
        assert(y.subrange(0, k - 1) =~= b.subrange(0, k).subrange(1, k));
        texts_are_ordered_where_they_differ(x, y, k - 1);
    }
}

/// A number that is written in decimal, with a plus sign or without, is read
/// back where it is within the limit, and refused where it is not.
pub proof fn written_numbers_are_read_back(n: nat, limit: nat)
    ensures
        unsigned_value(decimal(n), limit) == if n <= limit {
            Some(n)
        } else {
            None
        },
        unsigned_value(seq!['+'] + decimal(n), limit) == if n <= limit {
            Some(n)
        } else {
            None
        },
{
    decimal_round_trip(n);
    decimal_is_digits(n);
    let d = decimal(n);
    assert(d.len() > 0);
    assert(is_digit(d[0]));
    assert((seq!['+'] + d).subrange(1, d.len() as int + 1) =~= d);
}

/// The items of a list without the white space around them: all that are then
/// not empty, in order.
pub proof fn every_item_is_trimmed(items: Seq<Seq<char>>)
    ensures
        trimmed_items(items) == items.map_values(|i: Seq<char>| trimmed(i)).filter(
            |i: Seq<char>| i.len() > 0,
        ),
    decreases items.len(),
{
    reveal(Seq::filter);
    let cut = items.map_values(|i: Seq<char>| trimmed(i));
    if items.len() > 0 {
        every_item_is_trimmed(items.drop_last());
        assert(cut.drop_last() =~= items.drop_last().map_values(|i: Seq<char>| trimmed(i)));
    }
}

/// Taking an item out of a list leaves all the others in it, and the item
/// nowhere.
pub proof fn the_others_are_left(items: Seq<Seq<char>>, unwanted: Seq<char>, item: Seq<char>)
    ensures
        without(items, unwanted).contains(item) <==> items.contains(item) && item != unwanted,
    decreases items.len(),
{
    reveal(Seq::filter);
    if items.len() > 0 {
        let less = items.drop_last();
        let last = items.last();
        the_others_are_left(less, unwanted, item);
        let left = without(less, unwanted);
        assert(without(items, unwanted) == if last != unwanted {
            left.push(last)
        } else {
            left
        });
        assert(items[items.len() - 1] == last);
        if less.contains(item) {
            let k = choose|k: int| 0 <= k < less.len() && less[k] == item;
            assert(items[k] == item);
        }
        if items.contains(item) && item != last {
            let k = choose|k: int| 0 <= k < items.len() && items[k] == item;
            assert(less[k] == item);
        }
        let more = left.push(last);
        assert(more[left.len() as int] == last);
        if left.contains(item) {
            let k = choose|k: int| 0 <= k < left.len() && left[k] == item;
            assert(more[k] == item);
        }
        if more.contains(item) && item != last {
            let k = choose|k: int| 0 <= k < more.len() && more[k] == item;
            assert(left[k] == item);
        }
    }
}

} // verus!
