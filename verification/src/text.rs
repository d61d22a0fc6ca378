//! Text as a sequence of characters: byte lengths, trimming, lines, searching,
//! joining and decimal numbers.

use vstd::prelude::*;
use vstd::utf8::{char_is_scalar, encode_scalar, encode_utf8};

verus! {

/// `String::push` appends the given character at the end of the string.
pub assume_specification[ String::push ](s: &mut String, c: char)
    ensures
        final(s)@ == old(s)@.push(c),
;

/// The texts held by a sequence of strings.
pub open spec fn texts(v: Seq<String>) -> Seq<Seq<char>> {
    v.map_values(|s: String| s@)
}

/// The text of an optional string.
pub open spec fn text_option(s: Option<String>) -> Option<Seq<char>> {
    match s {
        Some(t) => Some(t@),
        None => None,
    }
}

/// The text of an optional string slice.
pub open spec fn slice_option(s: Option<&str>) -> Option<Seq<char>> {
    match s {
        Some(t) => Some(t@),
        None => None,
    }
}

/// A copy of an optional string.
pub fn copy_option(s: &Option<String>) -> (r: Option<String>)
    ensures
        text_option(r) == text_option(*s),
{
    match s {
        Some(t) => Some(t.clone()),
        None => None,
    }
}

/// The number of bytes of a character's UTF-8 encoding.
pub open spec fn char_width(c: char) -> nat {
    if (c as u32) < 0x80 {
        1
    } else if (c as u32) < 0x800 {
        2
    } else if (c as u32) < 0x10000 {
        3
    } else {
        4
    }
}

/// The number of bytes of a text's UTF-8 encoding.
pub open spec fn byte_len(s: Seq<char>) -> nat
    decreases s.len(),
{
    if s.len() == 0 {
        0
    } else {
        char_width(s[0]) + byte_len(s.drop_first())
    }
}

pub proof fn lemma_byte_len_is_encoded_len(s: Seq<char>)
    ensures
        byte_len(s) == encode_utf8(s).len(),
    decreases s.len(),
{
    if s.len() > 0 {
        lemma_byte_len_is_encoded_len(s.drop_first());
        char_is_scalar(s[0]);
        assert(encode_scalar(s[0] as u32).len() == char_width(s[0]));
    }
}

pub proof fn lemma_byte_len_concat(a: Seq<char>, b: Seq<char>)
    ensures
        byte_len(a + b) == byte_len(a) + byte_len(b),
    decreases a.len(),
{
    if a.len() == 0 {
        assert(a + b =~= b);
    } else {
        assert((a + b).drop_first() =~= a.drop_first() + b);
        lemma_byte_len_concat(a.drop_first(), b);
    }
}

pub proof fn lemma_byte_len_bounds(s: Seq<char>)
    ensures
        s.len() <= byte_len(s) <= 4 * s.len(),
    decreases s.len(),
{
    if s.len() > 0 {
        lemma_byte_len_bounds(s.drop_first());
    }
}

/// The number of bytes of `c` in UTF-8.
pub fn width_of(c: char) -> (n: usize)
    ensures
        n == char_width(c),
{
    let code: u32 = c as u32;
    if code < 0x80 {
        1
    } else if code < 0x800 {
        2
    } else if code < 0x10000 {
        3
    } else {
        4
    }
}

/// The number of bytes of `s` in UTF-8.
pub fn bytes_in(s: &str) -> (n: usize)
    ensures
        n == byte_len(s@),
{
    proof {
        lemma_byte_len_is_encoded_len(s@);
    }
    s.as_bytes().len()
}

/// The characters of `s`.
pub fn to_chars(s: &str) -> (chars: Vec<char>)
    ensures
        chars@ == s@,
{
    let mut chars: Vec<char> = Vec::new();
    for c in it: s.chars()
        invariant
            it.seq() == s@,
            chars@ == s@.take(it.index() as int),
    {
        chars.push(c);
        assert(chars@ =~= s@.take(it.index() as int + 1));
    }
    assert(s@.take(s@.len() as int) =~= s@);
    chars
}

/// The string made of `chars[from..to]`.
pub fn from_chars(chars: &Vec<char>, from: usize, to: usize) -> (s: String)
    requires
        from <= to <= chars@.len(),
    ensures
        s@ == chars@.subrange(from as int, to as int),
{
    let mut s: String = String::new();
    let mut i: usize = from;
    while i < to
        invariant
            from <= i <= to <= chars@.len(),
            s@ == chars@.subrange(from as int, i as int),
        decreases to - i,
    {
        s.push(chars[i]);
        i += 1;
        assert(s@ =~= chars@.subrange(from as int, i as int));
    }
    s
}

/// Whether `c` has the Unicode property White_Space.
pub open spec fn is_white(c: char) -> bool {
    let n = c as u32;
    ||| 0x09 <= n <= 0x0d
    ||| n == 0x20
    ||| n == 0x85
    ||| n == 0xa0
    ||| n == 0x1680
    ||| 0x2000 <= n <= 0x200a
    ||| n == 0x2028
    ||| n == 0x2029
    ||| n == 0x202f
    ||| n == 0x205f
    ||| n == 0x3000
}

pub fn white(c: char) -> (b: bool)
    ensures
        b == is_white(c),
{
    let n: u32 = c as u32;
    (0x09 <= n && n <= 0x0d) || n == 0x20 || n == 0x85 || n == 0xa0 || n == 0x1680 || (0x2000 <= n
        && n <= 0x200a) || n == 0x2028 || n == 0x2029 || n == 0x202f || n == 0x205f || n == 0x3000
}

/// `s` without its leading white space.
pub open spec fn trimmed_start(s: Seq<char>) -> Seq<char>
    decreases s.len(),
{
    if s.len() > 0 && is_white(s[0]) {
        trimmed_start(s.skip(1))
    } else {
        s
    }
}

/// `s` without its trailing white space.
pub open spec fn trimmed_end(s: Seq<char>) -> Seq<char>
    decreases s.len(),
{
    if s.len() > 0 && is_white(s.last()) {
        trimmed_end(s.drop_last())
    } else {
        s
    }
}

/// `s` without leading and trailing white space.
pub open spec fn trimmed(s: Seq<char>) -> Seq<char> {
    trimmed_end(trimmed_start(s))
}

/// `s` without leading and trailing white space.
pub fn trim(s: &str) -> (r: String)
    ensures
        r@ == trimmed(s@),
{
    let chars: Vec<char> = to_chars(s);
    let mut from: usize = 0;
    assert(chars@.skip(0) =~= chars@);
    while from < chars.len() && white(chars[from])
        invariant
            from <= chars@.len(),
            trimmed_start(s@) == trimmed_start(chars@.skip(from as int)),
            chars@ == s@,
        decreases chars@.len() - from,
    {
        assert(chars@.skip(from as int).skip(1) =~= chars@.skip(from as int + 1));
        from += 1;
    }
    let mut to: usize = chars.len();
    assert(chars@.skip(from as int) =~= chars@.subrange(from as int, to as int));
    while from < to && white(chars[to - 1])
        invariant
            from <= to <= chars@.len(),
            trimmed(s@) == trimmed_end(chars@.subrange(from as int, to as int)),
        decreases to,
    {
        assert(chars@.subrange(from as int, to as int).drop_last() =~= chars@.subrange(
            from as int,
            to as int - 1,
        ));
        to -= 1;
    }
    from_chars(&chars, from, to)
}

/// The number of words of `s`, which white space parts.
pub open spec fn word_count(s: Seq<char>) -> nat
    decreases s.len(),
{
    if s.len() == 0 {
        0
    } else {
        word_count(s.drop_last()) + if !is_white(s.last()) && (s.len() == 1 || is_white(
            s[s.len() - 2],
        )) {
            1nat
        } else {
            0
        }
    }
}

/// The number of words of `s`, which white space parts.
pub fn count_words(s: &str) -> (n: usize)
    ensures
        n == word_count(s@),
{
    let chars: Vec<char> = to_chars(s);
    let mut n: usize = 0;
    let mut i: usize = 0;
    assert(s@.take(0) =~= Seq::empty());
    while i < chars.len()
        invariant
            i <= chars@.len(),
            chars@ == s@,
            n == word_count(s@.take(i as int)),
            n <= i,
        decreases chars@.len() - i,
    {
        assert(s@.take(i as int + 1).drop_last() =~= s@.take(i as int));
        if !white(chars[i]) && (i == 0 || white(chars[i - 1])) {
            n += 1;
        }
        i += 1;
    }
    assert(s@.take(i as int) =~= s@);
    n
}

/// The position of the first line feed of `s`, or the length of `s` if it has none.
pub open spec fn line_end(s: Seq<char>) -> nat
    decreases s.len(),
{
    if s.len() == 0 || s[0] == '\n' {
        0
    } else {
        1 + line_end(s.skip(1))
    }
}

/// `s` without one carriage return at its end.
pub open spec fn strip_return(s: Seq<char>) -> Seq<char> {
    if s.len() > 0 && s.last() == '\r' {
        s.drop_last()
    } else {
        s
    }
}

/// The lines of `s`: each ends in a line feed, which a carriage return may
/// precede, or at the end of `s`. The line endings are not part of the lines, and
/// no empty line follows the last line ending.
pub open spec fn lines_of(s: Seq<char>) -> Seq<Seq<char>>
    decreases s.len(),
{
    if s.len() == 0 {
        Seq::empty()
    } else {
        let n = line_end(s) as int;
        if n >= s.len() {
            seq![s]
        } else {
            seq![strip_return(s.take(n))] + lines_of(s.skip(n + 1))
        }
    }
}

pub proof fn lemma_line_end(s: Seq<char>)
    ensures
        line_end(s) <= s.len(),
        line_end(s) < s.len() ==> s[line_end(s) as int] == '\n',
        forall|i: int| 0 <= i < line_end(s) ==> s[i] != '\n',
    decreases s.len(),
{
    if s.len() > 0 && s[0] != '\n' {
        lemma_line_end(s.skip(1));
        assert forall|i: int| 0 <= i < line_end(s) implies s[i] != '\n' by {
            if i > 0 {
                assert(s[i] == s.skip(1)[i - 1]);
            }
        }
    }
}

/// No line holds a line feed.
pub proof fn lemma_lines_hold_no_break(s: Seq<char>)
    ensures
        forall|i: int, j: int|
            0 <= i < lines_of(s).len() && 0 <= j < lines_of(s)[i].len() ==> lines_of(s)[i][j]
                != '\n',
    decreases s.len(),
{
    if s.len() > 0 {
        lemma_line_end(s);
        let n = line_end(s) as int;
        if n < s.len() {
            let rest = lines_of(s.skip(n + 1));
            lemma_lines_hold_no_break(s.skip(n + 1));
            assert forall|i: int, j: int|
                0 <= i < lines_of(s).len() && 0 <= j < lines_of(s)[i].len() implies lines_of(
                s,
            )[i][j] != '\n' by {
                if i == 0 {
                    assert(lines_of(s)[0] == strip_return(s.take(n)));
                } else {
                    assert(lines_of(s)[i] == rest[i - 1]);
                }
            }
        }
    }
}

/// The lines of `s`.
pub fn lines(s: &str) -> (out: Vec<String>)
    ensures
        texts(out@) == lines_of(s@),
{
    let chars: Vec<char> = to_chars(s);
    let mut out: Vec<String> = Vec::new();
    let mut pos: usize = 0;
    assert(s@.skip(0) =~= s@);
    assert(texts(out@) + lines_of(s@) =~= lines_of(s@));
    while pos < chars.len()
        invariant
            pos <= chars@.len(),
            chars@ == s@,
            texts(out@) + lines_of(s@.skip(pos as int)) == lines_of(s@),
        decreases chars@.len() - pos,
    {
        let ghost rest = s@.skip(pos as int);
        let ghost before = texts(out@);
        let mut end: usize = pos;
        while end < chars.len() && chars[end] != '\n'
            invariant
                pos <= end <= chars@.len(),
                chars@ == s@,
                rest == s@.skip(pos as int),
                line_end(rest) == (end - pos) + line_end(s@.skip(end as int)),
            decreases chars@.len() - end,
        {
            assert(s@.skip(end as int).skip(1) =~= s@.skip(end as int + 1));
            end += 1;
        }
        proof {
            assert(line_end(s@.skip(end as int)) == 0);
        }
        if end == chars.len() {
            out.push(from_chars(&chars, pos, end));
            pos = end;
            proof {
                assert(lines_of(s@.skip(pos as int)) =~= Seq::empty());
                assert(out@.last()@ =~= rest);
                assert(texts(out@) =~= before.push(rest));
                assert(texts(out@) + lines_of(s@.skip(pos as int)) =~= before + seq![rest]);
            }
        } else {
            let stop: usize = if end > pos && chars[end - 1] == '\r' {
                end - 1
            } else {
                end
            };
            out.push(from_chars(&chars, pos, stop));
            proof {
                let n = line_end(rest) as int;
                assert(out@.last()@ =~= strip_return(rest.take(n)));
                assert(texts(out@) =~= before.push(strip_return(rest.take(n))));
                assert(s@.skip(end as int + 1) =~= rest.skip(n + 1));
                assert(before + (seq![strip_return(rest.take(n))] + lines_of(rest.skip(n + 1)))
                    =~= texts(out@) + lines_of(rest.skip(n + 1)));
            }
            pos = end + 1;
        }
    }
    assert(texts(out@) + lines_of(s@.skip(pos as int)) =~= texts(out@));
    out
}

/// Whether `a` and `b` are the same text.
pub fn same(a: &str, b: &str) -> (r: bool)
    ensures
        r == (a@ == b@),
{
    let left: Vec<char> = to_chars(a);
    let right: Vec<char> = to_chars(b);
    if left.len() != right.len() {
        return false;
    }
    let mut i: usize = 0;
    while i < left.len()
        invariant
            i <= left@.len(),
            left@.len() == right@.len(),
            left@ == a@,
            right@ == b@,
            forall|j: int| 0 <= j < i ==> left@[j] == right@[j],
        decreases left@.len() - i,
    {
        if left[i] != right[i] {
            return false;
        }
        i += 1;
    }
    assert(a@ =~= b@);
    true
}

/// Whether `part` stands in `s` at position `at`.
pub open spec fn stands_at(s: Seq<char>, part: Seq<char>, at: int) -> bool {
    0 <= at && at + part.len() <= s.len() && s.subrange(at, at + part.len()) == part
}

/// Whether `s` begins with `prefix`.
pub open spec fn begins_with(s: Seq<char>, prefix: Seq<char>) -> bool {
    stands_at(s, prefix, 0)
}

fn matches_at(s: &Vec<char>, part: &Vec<char>, at: usize) -> (r: bool)
    ensures
        r == stands_at(s@, part@, at as int),
{
    if at > s.len() || part.len() > s.len() - at {
        return false;
    }
    let mut i: usize = 0;
    while i < part.len()
        invariant
            i <= part@.len(),
            at + part.len() <= s.len(),
            forall|j: int| 0 <= j < i ==> s@[at + j] == part@[j],
        decreases part@.len() - i,
    {
        if s[at + i] != part[i] {
            assert(s@.subrange(at as int, at + part@.len())[i as int] != part@[i as int]);
            return false;
        }
        i += 1;
    }
    assert(s@.subrange(at as int, at + part@.len()) =~= part@);
    true
}

/// Whether `s` begins with `prefix`.
pub fn starts_with(s: &str, prefix: &str) -> (r: bool)
    ensures
        r == begins_with(s@, prefix@),
{
    matches_at(&to_chars(s), &to_chars(prefix), 0)
}

/// Whether `s` ends with `suffix`.
pub open spec fn finishes_with(s: Seq<char>, suffix: Seq<char>) -> bool {
    stands_at(s, suffix, s.len() - suffix.len())
}

/// Whether `s` ends with `suffix`.
pub fn ends_with(s: &str, suffix: &str) -> (r: bool)
    ensures
        r == finishes_with(s@, suffix@),
{
    let whole: Vec<char> = to_chars(s);
    let part: Vec<char> = to_chars(suffix);
    if part.len() > whole.len() {
        return false;
    }
    matches_at(&whole, &part, whole.len() - part.len())
}

/// Whether `part` occurs in `s`.
pub open spec fn occurs_in(part: Seq<char>, s: Seq<char>) -> bool {
    exists|at: int| stands_at(s, part, at)
}

/// Whether `part` occurs in `s`.
pub fn contains(s: &str, part: &str) -> (r: bool)
    ensures
        r == occurs_in(part@, s@),
{
    let whole: Vec<char> = to_chars(s);
    let needle: Vec<char> = to_chars(part);
    let mut at: usize = 0;
    while at < whole.len()
        invariant
            at <= whole@.len(),
            whole@ == s@,
            needle@ == part@,
            forall|i: int| 0 <= i < at ==> !stands_at(s@, part@, i),
        decreases whole@.len() - at,
    {
        if matches_at(&whole, &needle, at) {
            return true;
        }
        at += 1;
    }
    matches_at(&whole, &needle, at)
}

/// `parts` with `sep` between each two of them.
pub open spec fn joined_with(parts: Seq<Seq<char>>, sep: Seq<char>) -> Seq<char>
    decreases parts.len(),
{
    if parts.len() == 0 {
        Seq::empty()
    } else if parts.len() == 1 {
        parts[0]
    } else {
        joined_with(parts.drop_last(), sep) + sep + parts.last()
    }
}

/// `parts` with `sep` between each two of them.
pub fn join(parts: &Vec<String>, sep: &str) -> (s: String)
    ensures
        s@ == joined_with(texts(parts@), sep@),
{
    let mut s: String = String::new();
    let mut i: usize = 0;
    let ghost all = texts(parts@);
    while i < parts.len()
        invariant
            i <= parts@.len(),
            all == texts(parts@),
            s@ == joined_with(all.take(i as int), sep@),
        decreases parts@.len() - i,
    {
        assert(all.take(i as int + 1).drop_last() =~= all.take(i as int));
        if i > 0 {
            s.append(sep);
        }
        s.append(parts[i].as_str());
        proof {
            if i == 0 {
                assert(s@ =~= all[0]);
            }
        }
        i += 1;
    }
    assert(all.take(i as int) =~= all);
    s
}

/// The decimal digit `d`.
pub open spec fn digit(d: nat) -> char {
    ('0' as u32 + d) as char
}

/// `n` in decimal, without leading zeros.
pub open spec fn decimal_of(n: nat) -> Seq<char>
    decreases n,
{
    if n < 10 {
        seq![digit(n)]
    } else {
        decimal_of(n / 10).push(digit(n % 10))
    }
}

fn digit_char(d: u64) -> (c: char)
    requires
        d < 10,
    ensures
        c == digit(d as nat),
{
    (48u8 + d as u8) as char
}

/// `n` in decimal.
pub fn decimal(n: u64) -> (s: String)
    ensures
        s@ == decimal_of(n as nat),
    decreases n,
{
    let mut s: String = if n < 10 {
        String::new()
    } else {
        decimal(n / 10)
    };
    s.push(digit_char(n % 10));
    assert(s@ =~= decimal_of(n as nat));
    s
}

/// The number that the decimal digits of `s` stand for, or none where `s` holds
/// anything but digits.
pub open spec fn digits_value(s: Seq<char>) -> Option<nat>
    decreases s.len(),
{
    if s.len() == 0 {
        Some(0)
    } else {
        match digits_value(s.drop_last()) {
            Some(v) if '0' <= s.last() && s.last() <= '9' => Some(
                v * 10 + (s.last() as u32 - '0' as u32) as nat,
            ),
            _ => None,
        }
    }
}

/// The number that `s` writes: at least one decimal digit, which one plus sign may
/// precede.
pub open spec fn number_of(s: Seq<char>) -> Option<nat> {
    let digits = if s.len() > 0 && s[0] == '+' {
        s.skip(1)
    } else {
        s
    };
    if digits.len() == 0 {
        None
    } else {
        digits_value(digits)
    }
}

/// What is wrong with a text that `u64` cannot be parsed from, as the `Display` of
/// `std::num::ParseIntError` says it.
pub uninterp spec fn number_refusal(s: Seq<char>) -> Seq<char>;

/// `str::parse` for `u64`: the number that the text writes in decimal, after at most one
/// plus sign. A text that holds anything else, or a number that does not fit, is refused
/// with the named text.
#[verifier::external_body]
pub(crate) fn parse_u64(s: &str) -> (r: Result<u64, String>)
    ensures
        match r {
            Ok(n) => number_of(s@) == Some(n as nat),
            Err(e) => (number_of(s@) matches Some(n) ==> n > u64::MAX) && e@ == number_refusal(s@),
        },
{
    match s.parse::<u64>() {
        Ok(n) => Ok(n),
        Err(e) => Err(e.to_string()),
    }
}

/// The order of texts by their characters' code points.
pub open spec fn text_le(a: Seq<char>, b: Seq<char>) -> bool
    decreases a.len(),
{
    if a.len() == 0 {
        true
    } else if b.len() == 0 {
        false
    } else if a[0] == b[0] {
        text_le(a.skip(1), b.skip(1))
    } else {
        a[0] < b[0]
    }
}

pub proof fn lemma_text_le_total(a: Seq<char>, b: Seq<char>)
    ensures
        text_le(a, b) || text_le(b, a),
    decreases a.len(),
{
    if a.len() > 0 && b.len() > 0 && a[0] == b[0] {
        lemma_text_le_total(a.skip(1), b.skip(1));
    }
}

pub proof fn lemma_text_le_transitive(a: Seq<char>, b: Seq<char>, c: Seq<char>)
    requires
        text_le(a, b),
        text_le(b, c),
    ensures
        text_le(a, c),
    decreases a.len(),
{
    if a.len() > 0 && b.len() > 0 && c.len() > 0 && a[0] == b[0] && b[0] == c[0] {
        lemma_text_le_transitive(a.skip(1), b.skip(1), c.skip(1));
    }
}

pub proof fn lemma_text_le_antisymmetric(a: Seq<char>, b: Seq<char>)
    requires
        text_le(a, b),
        text_le(b, a),
    ensures
        a == b,
    decreases a.len(),
{
    if a.len() > 0 && b.len() > 0 {
        lemma_text_le_antisymmetric(a.skip(1), b.skip(1));
        assert(a =~= seq![a[0]] + a.skip(1));
        assert(b =~= seq![b[0]] + b.skip(1));
    } else {
        assert(a =~= b);
    }
}

/// Whether `a` stands before `b` in the order of texts, or is the same text.
pub fn not_after(a: &str, b: &str) -> (r: bool)
    ensures
        r == text_le(a@, b@),
{
    let left: Vec<char> = to_chars(a);
    let right: Vec<char> = to_chars(b);
    let mut i: usize = 0;
    assert(a@.skip(0) =~= a@ && b@.skip(0) =~= b@);
    while i < left.len() && i < right.len()
        invariant
            i <= left@.len(),
            i <= right@.len(),
            left@ == a@,
            right@ == b@,
            text_le(a@, b@) == text_le(a@.skip(i as int), b@.skip(i as int)),
        decreases left@.len() - i,
    {
        if left[i] != right[i] {
            return left[i] < right[i];
        }
        assert(a@.skip(i as int).skip(1) =~= a@.skip(i as int + 1));
        assert(b@.skip(i as int).skip(1) =~= b@.skip(i as int + 1));
        i += 1;
    }
    i == left.len()
}

/// Whether the texts are in order.
pub open spec fn in_order(v: Seq<Seq<char>>) -> bool {
    forall|i: int, j: int| 0 <= i < j < v.len() ==> text_le(v[i], v[j])
}

/// Puts `x` into the ordered `v`, behind the texts that are not after it.
fn insert_in_order(v: &mut Vec<String>, x: String)
    requires
        in_order(texts(old(v)@)),
    ensures
        in_order(texts(final(v)@)),
        texts(final(v)@).to_multiset() == texts(old(v)@).to_multiset().insert(x@),
{
    let ghost before = texts(v@);
    let mut at: usize = 0;
    while at < v.len() && not_after(v[at].as_str(), x.as_str())
        invariant
            at <= v@.len(),
            before == texts(v@),
            forall|i: int| 0 <= i < at ==> text_le(before[i], x@),
        decreases v@.len() - at,
    {
        assert(before[at as int] == v@[at as int]@);
        at += 1;
    }
    let ghost added = x@;
    proof {
        if at < before.len() {
            assert(before[at as int] == v@[at as int]@);
            lemma_text_le_total(before[at as int], added);
        }
        assert forall|i: int| at <= i < before.len() implies text_le(added, before[i]) by {
            if i > at {
                lemma_text_le_transitive(added, before[at as int], before[i]);
            }
        }
    }
    v.insert(at, x);
    proof {
        let after = texts(v@);
        assert(after =~= before.insert(at as int, added));
        let head = before.take(at as int);
        let rest = before.skip(at as int);
        assert(before =~= head + rest);
        assert(after =~= head.push(added) + rest);
        vstd::seq_lib::lemma_multiset_commutative(head, rest);
        vstd::seq_lib::lemma_multiset_commutative(head.push(added), rest);
        head.to_multiset_ensures();
        assert(after.to_multiset() =~= before.to_multiset().insert(added));
        assert forall|i: int, j: int| 0 <= i < j < after.len() implies text_le(
            after[i],
            after[j],
        ) by {
            if i < at && j > at {
                assert(after[i] == before[i] && after[j] == before[j - 1]);
            } else if i > at {
                assert(after[i] == before[i - 1] && after[j] == before[j - 1]);
            }
        }
    }
}

/// The texts of `v`, in order.
pub fn sorted(v: Vec<String>) -> (out: Vec<String>)
    ensures
        in_order(texts(out@)),
        texts(out@).to_multiset() == texts(v@).to_multiset(),
{
    let mut out: Vec<String> = Vec::new();
    let ghost all = texts(v@);
    let mut i: usize = 0;
    proof {
        broadcast use vstd::seq_lib::group_to_multiset_ensures;
        assert(all.take(0) =~= texts(out@));
    }
    while i < v.len()
        invariant
            i <= v@.len(),
            all == texts(v@),
            in_order(texts(out@)),
            texts(out@).to_multiset() == all.take(i as int).to_multiset(),
        decreases v@.len() - i,
    {
        insert_in_order(&mut out, v[i].clone());
        proof {
            broadcast use vstd::seq_lib::group_to_multiset_ensures;
            assert(all.take(i as int + 1) =~= all.take(i as int).push(all[i as int]));
        }
        i += 1;
    }
    assert(all.take(i as int) =~= all);
    out
}

/// The quoted and escaped form of a text, as the `Debug` of `str` writes it.
pub uninterp spec fn debug_text(s: Seq<char>) -> Seq<char>;

/// The `Debug` of `str`: the result is the named text.
#[verifier::external_body]
pub(crate) fn debug_of(s: &str) -> (r: String)
    ensures
        r@ == debug_text(s@),
{
    format!("{s:?}")
}


/// Whether `t` is `s` but for white space at its ends: it goes from the first to the last
/// character of `s` that is not white space, and keeps every character between them.
pub open spec fn stripped(s: Seq<char>, t: Seq<char>) -> bool {
    exists|from: int, to: int| #[trigger] stripped_at(s, t, from, to)
}

/// Whether `t` is the part of `s` between `from` and `to`, with white space alone around
/// it and none at its ends.
pub open spec fn stripped_at(s: Seq<char>, t: Seq<char>, from: int, to: int) -> bool {
    &&& 0 <= from <= to <= s.len()
    &&& t.len() == to - from
    &&& forall|i: int| 0 <= i < t.len() ==> t[i] == s[from + i]
    &&& forall|i: int| 0 <= i < from ==> is_white(#[trigger] s[i])
    &&& forall|i: int| to <= i < s.len() ==> is_white(#[trigger] s[i])
    &&& from < to ==> !is_white(s[from]) && !is_white(s[to - 1])
}

proof fn lemma_trimmed_start(s: Seq<char>) -> (k: int)
    ensures
        0 <= k <= s.len(),
        trimmed_start(s) == s.skip(k),
        forall|i: int| 0 <= i < k ==> is_white(#[trigger] s[i]),
        k < s.len() ==> !is_white(s[k]),
    decreases s.len(),
{
    if s.len() > 0 && is_white(s[0]) {
        let k = lemma_trimmed_start(s.skip(1));
        assert(s.skip(1).skip(k) =~= s.skip(k + 1));
        assert forall|i: int| 0 <= i < k + 1 implies is_white(#[trigger] s[i]) by {
            if i > 0 {
                assert(s[i] == s.skip(1)[i - 1]);
            }
        }
        k + 1
    } else {
        assert(s.skip(0) =~= s);
        0
    }
}

proof fn lemma_trimmed_end(s: Seq<char>) -> (k: int)
    ensures
        0 <= k <= s.len(),
        trimmed_end(s) == s.take(k),
        forall|i: int| k <= i < s.len() ==> is_white(#[trigger] s[i]),
        k > 0 ==> !is_white(s[k - 1]),
    decreases s.len(),
{
    if s.len() > 0 && is_white(s.last()) {
        let k = lemma_trimmed_end(s.drop_last());
        assert(s.drop_last().take(k) =~= s.take(k));
        assert forall|i: int| k <= i < s.len() implies is_white(#[trigger] s[i]) by {
            if i < s.len() - 1 {
                assert(s[i] == s.drop_last()[i]);
            }
        }
        k
    } else {
        assert(s.take(s.len() as int) =~= s);
        s.len() as int
    }
}

/// Trimming removes the white space at both ends and nothing else.
pub proof fn law_trimming_strips_the_ends(s: Seq<char>)
    ensures
        stripped(s, trimmed(s)),
{
    let from = lemma_trimmed_start(s);
    let rest = s.skip(from);
    let n = lemma_trimmed_end(rest);
    let to = from + n;
    assert forall|i: int| to <= i < s.len() implies is_white(#[trigger] s[i]) by {
        assert(s[i] == rest[i - from]);
    }
    if n > 0 {
        assert(s[to - 1] == rest[n - 1]);
    }
    assert(stripped_at(s, trimmed(s), from, to));
}

/// A text has only one stripped form, and it is empty exactly where the text is blank.
pub proof fn law_stripped_form_is_unique(s: Seq<char>, t: Seq<char>, u: Seq<char>)
    requires
        stripped(s, t),
        stripped(s, u),
    ensures
        t == u,
        t.len() == 0 <==> forall|i: int| 0 <= i < s.len() ==> is_white(#[trigger] s[i]),
{
    let (a, b) = choose|a: int, b: int| #[trigger] stripped_at(s, t, a, b);
    let (c, d) = choose|c: int, d: int| #[trigger] stripped_at(s, u, c, d);
    if a < b {
        assert(!is_white(s[a]) && !is_white(s[b - 1]));
        assert(c <= a && b <= d);
        assert(!is_white(s[c]) && !is_white(s[d - 1]));
        assert(a <= c && d <= b);
    } else if c < d {
        assert(!is_white(s[c]));
        assert(c < a || b <= c);
    }
    assert(t =~= u);
}

/// A number that is written in decimal reads back as that number, and has no leading zero.
pub proof fn law_decimal_reads_back(n: nat)
    ensures
        digits_value(decimal_of(n)) == Some(n),
        number_of(decimal_of(n)) == Some(n),
        decimal_of(n).len() > 0,
        '0' <= decimal_of(n)[0] && decimal_of(n)[0] <= '9',
        n > 0 ==> decimal_of(n)[0] != '0',
    decreases n,
{
    let s = decimal_of(n);
    if n < 10 {
        assert(s.drop_last() =~= Seq::empty());
        reveal_with_fuel(digits_value, 2);
    } else {
        law_decimal_reads_back(n / 10);
        assert(s.drop_last() =~= decimal_of(n / 10));
        assert(s[0] == decimal_of(n / 10)[0]);
    }
    assert(s[0] != '+');
}

/// Texts that are joined stand in their order, with the separator between each two.
pub proof fn law_join_splits(a: Seq<Seq<char>>, b: Seq<Seq<char>>, sep: Seq<char>)
    requires
        a.len() > 0,
        b.len() > 0,
    ensures
        joined_with(a + b, sep) == joined_with(a, sep) + sep + joined_with(b, sep),
        joined_with(seq![a[0]], sep) == a[0],
        joined_with(Seq::empty(), sep) == Seq::<char>::empty(),
    decreases b.len(),
{
    let all = a + b;
    assert(all.last() == b.last());
    if b.len() == 1 {
        assert(all.drop_last() =~= a);
        assert(joined_with(all, sep) =~= joined_with(a, sep) + sep + joined_with(b, sep));
    } else {
        law_join_splits(a, b.drop_last(), sep);
        assert(all.drop_last() =~= a + b.drop_last());
        assert(joined_with(all, sep) =~= joined_with(a, sep) + sep + joined_with(b, sep));
    }
}

/// Each of the texts that are joined occurs in the whole.
pub proof fn law_join_shows_each(parts: Seq<Seq<char>>, sep: Seq<char>, i: int)
    requires
        0 <= i < parts.len(),
    ensures
        occurs_in(parts[i], joined_with(parts, sep)),
    decreases parts.len(),
{
    let whole = joined_with(parts, sep);
    if parts.len() == 1 {
        lemma_occurs_between(Seq::empty(), parts[i], Seq::empty());
        assert(Seq::<char>::empty() + parts[i] + Seq::<char>::empty() =~= whole);
    } else if i == parts.len() - 1 {
        lemma_occurs_between(joined_with(parts.drop_last(), sep) + sep, parts[i], Seq::empty());
        assert(joined_with(parts.drop_last(), sep) + sep + parts[i] + Seq::<char>::empty() =~= whole);
    } else {
        law_join_shows_each(parts.drop_last(), sep, i);
        assert(parts.drop_last()[i] == parts[i]);
        lemma_occurs_in_longer(
            parts[i],
            Seq::empty(),
            joined_with(parts.drop_last(), sep),
            sep + parts.last(),
        );
        assert(Seq::<char>::empty() + joined_with(parts.drop_last(), sep) + (sep + parts.last())
            =~= whole);
    }
}

/// A text occurs in any text that holds it.
pub proof fn lemma_occurs_between(a: Seq<char>, part: Seq<char>, b: Seq<char>)
    ensures
        occurs_in(part, a + part + b),
{
    let s = a + part + b;
    assert(s.subrange(a.len() as int, (a.len() + part.len()) as int) =~= part);
    assert(stands_at(s, part, a.len() as int));
}

/// What occurs in a text occurs in any text that holds that one.
pub proof fn lemma_occurs_in_longer(
    part: Seq<char>,
    a: Seq<char>,
    s: Seq<char>,
    b: Seq<char>,
)
    requires
        occurs_in(part, s),
    ensures
        occurs_in(part, a + s + b),
{
    let at = choose|at: int| stands_at(s, part, at);
    let t = a + s + b;
    assert(t.subrange(a.len() + at, a.len() + at + part.len()) =~= s.subrange(
        at,
        at + part.len(),
    ));
    assert(stands_at(t, part, a.len() + at));
}

/// The words of two texts with white space between them are counted together.
pub proof fn law_words_add_up(a: Seq<char>, c: char, b: Seq<char>)
    requires
        is_white(c),
    ensures
        word_count(a.push(c) + b) == word_count(a) + word_count(b),
    decreases b.len(),
{
    let s = a.push(c) + b;
    if b.len() == 0 {
        assert(s =~= a.push(c));
        assert(s.drop_last() =~= a);
    } else {
        law_words_add_up(a, c, b.drop_last());
        assert(s.drop_last() =~= a.push(c) + b.drop_last());
        assert(s.last() == b.last());
        if b.len() == 1 {
            assert(s[s.len() - 2] == c);
        } else {
            assert(s[s.len() - 2] == b[b.len() - 2]);
        }
    }
}

/// A text without white space is one word, or none where it is empty.
pub proof fn law_text_without_blanks_is_one_word(s: Seq<char>)
    requires
        forall|i: int| 0 <= i < s.len() ==> !is_white(#[trigger] s[i]),
    ensures
        word_count(s) == if s.len() == 0 {
            0nat
        } else {
            1nat
        },
    decreases s.len(),
{
    if s.len() > 0 {
        law_text_without_blanks_is_one_word(s.drop_last());
        if s.len() > 1 {
            assert(!is_white(s[s.len() - 2]));
        }
        assert(!is_white(s[s.len() - 1]));
    }
}

/// The order of texts is decided by the first character in which they differ, and a text
/// comes before those that go on from it.
pub proof fn law_order_of_texts(p: Seq<char>, a: Seq<char>, b: Seq<char>)
    ensures
        text_le(p, p + a),
        a.len() > 0 ==> !text_le(p + a, p),
        a.len() > 0 && b.len() > 0 && a[0] < b[0] ==> text_le(p + a, p + b) && !text_le(
            p + b,
            p + a,
        ),
    decreases p.len(),
{
    if p.len() == 0 {
        assert(p + a =~= a);
        assert(p + b =~= b);
    } else {
        law_order_of_texts(p.skip(1), a, b);
        assert((p + a).skip(1) =~= p.skip(1) + a);
        assert((p + b).skip(1) =~= p.skip(1) + b);
    }
}

/// A line ends at a line feed, and the carriage return before it is no part of it; what
/// follows is read on its own.
pub proof fn law_lines_are_parted_by_line_feeds(line: Seq<char>, rest: Seq<char>)
    requires
        forall|i: int| 0 <= i < line.len() ==> line[i] != '\n',
    ensures
        lines_of(line.push('\r').push('\n') + rest) == seq![line] + lines_of(rest),
        line.len() == 0 || line.last() != '\r' ==> lines_of(line.push('\n') + rest) == seq![line]
            + lines_of(rest),
        line.len() > 0 ==> lines_of(line) == seq![line],
        lines_of(Seq::empty()) == Seq::<Seq<char>>::empty(),
{
    lemma_first_line(line, rest);
    lemma_first_line(line.push('\r'), rest);
    assert(line.push('\r').drop_last() =~= line);
    lemma_line_end(line);
}

proof fn lemma_first_line(line: Seq<char>, rest: Seq<char>)
    requires
        forall|i: int| 0 <= i < line.len() ==> line[i] != '\n',
    ensures
        lines_of(line.push('\n') + rest) == seq![strip_return(line)] + lines_of(rest),
{
    let s = line.push('\n') + rest;
    let n = line_end(s) as int;
    lemma_line_end(s);
    assert(s[line.len() as int] == '\n');
    if n < line.len() {
        assert(s[n] == line[n]);
    }
    assert(n == line.len());
    assert(s.take(n) =~= line);
    assert(s.skip(n + 1) =~= rest);
}

/// A text stands at a position of another exactly where its characters are those of the
/// other from there on, one by one.
pub proof fn law_standing_at_a_position(s: Seq<char>, part: Seq<char>, at: int)
    ensures
        stands_at(s, part, at) <==> 0 <= at && at + part.len() <= s.len() && forall|i: int|
            0 <= i < part.len() ==> #[trigger] part[i] == s[at + i],
{
    if stands_at(s, part, at) {
        assert forall|i: int| 0 <= i < part.len() implies #[trigger] part[i] == s[at + i] by {
            assert(s.subrange(at, at + part.len())[i] == s[at + i]);
        }
    } else if 0 <= at && at + part.len() <= s.len() && (forall|i: int|
        0 <= i < part.len() ==> #[trigger] part[i] == s[at + i]) {
        assert(s.subrange(at, at + part.len()) =~= part);
    }
}

/// A text begins with each of its beginnings, ends with each of its endings, and holds each
/// of its parts; and what it begins with, ends with or holds is one of them.
pub proof fn law_beginnings_endings_and_parts(a: Seq<char>, b: Seq<char>, c: Seq<char>)
    ensures
        begins_with(a + b, a),
        finishes_with(a + b, b),
        occurs_in(b, a + b + c),
        begins_with(a, b) ==> a == b + a.skip(b.len() as int),
        finishes_with(a, b) ==> a == a.take(a.len() - b.len()) + b,
        occurs_in(b, a) ==> exists|at: int|
            0 <= at <= a.len() - b.len() && a == #[trigger] a.take(at) + b + a.skip(at + b.len()),
{
    assert((a + b).subrange(0, a.len() as int) =~= a);
    assert((a + b).subrange((a + b).len() - b.len(), (a + b).len() as int) =~= b);
    lemma_occurs_between(a, b, c);
    if begins_with(a, b) {
        assert(a =~= a.subrange(0, b.len() as int) + a.skip(b.len() as int));
    }
    if finishes_with(a, b) {
        assert(a =~= a.take(a.len() - b.len()) + a.subrange(a.len() - b.len(), a.len() as int));
    }
    if occurs_in(b, a) {
        let at = choose|at: int| stands_at(a, b, at);
        assert(a =~= a.take(at) + a.subrange(at, at + b.len()) + a.skip(at + b.len()));
        assert(a == a.take(at) + b + a.skip(at + b.len()));
    }
}

/// A number is written with digits alone, at least one, after at most one plus sign; zeros
/// before it do not count, and each digit counts ten times what it would one place later.
pub proof fn law_how_numbers_are_written(s: Seq<char>, n: nat, d: nat)
    requires
        d < 10,
    ensures
        number_of(s) is Some ==> {
            let digits = if s[0] == '+' {
                s.skip(1)
            } else {
                s
            };
            digits.len() > 0 && forall|i: int|
                0 <= i < digits.len() ==> '0' <= #[trigger] digits[i] && digits[i] <= '9'
        },
        number_of(seq!['+'] + decimal_of(n)) == Some(n),
        number_of(s) == Some(n) ==> number_of(s + decimal_of(d)) == Some(n * 10 + d),
        number_of(Seq::empty()) is None,
{
    law_decimal_reads_back(n);
    law_decimal_reads_back(d);
    let signed = seq!['+'] + decimal_of(n);
    assert(signed.skip(1) =~= decimal_of(n));
    let digits = if s.len() > 0 && s[0] == '+' {
        s.skip(1)
    } else {
        s
    };
    lemma_only_digits(digits);
    if number_of(s) == Some(n) {
        let more = s + decimal_of(d);
        let more_digits = if more[0] == '+' {
            more.skip(1)
        } else {
            more
        };
        assert(decimal_of(d).len() == 1);
        assert(more_digits =~= digits + decimal_of(d));
        assert(more_digits.drop_last() =~= digits);
        assert(more_digits.last() == digit(d));
    }
}

proof fn lemma_only_digits(s: Seq<char>)
    ensures
        digits_value(s) is Some ==> forall|i: int|
            0 <= i < s.len() ==> '0' <= #[trigger] s[i] && s[i] <= '9',
    decreases s.len(),
{
    if s.len() > 0 && digits_value(s) is Some {
        let earlier = s.drop_last();
        lemma_only_digits(earlier);
        assert forall|i: int| 0 <= i < s.len() implies '0' <= #[trigger] s[i] && s[i] <= '9' by {
            if i < s.len() - 1 {
                assert(s[i] == earlier[i]);
            }
        }
    }
}

/// White space is the space and the characters from the tab to the carriage return, and
/// beyond ASCII the next line, the spaces of every width, and the line and paragraph
/// separators. No letter, digit or sign is.
pub proof fn law_which_characters_are_white_space(c: char)
    ensures
        is_white(c) <==> {
            ||| c == ' '
            ||| '\t' <= c && c <= '\r'
            ||| c == '\u{85}' || c == '\u{a0}' || c == '\u{1680}'
            ||| '\u{2000}' <= c && c <= '\u{200a}'
            ||| c == '\u{2028}' || c == '\u{2029}' || c == '\u{202f}' || c == '\u{205f}'
            ||| c == '\u{3000}'
        },
{
}

} // verus!
