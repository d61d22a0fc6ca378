//! Splitting a message into pieces that fit the transport's size limit.

use vstd::prelude::*;

use crate::text::{
    byte_len, bytes_in, char_width, from_chars, joined_with, lemma_byte_len_bounds, lemma_byte_len_concat,
    lemma_line_end, lemma_lines_hold_no_break, line_end, lines, lines_of, texts, to_chars, width_of,
};

verus! {

/// The number of characters of the longest prefix of `s` of at most `max` bytes.
pub open spec fn prefix_within(s: Seq<char>, max: int) -> nat
    decreases s.len(),
{
    if s.len() == 0 || char_width(s[0]) > max {
        0
    } else {
        1 + prefix_within(s.skip(1), max - char_width(s[0]))
    }
}

/// `line` cut into pieces, each the longest that fits in `max` bytes.
pub open spec fn hard_split(line: Seq<char>, max: nat) -> Seq<Seq<char>>
    decreases line.len(),
{
    let cut = prefix_within(line, max as int);
    if line.len() == 0 || cut == 0 || cut > line.len() {
        Seq::empty()
    } else {
        seq![line.take(cut as int)] + hard_split(line.skip(cut as int), max)
    }
}

/// Whether `line` does not fit behind `cur` and a line break.
pub open spec fn overflows(cur: Seq<char>, line: Seq<char>, max: nat) -> bool {
    cur.len() > 0 && byte_len(cur) + byte_len(line) + 1 > max
}

/// `cur` with `line` behind it, on a line of its own.
pub open spec fn with_line(cur: Seq<char>, line: Seq<char>) -> Seq<char> {
    if cur.len() == 0 {
        line
    } else {
        cur.push('\n') + line
    }
}

/// The pieces that come of `lines` when `cur` is the piece being filled.
pub open spec fn pack(cur: Seq<char>, lines: Seq<Seq<char>>, max: nat) -> Seq<Seq<char>>
    decreases lines.len(),
{
    if lines.len() == 0 {
        if cur.len() == 0 {
            Seq::empty()
        } else {
            seq![cur]
        }
    } else {
        let line = lines[0];
        let full = overflows(cur, line, max);
        let done = if full {
            seq![cur]
        } else {
            Seq::empty()
        };
        let open = if full {
            Seq::empty()
        } else {
            cur
        };
        if byte_len(line) > max {
            done + hard_split(line, max) + pack(open, lines.skip(1), max)
        } else {
            done + pack(with_line(open, line), lines.skip(1), max)
        }
    }
}

/// The pieces into which a message is split.
pub open spec fn chunks_of(s: Seq<char>, max: nat) -> Seq<Seq<char>> {
    if byte_len(s) <= max {
        seq![s]
    } else {
        pack(Seq::empty(), lines_of(s), max)
    }
}

/// Whether every character that may have to be placed fits in `max` bytes.
pub open spec fn splittable(s: Seq<char>, max: nat) -> bool {
    byte_len(s) <= max || forall|i: int, j: int|
        0 <= i < lines_of(s).len() && 0 <= j < lines_of(s)[i].len() ==> char_width(
            #[trigger] lines_of(s)[i][j],
        ) <= max
}

pub proof fn lemma_prefix_within(s: Seq<char>, max: int)
    ensures
        prefix_within(s, max) <= s.len(),
        max >= 0 ==> byte_len(s.take(prefix_within(s, max) as int)) <= max,
    decreases s.len(),
{
    let n = prefix_within(s, max) as int;
    if s.len() > 0 && char_width(s[0]) <= max {
        lemma_prefix_within(s.skip(1), max - char_width(s[0]));
        assert(s.take(n).drop_first() =~= s.skip(1).take(n - 1));
    } else {
        assert(s.take(0) =~= Seq::empty());
    }
}

/// Cuts `line` into the longest pieces that fit in `max` bytes.
fn split_line(line: &str, max: usize) -> (out: Vec<String>)
    requires
        forall|j: int| 0 <= j < line@.len() ==> char_width(#[trigger] line@[j]) <= max,
    ensures
        texts(out@) == hard_split(line@, max as nat),
{
    let chars: Vec<char> = to_chars(line);
    let mut out: Vec<String> = Vec::new();
    let mut pos: usize = 0;
    assert(line@.skip(0) =~= line@);
    assert(texts(out@) + hard_split(line@, max as nat) =~= hard_split(line@, max as nat));
    while pos < chars.len()
        invariant
            pos <= chars@.len(),
            chars@ == line@,
            forall|j: int| 0 <= j < line@.len() ==> char_width(#[trigger] line@[j]) <= max,
            texts(out@) + hard_split(line@.skip(pos as int), max as nat) == hard_split(
                line@,
                max as nat,
            ),
        decreases chars@.len() - pos,
    {
        let ghost rest = line@.skip(pos as int);
        let ghost before = texts(out@);
        let mut end: usize = pos;
        let mut room: usize = max;
        while end < chars.len() && width_of(chars[end]) <= room
            invariant
                pos <= end <= chars@.len(),
                chars@ == line@,
                rest == line@.skip(pos as int),
                prefix_within(rest, max as int) == (end - pos) + prefix_within(
                    line@.skip(end as int),
                    room as int,
                ),
                end == pos ==> room == max,
            decreases chars@.len() - end,
        {
            assert(line@.skip(end as int).skip(1) =~= line@.skip(end as int + 1));
            room -= width_of(chars[end]);
            end += 1;
        }
        proof {
            assert(prefix_within(line@.skip(end as int), room as int) == 0);
            assert(char_width(line@[pos as int]) <= max);
        }
        out.push(from_chars(&chars, pos, end));
        proof {
            let cut = (end - pos) as int;
            assert(out@.last()@ =~= rest.take(cut));
            assert(texts(out@) =~= before.push(rest.take(cut)));
            assert(line@.skip(end as int) =~= rest.skip(cut));
            assert(before + (seq![rest.take(cut)] + hard_split(rest.skip(cut), max as nat))
                =~= texts(out@) + hard_split(rest.skip(cut), max as nat));
        }
        pos = end;
    }
    assert(texts(out@) + hard_split(line@.skip(pos as int), max as nat) =~= texts(out@));
    out
}

/// Splits `s` into pieces of at most `max` bytes: at line breaks where possible,
/// between characters where a single line is too long.
pub fn chunk_message(s: &str, max: usize) -> (out: Vec<String>)
    requires
        splittable(s@, max as nat),
    ensures
        texts(out@) == chunks_of(s@, max as nat),
{
    if bytes_in(s) <= max {
        let mut whole: Vec<String> = Vec::new();
        whole.push(s.to_owned());
        assert(texts(whole@) =~= seq![s@]);
        return whole;
    }
    let all: Vec<String> = lines(s);
    let ghost ls = lines_of(s@);
    let ghost m = max as nat;
    let mut out: Vec<String> = Vec::new();
    let mut cur: String = String::new();
    let mut i: usize = 0;
    assert(ls.skip(0) =~= ls);
    assert(texts(out@) + pack(cur@, ls, m) =~= pack(cur@, ls, m));
    while i < all.len()
        invariant
            i <= all@.len(),
            m == max,
            ls == lines_of(s@),
            texts(all@) == ls,
            splittable(s@, m),
            byte_len(s@) > m,
            byte_len(cur@) <= max,
            texts(out@) + pack(cur@, ls.skip(i as int), m) == pack(Seq::empty(), ls, m),
        decreases all@.len() - i,
    {
        let line: &String = &all[i];
        let ghost rest = ls.skip(i as int);
        let ghost cur0 = cur@;
        let ghost out0 = texts(out@);
        assert(line@ == ls[i as int]);
        assert(rest[0] == line@);
        assert(rest.skip(1) =~= ls.skip(i as int + 1));
        let size: usize = bytes_in(line.as_str());
        let used: usize = bytes_in(cur.as_str());
        if size >= max - used && !cur.as_str().is_empty() {
            out.push(cur);
            cur = String::new();
            assert(texts(out@) =~= out0.push(cur0));
        }
        let ghost out1 = texts(out@);
        if size > max {
            let mut pieces: Vec<String> = split_line(line.as_str(), max);
            let ghost ps = texts(pieces@);
            out.append(&mut pieces);
            proof {
                assert(texts(out@) =~= out1 + ps);
                let after = pack(cur@, ls.skip(i as int + 1), m);
                assert(texts(out@) + after =~= out0 + pack(cur0, rest, m));
            }
        } else {
            proof {
                lemma_byte_len_concat(cur@.push('\n'), line@);
                lemma_byte_len_concat(cur@, seq!['\n']);
                assert(cur@.push('\n') =~= cur@ + seq!['\n']);
                assert(byte_len(seq!['\n']) == 1) by {
                    assert(seq!['\n'].drop_first() =~= Seq::empty());
                    reveal_with_fuel(byte_len, 2);
                }
            }
            let ghost open = cur@;
            if !cur.as_str().is_empty() {
                cur.push('\n');
            }
            cur.append(line.as_str());
            proof {
                assert(cur@ =~= with_line(open, line@));
                let after = pack(cur@, ls.skip(i as int + 1), m);
                assert(out1 + after =~= out0 + pack(cur0, rest, m));
            }
        }
        i += 1;
    }
    let ghost out0 = texts(out@);
    let ghost cur0 = cur@;
    if !cur.as_str().is_empty() {
        out.push(cur);
        assert(texts(out@) =~= out0.push(cur0));
    }
    assert(texts(out@) =~= out0 + pack(cur0, ls.skip(i as int), m));
    out
}

/// The texts of `parts`, one behind the other.
pub open spec fn joined(parts: Seq<Seq<char>>) -> Seq<char>
    decreases parts.len(),
{
    if parts.len() == 0 {
        Seq::empty()
    } else {
        parts[0] + joined(parts.skip(1))
    }
}

/// `s` without its line feeds.
pub open spec fn without_breaks(s: Seq<char>) -> Seq<char>
    decreases s.len(),
{
    if s.len() == 0 {
        Seq::empty()
    } else if s[0] == '\n' {
        without_breaks(s.skip(1))
    } else {
        seq![s[0]] + without_breaks(s.skip(1))
    }
}

/// The parts of `s` between its line feeds.
pub open spec fn between_breaks(s: Seq<char>) -> Seq<Seq<char>>
    decreases s.len(),
{
    let n = line_end(s) as int;
    if n >= s.len() {
        seq![s]
    } else {
        seq![s.take(n)] + between_breaks(s.skip(n + 1))
    }
}

/// The lines of `ls` that are not empty, in order.
pub open spec fn non_empty(ls: Seq<Seq<char>>) -> Seq<Seq<char>>
    decreases ls.len(),
{
    if ls.len() == 0 {
        Seq::empty()
    } else if ls[0].len() == 0 {
        non_empty(ls.skip(1))
    } else {
        seq![ls[0]] + non_empty(ls.skip(1))
    }
}

/// The lines that are not empty of all the pieces, in order.
pub open spec fn lines_shown(parts: Seq<Seq<char>>) -> Seq<Seq<char>>
    decreases parts.len(),
{
    if parts.len() == 0 {
        Seq::empty()
    } else {
        non_empty(between_breaks(parts[0])) + lines_shown(parts.skip(1))
    }
}

pub open spec fn chars_fit(s: Seq<char>, max: nat) -> bool {
    forall|j: int| 0 <= j < s.len() ==> char_width(#[trigger] s[j]) <= max
}

pub open spec fn no_break(s: Seq<char>) -> bool {
    forall|j: int| 0 <= j < s.len() ==> #[trigger] s[j] != '\n'
}

proof fn lemma_single(x: Seq<char>)
    ensures
        joined(seq![x]) == x,
        non_empty(seq![x]) == if x.len() == 0 {
            Seq::empty()
        } else {
            seq![x]
        },
        lines_shown(seq![x]) == non_empty(between_breaks(x)),
{
    reveal_with_fuel(joined, 2);
    reveal_with_fuel(non_empty, 2);
    reveal_with_fuel(lines_shown, 2);
    assert(seq![x].skip(1) =~= Seq::empty());
    assert(x + Seq::empty() =~= x);
    assert(seq![x] + Seq::empty() =~= seq![x]);
    assert(non_empty(between_breaks(x)) + Seq::empty() =~= non_empty(between_breaks(x)));
}

proof fn lemma_hard_split(line: Seq<char>, max: nat)
    requires
        chars_fit(line, max),
    ensures
        joined(hard_split(line, max)) == line,
        forall|i: int|
            0 <= i < hard_split(line, max).len() ==> 0 < (#[trigger] hard_split(
                line,
                max,
            )[i]).len() && byte_len(hard_split(line, max)[i]) <= max,
    decreases line.len(),
{
    let cut = prefix_within(line, max as int) as int;
    lemma_prefix_within(line, max as int);
    if line.len() > 0 {
        assert(char_width(line[0]) <= max);
        assert(cut > 0);
        let rest = line.skip(cut);
        lemma_hard_split(rest, max);
        let tail = hard_split(rest, max);
        let all = hard_split(line, max);
        assert(all == seq![line.take(cut)] + tail);
        assert(all.skip(1) =~= tail);
        assert(line.take(cut) + rest =~= line);
        assert forall|i: int| 0 <= i < all.len() implies 0 < (#[trigger] all[i]).len() && byte_len(
            all[i],
        ) <= max by {
            if i > 0 {
                assert(all[i] == tail[i - 1]);
            }
        }
    }
}

proof fn lemma_joined_concat(a: Seq<Seq<char>>, b: Seq<Seq<char>>)
    ensures
        joined(a + b) == joined(a) + joined(b),
    decreases a.len(),
{
    if a.len() == 0 {
        assert(a + b =~= b);
        assert(joined(a) + joined(b) =~= joined(b));
    } else {
        assert((a + b).skip(1) =~= a.skip(1) + b);
        lemma_joined_concat(a.skip(1), b);
        assert(joined(a + b) =~= joined(a) + joined(b));
    }
}

proof fn lemma_without_breaks_concat(a: Seq<char>, b: Seq<char>)
    ensures
        without_breaks(a + b) == without_breaks(a) + without_breaks(b),
    decreases a.len(),
{
    if a.len() == 0 {
        assert(a + b =~= b);
        assert(without_breaks(a) + without_breaks(b) =~= without_breaks(b));
    } else {
        assert((a + b).skip(1) =~= a.skip(1) + b);
        lemma_without_breaks_concat(a.skip(1), b);
        assert(without_breaks(a + b) =~= without_breaks(a) + without_breaks(b));
    }
}

proof fn lemma_without_breaks_same(s: Seq<char>)
    requires
        no_break(s),
    ensures
        without_breaks(s) == s,
    decreases s.len(),
{
    if s.len() > 0 {
        lemma_without_breaks_same(s.skip(1));
        assert(seq![s[0]] + s.skip(1) =~= s);
    }
}

proof fn lemma_without_breaks_line(cur: Seq<char>, line: Seq<char>)
    requires
        no_break(line),
    ensures
        without_breaks(with_line(cur, line)) == without_breaks(cur) + line,
{
    lemma_without_breaks_same(line);
    if cur.len() == 0 {
        assert(without_breaks(cur) + line =~= line);
    } else {
        lemma_without_breaks_concat(cur.push('\n'), line);
        lemma_without_breaks_concat(cur, seq!['\n']);
        assert(cur.push('\n') =~= cur + seq!['\n']);
        assert(without_breaks(seq!['\n']) =~= Seq::empty()) by {
            assert(seq!['\n'].skip(1) =~= Seq::empty());
            reveal_with_fuel(without_breaks, 2);
        }
        assert(without_breaks(cur) + Seq::empty() =~= without_breaks(cur));
    }
}

proof fn lemma_with_line_size(cur: Seq<char>, line: Seq<char>)
    ensures
        cur.len() > 0 ==> byte_len(with_line(cur, line)) == byte_len(cur) + byte_len(line) + 1,
{
    lemma_byte_len_concat(cur.push('\n'), line);
    lemma_byte_len_concat(cur, seq!['\n']);
    assert(cur.push('\n') =~= cur + seq!['\n']);
    assert(byte_len(seq!['\n']) == 1) by {
        assert(seq!['\n'].drop_first() =~= Seq::empty());
        reveal_with_fuel(byte_len, 2);
    }
}

proof fn lemma_pack_sizes(cur: Seq<char>, ls: Seq<Seq<char>>, max: nat)
    requires
        byte_len(cur) <= max,
        forall|i: int| 0 <= i < ls.len() ==> chars_fit(#[trigger] ls[i], max),
    ensures
        forall|i: int|
            0 <= i < pack(cur, ls, max).len() ==> 0 < (#[trigger] pack(cur, ls, max)[i]).len()
                && byte_len(pack(cur, ls, max)[i]) <= max,
    decreases ls.len(),
{
    if ls.len() > 0 {
        let line = ls[0];
        let full = overflows(cur, line, max);
        let open = if full {
            Seq::empty()
        } else {
            cur
        };
        let next = if byte_len(line) > max {
            open
        } else {
            with_line(open, line)
        };
        lemma_with_line_size(open, line);
        lemma_hard_split(line, max);
        assert(chars_fit(line, max));
        assert forall|i: int| 0 <= i < ls.skip(1).len() implies chars_fit(
            #[trigger] ls.skip(1)[i],
            max,
        ) by {
            assert(ls.skip(1)[i] == ls[i + 1]);
        }
        lemma_pack_sizes(next, ls.skip(1), max);
        let out = pack(cur, ls, max);
        let tail = pack(next, ls.skip(1), max);
        let pieces = if byte_len(line) > max {
            hard_split(line, max)
        } else {
            Seq::empty()
        };
        let done = if full {
            seq![cur]
        } else {
            Seq::empty()
        };
        assert(out =~= done + pieces + tail);
        assert forall|i: int| 0 <= i < out.len() implies 0 < (#[trigger] out[i]).len() && byte_len(
            out[i],
        ) <= max by {
            if i < done.len() {
                assert(out[i] == cur);
            } else if i < done.len() + pieces.len() {
                assert(out[i] == pieces[i - done.len()]);
            } else {
                assert(out[i] == tail[i - done.len() - pieces.len()]);
            }
        }
    }
}

proof fn lemma_pack_content(cur: Seq<char>, ls: Seq<Seq<char>>, max: nat)
    requires
        forall|i: int| 0 <= i < ls.len() ==> chars_fit(#[trigger] ls[i], max),
        forall|i: int| 0 <= i < ls.len() ==> no_break(#[trigger] ls[i]),
    ensures
        without_breaks(joined(pack(cur, ls, max))) == without_breaks(cur) + joined(ls),
    decreases ls.len(),
{
    let out = pack(cur, ls, max);
    if ls.len() == 0 {
        assert(without_breaks(cur) + joined(ls) =~= without_breaks(cur));
        lemma_single(cur);
    } else {
        let line = ls[0];
        let full = overflows(cur, line, max);
        let done: Seq<Seq<char>> = if full {
            seq![cur]
        } else {
            Seq::empty()
        };
        let open = if full {
            Seq::empty()
        } else {
            cur
        };
        let rest = ls.skip(1);
        assert forall|i: int| 0 <= i < rest.len() implies chars_fit(#[trigger] rest[i], max)
            && no_break(rest[i]) by {
            assert(rest[i] == ls[i + 1]);
        }
        assert(chars_fit(line, max) && no_break(line));
        lemma_hard_split(line, max);
        lemma_without_breaks_same(line);
        lemma_without_breaks_line(open, line);
        assert(joined(done) =~= if full {
            cur
        } else {
            Seq::empty()
        }) by {
            lemma_single(cur);
        }
        assert(without_breaks(joined(done)) + without_breaks(open) =~= without_breaks(cur));
        if byte_len(line) > max {
            lemma_byte_len_bounds(cur);
            if !full {
                assert(cur =~= Seq::empty());
            }
            let tail = pack(open, rest, max);
            lemma_pack_content(open, rest, max);
            lemma_joined_concat(done + hard_split(line, max), tail);
            lemma_joined_concat(done, hard_split(line, max));
            lemma_without_breaks_concat(joined(done) + line, joined(tail));
            lemma_without_breaks_concat(joined(done), line);
            assert(without_breaks(open) =~= Seq::empty());
            assert(without_breaks(joined(out)) =~= without_breaks(cur) + joined(ls));
        } else {
            let tail = pack(with_line(open, line), rest, max);
            lemma_pack_content(with_line(open, line), rest, max);
            lemma_joined_concat(done, tail);
            lemma_without_breaks_concat(joined(done), joined(tail));
            assert(without_breaks(joined(out)) =~= without_breaks(joined(done)) + (without_breaks(
                open,
            ) + line + joined(rest)));
            assert(without_breaks(joined(out)) =~= (without_breaks(joined(done)) + without_breaks(
                open,
            )) + (line + joined(rest)));
        }
    }
}

/// Every piece of a message fits the limit.
pub proof fn law_chunks_fit(s: Seq<char>, max: nat)
    requires
        splittable(s, max),
    ensures
        forall|i: int|
            0 <= i < chunks_of(s, max).len() ==> byte_len(#[trigger] chunks_of(s, max)[i]) <= max,
{
    if byte_len(s) > max {
        lemma_line_chars_fit(s, max);
        lemma_pack_sizes(Seq::empty(), lines_of(s), max);
    }
}

/// No piece of a message that had to be split is empty.
pub proof fn law_split_chunks_not_empty(s: Seq<char>, max: nat)
    requires
        splittable(s, max),
        byte_len(s) > max,
    ensures
        forall|i: int|
            0 <= i < chunks_of(s, max).len() ==> (#[trigger] chunks_of(s, max)[i]).len() > 0,
{
    lemma_line_chars_fit(s, max);
    lemma_pack_sizes(Seq::empty(), lines_of(s), max);
}

proof fn lemma_line_chars_fit(s: Seq<char>, max: nat)
    requires
        splittable(s, max),
        byte_len(s) > max,
    ensures
        forall|i: int| 0 <= i < lines_of(s).len() ==> chars_fit(#[trigger] lines_of(s)[i], max),
        forall|i: int| 0 <= i < lines_of(s).len() ==> no_break(#[trigger] lines_of(s)[i]),
{
    lemma_lines_hold_no_break(s);
}

/// A message that had to be split loses nothing but line endings: the pieces, one
/// behind the other, hold the characters of the lines in their order.
pub proof fn law_chunks_keep_content(s: Seq<char>, max: nat)
    requires
        splittable(s, max),
        byte_len(s) > max,
    ensures
        without_breaks(joined(chunks_of(s, max))) == joined(lines_of(s)),
{
    lemma_line_chars_fit(s, max);
    lemma_pack_content(Seq::empty(), lines_of(s), max);
    assert(without_breaks(Seq::empty()) + joined(lines_of(s)) =~= joined(lines_of(s)));
}

/// A single line that had to be split is the concatenation of its pieces.
pub proof fn law_single_line_chunks_join_back(s: Seq<char>, max: nat)
    requires
        splittable(s, max),
        no_break(s),
    ensures
        joined(chunks_of(s, max)) == s,
{
    if byte_len(s) <= max {
        lemma_single(s);
    } else {
        lemma_byte_len_bounds(s);
        lemma_line_end(s);
        lemma_line_chars_fit(s, max);
        assert(lines_of(s) == seq![s]);
        assert(lines_of(s)[0] == s);
        lemma_hard_split(s, max);
        assert(lines_of(s).skip(1) =~= Seq::empty());
        reveal_with_fuel(pack, 2);
        assert(chunks_of(s, max) =~= hard_split(s, max));
    }
}

proof fn lemma_non_empty_concat(a: Seq<Seq<char>>, b: Seq<Seq<char>>)
    ensures
        non_empty(a + b) == non_empty(a) + non_empty(b),
    decreases a.len(),
{
    if a.len() == 0 {
        assert(a + b =~= b);
        assert(non_empty(a) + non_empty(b) =~= non_empty(b));
    } else {
        assert((a + b).skip(1) =~= a.skip(1) + b);
        lemma_non_empty_concat(a.skip(1), b);
        assert(non_empty(a + b) =~= non_empty(a) + non_empty(b));
    }
}

proof fn lemma_no_break_is_one_part(s: Seq<char>)
    requires
        no_break(s),
    ensures
        between_breaks(s) == seq![s],
{
    lemma_line_end(s);
}

proof fn lemma_between_breaks_append(a: Seq<char>, b: Seq<char>)
    requires
        no_break(b),
    ensures
        between_breaks(a.push('\n') + b) == between_breaks(a).push(b),
    decreases a.len(),
{
    let s = a.push('\n') + b;
    let n = line_end(s) as int;
    let m = line_end(a) as int;
    lemma_line_end(s);
    lemma_line_end(a);
    assert(s[a.len() as int] == '\n');
    if m >= a.len() {
        if n < a.len() {
            assert(s[n] == a[n]);
        }
        assert(n == a.len());
        assert(s.take(n) =~= a);
        assert(s.skip(n + 1) =~= b);
        lemma_no_break_is_one_part(b);
        assert(between_breaks(s) =~= between_breaks(a).push(b));
    } else {
        if n < m {
            assert(s[n] == a[n]);
        } else if n > m {
            assert(s[m] == a[m]);
        }
        assert(s.take(n) =~= a.take(m));
        assert(s.skip(n + 1) =~= a.skip(m + 1).push('\n') + b);
        lemma_between_breaks_append(a.skip(m + 1), b);
        assert(between_breaks(s) =~= between_breaks(a).push(b));
    }
}

proof fn lemma_lines_shown_one(cur: Seq<char>, line: Seq<char>)
    requires
        no_break(line),
    ensures
        non_empty(between_breaks(with_line(cur, line))) == non_empty(between_breaks(cur))
            + non_empty(seq![line]),
{
    lemma_no_break_is_one_part(line);
    if cur.len() == 0 {
        lemma_no_break_is_one_part(cur);
        lemma_single(cur);
        assert(non_empty(between_breaks(cur)) =~= Seq::empty());
        assert(Seq::<Seq<char>>::empty() + non_empty(seq![line]) =~= non_empty(seq![line]));
    } else {
        lemma_between_breaks_append(cur, line);
        assert(between_breaks(cur).push(line) =~= between_breaks(cur) + seq![line]);
        lemma_non_empty_concat(between_breaks(cur), seq![line]);
    }
}

proof fn lemma_pack_lines(cur: Seq<char>, ls: Seq<Seq<char>>, max: nat)
    requires
        forall|i: int| 0 <= i < ls.len() ==> byte_len(#[trigger] ls[i]) <= max,
        forall|i: int| 0 <= i < ls.len() ==> no_break(#[trigger] ls[i]),
    ensures
        lines_shown(pack(cur, ls, max)) == non_empty(between_breaks(cur)) + non_empty(ls),
    decreases ls.len(),
{
    let out = pack(cur, ls, max);
    let none = Seq::<char>::empty();
    assert(non_empty(between_breaks(none)) =~= Seq::empty()) by {
        lemma_no_break_is_one_part(none);
        lemma_single(none);
    }
    if cur.len() == 0 {
        assert(cur =~= none);
    }
    if ls.len() == 0 {
        assert(non_empty(between_breaks(cur)) + non_empty(ls) =~= non_empty(between_breaks(cur)));
        lemma_single(cur);
    } else {
        let line = ls[0];
        let rest = ls.skip(1);
        assert(byte_len(line) <= max && no_break(line));
        assert forall|i: int| 0 <= i < rest.len() implies byte_len(#[trigger] rest[i]) <= max
            && no_break(rest[i]) by {
            assert(rest[i] == ls[i + 1]);
        }
        assert(seq![line] + rest =~= ls);
        lemma_non_empty_concat(seq![line], rest);
        if overflows(cur, line, max) {
            let tail = pack(with_line(none, line), rest, max);
            lemma_pack_lines(with_line(none, line), rest, max);
            lemma_lines_shown_one(none, line);
            assert(out =~= seq![cur] + tail);
            assert(out.skip(1) =~= tail);
            assert(lines_shown(out) =~= non_empty(between_breaks(cur)) + non_empty(ls));
        } else {
            let tail = pack(with_line(cur, line), rest, max);
            lemma_pack_lines(with_line(cur, line), rest, max);
            lemma_lines_shown_one(cur, line);
            assert(out =~= tail);
            assert(lines_shown(out) =~= non_empty(between_breaks(cur)) + non_empty(ls));
        }
    }
}

/// Where every line fits the limit, no line is cut: the lines of the pieces are
/// those of the message, empty ones aside, whole and in their order.
pub proof fn law_chunks_keep_lines_whole(s: Seq<char>, max: nat)
    requires
        byte_len(s) > max,
        forall|i: int| 0 <= i < lines_of(s).len() ==> byte_len(#[trigger] lines_of(s)[i]) <= max,
    ensures
        lines_shown(chunks_of(s, max)) == non_empty(lines_of(s)),
{
    lemma_lines_hold_no_break(s);
    lemma_pack_lines(Seq::empty(), lines_of(s), max);
    let none = Seq::<char>::empty();
    lemma_no_break_is_one_part(none);
    lemma_single(none);
    assert(non_empty(between_breaks(none)) =~= Seq::empty());
    assert(non_empty(between_breaks(none)) + non_empty(lines_of(s)) =~= non_empty(lines_of(s)));
}

/// Whether `pieces` are a line that was cut: one behind the other they are the line, each
/// fits the limit, and none has room for the next character.
pub open spec fn cut_line(pieces: Seq<Seq<char>>, line: Seq<char>, max: nat) -> bool {
    &&& joined(pieces) == line
    &&& forall|i: int|
        0 <= i < pieces.len() ==> 0 < (#[trigger] pieces[i]).len() && byte_len(pieces[i]) <= max
    &&& forall|i: int|
        0 < i < pieces.len() ==> byte_len(pieces[i - 1]) + char_width(
            (#[trigger] pieces[i])[0],
        ) > max
}

/// Whether `out` are the lines `ls`, cut where it is needed and nowhere else. Each piece
/// holds lines that follow one another, with a line feed between each two, and the line
/// behind them has no room in it; a line that is too long for any piece is cut by itself.
/// Only empty lines at the beginning of a piece are left out.
pub open spec fn cut_where_needed(out: Seq<Seq<char>>, ls: Seq<Seq<char>>, max: nat) -> bool
    decreases ls.len(),
{
    if ls.len() == 0 {
        out.len() == 0
    } else {
        ||| ls[0].len() == 0 && cut_where_needed(out, ls.skip(1), max)
        ||| ls[0].len() > 0 && byte_len(ls[0]) <= max && exists|n: int|
            #![trigger ls.take(n)]
            0 < n <= ls.len() && out.len() > 0 && out[0] == joined_with(ls.take(n), "\n"@)
                && byte_len(out[0]) <= max && (n < ls.len() ==> byte_len(out[0]) + 1 + byte_len(
                ls[n],
            ) > max) && cut_where_needed(out.skip(1), ls.skip(n), max)
        ||| byte_len(ls[0]) > max && exists|n: int|
            #![trigger out.take(n)]
            0 <= n <= out.len() && cut_line(out.take(n), ls[0], max) && cut_where_needed(
                out.skip(n),
                ls.skip(1),
                max,
            )
    }
}

proof fn lemma_prefix_is_longest(s: Seq<char>, max: int)
    requires
        max >= 0,
    ensures
        prefix_within(s, max) < s.len() ==> byte_len(s.take(prefix_within(s, max) as int))
            + char_width(s[prefix_within(s, max) as int]) > max,
    decreases s.len(),
{
    let n = prefix_within(s, max) as int;
    lemma_prefix_within(s, max);
    if s.len() > 0 && char_width(s[0]) <= max {
        lemma_prefix_is_longest(s.skip(1), max - char_width(s[0]));
        assert(s.take(n).drop_first() =~= s.skip(1).take(n - 1));
        if n < s.len() {
            assert(s.skip(1)[n - 1] == s[n]);
        }
    } else {
        assert(s.take(0) =~= Seq::empty());
    }
}

proof fn lemma_hard_split_cuts(line: Seq<char>, max: nat)
    requires
        chars_fit(line, max),
    ensures
        cut_line(hard_split(line, max), line, max),
    decreases line.len(),
{
    lemma_hard_split(line, max);
    let all = hard_split(line, max);
    if line.len() > 0 {
        let cut = prefix_within(line, max as int) as int;
        lemma_prefix_within(line, max as int);
        lemma_prefix_is_longest(line, max as int);
        assert(char_width(line[0]) <= max);
        let rest = line.skip(cut);
        lemma_hard_split_cuts(rest, max);
        let tail = hard_split(rest, max);
        assert(all =~= seq![line.take(cut)] + tail);
        assert forall|i: int| 0 < i < all.len() implies byte_len(all[i - 1]) + char_width(
            (#[trigger] all[i])[0],
        ) > max by {
            assert(all[i] == tail[i - 1]);
            if i > 1 {
                assert(all[i - 1] == tail[i - 2]);
            } else {
                assert(rest.len() > 0);
                let more = prefix_within(rest, max as int) as int;
                lemma_prefix_within(rest, max as int);
                assert(tail[0] == rest.take(more));
                assert(more > 0);
                assert(tail[0][0] == line[cut]);
            }
        }
    }
}

proof fn lemma_joined_line(pre: Seq<Seq<char>>, line: Seq<char>)
    requires
        pre.len() > 0,
        pre[0].len() > 0,
    ensures
        joined_with(pre, "\n"@).len() > 0,
        joined_with(pre.push(line), "\n"@) == with_line(joined_with(pre, "\n"@), line),
    decreases pre.len(),
{
    reveal_strlit("\n");
    let cur = joined_with(pre, "\n"@);
    if pre.len() > 1 {
        lemma_joined_line(pre.drop_last(), line);
    }
    assert(pre.push(line).drop_last() =~= pre);
    assert(cur + "\n"@ =~= cur.push('\n'));
}

proof fn lemma_pack_cuts(pre: Seq<Seq<char>>, ls: Seq<Seq<char>>, max: nat)
    requires
        pre.len() > 0 ==> pre[0].len() > 0 && byte_len(pre[0]) <= max,
        byte_len(joined_with(pre, "\n"@)) <= max,
        forall|i: int| 0 <= i < ls.len() ==> chars_fit(#[trigger] ls[i], max),
    ensures
        cut_where_needed(pack(joined_with(pre, "\n"@), ls, max), pre + ls, max),
    decreases ls.len(),
{
    let cur = joined_with(pre, "\n"@);
    let out = pack(cur, ls, max);
    let all = pre + ls;
    if pre.len() > 0 {
        lemma_joined_line(pre, Seq::empty());
        assert(all[0] == pre[0]);
        assert(all.take(pre.len() as int) =~= pre);
        assert(all.skip(pre.len() as int) =~= ls);
    } else {
        assert(all =~= ls);
    }
    if ls.len() == 0 {
        if pre.len() > 0 {
            assert(out.skip(1) =~= Seq::empty());
            assert(cut_where_needed(out.skip(1), all.skip(pre.len() as int), max));
            assert(out[0] == joined_with(all.take(pre.len() as int), "\n"@));
        }
    } else {
        let line = ls[0];
        let rest = ls.skip(1);
        let none = Seq::<Seq<char>>::empty();
        assert(joined_with(none, "\n"@) =~= Seq::empty());
        assert(chars_fit(line, max));
        assert forall|i: int| 0 <= i < rest.len() implies chars_fit(#[trigger] rest[i], max) by {
            assert(rest[i] == ls[i + 1]);
        }
        let full = overflows(cur, line, max);
        if pre.len() > 0 && !full {
            lemma_joined_line(pre, line);
            lemma_with_line_size(cur, line);
            assert(byte_len(line) <= max);
            lemma_pack_cuts(pre.push(line), rest, max);
            assert(pre.push(line) + rest =~= all);
            assert(out =~= pack(with_line(cur, line), rest, max));
        } else {
            let tail = if pre.len() > 0 {
                out.skip(1)
            } else {
                out
            };
            if byte_len(line) > max {
                let pieces = hard_split(line, max);
                let next = pack(Seq::empty(), rest, max);
                lemma_hard_split_cuts(line, max);
                lemma_pack_cuts(none, rest, max);
                assert(none + rest =~= rest);
                assert(tail =~= pieces + next);
                let n = pieces.len() as int;
                assert(tail.take(n) =~= pieces);
                assert(tail.skip(n) =~= next);
                assert(cut_where_needed(tail, ls, max));
            } else {
                let next = pack(line, rest, max);
                assert(tail =~= next);
                if line.len() == 0 {
                    assert(line =~= Seq::empty());
                    lemma_pack_cuts(none, rest, max);
                    assert(none + rest =~= rest);
                } else {
                    assert(joined_with(seq![line], "\n"@) == line);
                    lemma_pack_cuts(seq![line], rest, max);
                    assert(seq![line] + rest =~= ls);
                }
                assert(cut_where_needed(tail, ls, max));
            }
            if pre.len() > 0 {
                assert(out[0] == cur);
                assert(out.skip(1) == tail);
                assert(byte_len(cur) + 1 + byte_len(all[pre.len() as int]) > max);
                assert(out[0] == joined_with(all.take(pre.len() as int), "\n"@));
            }
        }
    }
}

/// A message that fits is one piece, as it is. One that does not is cut at its line ends,
/// and only where the next line has no room; a line that is too long for any piece is cut
/// between its characters, and only where the next character has no room.
pub proof fn law_message_is_cut_where_needed(s: Seq<char>, max: nat)
    requires
        splittable(s, max),
    ensures
        byte_len(s) <= max ==> chunks_of(s, max) == seq![s],
        byte_len(s) > max ==> cut_where_needed(chunks_of(s, max), lines_of(s), max),
{
    if byte_len(s) > max {
        let none = Seq::<Seq<char>>::empty();
        lemma_line_chars_fit(s, max);
        assert(joined_with(none, "\n"@) =~= Seq::empty());
        lemma_pack_cuts(none, lines_of(s), max);
        assert(none + lines_of(s) =~= lines_of(s));
    }
}

} // verus!
