//! Files that hold one record per line.

use vstd::prelude::*;

use crate::text::{
    is_white, law_stripped_form_is_unique, law_trimming_strips_the_ends, lemma_line_end, line_end,
    lines, lines_of, strip_return, texts, trim, trimmed,
};

verus! {

/// The text of a file with these records: each on a line of its own.
pub open spec fn framed(records: Seq<Seq<char>>) -> Seq<char>
    decreases records.len(),
{
    if records.len() == 0 {
        Seq::empty()
    } else {
        framed(records.drop_last()) + records.last().push('\n')
    }
}

/// The lines of a file that are not blank, each with its number, from 1 on.
pub open spec fn numbered(lines: Seq<Seq<char>>) -> Seq<(int, Seq<char>)>
    decreases lines.len(),
{
    if lines.len() == 0 {
        Seq::empty()
    } else {
        let before = numbered(lines.drop_last());
        if trimmed(lines.last()).len() == 0 {
            before
        } else {
            before.push((lines.len() as int, lines.last()))
        }
    }
}

/// A line of a file.
#[derive(Debug)]
pub struct DataLine {
    /// The line's number, from 1 on.
    pub number: usize,
    pub text: String,
}

pub open spec fn data_views(v: Seq<DataLine>) -> Seq<(int, Seq<char>)> {
    v.map_values(|l: DataLine| (l.number as int, l.text@))
}

/// The text of a file with these records.
pub fn frame_lines(records: &Vec<String>) -> (s: String)
    ensures
        s@ == framed(texts(records@)),
{
    let ghost all = texts(records@);
    let mut s: String = String::new();
    let mut i: usize = 0;
    while i < records.len()
        invariant
            i <= records@.len(),
            all == texts(records@),
            s@ == framed(all.take(i as int)),
        decreases records@.len() - i,
    {
        assert(all.take(i as int + 1).drop_last() =~= all.take(i as int));
        let ghost before = s@;
        s.append(records[i].as_str());
        s.push('\n');
        assert(s@ =~= before + all[i as int].push('\n'));
        i += 1;
    }
    assert(all.take(i as int) =~= all);
    s
}

/// The lines of a file that are not blank.
pub fn data_lines(raw: &str) -> (out: Vec<DataLine>)
    ensures
        data_views(out@) == numbered(lines_of(raw@)),
{
    let all: Vec<String> = lines(raw);
    let ghost ls = lines_of(raw@);
    let mut out: Vec<DataLine> = Vec::new();
    let mut i: usize = 0;
    assert(data_views(out@) =~= Seq::empty());
    while i < all.len()
        invariant
            i <= all@.len(),
            texts(all@) == ls,
            data_views(out@) == numbered(ls.take(i as int)),
        decreases all@.len() - i,
    {
        let ghost before = data_views(out@);
        assert(ls.take(i as int + 1).drop_last() =~= ls.take(i as int));
        assert(ls[i as int] == all@[i as int]@);
        if !trim(all[i].as_str()).as_str().is_empty() {
            out.push(DataLine { number: i + 1, text: all[i].clone() });
            assert(data_views(out@) =~= before.push((i as int + 1, ls[i as int])));
        }
        i += 1;
    }
    assert(ls.take(i as int) =~= ls);
    out
}

/// Whether a record fits on a line: it holds no line feed and does not end in a
/// carriage return.
pub open spec fn fits_line(r: Seq<char>) -> bool {
    &&& forall|i: int| 0 <= i < r.len() ==> r[i] != '\n'
    &&& r.len() > 0 ==> r.last() != '\r'
}

proof fn lemma_framed_first(records: Seq<Seq<char>>)
    requires
        records.len() > 0,
    ensures
        framed(records) == records[0].push('\n') + framed(records.skip(1)),
    decreases records.len(),
{
    if records.len() == 1 {
        assert(records.drop_last() =~= Seq::empty());
        assert(records.skip(1) =~= Seq::empty());
        assert(framed(records.drop_last()) =~= Seq::empty());
        assert(framed(records.skip(1)) =~= Seq::empty());
        assert(framed(records) =~= records[0].push('\n') + framed(records.skip(1)));
    } else {
        lemma_framed_first(records.drop_last());
        assert(records.drop_last().skip(1) =~= records.skip(1).drop_last());
        assert(framed(records) =~= records[0].push('\n') + framed(records.skip(1)));
    }
}

/// The lines of a file are the records that it was written with.
pub proof fn law_lines_give_back_records(records: Seq<Seq<char>>)
    requires
        forall|i: int| 0 <= i < records.len() ==> fits_line(#[trigger] records[i]),
    ensures
        lines_of(framed(records)) == records,
    decreases records.len(),
{
    if records.len() == 0 {
        assert(lines_of(framed(records)) =~= records);
    } else {
        lemma_framed_first(records);
        let r = records[0];
        let rest = framed(records.skip(1));
        let s = r.push('\n') + rest;
        let n = line_end(s) as int;
        lemma_line_end(s);
        assert(fits_line(r));
        assert(s[r.len() as int] == '\n');
        if n < r.len() {
            assert(s[n] == r[n]);
        }
        assert(n == r.len());
        assert(s.take(n) =~= r);
        assert(s.skip(n + 1) =~= rest);
        assert(strip_return(r) == r);
        assert forall|i: int| 0 <= i < records.skip(1).len() implies fits_line(
            #[trigger] records.skip(1)[i],
        ) by {
            assert(records.skip(1)[i] == records[i + 1]);
        }
        law_lines_give_back_records(records.skip(1));
        assert(lines_of(s) == seq![r] + records.skip(1));
        assert(seq![r] + records.skip(1) =~= records);
    }
}

/// Reading a file gives back every record that it was written with, where none is
/// blank.
pub proof fn law_read_gives_back_what_was_written(records: Seq<Seq<char>>)
    requires
        forall|i: int|
            0 <= i < records.len() ==> fits_line(#[trigger] records[i]) && trimmed(
                records[i],
            ).len() > 0,
    ensures
        numbered(lines_of(framed(records))) == Seq::new(
            records.len(),
            |i: int| (i + 1, records[i]),
        ),
{
    law_lines_give_back_records(records);
    lemma_numbered_all(records);
}

proof fn lemma_numbered_all(ls: Seq<Seq<char>>)
    requires
        forall|i: int| 0 <= i < ls.len() ==> trimmed(#[trigger] ls[i]).len() > 0,
    ensures
        numbered(ls) == Seq::new(ls.len(), |i: int| (i + 1, ls[i])),
    decreases ls.len(),
{
    if ls.len() > 0 {
        assert forall|i: int| 0 <= i < ls.drop_last().len() implies trimmed(
            #[trigger] ls.drop_last()[i],
        ).len() > 0 by {
            assert(ls.drop_last()[i] == ls[i]);
        }
        lemma_numbered_all(ls.drop_last());
        assert(trimmed(ls[ls.len() - 1]).len() > 0);
    }
    assert(numbered(ls) =~= Seq::new(ls.len(), |i: int| (i + 1, ls[i])));
}

/// Records are written one after the other, each with a line feed behind it.
pub proof fn law_records_are_written_in_order(a: Seq<Seq<char>>, b: Seq<Seq<char>>)
    ensures
        framed(a + b) == framed(a) + framed(b),
        a.len() == 1 ==> framed(a) == a[0].push('\n'),
    decreases b.len(),
{
    if a.len() == 1 {
        assert(a.drop_last() =~= Seq::empty());
        reveal_with_fuel(framed, 2);
        assert(framed(a) =~= a[0].push('\n'));
    }
    if b.len() == 0 {
        assert(a + b =~= a);
        assert(framed(a + b) =~= framed(a) + framed(b));
    } else {
        law_records_are_written_in_order(a, b.drop_last());
        assert((a + b).drop_last() =~= a + b.drop_last());
        assert(framed(a + b) =~= framed(a) + framed(b));
    }
}

/// Whether a line holds anything but white space.
pub open spec fn holds_something(line: Seq<char>) -> bool {
    exists|i: int| 0 <= i < line.len() && !is_white(#[trigger] line[i])
}

/// The lines that are read are those that hold anything but white space, whole, in their
/// order, each with the number under which it stands in the file.
pub proof fn law_lines_keep_their_numbers(ls: Seq<Seq<char>>)
    ensures
        forall|k: int|
            0 <= k < numbered(ls).len() ==> 1 <= (#[trigger] numbered(ls)[k]).0 <= ls.len()
                && numbered(ls)[k].1 == ls[numbered(ls)[k].0 - 1] && holds_something(
                numbered(ls)[k].1,
            ),
        forall|i: int|
            0 <= i < ls.len() && holds_something(#[trigger] ls[i]) ==> numbered(ls).contains(
                (i + 1, ls[i]),
            ),
        forall|k: int, l: int|
            0 <= k < l < numbered(ls).len() ==> numbered(ls)[k].0 < numbered(ls)[l].0,
    decreases ls.len(),
{
    let all = numbered(ls);
    if ls.len() > 0 {
        let n = ls.len() - 1;
        let earlier = ls.drop_last();
        let was = numbered(earlier);
        law_lines_keep_their_numbers(earlier);
        law_trimming_strips_the_ends(ls[n]);
        law_stripped_form_is_unique(ls[n], trimmed(ls[n]), trimmed(ls[n]));
        assert forall|k: int| 0 <= k < all.len() implies 1 <= (#[trigger] all[k]).0 <= ls.len()
            && all[k].1 == ls[all[k].0 - 1] && holds_something(all[k].1) by {
            if k < was.len() {
                assert(all[k] == was[k]);
                assert(earlier[was[k].0 - 1] == ls[was[k].0 - 1]);
            }
        }
        assert forall|i: int|
            0 <= i < ls.len() && holds_something(#[trigger] ls[i]) implies all.contains(
            (i + 1, ls[i]),
        ) by {
            if i < n {
                assert(earlier[i] == ls[i]);
                assert(was.contains((i + 1, earlier[i])));
                let k = choose|k: int| 0 <= k < was.len() && was[k] == (i + 1, earlier[i]);
                assert(all[k] == (i + 1, ls[i]));
            } else {
                assert(all[all.len() - 1] == (i + 1, ls[i]));
            }
        }
        assert forall|k: int, l: int| 0 <= k < l < all.len() implies all[k].0 < all[l].0 by {
            assert(all[k] == was[k]);
            if l < was.len() {
                assert(all[l] == was[l]);
            }
        }
    }
}

} // verus!
