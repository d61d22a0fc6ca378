//! The notes that are always in the agent's prompt.

use vstd::prelude::*;

use crate::text::{
    copy_option, ends_with, finishes_with, from_chars, law_stripped_form_is_unique,
    law_trimming_strips_the_ends, lemma_occurs_between, lemma_text_le_total,
    lemma_text_le_transitive, not_after, occurs_in, stripped, text_le, text_option, to_chars, trim,
    trimmed,
};

verus! {

/// A note.
#[derive(Debug)]
pub struct Block {
    pub file_name: String,
    /// The name that the note is shown under, where its file name is text.
    pub stem: Option<String>,
    pub body: String,
}

/// What a note says.
pub struct BlockView {
    pub file_name: Seq<char>,
    pub stem: Option<Seq<char>>,
    pub body: Seq<char>,
}

impl View for Block {
    type V = BlockView;

    open spec fn view(&self) -> BlockView {
        BlockView {
            file_name: self.file_name@,
            stem: text_option(self.stem),
            body: self.body@,
        }
    }
}

pub open spec fn block_views(v: Seq<Block>) -> Seq<BlockView> {
    v.map_values(|b: Block| b@)
}

/// Whether a file holds a note: its name is more than the extension `.md`.
pub open spec fn names_block(file_name: Seq<char>) -> bool {
    file_name.len() > 3 && finishes_with(file_name, ".md"@)
}

/// Whether a file holds a note.
pub fn is_block_name(file_name: &str) -> (b: bool)
    ensures
        b == names_block(file_name@),
{
    to_chars(file_name).len() > 3 && ends_with(file_name, ".md")
}

/// The name of a note's file without its extension.
pub fn block_stem(file_name: &str) -> (s: String)
    requires
        names_block(file_name@),
    ensures
        s@ == file_name@.take(file_name@.len() - 3),
        file_name@ == s@ + ".md"@,
{
    proof {
        reveal_strlit(".md");
    }
    let chars: Vec<char> = to_chars(file_name);
    let s: String = from_chars(&chars, 0, chars.len() - 3);
    assert(file_name@ =~= s@ + ".md"@);
    s
}

/// Notes in order, with `b` put behind those that are not after it.
pub open spec fn with_block(v: Seq<BlockView>, b: BlockView) -> Seq<BlockView>
    decreases v.len(),
{
    if v.len() == 0 || text_le(v.last().file_name, b.file_name) {
        v.push(b)
    } else {
        with_block(v.drop_last(), b).push(v.last())
    }
}

/// Notes in the order of their file names.
pub open spec fn by_file_name(v: Seq<BlockView>) -> Seq<BlockView>
    decreases v.len(),
{
    if v.len() == 0 {
        Seq::empty()
    } else {
        with_block(by_file_name(v.drop_last()), v.last())
    }
}

/// A note as it is shown.
pub open spec fn block_text(b: BlockView) -> Seq<char> {
    "\n---\n## block: "@ + (match b.stem {
        Some(s) => s,
        None => "block"@,
    }) + "\n\n"@ + trimmed(b.body) + "\n"@
}

/// Notes as they are shown.
pub open spec fn blocks_text(v: Seq<BlockView>) -> Seq<char>
    decreases v.len(),
{
    if v.len() == 0 {
        Seq::empty()
    } else {
        blocks_text(v.drop_last()) + block_text(v.last())
    }
}

/// What stands above the notes.
pub open spec fn agents_header() -> Seq<char> {
    "<!-- AUTO-GENERATED FROM blocks/*.md BEFORE EACH PI INVOCATION. DO NOT EDIT BY HAND. -->\n# Glass — agent context\n\nThis file is rendered fresh from `blocks/*.md` before every Pi invocation. These notes are always in the prompt. Longer notes live in `state/` — read them on demand.\n"@
}

/// What stands below the notes.
pub open spec fn agents_footer() -> Seq<char> {
    "\n---\n## memory tools\n\n- Identity / style / current focus / relationships: edit `blocks/<name>.md` (it'll appear in your prompt next turn).\n- Longer notes (project tracking, research, dossiers, anything bulkier): write to `state/<topic>.md`. You can `read` them when relevant; they aren't auto-loaded.\n- Conversation history: `history/events.jsonl` (audit, append-only) and `history/current.jsonl` (live conversation, rewritten on compaction). Both are written by the bot — don't edit either.\n- Keep blocks short. If a block grows past ~30 lines, move the bulk into `state/` and leave a pointer in the block.\n"@
}

/// Puts `b` behind the notes that are not after it.
fn insert_block(v: &mut Vec<Block>, b: Block)
    ensures
        block_views(final(v)@) == with_block(block_views(old(v)@), b@),
{
    let ghost before = block_views(v@);
    let ghost added = b@;
    let mut at: usize = v.len();
    assert(before.take(before.len() as int) =~= before);
    assert(before.skip(before.len() as int) =~= Seq::empty());
    assert(with_block(before, added) =~= with_block(before.take(at as int), added) + before.skip(
        at as int,
    ));
    while at > 0 && !not_after(v[at - 1].file_name.as_str(), b.file_name.as_str())
        invariant
            at <= v@.len(),
            before == block_views(v@),
            added == b@,
            with_block(before, added) == with_block(before.take(at as int), added) + before.skip(
                at as int,
            ),
        decreases at,
    {
        proof {
            let head = before.take(at as int);
            assert(head.last() == v@[at - 1]@);
            assert(head.drop_last() =~= before.take(at - 1));
            assert(before.skip(at - 1) =~= seq![head.last()] + before.skip(at as int));
            assert(with_block(before.take(at - 1), added) + before.skip(at - 1) =~= with_block(
                before.take(at - 1),
                added,
            ).push(head.last()) + before.skip(at as int));
        }
        at -= 1;
    }
    proof {
        if at > 0 {
            assert(before.take(at as int).last() == v@[at - 1]@);
        }
    }
    v.insert(at, b);
    assert(block_views(v@) =~= before.take(at as int).push(added) + before.skip(at as int));
}

/// The notes in the order of their file names, between what stands above and below
/// them.
pub fn render_agents_md(blocks: Vec<Block>) -> (s: String)
    ensures
        s@ == agents_header() + blocks_text(by_file_name(block_views(blocks@))) + agents_footer(),
{
    let ghost all = block_views(blocks@);
    let mut sorted: Vec<Block> = Vec::new();
    let mut i: usize = 0;
    assert(block_views(sorted@) =~= Seq::empty());
    while i < blocks.len()
        invariant
            i <= blocks@.len(),
            all == block_views(blocks@),
            block_views(sorted@) == by_file_name(all.take(i as int)),
        decreases blocks@.len() - i,
    {
        assert(all.take(i as int + 1).drop_last() =~= all.take(i as int));
        assert(all.take(i as int + 1).last() == blocks@[i as int]@);
        let copy: Block = copy_block(&blocks[i]);
        insert_block(&mut sorted, copy);
        i += 1;
    }
    assert(all.take(i as int) =~= all);
    let mut s: String =
        "<!-- AUTO-GENERATED FROM blocks/*.md BEFORE EACH PI INVOCATION. DO NOT EDIT BY HAND. -->\n# Glass — agent context\n\nThis file is rendered fresh from `blocks/*.md` before every Pi invocation. These notes are always in the prompt. Longer notes live in `state/` — read them on demand.\n".to_owned();
    s.append(show_blocks(&sorted).as_str());
    s.append(
        "\n---\n## memory tools\n\n- Identity / style / current focus / relationships: edit `blocks/<name>.md` (it'll appear in your prompt next turn).\n- Longer notes (project tracking, research, dossiers, anything bulkier): write to `state/<topic>.md`. You can `read` them when relevant; they aren't auto-loaded.\n- Conversation history: `history/events.jsonl` (audit, append-only) and `history/current.jsonl` (live conversation, rewritten on compaction). Both are written by the bot — don't edit either.\n- Keep blocks short. If a block grows past ~30 lines, move the bulk into `state/` and leave a pointer in the block.\n",
    );
    s
}

fn copy_block(b: &Block) -> (r: Block)
    ensures
        r@ == b@,
{
    Block {
        file_name: b.file_name.clone(),
        stem: copy_option(&b.stem),
        body: b.body.clone(),
    }
}

fn show_blocks(v: &Vec<Block>) -> (s: String)
    ensures
        s@ == blocks_text(block_views(v@)),
{
    let ghost all = block_views(v@);
    let mut s: String = String::new();
    let mut i: usize = 0;
    while i < v.len()
        invariant
            i <= v@.len(),
            all == block_views(v@),
            s@ == blocks_text(all.take(i as int)),
        decreases v@.len() - i,
    {
        assert(all.take(i as int + 1).drop_last() =~= all.take(i as int));
        assert(all.take(i as int + 1).last() == v@[i as int]@);
        let mut block: String = "\n---\n## block: ".to_owned();
        match &v[i].stem {
            Some(stem) => block.append(stem.as_str()),
            None => block.append("block"),
        }
        block.append("\n\n");
        block.append(trim(v[i].body.as_str()).as_str());
        block.append("\n");
        s.append(block.as_str());
        i += 1;
    }
    assert(all.take(i as int) =~= all);
    s
}

/// Whether notes are in the order of their file names.
pub open spec fn ordered(v: Seq<BlockView>) -> bool {
    forall|i: int, j: int| 0 <= i < j < v.len() ==> text_le(v[i].file_name, v[j].file_name)
}

proof fn lemma_with_block(v: Seq<BlockView>, b: BlockView)
    requires
        ordered(v),
    ensures
        ordered(with_block(v, b)),
        with_block(v, b).to_multiset() == v.to_multiset().insert(b),
        forall|i: int|
            0 <= i < with_block(v, b).len() ==> (#[trigger] with_block(v, b)[i] == b || v.contains(
                with_block(v, b)[i],
            )),
    decreases v.len(),
{
    broadcast use vstd::seq_lib::group_to_multiset_ensures;

    if v.len() == 0 {
    } else if text_le(v.last().file_name, b.file_name) {
        assert forall|i: int| 0 <= i < v.len() implies text_le(v[i].file_name, b.file_name) by {
            if i < v.len() - 1 {
                lemma_text_le_transitive(v[i].file_name, v.last().file_name, b.file_name);
            }
        }
    } else {
        let w = with_block(v.drop_last(), b);
        lemma_with_block(v.drop_last(), b);
        lemma_text_le_total(v.last().file_name, b.file_name);
        assert(w.push(v.last()) == with_block(v, b));
        assert forall|i: int| 0 <= i < w.len() implies text_le(
            w[i].file_name,
            v.last().file_name,
        ) by {
            if w[i] != b {
                let k = choose|k: int| 0 <= k < v.drop_last().len() && v.drop_last()[k] == w[i];
                assert(v[k] == w[i]);
            }
        }
        assert(v =~= v.drop_last().push(v.last()));
        assert(with_block(v, b).to_multiset() =~= v.to_multiset().insert(b));
        assert forall|i: int| 0 <= i < with_block(v, b).len() implies (#[trigger] with_block(
            v,
            b,
        )[i] == b || v.contains(with_block(v, b)[i])) by {
            if i < w.len() && w[i] != b {
                let k = choose|k: int| 0 <= k < v.drop_last().len() && v.drop_last()[k] == w[i];
                assert(v[k] == w[i]);
            } else if i == w.len() {
                assert(v[v.len() - 1] == with_block(v, b)[i]);
            }
        }
    }
}

/// The notes are shown in the order of their file names, each as often as it is there.
pub proof fn law_notes_are_sorted(v: Seq<BlockView>)
    ensures
        ordered(by_file_name(v)),
        by_file_name(v).to_multiset() == v.to_multiset(),
    decreases v.len(),
{
    broadcast use vstd::seq_lib::group_to_multiset_ensures;

    if v.len() > 0 {
        law_notes_are_sorted(v.drop_last());
        lemma_with_block(by_file_name(v.drop_last()), v.last());
        assert(v =~= v.drop_last().push(v.last()));
    } else {
        assert(by_file_name(v) =~= v);
    }
}

/// A file holds a note exactly where its name is something followed by `.md`.
pub proof fn law_which_files_hold_notes(stem: Seq<char>, file_name: Seq<char>)
    ensures
        names_block(stem + ".md"@) <==> stem.len() > 0,
        names_block(file_name) ==> file_name == file_name.take(file_name.len() - 3) + ".md"@,
{
    reveal_strlit(".md");
    let s = stem + ".md"@;
    assert(s.subrange(s.len() - 3, s.len() as int) =~= ".md"@);
    if names_block(file_name) {
        assert(file_name =~= file_name.take(file_name.len() - 3) + ".md"@);
    }
}

/// A note is shown under its name, whole but for the white space at its ends.
pub proof fn law_note_is_shown_whole(b: BlockView, t: Seq<char>)
    requires
        stripped(b.body, t),
    ensures
        blocks_text(seq![b]) == "\n---\n## block: "@ + (if b.stem is Some {
            b.stem->0
        } else {
            "block"@
        }) + "\n\n"@ + t + "\n"@,
{
    law_trimming_strips_the_ends(b.body);
    law_stripped_form_is_unique(b.body, t, trimmed(b.body));
    reveal_with_fuel(blocks_text, 2);
    assert(seq![b].drop_last() =~= Seq::empty());
    assert(blocks_text(seq![b]) =~= block_text(b));
}

/// Notes are shown one after the other.
pub proof fn law_notes_are_shown_in_turn(a: Seq<BlockView>, b: Seq<BlockView>)
    ensures
        blocks_text(a + b) == blocks_text(a) + blocks_text(b),
    decreases b.len(),
{
    if b.len() == 0 {
        assert(a + b =~= a);
        assert(blocks_text(a + b) =~= blocks_text(a) + blocks_text(b));
    } else {
        law_notes_are_shown_in_turn(a, b.drop_last());
        assert((a + b).drop_last() =~= a + b.drop_last());
        assert(blocks_text(a + b) =~= blocks_text(a) + blocks_text(b));
    }
}

/// Every note is always in the prompt, whatever the others are.
pub proof fn law_every_note_is_shown(v: Seq<BlockView>, i: int)
    requires
        0 <= i < v.len(),
    ensures
        occurs_in(blocks_text(seq![v[i]]), blocks_text(by_file_name(v))),
{
    broadcast use vstd::seq_lib::group_to_multiset_ensures;

    let sorted = by_file_name(v);
    law_notes_are_sorted(v);
    assert(v.contains(v[i]));
    assert(sorted.to_multiset().count(v[i]) > 0);
    assert(sorted.contains(v[i]));
    let k = choose|k: int| 0 <= k < sorted.len() && sorted[k] == v[i];
    let b = seq![v[i]];
    assert(sorted =~= sorted.take(k) + (b + sorted.skip(k + 1)));
    law_notes_are_shown_in_turn(sorted.take(k), b + sorted.skip(k + 1));
    law_notes_are_shown_in_turn(b, sorted.skip(k + 1));
    lemma_occurs_between(
        blocks_text(sorted.take(k)),
        blocks_text(b),
        blocks_text(sorted.skip(k + 1)),
    );
    assert(blocks_text(sorted.take(k)) + blocks_text(b) + blocks_text(sorted.skip(k + 1))
        =~= blocks_text(sorted));
}

} // verus!
