//! What a session of the coding agent shows: which tools it called, and whether the
//! checks that the daemon's design rests on pass.

use vstd::prelude::*;

use crate::json::{Json, Node};
use crate::text::{
    begins_with, contains, in_order, lemma_text_le_antisymmetric,
    lemma_text_le_transitive, occurs_in, same, sorted, stands_at, starts_with, text_le, texts,
};

verus! {

/// A call of a tool: its name, and its input as JSON.
#[derive(Debug)]
pub struct ToolRecord {
    pub name: String,
    pub input: String,
}

/// A call of a tool: its name, and its input as JSON.
pub open spec fn record_views(v: Seq<ToolRecord>) -> Seq<(Seq<char>, Seq<char>)> {
    v.map_values(|r: ToolRecord| (r.name@, r.input@))
}

/// Whether a block is of this type.
pub open spec fn has_type(block: Json, kind: Seq<char>) -> bool {
    block.string_member("type"@) == Some(kind)
}

/// The call that a block stands for.
pub open spec fn record_of(block: Json) -> (Seq<char>, Seq<char>) {
    (
        match block.string_member("name"@) {
            Some(n) => n,
            None => "?"@,
        },
        match block.member("input"@) {
            Some(v) => v.text@,
            None => "{}"@,
        },
    )
}

/// The blocks of an assistant's message.
pub open spec fn message_blocks(msg: Json) -> Seq<Json> {
    match msg.member("message"@) {
        Some(m) => match m.list_member("content"@) {
            Some(blocks) => blocks,
            None => Seq::empty(),
        },
        None => Seq::empty(),
    }
}

/// The blocks that a message holds itself.
pub open spec fn own_blocks(msg: Json) -> Seq<Json> {
    match msg.list_member("content"@) {
        Some(blocks) => blocks,
        None => Seq::empty(),
    }
}

/// The name of the built-in tool that a block calls, if it does: one that no tool
/// server provides.
pub open spec fn builtin_called(block: Json) -> Option<Seq<char>> {
    if has_type(block, "tool_use"@) {
        match block.string_member("name"@) {
            Some(name) => if begins_with(name, "mcp__"@) {
                None
            } else {
                Some(name)
            },
            None => None,
        }
    } else {
        None
    }
}

/// The names of the built-in tools that blocks call, in order.
pub open spec fn builtins_in(blocks: Seq<Json>) -> Seq<Seq<char>>
    decreases blocks.len(),
{
    if blocks.len() == 0 {
        Seq::empty()
    } else {
        match builtin_called(blocks.last()) {
            Some(name) => builtins_in(blocks.drop_last()).push(name),
            None => builtins_in(blocks.drop_last()),
        }
    }
}

/// The names of the built-in tools that messages call, in order.
pub open spec fn builtins_of(messages: Seq<Json>) -> Seq<Seq<char>>
    decreases messages.len(),
{
    if messages.len() == 0 {
        Seq::empty()
    } else {
        builtins_of(messages.drop_last()) + builtins_in(message_blocks(messages.last()))
            + builtins_in(own_blocks(messages.last()))
    }
}

/// The names of the built-in tools that a session called, in order.
pub open spec fn session_builtins(raw: Option<Json>) -> Seq<Seq<char>> {
    match raw {
        Some(j) => match j.items() {
            Some(messages) => builtins_of(messages),
            None => Seq::empty(),
        },
        None => Seq::empty(),
    }
}

/// The value behind an optional reference.
pub open spec fn json_option(v: Option<&Json>) -> Option<Json> {
    match v {
        Some(j) => Some(*j),
        None => None,
    }
}

/// Whether a block is of this type.
fn is_type(block: &Json, kind: &str) -> (b: bool)
    ensures
        b == has_type(*block, kind@),
{
    match block.get_str("type") {
        Some(k) => same(k, kind),
        None => false,
    }
}

/// Adds the names of the built-in tools that the blocks call.
fn add_builtin_calls(blocks: &Vec<Json>, called: &mut Vec<String>)
    ensures
        texts(final(called)@) == texts(old(called)@) + builtins_in(blocks@),
{
    let ghost before = texts(called@);
    let mut i: usize = 0;
    assert(before =~= before + builtins_in(blocks@.take(0)));
    while i < blocks.len()
        invariant
            i <= blocks@.len(),
            before == texts(old(called)@),
            texts(called@) == before + builtins_in(blocks@.take(i as int)),
        decreases blocks@.len() - i,
    {
        let ghost had = texts(called@);
        assert(blocks@.take(i as int + 1).drop_last() =~= blocks@.take(i as int));
        if is_type(&blocks[i], "tool_use") {
            if let Some(name) = blocks[i].get_str("name") {
                if !starts_with(name, "mcp__") {
                    called.push(name.to_owned());
                    assert(texts(called@) =~= had.push(name@));
                }
            }
        }
        assert(texts(called@) =~= before + builtins_in(blocks@.take(i as int + 1)));
        i += 1;
    }
    assert(blocks@.take(i as int) =~= blocks@);
}

/// Whether the texts are in order, and no text is there twice.
pub open spec fn strictly_in_order(v: Seq<Seq<char>>) -> bool {
    forall|i: int, j: int| 0 <= i < j < v.len() ==> text_le(v[i], v[j]) && v[i] != v[j]
}

/// The texts of an ordered list, each once.
fn distinct(v: Vec<String>) -> (out: Vec<String>)
    requires
        in_order(texts(v@)),
    ensures
        strictly_in_order(texts(out@)),
        forall|s: Seq<char>| #[trigger] texts(out@).contains(s) <==> texts(v@).contains(s),
{
    let ghost all = texts(v@);
    let mut out: Vec<String> = Vec::new();
    let mut i: usize = 0;
    while i < v.len()
        invariant
            i <= v@.len(),
            all == texts(v@),
            in_order(all),
            strictly_in_order(texts(out@)),
            out@.len() > 0 <==> i > 0,
            i > 0 ==> texts(out@).last() == all[i - 1],
            forall|k: int|
                0 <= k < out@.len() ==> text_le(
                    #[trigger] texts(out@)[k],
                    texts(out@).last(),
                ),
            forall|s: Seq<char>| #[trigger]
                texts(out@).contains(s) <==> all.take(i as int).contains(s),
        decreases v@.len() - i,
    {
        let ghost had = texts(out@);
        let ghost seen = all.take(i as int);
        let ghost now = all.take(i as int + 1);
        assert(now =~= seen.push(all[i as int]));
        assert(all[i as int] == v@[i as int]@);
        let repeated: bool = out.len() > 0 && same(out[out.len() - 1].as_str(), v[i].as_str());
        if repeated {
            assert(had.last() == all[i as int]);
        } else {
            out.push(v[i].clone());
            assert(texts(out@) =~= had.push(all[i as int]));
            proof {
                if i > 0 {
                    assert(text_le(all[i - 1], all[i as int]));
                }
                assert forall|k: int| 0 <= k < had.len() implies text_le(had[k], all[i as int])
                    && had[k] != all[i as int] by {
                    lemma_text_le_transitive(had[k], had.last(), all[i as int]);
                    if had[k] == all[i as int] {
                        lemma_text_le_antisymmetric(had[k], had.last());
                    }
                }
                lemma_text_le_reflexive(all[i as int]);
            }
        }
        proof {
            let new = texts(out@);
            assert forall|s: Seq<char>| #[trigger] new.contains(s) <==> now.contains(s) by {
                if new.contains(s) {
                    let k = choose|k: int| 0 <= k < new.len() && new[k] == s;
                    if k < had.len() {
                        assert(had[k] == s);
                        assert(had.contains(s));
                        let m = choose|m: int| 0 <= m < seen.len() && seen[m] == s;
                        assert(now[m] == s);
                    } else {
                        assert(now[i as int] == s);
                    }
                }
                if now.contains(s) {
                    let m = choose|m: int| 0 <= m < now.len() && now[m] == s;
                    if m < i {
                        assert(seen[m] == s);
                        assert(had.contains(s));
                        let k = choose|k: int| 0 <= k < had.len() && had[k] == s;
                        assert(new[k] == s);
                    } else {
                        assert(new[new.len() - 1] == s);
                    }
                }
            }
        }
        i += 1;
    }
    assert(all.take(i as int) =~= all);
    out
}

proof fn lemma_text_le_reflexive(a: Seq<char>)
    ensures
        text_le(a, a),
    decreases a.len(),
{
    if a.len() > 0 {
        lemma_text_le_reflexive(a.skip(1));
    }
}

/// The built-in tools that a session called, by name, in order and each once.
pub fn check_for_builtin_tool_calls(raw: Option<&Json>) -> (called: Vec<String>)
    ensures
        strictly_in_order(texts(called@)),
        forall|name: Seq<char>| #[trigger]
            texts(called@).contains(name) <==> session_builtins(json_option(raw)).contains(name),
{
    let mut called: Vec<String> = Vec::new();
    let messages: &Vec<Json> = match raw {
        Some(j) => match j.as_array() {
            Some(v) => v,
            None => return called,
        },
        None => return called,
    };
    let ghost all = messages@;
    let mut i: usize = 0;
    assert(texts(called@) =~= builtins_of(all.take(0)));
    while i < messages.len()
        invariant
            i <= messages@.len(),
            all == messages@,
            texts(called@) == builtins_of(all.take(i as int)),
        decreases messages@.len() - i,
    {
        let msg: &Json = &messages[i];
        let ghost had = texts(called@);
        assert(all.take(i as int + 1).drop_last() =~= all.take(i as int));
        if let Some(m) = msg.get("message") {
            if let Some(blocks) = m.get_array("content") {
                add_builtin_calls(blocks, &mut called);
            }
        }
        assert(texts(called@) =~= had + builtins_in(message_blocks(*msg)));
        let ghost mid = texts(called@);
        if let Some(blocks) = msg.get_array("content") {
            add_builtin_calls(blocks, &mut called);
        }
        assert(texts(called@) =~= mid + builtins_in(own_blocks(*msg)));
        i += 1;
    }
    assert(all.take(i as int) =~= all);
    let ghost names = texts(called@);
    let ordered: Vec<String> = sorted(called);
    proof {
        names.to_multiset_ensures();
        texts(ordered@).to_multiset_ensures();
        assert forall|s: Seq<char>| #[trigger] texts(ordered@).contains(s) <==> names.contains(
            s,
        ) by {
            assert(texts(ordered@).to_multiset().count(s) == names.to_multiset().count(s));
        }
    }
    distinct(ordered)
}

/// The calls that a value stands for or holds anywhere, in the order in which they are
/// written.
pub open spec fn uses_in(v: Json) -> Seq<(Seq<char>, Seq<char>)>
    decreases v,
{
    match v.node {
        Node::Object(members) => (if has_type(v, "tool_use"@) {
            seq![record_of(v)]
        } else {
            Seq::empty()
        }) + uses_in_members(members, members@.len()),
        Node::List(items) => uses_in_items(items, items@.len()),
        _ => Seq::empty(),
    }
}

/// The calls in the first `n` members.
pub open spec fn uses_in_members(members: Vec<(String, Json)>, n: nat) -> Seq<
    (Seq<char>, Seq<char>),
>
    decreases members, n,
{
    if n == 0 || n > members@.len() {
        Seq::empty()
    } else {
        uses_in_members(members, (n - 1) as nat) + uses_in(members[n - 1].1)
    }
}

/// The calls in the first `n` items.
pub open spec fn uses_in_items(items: Vec<Json>, n: nat) -> Seq<(Seq<char>, Seq<char>)>
    decreases items, n,
{
    if n == 0 || n > items@.len() {
        Seq::empty()
    } else {
        uses_in_items(items, (n - 1) as nat) + uses_in(items[n - 1])
    }
}

proof fn lemma_member_is_smaller(v: Json, members: Vec<(String, Json)>, i: int)
    requires
        v.node == Node::Object(members),
        0 <= i < members@.len(),
    ensures
        decreases_to!(v => members@[i].1),
{
    assert(decreases_to!(members => members@[i]));
    assert(decreases_to!(members@[i] => members@[i].1));
    assert(decreases_to!(v.node => v.node->Object_0));
    assert(decreases_to!(v => v.node));
}

proof fn lemma_item_is_smaller(v: Json, items: Vec<Json>, i: int)
    requires
        v.node == Node::List(items),
        0 <= i < items@.len(),
    ensures
        decreases_to!(v => items@[i]),
{
    assert(decreases_to!(items => items@[i]));
    assert(decreases_to!(v.node => v.node->List_0));
    assert(decreases_to!(v => v.node));
}

/// Adds the calls that a value stands for or holds anywhere.
pub fn search_for_tool_use(value: &Json, results: &mut Vec<ToolRecord>)
    ensures
        record_views(final(results)@) == record_views(old(results)@) + uses_in(*value),
    decreases *value,
{
    let ghost before = record_views(results@);
    match &value.node {
        Node::Object(members) => {
            if is_type(value, "tool_use") {
                results.push(tool_record(value));
                assert(record_views(results@) =~= before.push(record_of(*value)));
            }
            let ghost own = record_views(results@);
            let mut i: usize = 0;
            assert(own =~= own + uses_in_members(*members, 0));
            while i < members.len()
                invariant
                    i <= members@.len(),
                    value.node == Node::Object(*members),
                    record_views(results@) == own + uses_in_members(*members, i as nat),
                decreases members@.len() - i,
            {
                proof {
                    lemma_member_is_smaller(*value, *members, i as int);
                }
                search_for_tool_use(&members[i].1, results);
                assert(record_views(results@) =~= own + uses_in_members(*members, i as nat + 1));
                i += 1;
            }
            assert(record_views(results@) =~= before + uses_in(*value));
        },
        Node::List(items) => {
            let mut i: usize = 0;
            assert(before =~= before + uses_in_items(*items, 0));
            while i < items.len()
                invariant
                    i <= items@.len(),
                    value.node == Node::List(*items),
                    record_views(results@) == before + uses_in_items(*items, i as nat),
                decreases items@.len() - i,
            {
                proof {
                    lemma_item_is_smaller(*value, *items, i as int);
                }
                search_for_tool_use(&items[i], results);
                assert(record_views(results@) =~= before + uses_in_items(*items, i as nat + 1));
                i += 1;
            }
        },
        _ => {
            assert(before =~= before + uses_in(*value));
        },
    }
}

/// The call that a block stands for.
fn tool_record(block: &Json) -> (r: ToolRecord)
    ensures
        (r.name@, r.input@) == record_of(*block),
{
    ToolRecord {
        name: match block.get_str("name") {
            Some(n) => n.to_owned(),
            None => "?".to_owned(),
        },
        input: match block.get("input") {
            Some(v) => v.text.clone(),
            None => "{}".to_owned(),
        },
    }
}

/// The results of tools that a value stands for or holds anywhere, as JSON, in the order
/// in which they are written.
pub open spec fn results_in(v: Json) -> Seq<Seq<char>>
    decreases v,
{
    match v.node {
        Node::Object(members) => (if has_type(v, "tool_result"@) {
            seq![v.text@]
        } else {
            Seq::empty()
        }) + results_in_members(members, members@.len()),
        Node::List(items) => results_in_items(items, items@.len()),
        _ => Seq::empty(),
    }
}

/// The results in the first `n` members.
pub open spec fn results_in_members(members: Vec<(String, Json)>, n: nat) -> Seq<Seq<char>>
    decreases members, n,
{
    if n == 0 || n > members@.len() {
        Seq::empty()
    } else {
        results_in_members(members, (n - 1) as nat) + results_in(members[n - 1].1)
    }
}

/// The results in the first `n` items.
pub open spec fn results_in_items(items: Vec<Json>, n: nat) -> Seq<Seq<char>>
    decreases items, n,
{
    if n == 0 || n > items@.len() {
        Seq::empty()
    } else {
        results_in_items(items, (n - 1) as nat) + results_in(items[n - 1])
    }
}

/// Adds the results of tools that a value stands for or holds anywhere, as JSON.
pub fn search_for_tool_result(value: &Json, results: &mut Vec<String>)
    ensures
        texts(final(results)@) == texts(old(results)@) + results_in(*value),
    decreases *value,
{
    let ghost before = texts(results@);
    match &value.node {
        Node::Object(members) => {
            if is_type(value, "tool_result") {
                results.push(value.text.clone());
                assert(texts(results@) =~= before.push(value.text@));
            }
            let ghost own = texts(results@);
            let mut i: usize = 0;
            assert(own =~= own + results_in_members(*members, 0));
            while i < members.len()
                invariant
                    i <= members@.len(),
                    value.node == Node::Object(*members),
                    texts(results@) == own + results_in_members(*members, i as nat),
                decreases members@.len() - i,
            {
                proof {
                    lemma_member_is_smaller(*value, *members, i as int);
                }
                search_for_tool_result(&members[i].1, results);
                assert(texts(results@) =~= own + results_in_members(*members, i as nat + 1));
                i += 1;
            }
            assert(texts(results@) =~= before + results_in(*value));
        },
        Node::List(items) => {
            let mut i: usize = 0;
            assert(before =~= before + results_in_items(*items, 0));
            while i < items.len()
                invariant
                    i <= items@.len(),
                    value.node == Node::List(*items),
                    texts(results@) == before + results_in_items(*items, i as nat),
                decreases items@.len() - i,
            {
                proof {
                    lemma_item_is_smaller(*value, *items, i as int);
                }
                search_for_tool_result(&items[i], results);
                assert(texts(results@) =~= before + results_in_items(*items, i as nat + 1));
                i += 1;
            }
        },
        _ => {
            assert(before =~= before + results_in(*value));
        },
    }
}

/// The calls that the blocks stand for, in order.
pub open spec fn calls_in(blocks: Seq<Json>) -> Seq<(Seq<char>, Seq<char>)>
    decreases blocks.len(),
{
    if blocks.len() == 0 {
        Seq::empty()
    } else if has_type(blocks.last(), "tool_use"@) {
        calls_in(blocks.drop_last()).push(record_of(blocks.last()))
    } else {
        calls_in(blocks.drop_last())
    }
}

/// The results of tools that the blocks stand for, as JSON, in order.
pub open spec fn tool_results_in(blocks: Seq<Json>) -> Seq<Seq<char>>
    decreases blocks.len(),
{
    if blocks.len() == 0 {
        Seq::empty()
    } else if has_type(blocks.last(), "tool_result"@) {
        tool_results_in(blocks.drop_last()).push(blocks.last().text@)
    } else {
        tool_results_in(blocks.drop_last())
    }
}

/// The calls where a session has them: in the messages of the assistant.
pub open spec fn assistant_calls(messages: Seq<Json>) -> Seq<(Seq<char>, Seq<char>)>
    decreases messages.len(),
{
    if messages.len() == 0 {
        Seq::empty()
    } else {
        let before = assistant_calls(messages.drop_last());
        if has_type(messages.last(), "assistant"@) {
            before + calls_in(message_blocks(messages.last()))
        } else {
            before
        }
    }
}

/// The results of tools where a session has them: in its final message.
pub open spec fn final_results(messages: Seq<Json>) -> Seq<Seq<char>>
    decreases messages.len(),
{
    if messages.len() == 0 {
        Seq::empty()
    } else {
        let before = final_results(messages.drop_last());
        if has_type(messages.last(), "result"@) {
            before + tool_results_in(own_blocks(messages.last()))
        } else {
            before
        }
    }
}

/// The calls of a session: where it has them, or else wherever they are written.
pub open spec fn session_uses(raw: Json) -> Seq<(Seq<char>, Seq<char>)> {
    match raw.items() {
        Some(messages) => if assistant_calls(messages).len() > 0 {
            assistant_calls(messages)
        } else if occurs_in("tool_use"@, raw.text@) {
            uses_in(raw)
        } else {
            Seq::empty()
        },
        None => Seq::empty(),
    }
}

/// The results of tools of a session: where it has them, and where it has no calls also
/// wherever they are written.
pub open spec fn session_results(raw: Json) -> Seq<Seq<char>> {
    match raw.items() {
        Some(messages) => if assistant_calls(messages).len() > 0 || !occurs_in(
            "tool_result"@,
            raw.text@,
        ) {
            final_results(messages)
        } else {
            final_results(messages) + results_in(raw)
        },
        None => Seq::empty(),
    }
}

fn add_calls(blocks: &Vec<Json>, calls: &mut Vec<ToolRecord>)
    ensures
        record_views(final(calls)@) == record_views(old(calls)@) + calls_in(blocks@),
{
    let ghost before = record_views(calls@);
    let mut i: usize = 0;
    assert(before =~= before + calls_in(blocks@.take(0)));
    while i < blocks.len()
        invariant
            i <= blocks@.len(),
            record_views(calls@) == before + calls_in(blocks@.take(i as int)),
        decreases blocks@.len() - i,
    {
        let ghost had = record_views(calls@);
        assert(blocks@.take(i as int + 1).drop_last() =~= blocks@.take(i as int));
        if is_type(&blocks[i], "tool_use") {
            calls.push(tool_record(&blocks[i]));
            assert(record_views(calls@) =~= had.push(record_of(blocks@[i as int])));
        }
        assert(record_views(calls@) =~= before + calls_in(blocks@.take(i as int + 1)));
        i += 1;
    }
    assert(blocks@.take(i as int) =~= blocks@);
}

fn add_results(blocks: &Vec<Json>, results: &mut Vec<String>)
    ensures
        texts(final(results)@) == texts(old(results)@) + tool_results_in(blocks@),
{
    let ghost before = texts(results@);
    let mut i: usize = 0;
    assert(before =~= before + tool_results_in(blocks@.take(0)));
    while i < blocks.len()
        invariant
            i <= blocks@.len(),
            texts(results@) == before + tool_results_in(blocks@.take(i as int)),
        decreases blocks@.len() - i,
    {
        let ghost had = texts(results@);
        assert(blocks@.take(i as int + 1).drop_last() =~= blocks@.take(i as int));
        if is_type(&blocks[i], "tool_result") {
            results.push(blocks[i].text.clone());
            assert(texts(results@) =~= had.push(blocks@[i as int].text@));
        }
        assert(texts(results@) =~= before + tool_results_in(blocks@.take(i as int + 1)));
        i += 1;
    }
    assert(blocks@.take(i as int) =~= blocks@);
}

/// The calls of tools and their results that a session shows.
#[derive(Debug)]
pub struct SessionRecords {
    pub calls: Vec<ToolRecord>,
    /// The results, as JSON.
    pub results: Vec<String>,
}

/// The calls of tools and their results that a session shows.
pub fn collect_records(raw: &Json) -> (r: SessionRecords)
    ensures
        record_views(r.calls@) == session_uses(*raw),
        texts(r.results@) == session_results(*raw),
{
    let mut calls: Vec<ToolRecord> = Vec::new();
    let mut results: Vec<String> = Vec::new();
    assert(record_views(calls@) =~= Seq::empty());
    assert(texts(results@) =~= Seq::empty());
    let messages: &Vec<Json> = match raw.as_array() {
        Some(v) => v,
        None => return SessionRecords { calls, results },
    };
    let ghost all = messages@;
    let mut i: usize = 0;
    while i < messages.len()
        invariant
            i <= messages@.len(),
            all == messages@,
            record_views(calls@) == assistant_calls(all.take(i as int)),
            texts(results@) == final_results(all.take(i as int)),
        decreases messages@.len() - i,
    {
        let msg: &Json = &messages[i];
        let ghost had_calls = record_views(calls@);
        let ghost had_results = texts(results@);
        assert(all.take(i as int + 1).drop_last() =~= all.take(i as int));
        if is_type(msg, "assistant") {
            if let Some(m) = msg.get("message") {
                if let Some(blocks) = m.get_array("content") {
                    add_calls(blocks, &mut calls);
                }
            }
            assert(record_views(calls@) =~= had_calls + calls_in(message_blocks(*msg)));
        }
        if is_type(msg, "result") {
            if let Some(blocks) = msg.get_array("content") {
                add_results(blocks, &mut results);
            }
            assert(texts(results@) =~= had_results + tool_results_in(own_blocks(*msg)));
        }
        i += 1;
    }
    assert(all.take(i as int) =~= all);
    if calls.len() == 0 {
        let ghost none = record_views(calls@);
        if contains(raw.text.as_str(), "tool_use") {
            search_for_tool_use(raw, &mut calls);
            assert(record_views(calls@) =~= none + uses_in(*raw));
            assert(none + uses_in(*raw) =~= uses_in(*raw));
        } else {
            assert(none =~= Seq::empty());
        }
        if contains(raw.text.as_str(), "tool_result") {
            search_for_tool_result(raw, &mut results);
        }
    }
    SessionRecords { calls, results }
}

/// What came of a session.
#[derive(Debug)]
pub struct AgentResponse {
    pub content: String,
    /// The session's messages.
    pub raw_json: Option<Json>,
}

/// What a session shows of the calls of tools.
#[derive(Clone, Copy, Debug, PartialEq, Eq, Structural)]
pub enum RecordsVerdict {
    /// The session could not be run.
    NoSession,
    /// It has no messages to look at.
    NoMessages,
    /// They show no calls.
    NoCalls,
    /// They show calls, but not of both tools.
    SomeCalls,
    /// They show calls of both tools.
    BothCalls,
}

/// Whether a call of a tool has this word in its name.
pub open spec fn some_name_has(calls: Seq<(Seq<char>, Seq<char>)>, word: Seq<char>) -> bool {
    exists|i: int| 0 <= i < calls.len() && occurs_in(word, (#[trigger] calls[i]).0)
}

fn name_has(calls: &Vec<ToolRecord>, word: &str) -> (b: bool)
    ensures
        b == some_name_has(record_views(calls@), word@),
{
    let ghost all = record_views(calls@);
    let mut i: usize = 0;
    while i < calls.len()
        invariant
            i <= calls@.len(),
            all == record_views(calls@),
            forall|j: int| 0 <= j < i ==> !occurs_in(word@, (#[trigger] all[j]).0),
        decreases calls@.len() - i,
    {
        assert(all[i as int].0 == calls@[i as int].name@);
        if contains(calls[i].name.as_str(), word) {
            return true;
        }
        i += 1;
    }
    false
}

/// What a session shows of the calls of tools.
pub open spec fn records_verdict_of(r: Result<AgentResponse, String>) -> RecordsVerdict {
    match r {
        Ok(response) => match response.raw_json {
            Some(raw) => {
                let calls = session_uses(raw);
                if calls.len() == 0 {
                    RecordsVerdict::NoCalls
                } else if some_name_has(calls, "echo"@) && some_name_has(calls, "greet"@) {
                    RecordsVerdict::BothCalls
                } else {
                    RecordsVerdict::SomeCalls
                }
            },
            None => RecordsVerdict::NoMessages,
        },
        Err(_) => RecordsVerdict::NoSession,
    }
}

/// What a session shows of the calls of tools.
pub fn records_verdict(r: &Result<AgentResponse, String>) -> (v: RecordsVerdict)
    ensures
        v == records_verdict_of(*r),
{
    match r {
        Ok(response) => match &response.raw_json {
            Some(raw) => {
                let records: SessionRecords = collect_records(raw);
                assert(record_views(records.calls@).len() == records.calls@.len());
                if records.calls.len() == 0 {
                    RecordsVerdict::NoCalls
                } else if name_has(&records.calls, "echo") && name_has(&records.calls, "greet") {
                    RecordsVerdict::BothCalls
                } else {
                    RecordsVerdict::SomeCalls
                }
            },
            None => RecordsVerdict::NoMessages,
        },
        Err(_) => RecordsVerdict::NoSession,
    }
}

impl RecordsVerdict {
    /// Whether calls of tools can be taken from a session.
    pub fn passes(&self) -> (b: bool)
        ensures
            b == (*self == RecordsVerdict::SomeCalls || *self == RecordsVerdict::BothCalls),
    {
        match self {
            RecordsVerdict::SomeCalls => true,
            RecordsVerdict::BothCalls => true,
            _ => false,
        }
    }
}

/// The JSON of a session's messages, where there are any.
pub open spec fn raw_text(response: AgentResponse) -> Option<Seq<char>> {
    match response.raw_json {
        Some(raw) => Some(raw.text@),
        None => None,
    }
}

/// Whether a session shows that it called a tool of our server.
pub open spec fn reached_our_server(r: Result<AgentResponse, String>) -> bool {
    match r {
        Ok(response) => {
            ||| occurs_in("ECHO: spike-test-1"@, response.content@)
            ||| occurs_in("spike-test-1"@, response.content@)
            ||| raw_text(response) matches Some(text) && (occurs_in("echo"@, text) || occurs_in(
                "spike-test-1"@,
                text,
            ))
        },
        Err(_) => false,
    }
}

/// Whether a session shows that it called a tool of our server.
pub fn passthrough_verdict(r: &Result<AgentResponse, String>) -> (b: bool)
    ensures
        b == reached_our_server(*r),
{
    match r {
        Ok(response) => {
            let content: &str = response.content.as_str();
            if contains(content, "ECHO: spike-test-1") || contains(content, "spike-test-1") {
                return true;
            }
            match &response.raw_json {
                Some(raw) => contains(raw.text.as_str(), "echo") || contains(
                    raw.text.as_str(),
                    "spike-test-1",
                ),
                None => false,
            }
        },
        Err(_) => false,
    }
}

/// Whether a reply shows the contents of the file that was not to be read.
pub open spec fn shows_file(content: Seq<char>) -> bool {
    occurs_in("[package]"@, content) || occurs_in("glass-spike"@, content)
}

/// Whether a session shows that it read the file: with a built-in tool, or by its reply.
pub open spec fn read_the_file(response: AgentResponse) -> bool {
    session_builtins(response.raw_json).len() > 0 || shows_file(response.content@)
}

fn reads_file(response: &AgentResponse) -> (b: bool)
    ensures
        b == read_the_file(*response),
{
    let raw: Option<&Json> = match &response.raw_json {
        Some(j) => Some(j),
        None => None,
    };
    let called: Vec<String> = check_for_builtin_tool_calls(raw);
    proof {
        let names = session_builtins(response.raw_json);
        assert(json_option(raw) == response.raw_json);
        if called@.len() > 0 {
            assert(texts(called@).contains(texts(called@)[0]));
            assert(names.len() > 0);
        }
        if names.len() > 0 {
            assert(names.contains(names[0]));
            assert(texts(called@).contains(names[0]));
        }
    }
    called.len() > 0 || contains(response.content.as_str(), "[package]") || contains(
        response.content.as_str(),
        "glass-spike",
    )
}

/// Whether a session for which only some tools were allowed shows that this does not
/// keep it from built-in tools. A session that could not be run shows nothing against
/// it.
pub fn allowed_tools_verdict(r: &Result<AgentResponse, String>) -> (b: bool)
    ensures
        b == match r {
            Ok(response) => read_the_file(*response),
            Err(_) => true,
        },
{
    match r {
        Ok(response) => reads_file(response),
        Err(_) => true,
    }
}

/// Whether a session for which the built-in tools were forbidden shows that this keeps
/// it from them. A session that could not be run did not use them.
pub fn disallowed_tools_verdict(r: &Result<AgentResponse, String>) -> (b: bool)
    ensures
        b == match r {
            Ok(response) => !read_the_file(*response),
            Err(_) => true,
        },
{
    match r {
        Ok(response) => !reads_file(response),
        Err(_) => true,
    }
}

/// Whether built-in tools can be kept from a session: it takes that forbidding them
/// works, whatever allowing others does.
pub fn blocking_verdict(allowed: bool, disallowed: bool) -> (b: bool)
    ensures
        b == disallowed,
{
    if allowed && disallowed {
        true
    } else if disallowed {
        true
    } else {
        false
    }
}

/// How a long prompt can be given.
#[derive(Clone, Copy, Debug, PartialEq, Eq, Structural)]
pub enum PromptVerdict {
    /// Not even one of ten thousand characters is accepted.
    Rejected,
    /// As a setting.
    Accepted,
    /// Through the builder.
    ThroughBuilder,
    /// Only by a setting that is not checked.
    Unchecked,
}

/// How a long prompt can be given, where a short one, a long one, and a long one through
/// the builder are accepted or not.
pub fn prompt_length_verdict(short: bool, long: bool, built: bool) -> (v: PromptVerdict)
    ensures
        v == if !short {
            PromptVerdict::Rejected
        } else if long {
            PromptVerdict::Accepted
        } else if built {
            PromptVerdict::ThroughBuilder
        } else {
            PromptVerdict::Unchecked
        },
{
    if !short {
        PromptVerdict::Rejected
    } else if long {
        PromptVerdict::Accepted
    } else if built {
        PromptVerdict::ThroughBuilder
    } else {
        PromptVerdict::Unchecked
    }
}

impl PromptVerdict {
    /// Whether a long prompt can be given.
    pub fn passes(&self) -> (b: bool)
        ensures
            b == (*self != PromptVerdict::Rejected),
    {
        match self {
            PromptVerdict::Rejected => false,
            _ => true,
        }
    }
}

/// Whether a block calls a built-in tool of this name.
pub open spec fn calls_builtin(block: Json, name: Seq<char>) -> bool {
    &&& block.string_member("type"@) == Some("tool_use"@)
    &&& block.string_member("name"@) == Some(name)
    &&& !(name.len() >= 5 && name.take(5) == "mcp__"@)
}

proof fn lemma_builtin_called(block: Json, name: Seq<char>)
    ensures
        calls_builtin(block, name) <==> builtin_called(block) == Some(name),
{
    reveal_strlit("mcp__");
    if name.len() >= 5 {
        assert(name.take(5) =~= name.subrange(0, 5));
    }
}

proof fn lemma_builtins_in(blocks: Seq<Json>, name: Seq<char>)
    ensures
        builtins_in(blocks).contains(name) <==> exists|i: int|
            0 <= i < blocks.len() && calls_builtin(#[trigger] blocks[i], name),
    decreases blocks.len(),
{
    let found = builtins_in(blocks);
    if blocks.len() > 0 {
        let earlier = blocks.drop_last();
        let n = blocks.len() - 1;
        let was = builtins_in(earlier);
        lemma_builtins_in(earlier, name);
        lemma_builtin_called(blocks[n], name);
        if found.contains(name) {
            let k = choose|k: int| 0 <= k < found.len() && found[k] == name;
            if k < was.len() {
                assert(was[k] == name);
                let i = choose|i: int|
                    0 <= i < earlier.len() && calls_builtin(#[trigger] earlier[i], name);
                assert(calls_builtin(blocks[i], name));
            } else {
                assert(calls_builtin(blocks[n], name));
            }
        }
        if exists|i: int| 0 <= i < blocks.len() && calls_builtin(#[trigger] blocks[i], name) {
            let i = choose|i: int|
                0 <= i < blocks.len() && calls_builtin(#[trigger] blocks[i], name);
            if i < n {
                assert(calls_builtin(earlier[i], name));
                let k = choose|k: int| 0 <= k < was.len() && was[k] == name;
                assert(found[k] == name);
            } else {
                assert(found[found.len() - 1] == name);
            }
        }
    }
}

/// Whether a message holds this block: in the message that it wraps, or itself.
pub open spec fn holds_block(msg: Json, block: Json) -> bool {
    ||| msg.member("message"@) matches Some(m) && (m.list_member("content"@) matches Some(blocks)
        && blocks.contains(block))
    ||| msg.list_member("content"@) matches Some(blocks) && blocks.contains(block)
}

/// Whether a message holds a block that calls a built-in tool of this name.
pub open spec fn message_calls_builtin(msg: Json, name: Seq<char>) -> bool {
    exists|block: Json| #[trigger] holds_block(msg, block) && calls_builtin(block, name)
}

proof fn lemma_message_builtins(msg: Json, name: Seq<char>)
    ensures
        message_calls_builtin(msg, name) <==> builtins_in(message_blocks(msg)).contains(name)
            || builtins_in(own_blocks(msg)).contains(name),
{
    let a = message_blocks(msg);
    let b = own_blocks(msg);
    lemma_builtins_in(a, name);
    lemma_builtins_in(b, name);
    if builtins_in(a).contains(name) {
        let i = choose|i: int| 0 <= i < a.len() && calls_builtin(#[trigger] a[i], name);
        assert(holds_block(msg, a[i]));
    }
    if builtins_in(b).contains(name) {
        let i = choose|i: int| 0 <= i < b.len() && calls_builtin(#[trigger] b[i], name);
        assert(holds_block(msg, b[i]));
    }
    if message_calls_builtin(msg, name) {
        let block = choose|block: Json| #[trigger]
            holds_block(msg, block) && calls_builtin(block, name);
        if a.contains(block) {
            let i = choose|i: int| 0 <= i < a.len() && a[i] == block;
            assert(calls_builtin(a[i], name));
        } else {
            let i = choose|i: int| 0 <= i < b.len() && b[i] == block;
            assert(calls_builtin(b[i], name));
        }
    }
}

proof fn lemma_builtins_of(messages: Seq<Json>, name: Seq<char>)
    ensures
        builtins_of(messages).contains(name) <==> exists|i: int|
            0 <= i < messages.len() && message_calls_builtin(#[trigger] messages[i], name),
    decreases messages.len(),
{
    let found = builtins_of(messages);
    if messages.len() > 0 {
        let earlier = messages.drop_last();
        let n = messages.len() - 1;
        let was = builtins_of(earlier);
        let a = builtins_in(message_blocks(messages[n]));
        let b = builtins_in(own_blocks(messages[n]));
        lemma_builtins_of(earlier, name);
        lemma_message_builtins(messages[n], name);
        assert(found == was + a + b);
        if found.contains(name) {
            let k = choose|k: int| 0 <= k < found.len() && found[k] == name;
            if k < was.len() {
                assert(was[k] == name);
                let i = choose|i: int|
                    0 <= i < earlier.len() && message_calls_builtin(#[trigger] earlier[i], name);
                assert(message_calls_builtin(messages[i], name));
            } else if k < was.len() + a.len() {
                assert(a[k - was.len()] == name);
                assert(message_calls_builtin(messages[n], name));
            } else {
                assert(b[k - was.len() - a.len()] == name);
                assert(message_calls_builtin(messages[n], name));
            }
        }
        if exists|i: int|
            0 <= i < messages.len() && message_calls_builtin(#[trigger] messages[i], name) {
            let i = choose|i: int|
                0 <= i < messages.len() && message_calls_builtin(#[trigger] messages[i], name);
            if i < n {
                assert(message_calls_builtin(earlier[i], name));
                let k = choose|k: int| 0 <= k < was.len() && was[k] == name;
                assert(found[k] == name);
            } else if a.contains(name) {
                let k = choose|k: int| 0 <= k < a.len() && a[k] == name;
                assert(found[was.len() + k] == name);
            } else {
                let k = choose|k: int| 0 <= k < b.len() && b[k] == name;
                assert(found[was.len() + a.len() + k] == name);
            }
        }
    }
}

/// A session called a built-in tool exactly where one of its messages holds a block that
/// calls a tool whose name is not that of a tool server's.
pub proof fn law_builtin_calls_are_all_found(raw: Json, name: Seq<char>)
    ensures
        session_builtins(None).len() == 0,
        raw.node matches Node::List(messages) ==> (session_builtins(Some(raw)).contains(name)
            <==> exists|i: int|
            0 <= i < messages@.len() && message_calls_builtin(#[trigger] messages@[i], name)),
        !(raw.node is List) ==> session_builtins(Some(raw)).len() == 0,
{
    if let Node::List(messages) = raw.node {
        lemma_builtins_of(messages@, name);
    }
}

/// Whether `part` stands in `whole`, in one piece.
pub open spec fn runs_in<T>(part: Seq<T>, whole: Seq<T>) -> bool {
    exists|at: int|
        0 <= at <= whole.len() - part.len() && #[trigger] whole.subrange(at, at + part.len())
            == part
}

proof fn lemma_runs_between<T>(a: Seq<T>, part: Seq<T>, b: Seq<T>)
    ensures
        runs_in(part, a + part + b),
{
    let s = a + part + b;
    assert(s.subrange(a.len() as int, a.len() as int + part.len()) =~= part);
}

proof fn lemma_runs_in_longer<T>(part: Seq<T>, s: Seq<T>, b: Seq<T>)
    requires
        runs_in(part, s),
    ensures
        runs_in(part, s + b),
{
    let at = choose|at: int|
        0 <= at <= s.len() - part.len() && #[trigger] s.subrange(at, at + part.len()) == part;
    assert((s + b).subrange(at, at + part.len()) =~= part);
}

proof fn lemma_item_runs(items: Vec<Json>, n: nat, i: int)
    requires
        0 <= i < n <= items@.len(),
    ensures
        runs_in(uses_in(items@[i]), uses_in_items(items, n)),
        runs_in(results_in(items@[i]), results_in_items(items, n)),
    decreases n,
{
    let m = (n - 1) as nat;
    let uses = uses_in_items(items, m);
    let results = results_in_items(items, m);
    if i == m {
        lemma_runs_between(uses, uses_in(items@[i]), Seq::empty());
        lemma_runs_between(results, results_in(items@[i]), Seq::empty());
        assert(uses + uses_in(items@[i]) + Seq::empty() =~= uses_in_items(items, n));
        assert(results + results_in(items@[i]) + Seq::empty() =~= results_in_items(items, n));
    } else {
        lemma_item_runs(items, m, i);
        lemma_runs_in_longer(uses_in(items@[i]), uses, uses_in(items@[m as int]));
        lemma_runs_in_longer(results_in(items@[i]), results, results_in(items@[m as int]));
    }
}

proof fn lemma_member_runs(members: Vec<(String, Json)>, n: nat, i: int)
    requires
        0 <= i < n <= members@.len(),
    ensures
        runs_in(uses_in(members@[i].1), uses_in_members(members, n)),
        runs_in(results_in(members@[i].1), results_in_members(members, n)),
    decreases n,
{
    let m = (n - 1) as nat;
    let uses = uses_in_members(members, m);
    let results = results_in_members(members, m);
    if i == m {
        lemma_runs_between(uses, uses_in(members@[i].1), Seq::empty());
        lemma_runs_between(results, results_in(members@[i].1), Seq::empty());
        assert(uses + uses_in(members@[i].1) + Seq::empty() =~= uses_in_members(members, n));
        assert(results + results_in(members@[i].1) + Seq::empty() =~= results_in_members(
            members,
            n,
        ));
    } else {
        lemma_member_runs(members, m, i);
        lemma_runs_in_longer(uses_in(members@[i].1), uses, uses_in(members@[m as int].1));
        lemma_runs_in_longer(results_in(members@[i].1), results, results_in(members@[m as int].1));
    }
}

/// Calls and results are found however deep they lie: what an item or a member holds, the
/// value holds; and a value that is a call or a result comes before those that it holds.
pub proof fn law_nested_calls_are_found(v: Json, i: int)
    ensures
        v.node matches Node::List(items) ==> (0 <= i < items@.len() ==> runs_in(
            uses_in(items@[i]),
            uses_in(v),
        ) && runs_in(results_in(items@[i]), results_in(v))),
        v.node matches Node::Object(members) ==> (0 <= i < members@.len() ==> runs_in(
            uses_in(members@[i].1),
            uses_in(v),
        ) && runs_in(results_in(members@[i].1), results_in(v))),
        v.string_member("type"@) == Some("tool_use"@) ==> uses_in(v).len() > 0 && uses_in(v)[0]
            == (
            match v.string_member("name"@) {
                Some(n) => n,
                None => "?"@,
            },
            match v.member("input"@) {
                Some(x) => x.text@,
                None => "{}"@,
            },
        ),
        v.string_member("type"@) == Some("tool_result"@) ==> results_in(v).len() > 0 && results_in(
            v,
        )[0] == v.text@,
        !(v.node is List || v.node is Object) ==> uses_in(v).len() == 0 && results_in(v).len() == 0,
{
    if let Node::List(items) = v.node {
        if 0 <= i < items@.len() {
            lemma_item_runs(items, items@.len(), i);
        }
    }
    if let Node::Object(members) = v.node {
        if 0 <= i < members@.len() {
            lemma_member_runs(members, members@.len(), i);
            let uses = uses_in(members@[i].1);
            let results = results_in(members@[i].1);
            let own: Seq<(Seq<char>, Seq<char>)> = if has_type(v, "tool_use"@) {
                seq![record_of(v)]
            } else {
                Seq::empty()
            };
            let own_result: Seq<Seq<char>> = if has_type(v, "tool_result"@) {
                seq![v.text@]
            } else {
                Seq::empty()
            };
            lemma_runs_behind(own, uses, uses_in_members(members, members@.len()));
            lemma_runs_behind(own_result, results, results_in_members(members, members@.len()));
        }
    }
}

proof fn lemma_runs_behind<T>(a: Seq<T>, part: Seq<T>, s: Seq<T>)
    requires
        runs_in(part, s),
    ensures
        runs_in(part, a + s),
{
    let at = choose|at: int|
        0 <= at <= s.len() - part.len() && #[trigger] s.subrange(at, at + part.len()) == part;
    assert((a + s).subrange(a.len() + at, a.len() + at + part.len()) =~= part);
}

/// Where the messages of the assistant hold calls, those are the session's calls, message
/// by message and block by block, and each is told with its name and its input.
pub proof fn law_calls_of_the_assistant(messages: Seq<Json>, msg: Json, blocks: Seq<Json>, e: Json)
    ensures
        assistant_calls(messages.push(msg)) == assistant_calls(messages) + (if msg.string_member(
            "type"@,
        ) == Some("assistant"@) {
            calls_in(message_blocks(msg))
        } else {
            Seq::empty()
        }),
        calls_in(blocks.push(e)) == calls_in(blocks) + (if e.string_member("type"@) == Some(
            "tool_use"@,
        ) {
            seq![
                (
                    match e.string_member("name"@) {
                        Some(n) => n,
                        None => "?"@,
                    },
                    match e.member("input"@) {
                        Some(x) => x.text@,
                        None => "{}"@,
                    },
                ),
            ]
        } else {
            Seq::empty()
        }),
        final_results(messages.push(msg)) == final_results(messages) + (if msg.string_member(
            "type"@,
        ) == Some("result"@) {
            tool_results_in(own_blocks(msg))
        } else {
            Seq::empty()
        }),
        tool_results_in(blocks.push(e)) == tool_results_in(blocks) + (if e.string_member("type"@)
            == Some("tool_result"@) {
            seq![e.text@]
        } else {
            Seq::empty()
        }),
        msg.member("message"@) matches Some(m) ==> (m.list_member("content"@) matches Some(c)
            ==> message_blocks(msg) == c),
        msg.list_member("content"@) matches Some(c) ==> own_blocks(msg) == c,
{
    assert(messages.push(msg).drop_last() =~= messages);
    assert(blocks.push(e).drop_last() =~= blocks);
    assert(assistant_calls(messages.push(msg)) =~= assistant_calls(messages) + (if has_type(
        msg,
        "assistant"@,
    ) {
        calls_in(message_blocks(msg))
    } else {
        Seq::empty()
    }));
    assert(calls_in(blocks.push(e)) =~= calls_in(blocks) + (if has_type(e, "tool_use"@) {
        seq![record_of(e)]
    } else {
        Seq::empty()
    }));
    assert(final_results(messages.push(msg)) =~= final_results(messages) + (if has_type(
        msg,
        "result"@,
    ) {
        tool_results_in(own_blocks(msg))
    } else {
        Seq::empty()
    }));
    assert(tool_results_in(blocks.push(e)) =~= tool_results_in(blocks) + (if has_type(
        e,
        "tool_result"@,
    ) {
        seq![e.text@]
    } else {
        Seq::empty()
    }));
}

/// Where the messages of the assistant hold no call, calls are looked for wherever they are
/// written, and so are results, behind those of the final message.
pub proof fn law_calls_are_looked_for_everywhere(raw: Json, messages: Vec<Json>)
    requires
        raw.node == Node::List(messages),
    ensures
        assistant_calls(messages@).len() > 0 ==> session_uses(raw) == assistant_calls(messages@)
            && session_results(raw) == final_results(messages@),
        assistant_calls(messages@).len() == 0 && occurs_in("tool_use"@, raw.text@) ==> session_uses(
            raw,
        ) == uses_in(raw),
        assistant_calls(messages@).len() == 0 && !occurs_in("tool_use"@, raw.text@)
            ==> session_uses(raw).len() == 0,
        assistant_calls(messages@).len() == 0 && occurs_in("tool_result"@, raw.text@)
            ==> session_results(raw) == final_results(messages@) + results_in(raw),
        !occurs_in("tool_result"@, raw.text@) ==> session_results(raw) == final_results(messages@),
{
}

/// A session passes for having shown its calls exactly where it was run, has messages, and
/// they show a call; both tools were called only where each is named by a call.
pub proof fn law_what_the_calls_show(r: Result<AgentResponse, String>, i: int, j: int)
    ensures
        ({
            let v = records_verdict_of(r);
            &&& r is Err <==> v == RecordsVerdict::NoSession
            &&& r matches Ok(response) ==> {
                &&& response.raw_json is None <==> v == RecordsVerdict::NoMessages
                &&& response.raw_json matches Some(raw) ==> {
                    let calls = session_uses(raw);
                    &&& calls.len() == 0 <==> v == RecordsVerdict::NoCalls
                    &&& 0 <= i < calls.len() && occurs_in("echo"@, calls[i].0) && 0 <= j
                        < calls.len() && occurs_in("greet"@, calls[j].0) ==> v
                        == RecordsVerdict::BothCalls
                    &&& v == RecordsVerdict::BothCalls ==> (exists|k: int|
                        0 <= k < calls.len() && occurs_in("echo"@, (#[trigger] calls[k]).0)) && (
                    exists|k: int|
                        0 <= k < calls.len() && occurs_in("greet"@, (#[trigger] calls[k]).0))
                }
            }
        }),
{
}

/// A reply or messages that show the word that was to be echoed pass for a call of our
/// server, and so does the tool's name in the messages; a session that shows none of them
/// does not, nor one that could not be run.
pub proof fn law_what_shows_that_our_server_was_reached(r: Result<AgentResponse, String>)
    ensures
        r is Err ==> !reached_our_server(r),
        r matches Ok(response) ==> {
            &&& occurs_in("spike-test-1"@, response.content@) ==> reached_our_server(r)
            &&& response.raw_json matches Some(raw) ==> (occurs_in("echo"@, raw.text@) || occurs_in(
                "spike-test-1"@,
                raw.text@,
            ) ==> reached_our_server(r))
            &&& reached_our_server(r) ==> occurs_in("spike-test-1"@, response.content@) || (
            response.raw_json matches Some(raw) && (occurs_in("echo"@, raw.text@) || occurs_in(
                "spike-test-1"@,
                raw.text@,
            )))
        },
{
    if let Ok(response) = r {
        if occurs_in("ECHO: spike-test-1"@, response.content@) {
            reveal_strlit("ECHO: spike-test-1");
            reveal_strlit("spike-test-1");
            let at = choose|at: int| stands_at(response.content@, "ECHO: spike-test-1"@, at);
            let n = "spike-test-1"@.len() as int;
            assert("ECHO: spike-test-1"@.subrange(6, 6 + n) =~= "spike-test-1"@);
            assert(response.content@.subrange(at + 6, at + 6 + n) =~= response.content@.subrange(
                at,
                at + 6 + n,
            ).subrange(6, 6 + n));
            assert(stands_at(response.content@, "spike-test-1"@, at + 6));
        }
    }
}

/// A session passes for having read the file exactly where it called a built-in tool, or
/// its reply shows what stands in the file.
pub proof fn law_what_shows_that_the_file_was_read(response: AgentResponse)
    ensures
        read_the_file(response) <==> session_builtins(response.raw_json).len() > 0 || occurs_in(
            "[package]"@,
            response.content@,
        ) || occurs_in("glass-spike"@, response.content@),
{
}

/// Calls and results are found in the order in which they are written: those of an item
/// come behind those of all items before it, and the same holds of members, behind what the
/// object itself stands for.
pub proof fn law_calls_are_found_in_order(
    items: Vec<Json>,
    members: Vec<(String, Json)>,
    n: nat,
    m: nat,
    v: Json,
)
    requires
        n < items@.len(),
        m < members@.len(),
    ensures
        uses_in_items(items, 0).len() == 0 && results_in_items(items, 0).len() == 0,
        uses_in_items(items, n + 1) == uses_in_items(items, n) + uses_in(items@[n as int]),
        results_in_items(items, n + 1) == results_in_items(items, n) + results_in(items@[n as int]),
        v.node == Node::List(items) ==> uses_in(v) == uses_in_items(items, items@.len())
            && results_in(v) == results_in_items(items, items@.len()),
        uses_in_members(members, 0).len() == 0 && results_in_members(members, 0).len() == 0,
        uses_in_members(members, m + 1) == uses_in_members(members, m) + uses_in(
            members@[m as int].1,
        ),
        results_in_members(members, m + 1) == results_in_members(members, m) + results_in(
            members@[m as int].1,
        ),
        v.node == Node::Object(members) && v.string_member("type"@) != Some("tool_use"@)
            ==> uses_in(v) == uses_in_members(members, members@.len()),
        v.node == Node::Object(members) && v.string_member("type"@) == Some("tool_use"@)
            ==> uses_in(v).skip(1) == uses_in_members(members, members@.len()),
        v.node == Node::Object(members) && v.string_member("type"@) != Some("tool_result"@)
            ==> results_in(v) == results_in_members(members, members@.len()),
        v.node == Node::Object(members) && v.string_member("type"@) == Some("tool_result"@)
            ==> results_in(v).skip(1) == results_in_members(members, members@.len()),
{
    if v.node == Node::Object(members) {
        let uses = uses_in_members(members, members@.len());
        let results = results_in_members(members, members@.len());
        assert(Seq::<(Seq<char>, Seq<char>)>::empty() + uses =~= uses);
        assert(Seq::<Seq<char>>::empty() + results =~= results);
        assert((seq![record_of(v)] + uses).skip(1) =~= uses);
        assert((seq![v.text@] + results).skip(1) =~= results);
    }
}

} // verus!
