//! The models that can be chosen, and the choice.

use vstd::prelude::*;

use crate::failure::Failure;
use crate::text::{
    copy_option, debug_of, debug_text, in_order, join, joined_with, law_join_shows_each,
    lemma_occurs_between, lemma_occurs_in_longer, occurs_in, same, sorted, text_option, texts,
};

verus! {

/// The models that can be chosen, each under a name of its own, and the name of the
/// one that is chosen.
#[derive(Debug)]
pub struct ModelsConfig {
    pub selected: String,
    pub models: Vec<(String, ModelEntry)>,
}

/// What is known of a model.
#[derive(Debug)]
pub struct ModelEntry {
    pub pi_arg: Option<String>,
    pub context_window_tokens: usize,
    /// The share of the context window from which on a conversation is compacted, as
    /// the bits of a 32-bit floating-point number.
    pub compaction_threshold_bits: u32,
    pub keep_recent_tokens: usize,
    pub extra_pi_args: Vec<String>,
}

/// The model that is chosen.
#[derive(Debug)]
pub struct ResolvedModel {
    pub name: String,
    pub pi_arg: Option<String>,
    pub context_window_tokens: usize,
    /// As in [`ModelEntry`].
    pub compaction_threshold_bits: u32,
    pub keep_recent_tokens: usize,
    pub extra_pi_args: Vec<String>,
}

/// What is known of a model.
pub struct ModelView {
    pub pi_arg: Option<Seq<char>>,
    pub context_window_tokens: usize,
    pub compaction_threshold_bits: u32,
    pub keep_recent_tokens: usize,
    pub extra_pi_args: Seq<Seq<char>>,
}

impl View for ModelEntry {
    type V = ModelView;

    open spec fn view(&self) -> ModelView {
        ModelView {
            pi_arg: text_option(self.pi_arg),
            context_window_tokens: self.context_window_tokens,
            compaction_threshold_bits: self.compaction_threshold_bits,
            keep_recent_tokens: self.keep_recent_tokens,
            extra_pi_args: texts(self.extra_pi_args@),
        }
    }
}

impl ResolvedModel {
    /// What is known of the model.
    pub open spec fn model(self) -> ModelView {
        ModelView {
            pi_arg: text_option(self.pi_arg),
            context_window_tokens: self.context_window_tokens,
            compaction_threshold_bits: self.compaction_threshold_bits,
            keep_recent_tokens: self.keep_recent_tokens,
            extra_pi_args: texts(self.extra_pi_args@),
        }
    }
}

/// The names of models.
pub open spec fn names(models: Seq<(String, ModelEntry)>) -> Seq<Seq<char>> {
    models.map_values(|m: (String, ModelEntry)| m.0@)
}

/// Whether each model has a name of its own.
pub open spec fn distinct_names(models: Seq<(String, ModelEntry)>) -> bool {
    names(models).no_duplicates()
}

/// The texts, each quoted, in brackets.
pub open spec fn quoted_list(v: Seq<Seq<char>>) -> Seq<char> {
    "["@ + joined_with(v.map_values(|s: Seq<char>| debug_text(s)), ", "@) + "]"@
}

/// The failure of a choice that there is no model for.
pub open spec fn no_such_model(selected: Seq<char>, available: Seq<Seq<char>>) -> Seq<Seq<char>> {
    seq![
        "selected model `"@ + selected + "` not found in models config; available: "@
            + quoted_list(available),
    ]
}

fn copy_texts(v: &Vec<String>) -> (out: Vec<String>)
    ensures
        texts(out@) == texts(v@),
{
    let mut out: Vec<String> = Vec::new();
    let mut i: usize = 0;
    assert(texts(out@) =~= texts(v@).take(0));
    while i < v.len()
        invariant
            i <= v@.len(),
            texts(out@) == texts(v@).take(i as int),
        decreases v@.len() - i,
    {
        let ghost before = texts(out@);
        out.push(v[i].clone());
        assert(texts(out@) =~= before.push(texts(v@)[i as int]));
        assert(texts(out@) =~= texts(v@).take(i as int + 1));
        i += 1;
    }
    assert(texts(v@).take(i as int) =~= texts(v@));
    out
}

fn quote_all(v: &Vec<String>) -> (s: String)
    ensures
        s@ == quoted_list(texts(v@)),
{
    let ghost all = texts(v@).map_values(|s: Seq<char>| debug_text(s));
    let mut parts: Vec<String> = Vec::new();
    let mut i: usize = 0;
    assert(texts(parts@) =~= all.take(0));
    while i < v.len()
        invariant
            i <= v@.len(),
            all == texts(v@).map_values(|s: Seq<char>| debug_text(s)),
            texts(parts@) == all.take(i as int),
        decreases v@.len() - i,
    {
        let ghost before = texts(parts@);
        parts.push(debug_of(v[i].as_str()));
        assert(texts(parts@) =~= before.push(all[i as int]));
        assert(texts(parts@) =~= all.take(i as int + 1));
        i += 1;
    }
    assert(all.take(i as int) =~= all);
    let mut s: String = "[".to_owned();
    s.append(join(&parts, ", ").as_str());
    s.append("]");
    s
}

impl ModelsConfig {
    /// The model that is chosen. Where there is none of that name, the failure lists
    /// the names that there are, in order.
    pub fn resolve(&self) -> (r: Result<ResolvedModel, Failure>)
        requires
            distinct_names(self.models@),
        ensures
            match r {
                Ok(m) => {
                    &&& m.name@ == self.selected@
                    &&& exists|i: int|
                        0 <= i < self.models@.len() && (#[trigger] self.models@[i]).0@
                            == self.selected@ && self.models@[i].1@ == m.model()
                },
                Err(e) => {
                    &&& !names(self.models@).contains(self.selected@)
                    &&& exists|available: Seq<Seq<char>>|
                        {
                            &&& #[trigger] in_order(available)
                            &&& available.to_multiset() == names(self.models@).to_multiset()
                            &&& e@ == no_such_model(self.selected@, available)
                        }
                },
            },
    {
        let mut listed: Vec<String> = Vec::new();
        let mut i: usize = 0;
        assert(texts(listed@) =~= names(self.models@).take(0));
        while i < self.models.len()
            invariant
                i <= self.models@.len(),
                texts(listed@) == names(self.models@).take(i as int),
                forall|j: int| 0 <= j < i ==> (#[trigger] names(self.models@)[j]) != self.selected@,
            decreases self.models@.len() - i,
        {
            if same(self.models[i].0.as_str(), self.selected.as_str()) {
                let entry: &ModelEntry = &self.models[i].1;
                let chosen = ResolvedModel {
                    name: self.selected.clone(),
                    pi_arg: copy_option(&entry.pi_arg),
                    context_window_tokens: entry.context_window_tokens,
                    compaction_threshold_bits: entry.compaction_threshold_bits,
                    keep_recent_tokens: entry.keep_recent_tokens,
                    extra_pi_args: copy_texts(&entry.extra_pi_args),
                };
                assert(self.models@[i as int].1@ == chosen.model());
                return Ok(chosen);
            }
            let ghost before = texts(listed@);
            listed.push(self.models[i].0.clone());
            assert(texts(listed@) =~= before.push(names(self.models@)[i as int]));
            assert(texts(listed@) =~= names(self.models@).take(i as int + 1));
            i += 1;
        }
        assert(names(self.models@).take(i as int) =~= names(self.models@));
        let available: Vec<String> = sorted(listed);
        let mut message: String = "selected model `".to_owned();
        message.append(self.selected.as_str());
        message.append("` not found in models config; available: ");
        message.append(quote_all(&available).as_str());
        let e: Failure = Failure::new(message);
        assert(in_order(texts(available@)));
        Err(e)
    }
}

/// A name is that of one model at most, so that the choice is unambiguous.
pub proof fn law_choice_is_unambiguous(models: Seq<(String, ModelEntry)>, i: int, j: int)
    requires
        distinct_names(models),
        0 <= i < models.len(),
        0 <= j < models.len(),
        models[i].0@ == models[j].0@,
    ensures
        i == j,
{
    assert(names(models)[i] == names(models)[j]);
}

/// The failure of a choice names what was chosen, and quotes every name that there is.
pub proof fn law_failed_choice_lists_the_names(
    selected: Seq<char>,
    available: Seq<Seq<char>>,
    i: int,
)
    requires
        0 <= i < available.len(),
    ensures
        no_such_model(selected, available).len() == 1,
        occurs_in("`"@ + selected + "`"@, no_such_model(selected, available)[0]),
        occurs_in(debug_text(available[i]), no_such_model(selected, available)[0]),
{
    let s = no_such_model(selected, available)[0];
    let quoted = available.map_values(|s: Seq<char>| debug_text(s));
    let list = joined_with(quoted, ", "@);
    reveal_strlit("selected model `");
    reveal_strlit("selected model ");
    reveal_strlit("`");
    reveal_strlit("` not found in models config; available: ");
    reveal_strlit(" not found in models config; available: ");
    assert("selected model `"@ =~= "selected model "@ + "`"@);
    assert("` not found in models config; available: "@ =~= "`"@
        + " not found in models config; available: "@);
    let name = "`"@ + selected + "`"@;
    let rest = " not found in models config; available: "@ + quoted_list(available);
    lemma_occurs_between("selected model "@, name, rest);
    assert("selected model "@ + name + rest =~= s);
    law_join_shows_each(quoted, ", "@, i);
    assert(quoted[i] == debug_text(available[i]));
    let head = "selected model "@ + name + " not found in models config; available: "@ + "["@;
    lemma_occurs_in_longer(debug_text(available[i]), head, list, "]"@);
    assert(head + list + "]"@ =~= s);
}

/// All that is known of a model is told: two entries that tell the same have the same
/// argument, window, threshold, kept tokens and extra arguments, and so has the model that
/// is chosen.
pub proof fn law_model_is_told_in_full(e: ModelEntry, m: ResolvedModel, i: int)
    requires
        e@ == m.model(),
    ensures
        e.pi_arg is Some <==> m.pi_arg is Some,
        e.pi_arg is Some ==> e.pi_arg->0@ == m.pi_arg->0@,
        e.context_window_tokens == m.context_window_tokens,
        e.compaction_threshold_bits == m.compaction_threshold_bits,
        e.keep_recent_tokens == m.keep_recent_tokens,
        e.extra_pi_args@.len() == m.extra_pi_args@.len(),
        0 <= i < e.extra_pi_args@.len() ==> e.extra_pi_args@[i]@ == m.extra_pi_args@[i]@,
{
    assert(texts(e.extra_pi_args@).len() == texts(m.extra_pi_args@).len());
    if 0 <= i < e.extra_pi_args@.len() {
        assert(texts(e.extra_pi_args@)[i] == e.extra_pi_args@[i]@);
        assert(texts(m.extra_pi_args@)[i] == m.extra_pi_args@[i]@);
    }
}

} // verus!
