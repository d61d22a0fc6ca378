//! What went wrong, from the outermost account of it to the innermost cause.

use vstd::prelude::*;

use crate::text::{join, joined_with, law_join_shows_each, law_join_splits, occurs_in, texts};

verus! {

/// A failure: its messages, the outermost first.
#[derive(Debug)]
pub struct Failure {
    pub chain: Vec<String>,
}

impl View for Failure {
    type V = Seq<Seq<char>>;

    open spec fn view(&self) -> Seq<Seq<char>> {
        texts(self.chain@)
    }
}

/// The outermost message of a failure.
pub open spec fn headline(chain: Seq<Seq<char>>) -> Seq<char> {
    if chain.len() == 0 {
        Seq::empty()
    } else {
        chain[0]
    }
}

/// All messages of a failure, the outermost first.
pub open spec fn account(chain: Seq<Seq<char>>) -> Seq<char> {
    joined_with(chain, ": "@)
}

impl Failure {
    /// A failure with a single message.
    pub fn new(message: String) -> (r: Failure)
        ensures
            r@ == seq![message@],
    {
        let mut chain: Vec<String> = Vec::new();
        chain.push(message);
        let r = Failure { chain };
        assert(r@ =~= seq![message@]);
        r
    }

    /// The same failure, told from further out.
    pub fn context(self, message: String) -> (r: Failure)
        ensures
            r@ == seq![message@] + self@,
    {
        let mut chain: Vec<String> = self.chain;
        chain.insert(0, message);
        let r = Failure { chain };
        assert(r@ =~= seq![message@] + self@);
        r
    }

    /// The outermost message.
    pub fn message(&self) -> (s: String)
        ensures
            s@ == headline(self@),
    {
        if self.chain.len() == 0 {
            String::new()
        } else {
            self.chain[0].clone()
        }
    }

    /// All messages, the outermost first.
    pub fn report(&self) -> (s: String)
        ensures
            s@ == account(self@),
    {
        join(&self.chain, ": ")
    }
}

/// A failure that is told from further out keeps every message that it had, behind the new
/// one, which becomes the outermost; and its account tells all of them.
pub proof fn law_context_keeps_the_causes(chain: Seq<Seq<char>>, message: Seq<char>, i: int)
    requires
        0 <= i < chain.len(),
    ensures
        ({
            let outer = seq![message] + chain;
            &&& headline(outer) == message
            &&& account(outer) == message + ": "@ + account(chain)
            &&& occurs_in(chain[i], account(outer))
            &&& occurs_in(message, account(outer))
        }),
{
    let outer = seq![message] + chain;
    law_join_splits(seq![message], chain, ": "@);
    law_join_shows_each(outer, ": "@, i + 1);
    law_join_shows_each(outer, ": "@, 0);
    assert(outer[i + 1] == chain[i]);
}

} // verus!
