//! The `$search` query option.
use vstd::prelude::*;
use crate::lex::{Lexed, LexedV};
use crate::parse::{end_label, labelled, no_alt, select, select_spec, Alt, AltV, Label, Sel, Step, StepV};
use crate::path::tok_text;
use crate::token::Token;

use crate::lex::{lex, lex_spec};
use crate::text::{conclude, outcome, result_view};

verus! {

/// The [OData $search query option](https://docs.oasis-open.org/odata/odata/v4.01/odata-v4.01-part1-protocol.html#sec_SystemQueryOptionsearch).
#[derive(Debug, Clone, Copy, PartialEq, Eq, PartialOrd, Ord)]
pub struct Search<'src>(pub &'src str);

impl<'src> View for Search<'src> {
    type V = Seq<char>;

    open spec fn view(&self) -> Seq<char> {
        self.0@
    }
}

/// A `$search=...` token.
pub open spec fn search_spec(lx: LexedV, pos: nat, alt: AltV) -> (StepV<Seq<char>>, AltV) {
    let (r, a) = select_spec(lx, pos, Sel::Search, None);
    (
        match r {
            StepV::Done(t, p) => StepV::Done(tok_text(t), p),
            StepV::Fail => StepV::Fail,
        },
        labelled(alt, pos, a, Label::Search),
    )
}

pub fn search_parse<'src>(lx: &Lexed<'src>, pos: usize, alt: Alt) -> (r: (Step<Search<'src>>, Alt))
    requires
        pos <= lx@.toks.len(),
    ensures
        (r.0@, r.1@) == search_spec(lx@, pos as nat, alt@),
        r.0 matches Step::Done(_, p) ==> pos < p <= lx@.toks.len(),
{
    let (r, a) = select(lx, pos, Sel::Search, no_alt());
    let a2 = end_label(alt, pos, a, Label::Search);
    match r {
        Step::Done(Token::Search(s), p) => (Step::Done(Search(s), p), a2),
        Step::Done(_, _) => {
            proof {
                assert(false);
            }
            (Step::Fail, a2)
        },
        Step::Fail => (Step::Fail, a2),
    }
}


/// What parsing a whole source as a `$search=` option gives: the value, or the
/// report of where and why parsing failed.
pub open spec fn search_outcome(s: Seq<char>) -> Result<Seq<char>, Seq<char>> {
    let lx = lex_spec(s);
    outcome(s, lx, search_spec(lx, 0, None))
}

impl<'src> Search<'src> {
    /// Parses a whole source as a `$search=` option; the error is a report of where and why
    /// parsing failed.
    pub fn try_from(value: &'src str) -> (r: Result<Search<'src>, String>)
        ensures
            result_view(r) == search_outcome(value@),
            r matches Err(e) ==> e@.take(7) == "Error: "@,
    {
        let lx = lex(value);
        let r = search_parse(&lx, 0, no_alt());
        conclude(value, &lx, r)
    }
}


/// `$search=` and the text.
pub open spec fn search_text(t: Seq<char>) -> Seq<char> {
    "$search="@ + t
}

impl<'src> Search<'src> {
    /// `$search=` and the text.
    pub fn to_string(&self) -> (r: String)
        ensures
            r@ == search_text(self@),
    {
        let mut s = String::new();
        s.append("$search=");
        s.append(self.0);
        assert(s@ =~= search_text(self@));
        s
    }
}

} // verus!

verus! {

impl<'src> TryFrom<&'src str> for Search<'src> {
    type Error = String;

    /// See [`Search::try_from`].
    fn try_from(value: &'src str) -> (r: Result<Search<'src>, String>)
        ensures
            result_view(r) == search_outcome(value@),
    {
        Search::try_from(value)
    }
}

impl<'src> vstd::std_specs::convert::TryFromSpecImpl<&'src str> for Search<'src> {
    open spec fn obeys_try_from_spec() -> bool {
        false
    }

    open spec fn try_from_spec(v: &'src str) -> Result<Search<'src>, String> {
        arbitrary()
    }
}

} // verus!

verus! {

impl<'src> core::ops::Deref for Search<'src> {
    type Target = &'src str;

    /// The text searched for.
    fn deref(&self) -> (r: &&'src str)
        ensures
            *r == self.0,
    {
        &self.0
    }
}

} // verus!
