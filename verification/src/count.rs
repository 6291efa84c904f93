//! The `$count` query option.
use vstd::prelude::*;
use crate::lex::{Lexed, LexedV};
use crate::parse::{
    end_label, just, just_spec, labelled, no_alt, select, select_spec, Alt, AltV, Expected, Label,
    Sel, Step, StepV,
};
use crate::token::{Keyword, TokV, Token};

use crate::lex::{lex, lex_spec};
use crate::text::{conclude, outcome, result_view};

verus! {

/// The [OData $count query option](https://docs.oasis-open.org/odata/odata/v4.01/odata-v4.01-part1-protocol.html#sec_SystemQueryOptioncount).
#[derive(Debug, Clone, Copy, PartialEq, Eq, PartialOrd, Ord)]
pub struct Count(pub bool);

impl View for Count {
    type V = bool;

    open spec fn view(&self) -> bool {
        self.0
    }
}

impl Default for Count {
    fn default() -> (r: Count)
        ensures
            r.0 == false,
    {
        Count(false)
    }
}

impl From<bool> for Count {
    fn from(value: bool) -> (r: Count) {
        Count(value)
    }
}

impl vstd::std_specs::convert::FromSpecImpl<bool> for Count {
    open spec fn obeys_from_spec() -> bool {
        true
    }

    open spec fn from_spec(v: bool) -> Count {
        Count(v)
    }
}

pub open spec fn bool_of(t: TokV) -> bool {
    match t {
        TokV::Bool(b) => b,
        _ => false,
    }
}

/// `$count`, then optionally `true` or `false`; without one the count is requested.
pub open spec fn count_spec(lx: LexedV, pos: nat, alt: AltV) -> (StepV<bool>, AltV) {
    let (r1, a1) = just_spec(lx, pos, Expected::Kw(Keyword::Count), alt);
    match r1 {
        StepV::Fail => (StepV::Fail, a1),
        StepV::Done(_, p1) => {
            let (r2, a2) = select_spec(lx, p1, Sel::Bool, None);
            let a = labelled(a1, p1, a2, Label::TrueFalse);
            match r2 {
                StepV::Done(t, p2) => (StepV::Done(bool_of(t), p2), a),
                StepV::Fail => (StepV::Done(true, p1), a),
            }
        },
    }
}

pub fn count_parse<'src>(lx: &Lexed<'src>, pos: usize, alt: Alt) -> (r: (Step<Count>, Alt))
    requires
        pos <= lx@.toks.len(),
    ensures
        (r.0@, r.1@) == count_spec(lx@, pos as nat, alt@),
        r.0 matches Step::Done(_, p) ==> pos < p <= lx@.toks.len(),
{
    let (r1, a1) = just(lx, pos, Expected::Kw(Keyword::Count), alt);
    match r1 {
        Step::Fail => (Step::Fail, a1),
        Step::Done(_, p1) => {
            let (r2, a2) = select(lx, p1, Sel::Bool, no_alt());
            let a = end_label(a1, p1, a2, Label::TrueFalse);
            match r2 {
                Step::Done(t, p2) => {
                    let b = match t {
                        Token::Bool(b) => b,
                        _ => false,
                    };
                    (Step::Done(Count(b), p2), a)
                },
                Step::Fail => (Step::Done(Count(true), p1), a),
            }
        },
    }
}


/// What parsing a whole source as `$count`, `$count=`, `$count=true` or `$count=false` gives: the value, or the
/// report of where and why parsing failed.
pub open spec fn count_outcome(s: Seq<char>) -> Result<bool, Seq<char>> {
    let lx = lex_spec(s);
    outcome(s, lx, count_spec(lx, 0, None))
}

impl Count {
    /// Parses a whole source as `$count`, `$count=`, `$count=true` or `$count=false`; the error is a report of where and why
    /// parsing failed.
    pub fn try_from<'src>(value: &'src str) -> (r: Result<Count, String>)
        ensures
            result_view(r) == count_outcome(value@),
            r matches Err(e) ==> e@.take(7) == "Error: "@,
    {
        let lx = lex(value);
        let r = count_parse(&lx, 0, no_alt());
        conclude(value, &lx, r)
    }
}


/// `$count=true` or `$count=false`.
pub open spec fn count_text(c: bool) -> Seq<char> {
    "$count="@ + if c {
        "true"@
    } else {
        "false"@
    }
}

impl Count {
    /// `$count=true` or `$count=false`.
    pub fn to_string(&self) -> (r: String)
        ensures
            r@ == count_text(self.0),
    {
        let mut s = String::new();
        s.append("$count=");
        if self.0 {
            s.append("true");
        } else {
            s.append("false");
        }
        assert(s@ =~= count_text(self.0));
        s
    }
}

} // verus!

verus! {

impl<'src> TryFrom<&'src str> for Count {
    type Error = String;

    /// See [`Count::try_from`].
    fn try_from(value: &'src str) -> (r: Result<Count, String>)
        ensures
            result_view(r) == count_outcome(value@),
    {
        Count::try_from(value)
    }
}

impl<'src> vstd::std_specs::convert::TryFromSpecImpl<&'src str> for Count {
    open spec fn obeys_try_from_spec() -> bool {
        false
    }

    open spec fn try_from_spec(v: &'src str) -> Result<Count, String> {
        arbitrary()
    }
}

} // verus!

verus! {

impl core::ops::Deref for Count {
    type Target = bool;

    /// Whether the count is requested.
    fn deref(&self) -> (r: &bool)
        ensures
            *r == self.0,
    {
        &self.0
    }
}

} // verus!
