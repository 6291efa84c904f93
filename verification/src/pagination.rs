//! The `$skip` and `$top` query options.
use vstd::prelude::*;
use crate::lex::{Lexed, LexedV};
use crate::parse::{
    end_label, just, just_spec, labelled, no_alt, select, select_spec, Alt, AltV, Expected, Label,
    Sel, Step, StepV,
};
use crate::path::tok_text;
use crate::token::{Keyword, TokV, Token};

use crate::lex::{lex, lex_spec};
use crate::text::{conclude, outcome, result_view};

use crate::text::{nat_text, push_nat};
verus! {

/// The [OData $skip query option](https://docs.oasis-open.org/odata/odata/v4.01/odata-v4.01-part1-protocol.html#sec_SystemQueryOptionskip).
#[derive(Debug, Clone, Copy, PartialEq, Eq, PartialOrd, Ord)]
pub enum Skip<'src> {
    Offset(u128),
    Cursor(&'src str),
}

/// The [OData $top query option](https://docs.oasis-open.org/odata/odata/v4.01/odata-v4.01-part1-protocol.html#sec_SystemQueryOptiontop).
#[derive(Debug, Clone, Copy, PartialEq, Eq, PartialOrd, Ord)]
pub enum Top<'src> {
    Offset(u128),
    Cursor(&'src str),
}

/// The model of a [`Skip`] or a [`Top`].
pub enum PageV {
    Offset(u128),
    Cursor(Seq<char>),
}

impl<'src> View for Skip<'src> {
    type V = PageV;

    open spec fn view(&self) -> PageV {
        match self {
            Skip::Offset(o) => PageV::Offset(*o),
            Skip::Cursor(c) => PageV::Cursor(c@),
        }
    }
}

impl<'src> View for Top<'src> {
    type V = PageV;

    open spec fn view(&self) -> PageV {
        match self {
            Top::Offset(o) => PageV::Offset(*o),
            Top::Cursor(c) => PageV::Cursor(c@),
        }
    }
}

pub open spec fn offset_of(t: TokV) -> u128 {
    match t {
        TokV::Offset(o) => o,
        _ => 0,
    }
}

/// The keyword `k`, then an offset or a quoted cursor.
pub open spec fn page_spec(lx: LexedV, pos: nat, k: Keyword, alt: AltV) -> (StepV<PageV>, AltV) {
    let (r1, a1) = just_spec(lx, pos, Expected::Kw(k), alt);
    match r1 {
        StepV::Fail => (StepV::Fail, a1),
        StepV::Done(_, p1) => {
            let (r2, i2) = select_spec(lx, p1, Sel::Offset, None);
            let a2 = labelled(a1, p1, i2, Label::Offset);
            match r2 {
                StepV::Done(t, p2) => (StepV::Done(PageV::Offset(offset_of(t)), p2), a2),
                StepV::Fail => {
                    let (r3, i3) = select_spec(lx, p1, Sel::Str, None);
                    let a3 = labelled(a2, p1, i3, Label::Cursor);
                    match r3 {
                        StepV::Done(t, p3) => (StepV::Done(PageV::Cursor(tok_text(t)), p3), a3),
                        StepV::Fail => (StepV::Fail, a3),
                    }
                },
            }
        },
    }
}

/// What follows the keyword of a `$skip` or `$top`.
enum PageE<'src> {
    Offset(u128),
    Cursor(&'src str),
}

impl<'src> View for PageE<'src> {
    type V = PageV;

    closed spec fn view(&self) -> PageV {
        match self {
            PageE::Offset(o) => PageV::Offset(*o),
            PageE::Cursor(c) => PageV::Cursor(c@),
        }
    }
}

fn page_parse<'src>(lx: &Lexed<'src>, pos: usize, k: Keyword, alt: Alt) -> (r: (Step<PageE<'src>>, Alt))
    requires
        pos <= lx@.toks.len(),
    ensures
        (r.0@, r.1@) == page_spec(lx@, pos as nat, k, alt@),
        r.0 matches Step::Done(_, p) ==> pos < p <= lx@.toks.len(),
{
    let (r1, a1) = just(lx, pos, Expected::Kw(k), alt);
    match r1 {
        Step::Fail => (Step::Fail, a1),
        Step::Done(_, p1) => {
            let (r2, i2) = select(lx, p1, Sel::Offset, no_alt());
            let a2 = end_label(a1, p1, i2, Label::Offset);
            match r2 {
                Step::Done(Token::Offset(o), p2) => (Step::Done(PageE::Offset(o), p2), a2),
                Step::Done(_, _) => {
                    proof {
                        assert(false);
                    }
                    (Step::Fail, a2)
                },
                Step::Fail => {
                    let (r3, i3) = select(lx, p1, Sel::Str, no_alt());
                    let a3 = end_label(a2, p1, i3, Label::Cursor);
                    match r3 {
                        Step::Done(Token::Str(s), p3) => (Step::Done(PageE::Cursor(s), p3), a3),
                        Step::Done(_, _) => {
                            proof {
                                assert(false);
                            }
                            (Step::Fail, a3)
                        },
                        Step::Fail => (Step::Fail, a3),
                    }
                },
            }
        },
    }
}

pub fn skip_parse<'src>(lx: &Lexed<'src>, pos: usize, alt: Alt) -> (r: (Step<Skip<'src>>, Alt))
    requires
        pos <= lx@.toks.len(),
    ensures
        (r.0@, r.1@) == page_spec(lx@, pos as nat, Keyword::Skip, alt@),
        r.0 matches Step::Done(_, p) ==> pos < p <= lx@.toks.len(),
{
    let (r, a) = page_parse(lx, pos, Keyword::Skip, alt);
    match r {
        Step::Done(PageE::Offset(o), p) => (Step::Done(Skip::Offset(o), p), a),
        Step::Done(PageE::Cursor(c), p) => (Step::Done(Skip::Cursor(c), p), a),
        Step::Fail => (Step::Fail, a),
    }
}

pub fn top_parse<'src>(lx: &Lexed<'src>, pos: usize, alt: Alt) -> (r: (Step<Top<'src>>, Alt))
    requires
        pos <= lx@.toks.len(),
    ensures
        (r.0@, r.1@) == page_spec(lx@, pos as nat, Keyword::Top, alt@),
        r.0 matches Step::Done(_, p) ==> pos < p <= lx@.toks.len(),
{
    let (r, a) = page_parse(lx, pos, Keyword::Top, alt);
    match r {
        Step::Done(PageE::Offset(o), p) => (Step::Done(Top::Offset(o), p), a),
        Step::Done(PageE::Cursor(c), p) => (Step::Done(Top::Cursor(c), p), a),
        Step::Fail => (Step::Fail, a),
    }
}


/// What parsing a whole source as a `$skip=` option gives: the value, or the
/// report of where and why parsing failed.
pub open spec fn skip_outcome(s: Seq<char>) -> Result<PageV, Seq<char>> {
    let lx = lex_spec(s);
    outcome(s, lx, page_spec(lx, 0, Keyword::Skip, None))
}

impl<'src> Skip<'src> {
    /// Parses a whole source as a `$skip=` option; the error is a report of where and why
    /// parsing failed.
    pub fn try_from(value: &'src str) -> (r: Result<Skip<'src>, String>)
        ensures
            result_view(r) == skip_outcome(value@),
            r matches Err(e) ==> e@.take(7) == "Error: "@,
    {
        let lx = lex(value);
        let r = skip_parse(&lx, 0, no_alt());
        conclude(value, &lx, r)
    }
}

/// What parsing a whole source as a `$top=` option gives: the value, or the
/// report of where and why parsing failed.
pub open spec fn top_outcome(s: Seq<char>) -> Result<PageV, Seq<char>> {
    let lx = lex_spec(s);
    outcome(s, lx, page_spec(lx, 0, Keyword::Top, None))
}

impl<'src> Top<'src> {
    /// Parses a whole source as a `$top=` option; the error is a report of where and why
    /// parsing failed.
    pub fn try_from(value: &'src str) -> (r: Result<Top<'src>, String>)
        ensures
            result_view(r) == top_outcome(value@),
            r matches Err(e) ==> e@.take(7) == "Error: "@,
    {
        let lx = lex(value);
        let r = top_parse(&lx, 0, no_alt());
        conclude(value, &lx, r)
    }
}


/// The keyword of `k` (`$skip=` or `$top=`), then the offset, or the cursor in quotes.
pub open spec fn page_text(k: Keyword, p: PageV) -> Seq<char> {
    (if k == Keyword::Top {
        "$top="@
    } else {
        "$skip="@
    }) + match p {
        PageV::Offset(o) => nat_text(o as nat),
        PageV::Cursor(c) => "'"@ + c + "'"@,
    }
}

fn page_string(k: Keyword, p: PageE) -> (r: String)
    ensures
        r@ == page_text(k, p@),
{
    let mut s = String::new();
    if k == Keyword::Top {
        s.append("$top=");
    } else {
        s.append("$skip=");
    }
    match p {
        PageE::Offset(o) => push_nat(&mut s, o),
        PageE::Cursor(c) => {
            s.append("'");
            s.append(c);
            s.append("'");
        },
    }
    assert(s@ =~= page_text(k, p@));
    s
}

impl<'src> Skip<'src> {
    /// `$skip=` and the offset, or the cursor in quotes.
    pub fn to_string(&self) -> (r: String)
        ensures
            r@ == page_text(Keyword::Skip, self@),
    {
        match *self {
            Skip::Offset(o) => page_string(Keyword::Skip, PageE::Offset(o)),
            Skip::Cursor(c) => page_string(Keyword::Skip, PageE::Cursor(c)),
        }
    }
}

impl<'src> Top<'src> {
    /// `$top=` and the offset, or the cursor in quotes.
    pub fn to_string(&self) -> (r: String)
        ensures
            r@ == page_text(Keyword::Top, self@),
    {
        match *self {
            Top::Offset(o) => page_string(Keyword::Top, PageE::Offset(o)),
            Top::Cursor(c) => page_string(Keyword::Top, PageE::Cursor(c)),
        }
    }
}

} // verus!

verus! {

impl<'src> TryFrom<&'src str> for Skip<'src> {
    type Error = String;

    /// See [`Skip::try_from`].
    fn try_from(value: &'src str) -> (r: Result<Skip<'src>, String>)
        ensures
            result_view(r) == skip_outcome(value@),
    {
        Skip::try_from(value)
    }
}

impl<'src> vstd::std_specs::convert::TryFromSpecImpl<&'src str> for Skip<'src> {
    open spec fn obeys_try_from_spec() -> bool {
        false
    }

    open spec fn try_from_spec(v: &'src str) -> Result<Skip<'src>, String> {
        arbitrary()
    }
}

impl<'src> TryFrom<&'src str> for Top<'src> {
    type Error = String;

    /// See [`Top::try_from`].
    fn try_from(value: &'src str) -> (r: Result<Top<'src>, String>)
        ensures
            result_view(r) == top_outcome(value@),
    {
        Top::try_from(value)
    }
}

impl<'src> vstd::std_specs::convert::TryFromSpecImpl<&'src str> for Top<'src> {
    open spec fn obeys_try_from_spec() -> bool {
        false
    }

    open spec fn try_from_spec(v: &'src str) -> Result<Top<'src>, String> {
        arbitrary()
    }
}

} // verus!
