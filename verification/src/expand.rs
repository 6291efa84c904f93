//! The `$expand` query option: related paths, each with its own query options.
use vstd::prelude::*;
use crate::lex::{Lexed, LexedV};
use crate::parse::{just, just_spec, Alt, AltV, Expected, List, Step, StepV};
use crate::path::{path_parse, path_spec, Path, SegmentV};
use crate::token::{Ctrl, Keyword};
use crate::{odata_default, options_parse, options_spec, OData, ODataV};

use crate::lex::{lex, lex_spec};
use crate::parse::no_alt;
use crate::text::{conclude, outcome, result_view};

use crate::{expand_items_text, expand_string};
verus! {

/// The [OData $expand query option](https://docs.oasis-open.org/odata/odata/v4.01/odata-v4.01-part1-protocol.html#sec_SystemQueryOptionexpand).
#[derive(Debug, PartialEq)]
pub struct Expand<'src>(pub Vec<(Path<'src>, OData<'src>)>);

impl<'src> View for Expand<'src> {
    type V = Seq<(Seq<SegmentV>, ODataV)>;

    open spec fn view(&self) -> Seq<(Seq<SegmentV>, ODataV)> {
        Seq::new(self.0@.len(), |i: int| self.0@[i]@)
    }
}

impl<'src> From<Vec<(Path<'src>, OData<'src>)>> for Expand<'src> {
    fn from(value: Vec<(Path<'src>, OData<'src>)>) -> (r: Expand<'src>) {
        Expand(value)
    }
}

impl<'src> vstd::std_specs::convert::FromSpecImpl<Vec<(Path<'src>, OData<'src>)>> for Expand<'src> {
    open spec fn obeys_from_spec() -> bool {
        true
    }

    open spec fn from_spec(v: Vec<(Path<'src>, OData<'src>)>) -> Expand<'src> {
        Expand(v)
    }
}

/// Query options in parentheses, separated by `,`.
pub open spec fn nested_spec(lx: LexedV, pos: nat, alt: AltV) -> (StepV<ODataV>, AltV)
    decreases lx.toks.len() - pos, 1int,
{
    let (r1, a1) = just_spec(lx, pos, Expected::Ctrl(Ctrl::LParen), alt);
    match r1 {
        StepV::Fail => (StepV::Fail, a1),
        StepV::Done(_, p1) => if pos < p1 <= lx.toks.len() {
            let (r2, a2) = options_spec(lx, p1, Ctrl::Comma, a1);
            match r2 {
                StepV::Fail => (StepV::Fail, a2),
                StepV::Done(o, p2) => if p2 <= lx.toks.len() {
                    let (r3, a3) = just_spec(lx, p2, Expected::Ctrl(Ctrl::RParen), a2);
                    match r3 {
                        StepV::Fail => (StepV::Fail, a3),
                        StepV::Done(_, p3) => (StepV::Done(o, p3), a3),
                    }
                } else {
                    (StepV::Fail, a2)
                },
            }
        } else {
            (StepV::Fail, a1)
        },
    }
}

/// A path, then optionally its query options in parentheses.
pub open spec fn expand_item_spec(lx: LexedV, pos: nat, alt: AltV) -> (StepV<(Seq<SegmentV>, ODataV)>, AltV)
    decreases lx.toks.len() - pos, 2int,
{
    let (r1, a1) = path_spec(lx, pos, alt);
    match r1 {
        StepV::Fail => (StepV::Fail, a1),
        StepV::Done(path, p1) => if pos <= p1 <= lx.toks.len() {
            let (r2, a2) = nested_spec(lx, p1, a1);
            match r2 {
                StepV::Fail => (StepV::Done((path, odata_default()), p1), a2),
                StepV::Done(o, p2) => (StepV::Done((path, o), p2), a2),
            }
        } else {
            (StepV::Fail, a1)
        },
    }
}

/// Further items, each after a `,`.
pub open spec fn expand_rest_spec(
    lx: LexedV,
    pos: nat,
    acc: Seq<(Seq<SegmentV>, ODataV)>,
    alt: AltV,
) -> (StepV<Seq<(Seq<SegmentV>, ODataV)>>, AltV)
    decreases lx.toks.len() - pos, 0int,
{
    let (r1, a1) = just_spec(lx, pos, Expected::Ctrl(Ctrl::Comma), alt);
    match r1 {
        StepV::Fail => (StepV::Done(acc, pos), a1),
        StepV::Done(_, p1) => if pos < p1 <= lx.toks.len() {
            let (r2, a2) = expand_item_spec(lx, p1, a1);
            match r2 {
                StepV::Fail => (StepV::Done(acc, pos), a2),
                StepV::Done(v, p2) => if pos < p2 <= lx.toks.len() {
                    expand_rest_spec(lx, p2, acc.push(v), a2)
                } else {
                    (StepV::Fail, a2)
                },
            }
        } else {
            (StepV::Fail, a1)
        },
    }
}

/// `$expand=`, then items separated by `,`.
pub open spec fn expand_spec(lx: LexedV, pos: nat, alt: AltV) -> (StepV<Seq<(Seq<SegmentV>, ODataV)>>, AltV)
    decreases lx.toks.len() - pos, 3int,
{
    let (r1, a1) = just_spec(lx, pos, Expected::Kw(Keyword::Expand), alt);
    match r1 {
        StepV::Fail => (StepV::Fail, a1),
        StepV::Done(_, p1) => if pos < p1 <= lx.toks.len() {
            let (r2, a2) = expand_item_spec(lx, p1, a1);
            match r2 {
                StepV::Fail => (StepV::Done(Seq::empty(), p1), a2),
                StepV::Done(v, p2) => if p1 <= p2 <= lx.toks.len() {
                    expand_rest_spec(lx, p2, seq![v], a2)
                } else {
                    (StepV::Fail, a2)
                },
            }
        } else {
            (StepV::Fail, a1)
        },
    }
}

fn nested_parse<'src>(lx: &Lexed<'src>, pos: usize, alt: Alt) -> (r: (Step<OData<'src>>, Alt))
    requires
        pos <= lx@.toks.len(),
    ensures
        (r.0@, r.1@) == nested_spec(lx@, pos as nat, alt@),
        r.0 matches Step::Done(_, p) ==> pos < p <= lx@.toks.len(),
    decreases lx@.toks.len() - pos, 1int,
{
    let (r1, a1) = just(lx, pos, Expected::Ctrl(Ctrl::LParen), alt);
    match r1 {
        Step::Fail => (Step::Fail, a1),
        Step::Done(_, p1) => {
            let (r2, a2) = options_parse(lx, p1, Ctrl::Comma, a1);
            match r2 {
                Step::Fail => (Step::Fail, a2),
                Step::Done(o, p2) => {
                    let (r3, a3) = just(lx, p2, Expected::Ctrl(Ctrl::RParen), a2);
                    match r3 {
                        Step::Fail => (Step::Fail, a3),
                        Step::Done(_, p3) => (Step::Done(o, p3), a3),
                    }
                },
            }
        },
    }
}

fn expand_item<'src>(lx: &Lexed<'src>, pos: usize, alt: Alt) -> (r: (Step<(Path<'src>, OData<'src>)>, Alt))
    requires
        pos <= lx@.toks.len(),
    ensures
        (r.0@, r.1@) == expand_item_spec(lx@, pos as nat, alt@),
        r.0 matches Step::Done(_, p) ==> pos <= p <= lx@.toks.len(),
    decreases lx@.toks.len() - pos, 2int,
{
    let (r1, a1) = path_parse(lx, pos, alt);
    match r1 {
        Step::Fail => (Step::Fail, a1),
        Step::Done(path, p1) => {
            let (r2, a2) = nested_parse(lx, p1, a1);
            match r2 {
                Step::Fail => (Step::Done((path, OData::empty()), p1), a2),
                Step::Done(o, p2) => (Step::Done((path, o), p2), a2),
            }
        },
    }
}

fn expand_rest<'src>(
    lx: &Lexed<'src>,
    pos: usize,
    acc: List<(Path<'src>, OData<'src>)>,
    alt: Alt,
) -> (r: (Step<List<(Path<'src>, OData<'src>)>>, Alt))
    requires
        pos <= lx@.toks.len(),
    ensures
        (r.0@, r.1@) == expand_rest_spec(lx@, pos as nat, acc@, alt@),
        r.0 matches Step::Done(_, p) ==> pos <= p <= lx@.toks.len(),
    decreases lx@.toks.len() - pos, 0int,
{
    let (r1, a1) = just(lx, pos, Expected::Ctrl(Ctrl::Comma), alt);
    match r1 {
        Step::Fail => (Step::Done(acc, pos), a1),
        Step::Done(_, p1) => {
            let (r2, a2) = expand_item(lx, p1, a1);
            match r2 {
                Step::Fail => (Step::Done(acc, pos), a2),
                Step::Done(v, p2) => {
                    let mut acc = acc;
                    acc.push(v);
                    expand_rest(lx, p2, acc, a2)
                },
            }
        },
    }
}

pub fn expand_parse<'src>(lx: &Lexed<'src>, pos: usize, alt: Alt) -> (r: (Step<Expand<'src>>, Alt))
    requires
        pos <= lx@.toks.len(),
    ensures
        (r.0@, r.1@) == expand_spec(lx@, pos as nat, alt@),
        r.0 matches Step::Done(_, p) ==> pos < p <= lx@.toks.len(),
    decreases lx@.toks.len() - pos, 3int,
{
    let (r1, a1) = just(lx, pos, Expected::Kw(Keyword::Expand), alt);
    match r1 {
        Step::Fail => (Step::Fail, a1),
        Step::Done(_, p1) => {
            let (r2, a2) = expand_item(lx, p1, a1);
            match r2 {
                Step::Fail => {
                    let e = Expand(Vec::new());
                    assert(e@ =~= Seq::<(Seq<SegmentV>, ODataV)>::empty());
                    (Step::Done(e, p1), a2)
                },
                Step::Done(v, p2) => {
                    let mut l: List<(Path<'src>, OData<'src>)> = List::new();
                    l.push(v);
                    assert(l@ =~= seq![v@]);
                    let (r3, a3) = expand_rest(lx, p2, l, a2);
                    match r3 {
                        Step::Done(l3, p3) => (Step::Done(Expand(l3.0), p3), a3),
                        Step::Fail => (Step::Fail, a3),
                    }
                },
            }
        },
    }
}


/// What parsing a whole source as an `$expand=` option gives: the value, or the
/// report of where and why parsing failed.
pub open spec fn expand_outcome(s: Seq<char>) -> Result<Seq<(Seq<SegmentV>, ODataV)>, Seq<char>> {
    let lx = lex_spec(s);
    outcome(s, lx, expand_spec(lx, 0, None))
}

impl<'src> Expand<'src> {
    /// Parses a whole source as an `$expand=` option; the error is a report of where and why
    /// parsing failed.
    pub fn try_from(value: &'src str) -> (r: Result<Expand<'src>, String>)
        ensures
            result_view(r) == expand_outcome(value@),
            r matches Err(e) ==> e@.take(7) == "Error: "@,
    {
        let lx = lex(value);
        let r = expand_parse(&lx, 0, no_alt());
        conclude(value, &lx, r)
    }
}


impl<'src> Expand<'src> {
    /// `$expand=` and the items separated by `,`: each path, then its query options
    /// in parentheses unless it has none.
    pub fn to_string(&self) -> (r: String)
        ensures
            r@ == "$expand="@ + expand_items_text(self@),
    {
        expand_string(self)
    }
}

} // verus!

verus! {

impl<'src> TryFrom<&'src str> for Expand<'src> {
    type Error = String;

    /// See [`Expand::try_from`].
    fn try_from(value: &'src str) -> (r: Result<Expand<'src>, String>)
        ensures
            result_view(r) == expand_outcome(value@),
    {
        Expand::try_from(value)
    }
}

impl<'src> vstd::std_specs::convert::TryFromSpecImpl<&'src str> for Expand<'src> {
    open spec fn obeys_try_from_spec() -> bool {
        false
    }

    open spec fn try_from_spec(v: &'src str) -> Result<Expand<'src>, String> {
        arbitrary()
    }
}

} // verus!
