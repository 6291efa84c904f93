//! The `$select` query option.
use vstd::prelude::*;
use crate::lex::{Lexed, LexedV};
use crate::parse::{end_label, just, just_spec, labelled, no_alt, Alt, AltV, Expected, Label, List, Step, StepV};
use crate::path::{path_parse, path_spec, Path, SegmentV};
use crate::token::{Ctrl, Keyword};

use crate::lex::{lex, lex_spec};
use crate::text::{conclude, outcome, result_view};

use crate::path::{path_text, push_path};
verus! {

/// The [OData $select query option](https://docs.oasis-open.org/odata/odata/v4.01/odata-v4.01-part1-protocol.html#sec_SystemQueryOptionselect).
#[derive(Debug, Clone, PartialEq, Eq, PartialOrd, Ord)]
pub enum Select<'src> {
    Paths(Vec<Path<'src>>),
    Wildcard,
}

pub enum SelectV {
    Paths(Seq<Seq<SegmentV>>),
    Wildcard,
}

impl<'src> View for Select<'src> {
    type V = SelectV;

    open spec fn view(&self) -> SelectV {
        match self {
            Select::Paths(v) => SelectV::Paths(Seq::new(v@.len(), |i: int| v@[i]@)),
            Select::Wildcard => SelectV::Wildcard,
        }
    }
}

impl<'src> From<Vec<Path<'src>>> for Select<'src> {
    fn from(value: Vec<Path<'src>>) -> (r: Select<'src>) {
        Select::Paths(value)
    }
}

impl<'src> vstd::std_specs::convert::FromSpecImpl<Vec<Path<'src>>> for Select<'src> {
    open spec fn obeys_from_spec() -> bool {
        true
    }

    open spec fn from_spec(v: Vec<Path<'src>>) -> Select<'src> {
        Select::Paths(v)
    }
}

/// Further paths, each after a `,`.
pub open spec fn paths_rest_spec(lx: LexedV, pos: nat, acc: Seq<Seq<SegmentV>>, alt: AltV) -> (StepV<
    Seq<Seq<SegmentV>>,
>, AltV)
    decreases lx.toks.len() - pos,
{
    let (r1, a1) = just_spec(lx, pos, Expected::Ctrl(Ctrl::Comma), alt);
    match r1 {
        StepV::Fail => (StepV::Done(acc, pos), a1),
        StepV::Done(_, p1) => {
            let (r2, a2) = path_spec(lx, p1, a1);
            match r2 {
                StepV::Fail => (StepV::Done(acc, pos), a2),
                StepV::Done(v, p2) => if pos < p2 <= lx.toks.len() {
                    paths_rest_spec(lx, p2, acc.push(v), a2)
                } else {
                    (StepV::Done(acc.push(v), p2), a2)
                },
            }
        },
    }
}

/// Paths separated by `,`.
pub open spec fn paths_spec(lx: LexedV, pos: nat, alt: AltV) -> (StepV<Seq<Seq<SegmentV>>>, AltV) {
    let (r, a) = path_spec(lx, pos, alt);
    match r {
        StepV::Fail => (StepV::Done(Seq::empty(), pos), a),
        StepV::Done(v, p) => paths_rest_spec(lx, p, seq![v], a),
    }
}

/// `$select=`, then `*` or paths separated by `,`.
pub open spec fn select_option_spec(lx: LexedV, pos: nat, alt: AltV) -> (StepV<SelectV>, AltV) {
    let (r1, a1) = just_spec(lx, pos, Expected::Kw(Keyword::Select), alt);
    match r1 {
        StepV::Fail => (StepV::Fail, a1),
        StepV::Done(_, p1) => {
            let (r2, a2) = just_spec(lx, p1, Expected::Ctrl(Ctrl::Wildcard), a1);
            match r2 {
                StepV::Done(_, p2) => (StepV::Done(SelectV::Wildcard, p2), a2),
                StepV::Fail => {
                    let (r3, a3) = paths_spec(lx, p1, None);
                    let a = labelled(a2, p1, a3, Label::Identifiers);
                    match r3 {
                        StepV::Done(v, p3) => (StepV::Done(SelectV::Paths(v), p3), a),
                        StepV::Fail => (StepV::Fail, a),
                    }
                },
            }
        },
    }
}

fn paths_rest<'src>(lx: &Lexed<'src>, pos: usize, acc: List<Path<'src>>, alt: Alt) -> (r: (
    Step<List<Path<'src>>>,
    Alt,
))
    requires
        pos <= lx@.toks.len(),
    ensures
        (r.0@, r.1@) == paths_rest_spec(lx@, pos as nat, acc@, alt@),
        r.0 matches Step::Done(_, p) ==> pos <= p <= lx@.toks.len(),
    decreases lx@.toks.len() - pos,
{
    let (r1, a1) = just(lx, pos, Expected::Ctrl(Ctrl::Comma), alt);
    match r1 {
        Step::Fail => (Step::Done(acc, pos), a1),
        Step::Done(_, p1) => {
            let (r2, a2) = path_parse(lx, p1, a1);
            match r2 {
                Step::Fail => (Step::Done(acc, pos), a2),
                Step::Done(v, p2) => {
                    let mut acc = acc;
                    acc.push(v);
                    paths_rest(lx, p2, acc, a2)
                },
            }
        },
    }
}

fn paths_parse<'src>(lx: &Lexed<'src>, pos: usize, alt: Alt) -> (r: (Step<List<Path<'src>>>, Alt))
    requires
        pos <= lx@.toks.len(),
    ensures
        (r.0@, r.1@) == paths_spec(lx@, pos as nat, alt@),
        r.0 matches Step::Done(_, p) ==> pos <= p <= lx@.toks.len(),
{
    let (r, a) = path_parse(lx, pos, alt);
    match r {
        Step::Fail => (Step::Done(List::new(), pos), a),
        Step::Done(v, p) => {
            let mut l: List<Path<'src>> = List::new();
            l.push(v);
            assert(l@ =~= seq![v@]);
            paths_rest(lx, p, l, a)
        },
    }
}

pub fn select_parse<'src>(lx: &Lexed<'src>, pos: usize, alt: Alt) -> (r: (Step<Select<'src>>, Alt))
    requires
        pos <= lx@.toks.len(),
    ensures
        (r.0@, r.1@) == select_option_spec(lx@, pos as nat, alt@),
        r.0 matches Step::Done(_, p) ==> pos < p <= lx@.toks.len(),
{
    let (r1, a1) = just(lx, pos, Expected::Kw(Keyword::Select), alt);
    match r1 {
        Step::Fail => (Step::Fail, a1),
        Step::Done(_, p1) => {
            let (r2, a2) = just(lx, p1, Expected::Ctrl(Ctrl::Wildcard), a1);
            match r2 {
                Step::Done(_, p2) => (Step::Done(Select::Wildcard, p2), a2),
                Step::Fail => {
                    let (r3, a3) = paths_parse(lx, p1, no_alt());
                    let a = end_label(a2, p1, a3, Label::Identifiers);
                    match r3 {
                        Step::Done(v, p3) => (Step::Done(Select::Paths(v.0), p3), a),
                        Step::Fail => (Step::Fail, a),
                    }
                },
            }
        },
    }
}


/// What parsing a whole source as a `$select=` option gives: the value, or the
/// report of where and why parsing failed.
pub open spec fn select_outcome(s: Seq<char>) -> Result<SelectV, Seq<char>> {
    let lx = lex_spec(s);
    outcome(s, lx, select_option_spec(lx, 0, None))
}

impl<'src> Select<'src> {
    /// Parses a whole source as a `$select=` option; the error is a report of where and why
    /// parsing failed.
    pub fn try_from(value: &'src str) -> (r: Result<Select<'src>, String>)
        ensures
            result_view(r) == select_outcome(value@),
            r matches Err(e) ==> e@.take(7) == "Error: "@,
    {
        let lx = lex(value);
        let r = select_parse(&lx, 0, no_alt());
        conclude(value, &lx, r)
    }
}


/// The paths' texts separated by `,`.
pub open spec fn paths_text(ps: Seq<Seq<SegmentV>>) -> Seq<char>
    decreases ps.len(),
{
    if ps.len() == 0 {
        Seq::empty()
    } else if ps.len() == 1 {
        path_text(ps[0])
    } else {
        paths_text(ps.drop_last()) + ","@ + path_text(ps.last())
    }
}

/// `$select=` and `*` or the paths separated by `,`.
pub open spec fn select_text(s: SelectV) -> Seq<char> {
    "$select="@ + match s {
        SelectV::Paths(ps) => paths_text(ps),
        SelectV::Wildcard => "*"@,
    }
}

impl<'src> Select<'src> {
    /// `$select=` and `*` or the paths separated by `,`.
    pub fn to_string(&self) -> (r: String)
        ensures
            r@ == select_text(self@),
    {
        let mut s = String::new();
        s.append("$select=");
        match self {
            Select::Paths(v) => {
                let ghost ps: Seq<Seq<SegmentV>> = Seq::new(v@.len(), |i: int| v@[i]@);
                let ghost start = s@;
                let n = v.len();
                let mut k: usize = 0;
                assert(ps.take(0) =~= Seq::<Seq<SegmentV>>::empty());
                assert(s@ =~= start + paths_text(ps.take(0)));
                while k < n
                    invariant
                        n == v@.len(),
                        ps == Seq::new(v@.len(), |i: int| v@[i]@),
                        k <= n,
                        s@ == start + paths_text(ps.take(k as int)),
                    decreases n - k,
                {
                    if k > 0 {
                        s.append(",");
                    }
                    push_path(&mut s, &v[k]);
                    assert(ps.take(k + 1).drop_last() =~= ps.take(k as int));
                    k = k + 1;
                    assert(s@ =~= start + paths_text(ps.take(k as int)));
                }
                assert(ps.take(n as int) =~= ps);
            },
            Select::Wildcard => s.append("*"),
        }
        assert(s@ =~= select_text(self@));
        s
    }
}

} // verus!

verus! {

impl<'src> TryFrom<&'src str> for Select<'src> {
    type Error = String;

    /// See [`Select::try_from`].
    fn try_from(value: &'src str) -> (r: Result<Select<'src>, String>)
        ensures
            result_view(r) == select_outcome(value@),
    {
        Select::try_from(value)
    }
}

impl<'src> vstd::std_specs::convert::TryFromSpecImpl<&'src str> for Select<'src> {
    open spec fn obeys_try_from_spec() -> bool {
        false
    }

    open spec fn try_from_spec(v: &'src str) -> Result<Select<'src>, String> {
        arbitrary()
    }
}

} // verus!
