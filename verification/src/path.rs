//! Identifiers and paths: `foo/bar/$count`.
use vstd::prelude::*;
use crate::lex::{lex, Lexed, LexedV};
use crate::parse::{
    just, just_spec, select, select_spec, AltV, Expected, List, Sel, Step, StepV, Alt,
};
use crate::token::{Ctrl, Keyword, TokV, Token};

use crate::lex::lex_spec;
use crate::parse::no_alt;
use crate::text::{conclude, outcome, result_view};

verus! {

/// An OData identifier.
///
/// Must start with an alphabetical char or `_`, and then contain only alphanumeric chars or `_`.
#[derive(Debug, Clone, Copy, PartialEq, Eq, PartialOrd, Ord)]
pub struct Ident<'src>(pub &'src str);

impl<'src> View for Ident<'src> {
    type V = Seq<char>;

    open spec fn view(&self) -> Seq<char> {
        self.0@
    }
}

/// An OData identifier, or the `.../$count` segment.
#[derive(Debug, Clone, Copy, PartialEq, Eq, PartialOrd, Ord)]
pub enum Segment<'src> {
    Ident(Ident<'src>),
    Count,
}

pub enum SegmentV {
    Ident(Seq<char>),
    Count,
}

impl<'src> View for Segment<'src> {
    type V = SegmentV;

    open spec fn view(&self) -> SegmentV {
        match self {
            Segment::Ident(i) => SegmentV::Ident(i@),
            Segment::Count => SegmentV::Count,
        }
    }
}

/// A collection of OData identifiers.
#[derive(Debug, Clone, PartialEq, Eq, PartialOrd, Ord)]
pub struct Path<'src>(pub Vec<Segment<'src>>);

impl<'src> View for Path<'src> {
    type V = Seq<SegmentV>;

    open spec fn view(&self) -> Seq<SegmentV> {
        Seq::new(self.0@.len(), |i: int| self.0@[i]@)
    }
}

impl<'src> Path<'src> {
    /// The segments of the path.
    pub fn segments(&self) -> (r: &Vec<Segment<'src>>)
        ensures
            r@ == self.0@,
    {
        &self.0
    }
}

/// A copy of the path.
pub(crate) fn copy_path<'src>(p: &Path<'src>) -> (r: Path<'src>)
    ensures
        r@ == p@,
{
    let mut v: Vec<Segment<'src>> = Vec::new();
    let mut k: usize = 0;
    while k < p.0.len()
        invariant
            k <= p.0@.len(),
            v@ == p.0@.take(k as int),
        decreases p.0@.len() - k,
    {
        v.push(p.0[k]);
        k = k + 1;
        assert(v@ =~= p.0@.take(k as int));
    }
    assert(v@ =~= p.0@);
    let r = Path(v);
    assert(r@ =~= p@);
    r
}

impl<'src> From<Vec<Segment<'src>>> for Path<'src> {
    fn from(value: Vec<Segment<'src>>) -> (r: Path<'src>) {
        Path(value)
    }
}

impl<'src> vstd::std_specs::convert::FromSpecImpl<Vec<Segment<'src>>> for Path<'src> {
    open spec fn obeys_from_spec() -> bool {
        true
    }

    open spec fn from_spec(v: Vec<Segment<'src>>) -> Path<'src> {
        Path(v)
    }
}

impl<'src> From<Ident<'src>> for Segment<'src> {
    fn from(value: Ident<'src>) -> (r: Segment<'src>) {
        Segment::Ident(value)
    }
}

impl<'src> vstd::std_specs::convert::FromSpecImpl<Ident<'src>> for Segment<'src> {
    open spec fn obeys_from_spec() -> bool {
        true
    }

    open spec fn from_spec(v: Ident<'src>) -> Segment<'src> {
        Segment::Ident(v)
    }
}

/// The text carried by an identifier, string or search token.
pub open spec fn tok_text(t: TokV) -> Seq<char> {
    match t {
        TokV::Ident(s) => s,
        TokV::Str(s) => s,
        TokV::Search(s) => s,
        _ => Seq::empty(),
    }
}

/// An identifier token.
pub open spec fn ident_spec(lx: LexedV, pos: nat, alt: AltV) -> (StepV<Seq<char>>, AltV) {
    let (r, a) = select_spec(lx, pos, Sel::Ident, alt);
    (
        match r {
            StepV::Done(t, p) => StepV::Done(tok_text(t), p),
            StepV::Fail => StepV::Fail,
        },
        a,
    )
}

/// An identifier, else the `$count` keyword.
pub open spec fn segment_spec(lx: LexedV, pos: nat, alt: AltV) -> (StepV<SegmentV>, AltV) {
    let (r1, a1) = ident_spec(lx, pos, alt);
    match r1 {
        StepV::Done(s, p) => (StepV::Done(SegmentV::Ident(s), p), a1),
        StepV::Fail => {
            let (r2, a2) = just_spec(lx, pos, Expected::Kw(Keyword::Count), a1);
            (
                match r2 {
                    StepV::Done(_, p) => StepV::Done(SegmentV::Count, p),
                    StepV::Fail => StepV::Fail,
                },
                a2,
            )
        },
    }
}

/// Further segments, each after a `/`.
pub open spec fn segments_rest_spec(lx: LexedV, pos: nat, acc: Seq<SegmentV>, alt: AltV) -> (StepV<
    Seq<SegmentV>,
>, AltV)
    decreases lx.toks.len() - pos,
{
    let (r1, a1) = just_spec(lx, pos, Expected::Ctrl(Ctrl::Slash), alt);
    match r1 {
        StepV::Fail => (StepV::Done(acc, pos), a1),
        StepV::Done(_, p1) => {
            let (r2, a2) = segment_spec(lx, p1, a1);
            match r2 {
                StepV::Fail => (StepV::Done(acc, pos), a2),
                StepV::Done(v, p2) => if pos < p2 <= lx.toks.len() {
                    segments_rest_spec(lx, p2, acc.push(v), a2)
                } else {
                    (StepV::Done(acc.push(v), p2), a2)
                },
            }
        },
    }
}

/// Segments separated by `/`, possibly none.
pub open spec fn path_spec(lx: LexedV, pos: nat, alt: AltV) -> (StepV<Seq<SegmentV>>, AltV) {
    let (r, a) = segment_spec(lx, pos, alt);
    match r {
        StepV::Fail => (StepV::Done(Seq::empty(), pos), a),
        StepV::Done(v, p) => segments_rest_spec(lx, p, seq![v], a),
    }
}

pub fn ident_parse<'src>(lx: &Lexed<'src>, pos: usize, alt: Alt) -> (r: (Step<Ident<'src>>, Alt))
    requires
        pos <= lx@.toks.len(),
    ensures
        (r.0@, r.1@) == ident_spec(lx@, pos as nat, alt@),
        r.0 matches Step::Done(_, p) ==> pos < p <= lx@.toks.len(),
{
    let (r, a) = select(lx, pos, Sel::Ident, alt);
    match r {
        Step::Done(Token::Ident(s), p) => (Step::Done(Ident(s), p), a),
        Step::Done(_, p) => {
            proof {
                assert(false);
            }
            (Step::Fail, a)
        },
        Step::Fail => (Step::Fail, a),
    }
}

pub fn segment_parse<'src>(lx: &Lexed<'src>, pos: usize, alt: Alt) -> (r: (Step<Segment<'src>>, Alt))
    requires
        pos <= lx@.toks.len(),
    ensures
        (r.0@, r.1@) == segment_spec(lx@, pos as nat, alt@),
        r.0 matches Step::Done(_, p) ==> pos < p <= lx@.toks.len(),
{
    let (r1, a1) = ident_parse(lx, pos, alt);
    match r1 {
        Step::Done(s, p) => (Step::Done(Segment::Ident(s), p), a1),
        Step::Fail => {
            let (r2, a2) = just(lx, pos, Expected::Kw(Keyword::Count), a1);
            match r2 {
                Step::Done(_, p) => (Step::Done(Segment::Count, p), a2),
                Step::Fail => (Step::Fail, a2),
            }
        },
    }
}

fn segments_rest<'src>(lx: &Lexed<'src>, pos: usize, acc: List<Segment<'src>>, alt: Alt) -> (r: (
    Step<List<Segment<'src>>>,
    Alt,
))
    requires
        pos <= lx@.toks.len(),
    ensures
        (r.0@, r.1@) == segments_rest_spec(lx@, pos as nat, acc@, alt@),
        r.0 matches Step::Done(_, p) ==> pos <= p <= lx@.toks.len(),
    decreases lx@.toks.len() - pos,
{
    let (r1, a1) = just(lx, pos, Expected::Ctrl(Ctrl::Slash), alt);
    match r1 {
        Step::Fail => (Step::Done(acc, pos), a1),
        Step::Done(_, p1) => {
            let (r2, a2) = segment_parse(lx, p1, a1);
            match r2 {
                Step::Fail => (Step::Done(acc, pos), a2),
                Step::Done(v, p2) => {
                    let mut acc = acc;
                    acc.push(v);
                    segments_rest(lx, p2, acc, a2)
                },
            }
        },
    }
}

pub fn path_parse<'src>(lx: &Lexed<'src>, pos: usize, alt: Alt) -> (r: (Step<Path<'src>>, Alt))
    requires
        pos <= lx@.toks.len(),
    ensures
        (r.0@, r.1@) == path_spec(lx@, pos as nat, alt@),
        r.0 matches Step::Done(_, p) ==> pos <= p <= lx@.toks.len(),
{
    let (r, a) = segment_parse(lx, pos, alt);
    match r {
        Step::Fail => {
            let l: List<Segment<'src>> = List::new();
            (Step::Done(Path(l.0), pos), a)
        },
        Step::Done(v, p) => {
            let mut l: List<Segment<'src>> = List::new();
            l.push(v);
            assert(l@ =~= seq![v@]);
            let (r2, a2) = segments_rest(lx, p, l, a);
            match r2 {
                Step::Done(l2, p2) => (Step::Done(Path(l2.0), p2), a2),
                Step::Fail => (Step::Fail, a2),
            }
        },
    }
}


/// What parsing a whole source as a path, `foo/bar/$count` gives: the value, or the
/// report of where and why parsing failed.
pub open spec fn path_outcome(s: Seq<char>) -> Result<Seq<SegmentV>, Seq<char>> {
    let lx = lex_spec(s);
    outcome(s, lx, path_spec(lx, 0, None))
}

impl<'src> Path<'src> {
    /// Parses a whole source as a path, `foo/bar/$count`; the error is a report of where and why
    /// parsing failed.
    pub fn try_from(value: &'src str) -> (r: Result<Path<'src>, String>)
        ensures
            result_view(r) == path_outcome(value@),
            r matches Err(e) ==> e@.take(7) == "Error: "@,
    {
        let lx = lex(value);
        let r = path_parse(&lx, 0, no_alt());
        conclude(value, &lx, r)
    }
}

/// What parsing a whole source as a path segment, an identifier or `$count` gives: the value, or the
/// report of where and why parsing failed.
pub open spec fn segment_outcome(s: Seq<char>) -> Result<SegmentV, Seq<char>> {
    let lx = lex_spec(s);
    outcome(s, lx, segment_spec(lx, 0, None))
}

impl<'src> Segment<'src> {
    /// Parses a whole source as a path segment, an identifier or `$count`; the error is a report of where and why
    /// parsing failed.
    pub fn try_from(value: &'src str) -> (r: Result<Segment<'src>, String>)
        ensures
            result_view(r) == segment_outcome(value@),
            r matches Err(e) ==> e@.take(7) == "Error: "@,
    {
        let lx = lex(value);
        let r = segment_parse(&lx, 0, no_alt());
        conclude(value, &lx, r)
    }
}

/// What parsing a whole source as an identifier gives: the value, or the
/// report of where and why parsing failed.
pub open spec fn ident_outcome(s: Seq<char>) -> Result<Seq<char>, Seq<char>> {
    let lx = lex_spec(s);
    outcome(s, lx, ident_spec(lx, 0, None))
}

impl<'src> Ident<'src> {
    /// Parses a whole source as an identifier; the error is a report of where and why
    /// parsing failed.
    pub fn try_from(value: &'src str) -> (r: Result<Ident<'src>, String>)
        ensures
            result_view(r) == ident_outcome(value@),
            r matches Err(e) ==> e@.take(7) == "Error: "@,
    {
        let lx = lex(value);
        let r = ident_parse(&lx, 0, no_alt());
        conclude(value, &lx, r)
    }
}


/// The text of a segment: the identifier, or `$count`.
pub open spec fn segment_text(s: SegmentV) -> Seq<char> {
    match s {
        SegmentV::Ident(i) => i,
        SegmentV::Count => "$count"@,
    }
}

/// The segments' texts separated by `/`.
pub open spec fn path_text(p: Seq<SegmentV>) -> Seq<char>
    decreases p.len(),
{
    if p.len() == 0 {
        Seq::empty()
    } else if p.len() == 1 {
        segment_text(p[0])
    } else {
        path_text(p.drop_last()) + "/"@ + segment_text(p.last())
    }
}

/// Appends the text of a path to `s`.
pub fn push_path(s: &mut String, p: &Path)
    ensures
        final(s)@ == old(s)@ + path_text(p@),
{
    let n = p.0.len();
    let mut k: usize = 0;
    assert(p@.take(0) =~= Seq::<SegmentV>::empty());
    assert(s@ =~= old(s)@ + path_text(p@.take(0)));
    while k < n
        invariant
            n == p@.len(),
            n == p.0@.len(),
            k <= n,
            s@ == old(s)@ + path_text(p@.take(k as int)),
        decreases n - k,
    {
        if k > 0 {
            s.append("/");
        }
        match p.0[k] {
            Segment::Ident(i) => s.append(i.0),
            Segment::Count => s.append("$count"),
        }
        assert(p@[k as int] == p.0@[k as int]@);
        assert(p@.take(k + 1).drop_last() =~= p@.take(k as int));
        k = k + 1;
        assert(s@ =~= old(s)@ + path_text(p@.take(k as int)));
    }
    assert(p@.take(n as int) =~= p@);
}

impl<'src> Path<'src> {
    /// The segments separated by `/`.
    pub fn to_string(&self) -> (r: String)
        ensures
            r@ == path_text(self@),
    {
        let mut s = String::new();
        push_path(&mut s, self);
        assert(s@ =~= path_text(self@));
        s
    }
}

} // verus!

verus! {

impl<'src> TryFrom<&'src str> for Path<'src> {
    type Error = String;

    /// See [`Path::try_from`].
    fn try_from(value: &'src str) -> (r: Result<Path<'src>, String>)
        ensures
            result_view(r) == path_outcome(value@),
    {
        Path::try_from(value)
    }
}

impl<'src> vstd::std_specs::convert::TryFromSpecImpl<&'src str> for Path<'src> {
    open spec fn obeys_try_from_spec() -> bool {
        false
    }

    open spec fn try_from_spec(v: &'src str) -> Result<Path<'src>, String> {
        arbitrary()
    }
}

impl<'src> TryFrom<&'src str> for Segment<'src> {
    type Error = String;

    /// See [`Segment::try_from`].
    fn try_from(value: &'src str) -> (r: Result<Segment<'src>, String>)
        ensures
            result_view(r) == segment_outcome(value@),
    {
        Segment::try_from(value)
    }
}

impl<'src> vstd::std_specs::convert::TryFromSpecImpl<&'src str> for Segment<'src> {
    open spec fn obeys_try_from_spec() -> bool {
        false
    }

    open spec fn try_from_spec(v: &'src str) -> Result<Segment<'src>, String> {
        arbitrary()
    }
}

impl<'src> TryFrom<&'src str> for Ident<'src> {
    type Error = String;

    /// See [`Ident::try_from`].
    fn try_from(value: &'src str) -> (r: Result<Ident<'src>, String>)
        ensures
            result_view(r) == ident_outcome(value@),
    {
        Ident::try_from(value)
    }
}

impl<'src> vstd::std_specs::convert::TryFromSpecImpl<&'src str> for Ident<'src> {
    open spec fn obeys_try_from_spec() -> bool {
        false
    }

    open spec fn try_from_spec(v: &'src str) -> Result<Ident<'src>, String> {
        arbitrary()
    }
}

} // verus!
