//! Parsing machinery: the step of a parser over the tokens, and the record of the
//! furthest failure with the patterns expected there, from which errors are reported.
use vstd::prelude::*;
use crate::lex::{Lexed, LexedV};
use crate::token::{BinOp, Ctrl, Keyword, Spanned, TokV, Token, UnOp};

verus! {

/// Names given to groups of alternatives in error messages.
#[derive(Debug, Clone, Copy, PartialEq, Eq, Structural)]
pub enum Label {
    TrueFalse,
    IdentsWithDirection,
    Search,
    Identifiers,
    Offset,
    Cursor,
}

/// A pattern that a parser expected where it failed.
#[derive(Debug, Clone, Copy, PartialEq, Eq, Structural)]
pub enum Expected {
    Kw(Keyword),
    UnOp(UnOp),
    BinOp(BinOp),
    Ctrl(Ctrl),
    Null,
    SomethingElse,
    EndOfInput,
    Label(Label),
}

/// The furthest failure so far: its token index and the patterns expected there.
pub struct Alt {
    pub at: Option<(usize, Vec<Expected>)>,
}

pub type AltV = Option<(nat, Seq<Expected>)>;

impl View for Alt {
    type V = AltV;

    open spec fn view(&self) -> AltV {
        match self.at {
            Some((p, e)) => Some((p as nat, e@)),
            None => None,
        }
    }
}

/// The outcome of a parser from a position: a value and the position after it, or
/// a failure.
pub enum Step<T> {
    Done(T, usize),
    Fail,
}

pub enum StepV<V> {
    Done(V, nat),
    Fail,
}

impl<T: View> View for Step<T> {
    type V = StepV<T::V>;

    open spec fn view(&self) -> StepV<T::V> {
        match self {
            Step::Done(t, p) => StepV::Done(t@, *p as nat),
            Step::Fail => StepV::Fail,
        }
    }
}

/// `b`'s patterns appended to `acc`, each unless already there.
pub open spec fn append_missing(acc: Seq<Expected>, b: Seq<Expected>) -> Seq<Expected>
    decreases b.len(),
{
    if b.len() == 0 {
        acc
    } else {
        append_missing(
            if acc.contains(b[0]) {
                acc
            } else {
                acc.push(b[0])
            },
            b.drop_first(),
        )
    }
}

/// Records a failure at `pos` expecting `e`: a further failure replaces the record,
/// one at the same position adds its patterns, an earlier one is ignored.
pub open spec fn add_alt(alt: AltV, pos: nat, e: Seq<Expected>) -> AltV {
    match alt {
        None => Some((pos, e)),
        Some((p, ex)) => if p == pos {
            Some((p, append_missing(ex, e)))
        } else if p > pos {
            alt
        } else {
            Some((pos, e))
        },
    }
}

/// Merges two lists of patterns: the longer one first, then what the other adds.
pub open spec fn flat_merge(a: Seq<Expected>, b: Seq<Expected>) -> Seq<Expected> {
    if b.len() > a.len() {
        append_missing(b, a)
    } else {
        append_missing(a, b)
    }
}

/// Records a failure carried out of a labelled parser.
pub open spec fn add_alt_err(alt: AltV, pos: nat, e: Seq<Expected>) -> AltV {
    match alt {
        None => Some((pos, e)),
        Some((p, ex)) => if p == pos {
            Some((p, flat_merge(ex, e)))
        } else if p > pos {
            alt
        } else {
            Some((pos, e))
        },
    }
}

/// The record after a parser labelled `l`, started at `start` with the record
/// `outer`, has left the record `inner` of its own failures: a failure at the
/// start is reported as the label.
pub open spec fn labelled(outer: AltV, start: nat, inner: AltV, l: Label) -> AltV {
    match inner {
        None => outer,
        Some((p, e)) => add_alt_err(
            outer,
            p,
            if p == start {
                seq![Expected::Label(l)]
            } else {
                e
            },
        ),
    }
}

fn append_missing_exec(acc: Vec<Expected>, b: &Vec<Expected>) -> (r: Vec<Expected>)
    ensures
        r@ == append_missing(acc@, b@),
{
    let ghost start = acc@;
    let mut acc = acc;
    let mut k: usize = 0;
    assert(b@.skip(0) =~= b@);
    while k < b.len()
        invariant
            k <= b@.len(),
            append_missing(acc@, b@.skip(k as int)) == append_missing(start, b@),
        decreases b@.len() - k,
    {
        let x = b[k];
        let mut found = false;
        let mut j: usize = 0;
        while j < acc.len()
            invariant
                j <= acc@.len(),
                found <==> exists|m: int| 0 <= m < j && acc@[m] == x,
            decreases acc@.len() - j,
        {
            if acc[j] == x {
                found = true;
            }
            j = j + 1;
        }
        assert(found <==> acc@.contains(x));
        assert(b@.skip(k as int).drop_first() =~= b@.skip(k + 1));
        if !found {
            acc.push(x);
        }
        k = k + 1;
    }
    assert(b@.skip(k as int) =~= Seq::<Expected>::empty());
    acc
}


fn add_alt_exec(alt: Alt, pos: usize, e: Expected) -> (r: Alt)
    ensures
        r@ == add_alt(alt@, pos as nat, seq![e]),
{
    match alt.at {
        None => {
            let v = vec![e];
            assert(v@ =~= seq![e]);
            Alt { at: Some((pos, v)) }
        },
        Some((p, ex)) => {
            if p == pos {
                let v = vec![e];
                assert(v@ =~= seq![e]);
                Alt { at: Some((p, append_missing_exec(ex, &v))) }
            } else if p > pos {
                Alt { at: Some((p, ex)) }
            } else {
                let v = vec![e];
                assert(v@ =~= seq![e]);
                Alt { at: Some((pos, v)) }
            }
        },
    }
}

fn add_alt_err_exec(alt: Alt, pos: usize, e: Vec<Expected>) -> (r: Alt)
    ensures
        r@ == add_alt_err(alt@, pos as nat, e@),
{
    match alt.at {
        None => Alt { at: Some((pos, e)) },
        Some((p, ex)) => {
            if p == pos {
                if e.len() > ex.len() {
                    Alt { at: Some((p, append_missing_exec(e, &ex))) }
                } else {
                    Alt { at: Some((p, append_missing_exec(ex, &e))) }
                }
            } else if p > pos {
                Alt { at: Some((p, ex)) }
            } else {
                Alt { at: Some((pos, e)) }
            }
        },
    }
}

/// Ends a labelled parser: see `labelled`.
pub fn end_label(outer: Alt, start: usize, inner: Alt, l: Label) -> (r: Alt)
    ensures
        r@ == labelled(outer@, start as nat, inner@, l),
{
    match inner.at {
        None => outer,
        Some((p, e)) => {
            if p == start {
                let v = vec![Expected::Label(l)];
                assert(v@ =~= seq![Expected::Label(l)]);
                add_alt_err_exec(outer, p, v)
            } else {
                add_alt_err_exec(outer, p, e)
            }
        },
    }
}

/// No failure recorded.
pub fn no_alt() -> (r: Alt)
    ensures
        r@ == None::<(nat, Seq<Expected>)>,
{
    Alt { at: None }
}

/// What a parser finds at a position.
pub enum LookV {
    Tok(TokV),
    End,
}

pub open spec fn look(lx: LexedV, pos: nat) -> LookV {
    if pos < lx.toks.len() {
        LookV::Tok(lx.toks[pos as int].tok)
    } else {
        LookV::End
    }
}

/// Whether token `t` is the one that pattern `e` expects.
pub open spec fn tok_is(t: TokV, e: Expected) -> bool {
    match (t, e) {
        (TokV::Kw(a), Expected::Kw(b)) => a == b,
        (TokV::UnOp(a), Expected::UnOp(b)) => a == b,
        (TokV::BinOp(a), Expected::BinOp(b)) => a == b,
        (TokV::Ctrl(a), Expected::Ctrl(b)) => a == b,
        (TokV::Null, Expected::Null) => true,
        _ => false,
    }
}

/// The kinds of tokens that carry a value.
#[derive(Debug, Clone, Copy, PartialEq, Eq, Structural)]
pub enum Sel {
    Ident,
    Bool,
    Offset,
    Num,
    Str,
    Date,
    Search,
    Asc,
    Desc,
}

pub open spec fn sel_match(t: TokV, s: Sel) -> bool {
    match (t, s) {
        (TokV::Ident(_), Sel::Ident) => true,
        (TokV::Bool(_), Sel::Bool) => true,
        (TokV::Offset(_), Sel::Offset) => true,
        (TokV::Num(_), Sel::Num) => true,
        (TokV::Str(_), Sel::Str) => true,
        (TokV::Date(_), Sel::Date) => true,
        (TokV::Search(_), Sel::Search) => true,
        (TokV::UnOp(UnOp::Asc), Sel::Asc) => true,
        (TokV::UnOp(UnOp::Desc), Sel::Desc) => true,
        _ => false,
    }
}

/// Parses exactly the token that `e` expects.
pub open spec fn just_spec(lx: LexedV, pos: nat, e: Expected, alt: AltV) -> (StepV<()>, AltV) {
    match look(lx, pos) {
        LookV::Tok(t) => if tok_is(t, e) {
            (StepV::Done((), pos + 1), alt)
        } else {
            (StepV::Fail, add_alt(alt, pos, seq![e]))
        },
        LookV::End => (StepV::Fail, add_alt(alt, pos, seq![e])),
    }
}

/// Parses one token of kind `s`, giving the token.
pub open spec fn select_spec(lx: LexedV, pos: nat, s: Sel, alt: AltV) -> (StepV<TokV>, AltV) {
    match look(lx, pos) {
        LookV::Tok(t) => if sel_match(t, s) {
            (StepV::Done(t, pos + 1), alt)
        } else {
            (StepV::Fail, add_alt(alt, pos, seq![Expected::SomethingElse]))
        },
        LookV::End => (StepV::Fail, add_alt(alt, pos, seq![Expected::SomethingElse])),
    }
}

/// Succeeds at the end of the tokens.
pub open spec fn end_spec(lx: LexedV, pos: nat, alt: AltV) -> (StepV<()>, AltV) {
    match look(lx, pos) {
        LookV::Tok(t) => (StepV::Fail, add_alt(alt, pos, seq![Expected::EndOfInput])),
        LookV::End => (StepV::Done((), pos), alt),
    }
}

fn tok_is_exec(t: &Token, e: Expected) -> (r: bool)
    ensures
        r == tok_is(t@, e),
{
    match (t, e) {
        (Token::Kw(a), Expected::Kw(b)) => *a == b,
        (Token::UnOp(a), Expected::UnOp(b)) => *a == b,
        (Token::BinOp(a), Expected::BinOp(b)) => *a == b,
        (Token::Ctrl(a), Expected::Ctrl(b)) => *a == b,
        (Token::Null, Expected::Null) => true,
        _ => false,
    }
}

fn sel_match_exec(t: &Token, s: Sel) -> (r: bool)
    ensures
        r == sel_match(t@, s),
{
    match (t, s) {
        (Token::Ident(_), Sel::Ident) => true,
        (Token::Bool(_), Sel::Bool) => true,
        (Token::Offset(_), Sel::Offset) => true,
        (Token::Num(_), Sel::Num) => true,
        (Token::Str(_), Sel::Str) => true,
        (Token::Date(_), Sel::Date) => true,
        (Token::Search(_), Sel::Search) => true,
        (Token::UnOp(UnOp::Asc), Sel::Asc) => true,
        (Token::UnOp(UnOp::Desc), Sel::Desc) => true,
        _ => false,
    }
}

pub fn just<'src>(lx: &Lexed<'src>, pos: usize, e: Expected, alt: Alt) -> (r: (Step<()>, Alt))
    requires
        pos <= lx@.toks.len(),
    ensures
        (r.0@, r.1@) == just_spec(lx@, pos as nat, e, alt@),
        r.0 matches Step::Done(_, p) ==> p == pos + 1 && p <= lx@.toks.len(),
{
    if pos < lx.toks.len() {
        if tok_is_exec(&lx.toks[pos].tok, e) {
            (Step::Done((), pos + 1), alt)
        } else {
            (Step::Fail, add_alt_exec(alt, pos, e))
        }
    } else {
        (Step::Fail, add_alt_exec(alt, pos, e))
    }
}

pub fn select<'src>(lx: &Lexed<'src>, pos: usize, s: Sel, alt: Alt) -> (r: (Step<Token<'src>>, Alt))
    requires
        pos <= lx@.toks.len(),
    ensures
        (r.0@, r.1@) == select_spec(lx@, pos as nat, s, alt@),
        r.0 matches Step::Done(_, p) ==> p == pos + 1 && p <= lx@.toks.len(),
{
    if pos < lx.toks.len() {
        let t = lx.toks[pos].tok;
        if sel_match_exec(&t, s) {
            (Step::Done(t, pos + 1), alt)
        } else {
            (Step::Fail, add_alt_exec(alt, pos, Expected::SomethingElse))
        }
    } else {
        (Step::Fail, add_alt_exec(alt, pos, Expected::SomethingElse))
    }
}

pub fn end<'src>(lx: &Lexed<'src>, pos: usize, alt: Alt) -> (r: (Step<()>, Alt))
    requires
        pos <= lx@.toks.len(),
    ensures
        (r.0@, r.1@) == end_spec(lx@, pos as nat, alt@),
        r.0 matches Step::Done(_, p) ==> p == pos,
{
    if pos < lx.toks.len() {
        (Step::Fail, add_alt_exec(alt, pos, Expected::EndOfInput))
    } else {
        (Step::Done((), pos), alt)
    }
}


/// A vector of parsed values, modelled as the sequence of their models.
pub struct List<T>(pub Vec<T>);

impl<T: View> View for List<T> {
    type V = Seq<T::V>;

    open spec fn view(&self) -> Seq<T::V> {
        Seq::new(self.0@.len(), |i: int| self.0@[i]@)
    }
}

impl<T: View> List<T> {
    pub fn new() -> (r: Self)
        ensures
            r@ == Seq::<T::V>::empty(),
    {
        let r = List(Vec::new());
        assert(r@ =~= Seq::<T::V>::empty());
        r
    }

    pub fn push(&mut self, x: T)
        ensures
            final(self)@ == old(self)@.push(x@),
    {
        self.0.push(x);
        assert(self@ =~= old(self)@.push(x@));
    }
}

} // verus!
