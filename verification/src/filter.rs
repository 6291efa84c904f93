//! The `$filter` query option: an expression over literals, paths, function calls
//! and operators.
//!
//! Precedence, loosest first: `or`, `and`, `eq`/`ne`, `gt`/`ge`/`lt`/`le`,
//! `add`/`sub`, `mul`/`div`/`divby`/`mod`, `not`, `in`, `has`; binary operators
//! associate to the left.
use vstd::prelude::*;
use crate::lex::{Lexed, LexedV};
use crate::parse::{just, just_spec, select, select_spec, Alt, AltV, Expected, List, Sel, Step, StepV};
use crate::path::{copy_path, path_parse, path_spec, tok_text, Path, SegmentV};
use crate::token::{BinOp, Ctrl, Date, Keyword, Number, TokV, Token, UnOp};

use crate::lex::{lex, lex_spec};
use crate::parse::no_alt;
use crate::text::{conclude, outcome, result_view};

use crate::ext::{decimal_text, decimal_to_string};
use crate::path::{path_text, push_path};
use crate::text::{binop_name, binop_name_str, date_text, push_date};
verus! {

/// The [OData $filter query option](https://docs.oasis-open.org/odata/odata/v4.01/odata-v4.01-part1-protocol.html#sec_SystemQueryOptionfilter).
#[derive(Debug, PartialEq)]
pub enum Filter<'src> {
    Null,
    Bool(bool),
    Num(Number),
    Str(&'src str),
    Date(Date),
    List(Vec<Filter<'src>>),
    Path(Path<'src>),
    Fn { name: &'src str, params: Vec<Filter<'src>> },
    Not(Box<Filter<'src>>),
    Bin(Box<Filter<'src>>, BinOp, Box<Filter<'src>>),
}

/// The model of a [`Filter`].
pub enum FilterV {
    Null,
    Bool(bool),
    Num(Number),
    Str(Seq<char>),
    Date(Date),
    List(Seq<FilterV>),
    Path(Seq<SegmentV>),
    Fn { name: Seq<char>, params: Seq<FilterV> },
    Not(Box<FilterV>),
    Bin(Box<FilterV>, BinOp, Box<FilterV>),
}

pub open spec fn filter_view(f: Filter) -> FilterV
    decreases f,
{
    match f {
        Filter::Null => FilterV::Null,
        Filter::Bool(b) => FilterV::Bool(b),
        Filter::Num(n) => FilterV::Num(n),
        Filter::Str(s) => FilterV::Str(s@),
        Filter::Date(d) => FilterV::Date(d),
        Filter::List(v) => FilterV::List(
            Seq::new(
                v@.len(),
                |i: int|
                    if 0 <= i < v@.len() {
                        filter_view(v@[i])
                    } else {
                        FilterV::Null
                    },
            ),
        ),
        Filter::Path(p) => FilterV::Path(p@),
        Filter::Fn { name, params } => FilterV::Fn {
            name: name@,
            params: Seq::new(
                params@.len(),
                |i: int|
                    if 0 <= i < params@.len() {
                        filter_view(params@[i])
                    } else {
                        FilterV::Null
                    },
            ),
        },
        Filter::Not(b) => FilterV::Not(Box::new(filter_view(*b))),
        Filter::Bin(l, op, r) => FilterV::Bin(Box::new(filter_view(*l)), op, Box::new(filter_view(*r))),
    }
}

impl<'src> View for Filter<'src> {
    type V = FilterV;

    open spec fn view(&self) -> FilterV {
        filter_view(*self)
    }
}

fn clone_filters<'src>(v: &Vec<Filter<'src>>) -> (r: List<Filter<'src>>)
    ensures
        r@ == Seq::new(v@.len(), |i: int| v@[i]@),
    decreases v,
{
    let mut out: List<Filter<'src>> = List::new();
    let mut k: usize = 0;
    while k < v.len()
        invariant
            k <= v@.len(),
            out@ == Seq::new(k as nat, |i: int| v@[i]@),
        decreases v@.len() - k,
    {
        proof {
            assert(decreases_to!(v => v@));
            assert(decreases_to!(v@ => v@[k as int]));
        }
        let f = v[k].clone_filter();
        out.push(f);
        k = k + 1;
        assert(out@ =~= Seq::new(k as nat, |i: int| v@[i]@));
    }
    out
}

impl<'src> Filter<'src> {
    /// A copy of the filter.
    pub fn clone_filter(&self) -> (r: Filter<'src>)
        ensures
            r@ == self@,
        decreases self,
    {
        let r = match self {
            Filter::Null => Filter::Null,
            Filter::Bool(b) => Filter::Bool(*b),
            Filter::Num(n) => Filter::Num(*n),
            Filter::Str(s) => Filter::Str(*s),
            Filter::Date(d) => Filter::Date(*d),
            Filter::List(v) => {
                let l = clone_filters(v);
                proof {
                    lemma_list_view(l);
                    if let FilterV::List(s) = filter_view(*self) {
                        assert(s =~= l@);
                    }
                }
                Filter::List(l.0)
            },
            Filter::Path(p) => Filter::Path(copy_path(p)),
            Filter::Fn { name, params } => {
                let l = clone_filters(params);
                proof {
                    lemma_fn_view(*name, l);
                    if let FilterV::Fn { name: _, params: s } = filter_view(*self) {
                        assert(s =~= l@);
                    }
                }
                Filter::Fn { name: *name, params: l.0 }
            },
            Filter::Not(b) => Filter::Not(Box::new((**b).clone_filter())),
            Filter::Bin(l, op, r) => Filter::Bin(Box::new((**l).clone_filter()), *op, Box::new((**r).clone_filter())),
        };
        r
    }
}

impl<'src> Clone for Filter<'src> {
    fn clone(&self) -> (r: Filter<'src>)
        ensures
            r@ == self@,
    {
        self.clone_filter()
    }
}

impl<'src> From<(Filter<'src>, BinOp, Filter<'src>)> for Filter<'src> {
    fn from(value: (Filter<'src>, BinOp, Filter<'src>)) -> (r: Filter<'src>) {
        let (l, op, r) = value;
        Filter::Bin(Box::new(l), op, Box::new(r))
    }
}

impl<'src> vstd::std_specs::convert::FromSpecImpl<(Filter<'src>, BinOp, Filter<'src>)> for Filter<'src> {
    open spec fn obeys_from_spec() -> bool {
        true
    }

    open spec fn from_spec(v: (Filter<'src>, BinOp, Filter<'src>)) -> Filter<'src> {
        Filter::Bin(Box::new(v.0), v.1, Box::new(v.2))
    }
}

impl<'src> From<(&'src str, Vec<Filter<'src>>)> for Filter<'src> {
    fn from(value: (&'src str, Vec<Filter<'src>>)) -> (r: Filter<'src>) {
        let (name, params) = value;
        Filter::Fn { name, params }
    }
}

impl<'src> vstd::std_specs::convert::FromSpecImpl<(&'src str, Vec<Filter<'src>>)> for Filter<'src> {
    open spec fn obeys_from_spec() -> bool {
        true
    }

    open spec fn from_spec(v: (&'src str, Vec<Filter<'src>>)) -> Filter<'src> {
        Filter::Fn { name: v.0, params: v.1 }
    }
}

impl<'src> From<Path<'src>> for Filter<'src> {
    fn from(value: Path<'src>) -> (r: Filter<'src>) {
        Filter::Path(value)
    }
}

impl<'src> vstd::std_specs::convert::FromSpecImpl<Path<'src>> for Filter<'src> {
    open spec fn obeys_from_spec() -> bool {
        true
    }

    open spec fn from_spec(v: Path<'src>) -> Filter<'src> {
        Filter::Path(v)
    }
}

impl<'src> From<i32> for Filter<'src> {
    fn from(value: i32) -> (r: Filter<'src>) {
        Filter::Num(Number { mantissa: value as i128, scale: 0 })
    }
}

impl<'src> vstd::std_specs::convert::FromSpecImpl<i32> for Filter<'src> {
    open spec fn obeys_from_spec() -> bool {
        true
    }

    open spec fn from_spec(v: i32) -> Filter<'src> {
        Filter::Num(Number { mantissa: v as i128, scale: 0 })
    }
}

impl<'src> From<i8> for Filter<'src> {
    fn from(value: i8) -> (r: Filter<'src>) {
        Filter::Num(Number { mantissa: value as i128, scale: 0 })
    }
}

impl<'src> vstd::std_specs::convert::FromSpecImpl<i8> for Filter<'src> {
    open spec fn obeys_from_spec() -> bool {
        true
    }

    open spec fn from_spec(v: i8) -> Filter<'src> {
        Filter::Num(Number { mantissa: v as i128, scale: 0 })
    }
}

impl<'src> From<i16> for Filter<'src> {
    fn from(value: i16) -> (r: Filter<'src>) {
        Filter::Num(Number { mantissa: value as i128, scale: 0 })
    }
}

impl<'src> vstd::std_specs::convert::FromSpecImpl<i16> for Filter<'src> {
    open spec fn obeys_from_spec() -> bool {
        true
    }

    open spec fn from_spec(v: i16) -> Filter<'src> {
        Filter::Num(Number { mantissa: v as i128, scale: 0 })
    }
}

impl<'src> From<u8> for Filter<'src> {
    fn from(value: u8) -> (r: Filter<'src>) {
        Filter::Num(Number { mantissa: value as i128, scale: 0 })
    }
}

impl<'src> vstd::std_specs::convert::FromSpecImpl<u8> for Filter<'src> {
    open spec fn obeys_from_spec() -> bool {
        true
    }

    open spec fn from_spec(v: u8) -> Filter<'src> {
        Filter::Num(Number { mantissa: v as i128, scale: 0 })
    }
}

impl<'src> From<u16> for Filter<'src> {
    fn from(value: u16) -> (r: Filter<'src>) {
        Filter::Num(Number { mantissa: value as i128, scale: 0 })
    }
}

impl<'src> vstd::std_specs::convert::FromSpecImpl<u16> for Filter<'src> {
    open spec fn obeys_from_spec() -> bool {
        true
    }

    open spec fn from_spec(v: u16) -> Filter<'src> {
        Filter::Num(Number { mantissa: v as i128, scale: 0 })
    }
}

impl<'src> From<u32> for Filter<'src> {
    fn from(value: u32) -> (r: Filter<'src>) {
        Filter::Num(Number { mantissa: value as i128, scale: 0 })
    }
}

impl<'src> vstd::std_specs::convert::FromSpecImpl<u32> for Filter<'src> {
    open spec fn obeys_from_spec() -> bool {
        true
    }

    open spec fn from_spec(v: u32) -> Filter<'src> {
        Filter::Num(Number { mantissa: v as i128, scale: 0 })
    }
}

impl<'src> From<()> for Filter<'src> {
    fn from(value: ()) -> (r: Filter<'src>) {
        Filter::Null
    }
}

impl<'src> vstd::std_specs::convert::FromSpecImpl<()> for Filter<'src> {
    open spec fn obeys_from_spec() -> bool {
        true
    }

    open spec fn from_spec(v: ()) -> Filter<'src> {
        Filter::Null
    }
}

impl<'src> From<Number> for Filter<'src> {
    fn from(value: Number) -> (r: Filter<'src>) {
        Filter::Num(value)
    }
}

impl<'src> vstd::std_specs::convert::FromSpecImpl<Number> for Filter<'src> {
    open spec fn obeys_from_spec() -> bool {
        true
    }

    open spec fn from_spec(v: Number) -> Filter<'src> {
        Filter::Num(v)
    }
}

impl<'src> From<Vec<Filter<'src>>> for Filter<'src> {
    fn from(value: Vec<Filter<'src>>) -> (r: Filter<'src>) {
        Filter::List(value)
    }
}

impl<'src> vstd::std_specs::convert::FromSpecImpl<Vec<Filter<'src>>> for Filter<'src> {
    open spec fn obeys_from_spec() -> bool {
        true
    }

    open spec fn from_spec(v: Vec<Filter<'src>>) -> Filter<'src> {
        Filter::List(v)
    }
}

impl<'src> From<Box<Filter<'src>>> for Filter<'src> {
    fn from(value: Box<Filter<'src>>) -> (r: Filter<'src>) {
        Filter::Not(value)
    }
}

impl<'src> vstd::std_specs::convert::FromSpecImpl<Box<Filter<'src>>> for Filter<'src> {
    open spec fn obeys_from_spec() -> bool {
        true
    }

    open spec fn from_spec(v: Box<Filter<'src>>) -> Filter<'src> {
        Filter::Not(v)
    }
}

impl<'src> From<bool> for Filter<'src> {
    fn from(value: bool) -> (r: Filter<'src>) {
        Filter::Bool(value)
    }
}

impl<'src> vstd::std_specs::convert::FromSpecImpl<bool> for Filter<'src> {
    open spec fn obeys_from_spec() -> bool {
        true
    }

    open spec fn from_spec(v: bool) -> Filter<'src> {
        Filter::Bool(v)
    }
}

impl<'src> From<Date> for Filter<'src> {
    fn from(value: Date) -> (r: Filter<'src>) {
        Filter::Date(value)
    }
}

impl<'src> vstd::std_specs::convert::FromSpecImpl<Date> for Filter<'src> {
    open spec fn obeys_from_spec() -> bool {
        true
    }

    open spec fn from_spec(v: Date) -> Filter<'src> {
        Filter::Date(v)
    }
}

// ---------------------------------------------------------------------------
// Grammar
// ---------------------------------------------------------------------------

/// One more than the largest integer a number can hold (`2^96`).
pub open spec fn number_limit() -> int {
    79228162514264337593543950336
}

/// The binary operators of a precedence level: 1 `has`, 2 `in`, 4 multiplicative,
/// 5 additive, 6 relational, 7 equality, 8 `and`, 9 `or` (3 is `not`).
pub open spec fn level_ops(lvl: int) -> Seq<BinOp> {
    if lvl == 1 {
        seq![BinOp::Has]
    } else if lvl == 2 {
        seq![BinOp::In]
    } else if lvl == 4 {
        seq![BinOp::Mul, BinOp::Div, BinOp::Divby, BinOp::Mod]
    } else if lvl == 5 {
        seq![BinOp::Add, BinOp::Sub]
    } else if lvl == 6 {
        seq![BinOp::Gt, BinOp::Ge, BinOp::Lt, BinOp::Le]
    } else if lvl == 7 {
        seq![BinOp::Eq, BinOp::Ne]
    } else if lvl == 8 {
        seq![BinOp::And]
    } else {
        seq![BinOp::Or]
    }
}

/// The first of the operators `ops[k..]` found at `pos`.
pub open spec fn op_spec(lx: LexedV, pos: nat, ops: Seq<BinOp>, k: int, alt: AltV) -> (StepV<BinOp>, AltV)
    decreases ops.len() - k,
{
    if k < 0 || k >= ops.len() {
        (StepV::Fail, alt)
    } else {
        let (r, a) = just_spec(lx, pos, Expected::BinOp(ops[k]), alt);
        match r {
            StepV::Done(_, p) => (StepV::Done(ops[k], p), a),
            StepV::Fail => op_spec(lx, pos, ops, k + 1, a),
        }
    }
}

/// Whether `p` is a position after `pos` within the tokens.
pub open spec fn after(lx: LexedV, pos: nat, p: nat) -> bool {
    pos < p <= lx.toks.len()
}

/// An atom: a parenthesized expression, else a function call, else a literal,
/// else a list, else a path.
pub open spec fn atom_spec(lx: LexedV, pos: nat, alt: AltV) -> (StepV<FilterV>, AltV)
    decreases lx.toks.len() - pos, 5int,
{
    let (r1, a1) = just_spec(lx, pos, Expected::Ctrl(Ctrl::LParen), alt);
    match r1 {
        StepV::Fail => call_spec(lx, pos, a1),
        StepV::Done(_, p1) => if after(lx, pos, p1) {
            let (r2, a2) = chain_spec(lx, p1, 9, a1);
            match r2 {
                StepV::Fail => call_spec(lx, pos, a2),
                StepV::Done(e, p2) => if p2 <= lx.toks.len() {
                    let (r3, a3) = just_spec(lx, p2, Expected::Ctrl(Ctrl::RParen), a2);
                    match r3 {
                        StepV::Fail => call_spec(lx, pos, a3),
                        StepV::Done(_, p3) => (StepV::Done(e, p3), a3),
                    }
                } else {
                    (StepV::Fail, a2)
                },
            }
        } else {
            (StepV::Fail, a1)
        },
    }
}

/// A function call `name(params)`, else a literal, a list or a path.
pub open spec fn call_spec(lx: LexedV, pos: nat, alt: AltV) -> (StepV<FilterV>, AltV)
    decreases lx.toks.len() - pos, 4int,
{
    let (r1, a1) = select_spec(lx, pos, Sel::Ident, alt);
    match r1 {
        StepV::Fail => literal_spec(lx, pos, a1),
        StepV::Done(t, p1) => if after(lx, pos, p1) {
            let (r2, a2) = delimited_spec(lx, p1, Ctrl::LParen, Ctrl::RParen, a1);
            match r2 {
                StepV::Fail => literal_spec(lx, pos, a2),
                StepV::Done(ps, p2) => (StepV::Done(FilterV::Fn { name: tok_text(t), params: ps }, p2), a2),
            }
        } else {
            (StepV::Fail, a1)
        },
    }
}

/// The value of an atom made of one literal token; `None` where the token is an
/// offset too large for a number (`2^96` or more), which is then not taken as a number.
pub open spec fn literal_value(t: TokV) -> Option<FilterV> {
    match t {
        TokV::Null => Some(FilterV::Null),
        TokV::Bool(b) => Some(FilterV::Bool(b)),
        TokV::Offset(n) => if (n as int) < number_limit() {
            Some(FilterV::Num(Number { mantissa: n as i128, scale: 0 }))
        } else {
            None
        },
        TokV::Num(n) => Some(FilterV::Num(n)),
        TokV::Str(s) => Some(FilterV::Str(s)),
        TokV::Date(d) => Some(FilterV::Date(d)),
        _ => Some(FilterV::Null),
    }
}

/// One literal token, tried as `null`, a boolean, an offset that fits in a number,
/// a number, a string, a date; else a list or a path.
pub open spec fn literal_spec(lx: LexedV, pos: nat, alt: AltV) -> (StepV<FilterV>, AltV)
    decreases lx.toks.len() - pos, 3int,
{
    let (r1, a1) = just_spec(lx, pos, Expected::Null, alt);
    let (r2, a2) = select_spec(lx, pos, Sel::Bool, a1);
    let (r3, a3) = select_spec(lx, pos, Sel::Offset, a2);
    let (r4, a4) = select_spec(lx, pos, Sel::Num, a3);
    let (r5, a5) = select_spec(lx, pos, Sel::Str, a4);
    let (r6, a6) = select_spec(lx, pos, Sel::Date, a5);
    if r1 is Done {
        (StepV::Done(FilterV::Null, pos + 1), a1)
    } else if r2 is Done {
        (StepV::Done(literal_value(look_tok(lx, pos)).unwrap(), pos + 1), a2)
    } else if r3 is Done && literal_value(look_tok(lx, pos)) is Some {
        (StepV::Done(literal_value(look_tok(lx, pos)).unwrap(), pos + 1), a3)
    } else if r4 is Done {
        (StepV::Done(literal_value(look_tok(lx, pos)).unwrap(), pos + 1), a4)
    } else if r5 is Done {
        (StepV::Done(literal_value(look_tok(lx, pos)).unwrap(), pos + 1), a5)
    } else if r6 is Done {
        (StepV::Done(literal_value(look_tok(lx, pos)).unwrap(), pos + 1), a6)
    } else {
        list_spec(lx, pos, a6)
    }
}

/// The token at `pos`.
pub open spec fn look_tok(lx: LexedV, pos: nat) -> TokV {
    lx.toks[pos as int].tok
}

/// A list in parentheses, else in brackets, else a path.
pub open spec fn list_spec(lx: LexedV, pos: nat, alt: AltV) -> (StepV<FilterV>, AltV)
    decreases lx.toks.len() - pos, 2int,
{
    let (r1, a1) = delimited_spec(lx, pos, Ctrl::LParen, Ctrl::RParen, alt);
    match r1 {
        StepV::Done(v, p) => (StepV::Done(FilterV::List(v), p), a1),
        StepV::Fail => {
            let (r2, a2) = delimited_spec(lx, pos, Ctrl::LBracket, Ctrl::RBracket, a1);
            match r2 {
                StepV::Done(v, p) => (StepV::Done(FilterV::List(v), p), a2),
                StepV::Fail => {
                    // A path never fails: it may have no segments.
                    let (r3, a3) = path_spec(lx, pos, a2);
                    match r3 {
                        StepV::Done(v, p) => (StepV::Done(FilterV::Path(v), p), a3),
                        StepV::Fail => (StepV::Fail, a3),
                    }
                },
            }
        },
    }
}

/// Expressions separated by `,` between `open` and `close`.
pub open spec fn delimited_spec(lx: LexedV, pos: nat, open: Ctrl, close: Ctrl, alt: AltV) -> (StepV<
    Seq<FilterV>,
>, AltV)
    decreases lx.toks.len() - pos, 1int,
{
    let (r1, a1) = just_spec(lx, pos, Expected::Ctrl(open), alt);
    match r1 {
        StepV::Fail => (StepV::Fail, a1),
        StepV::Done(_, p1) => if after(lx, pos, p1) {
            let (r2, a2) = items_spec(lx, p1, a1);
            match r2 {
                StepV::Fail => (StepV::Fail, a2),
                StepV::Done(v, p2) => if p2 <= lx.toks.len() {
                    let (r3, a3) = just_spec(lx, p2, Expected::Ctrl(close), a2);
                    match r3 {
                        StepV::Fail => (StepV::Fail, a3),
                        StepV::Done(_, p3) => (StepV::Done(v, p3), a3),
                    }
                } else {
                    (StepV::Fail, a2)
                },
            }
        } else {
            (StepV::Fail, a1)
        },
    }
}

/// Expressions separated by `,`, possibly none.
pub open spec fn items_spec(lx: LexedV, pos: nat, alt: AltV) -> (StepV<Seq<FilterV>>, AltV)
    decreases lx.toks.len() - pos, 25int,
{
    let (r, a) = chain_spec(lx, pos, 9, alt);
    match r {
        StepV::Fail => (StepV::Done(Seq::empty(), pos), a),
        StepV::Done(v, p) => if pos <= p <= lx.toks.len() {
            items_rest_spec(lx, p, seq![v], a)
        } else {
            (StepV::Fail, a)
        },
    }
}

/// Further expressions, each after a `,`.
pub open spec fn items_rest_spec(lx: LexedV, pos: nat, acc: Seq<FilterV>, alt: AltV) -> (StepV<
    Seq<FilterV>,
>, AltV)
    decreases lx.toks.len() - pos, 0int,
{
    let (r1, a1) = just_spec(lx, pos, Expected::Ctrl(Ctrl::Comma), alt);
    match r1 {
        StepV::Fail => (StepV::Done(acc, pos), a1),
        StepV::Done(_, p1) => if after(lx, pos, p1) {
            let (r2, a2) = chain_spec(lx, p1, 9, a1);
            match r2 {
                StepV::Fail => (StepV::Done(acc, pos), a2),
                StepV::Done(v, p2) => if after(lx, pos, p2) {
                    items_rest_spec(lx, p2, acc.push(v), a2)
                } else {
                    (StepV::Fail, a2)
                },
            }
        } else {
            (StepV::Fail, a1)
        },
    }
}

/// The expression of precedence level `lvl` (0 an atom, 9 a whole expression).
pub open spec fn chain_spec(lx: LexedV, pos: nat, lvl: int, alt: AltV) -> (StepV<FilterV>, AltV)
    decreases lx.toks.len() - pos, 2 * lvl + 6,
{
    if lvl < 0 {
        (StepV::Fail, alt)
    } else if lvl == 0 {
        atom_spec(lx, pos, alt)
    } else if lvl == 3 {
        let (r1, a1) = just_spec(lx, pos, Expected::UnOp(UnOp::Not), alt);
        match r1 {
            StepV::Fail => chain_spec(lx, pos, 2, a1),
            StepV::Done(_, p1) => if after(lx, pos, p1) {
                let (r2, a2) = chain_spec(lx, p1, 3, a1);
                match r2 {
                    StepV::Done(e, p2) => (StepV::Done(FilterV::Not(Box::new(e)), p2), a2),
                    StepV::Fail => (StepV::Fail, a2),
                }
            } else {
                (StepV::Fail, a1)
            },
        }
    } else if lvl > 9 {
        (StepV::Fail, alt)
    } else {
        let (r1, a1) = chain_spec(lx, pos, lvl - 1, alt);
        match r1 {
            StepV::Fail => (StepV::Fail, a1),
            StepV::Done(v, p1) => if pos <= p1 <= lx.toks.len() {
                tail_spec(lx, p1, lvl, v, a1)
            } else {
                (StepV::Fail, a1)
            },
        }
    }
}

/// Operators of level `lvl` with their right operands, folded to the left onto `acc`.
pub open spec fn tail_spec(lx: LexedV, pos: nat, lvl: int, acc: FilterV, alt: AltV) -> (StepV<FilterV>, AltV)
    decreases lx.toks.len() - pos, 2 * lvl + 5,
{
    let (r1, a1) = op_spec(lx, pos, level_ops(lvl), 0, alt);
    match r1 {
        StepV::Fail => (StepV::Done(acc, pos), a1),
        StepV::Done(op, p1) => if after(lx, pos, p1) {
            let (r2, a2) = chain_spec(lx, p1, lvl - 1, a1);
            match r2 {
                StepV::Fail => (StepV::Done(acc, pos), a2),
                StepV::Done(rhs, p2) => if after(lx, pos, p2) {
                    tail_spec(lx, p2, lvl, FilterV::Bin(Box::new(acc), op, Box::new(rhs)), a2)
                } else {
                    (StepV::Fail, a2)
                },
            }
        } else {
            (StepV::Fail, a1)
        },
    }
}

/// `$filter=`, then an expression.
pub open spec fn filter_spec(lx: LexedV, pos: nat, alt: AltV) -> (StepV<FilterV>, AltV) {
    let (r1, a1) = just_spec(lx, pos, Expected::Kw(Keyword::Filter), alt);
    match r1 {
        StepV::Fail => (StepV::Fail, a1),
        StepV::Done(_, p1) => if p1 <= lx.toks.len() {
            chain_spec(lx, p1, 9, a1)
        } else {
            (StepV::Fail, a1)
        },
    }
}


// ---------------------------------------------------------------------------
// Parsing, executable
// ---------------------------------------------------------------------------

proof fn lemma_list_view<'src>(l: List<Filter<'src>>)
    ensures
        Filter::List(l.0)@ == FilterV::List(l@),
{
    let fv = filter_view(Filter::List(l.0));
    if let FilterV::List(s) = fv {
        assert forall|i: int| 0 <= i < l.0@.len() implies #[trigger] l@[i] == s[i] by {
            assert(l@[i] == l.0@[i]@);
        }
        assert(l@ =~= s);
    }
}

proof fn lemma_fn_view<'src>(name: &'src str, l: List<Filter<'src>>)
    ensures
        (Filter::Fn { name, params: l.0 })@ == (FilterV::Fn { name: name@, params: l@ }),
{
    let fv = filter_view(Filter::Fn { name, params: l.0 });
    if let FilterV::Fn { name: n, params: s } = fv {
        assert forall|i: int| 0 <= i < l.0@.len() implies #[trigger] l@[i] == s[i] by {
            assert(l@[i] == l.0@[i]@);
        }
        assert(l@ =~= s);
    }
}

fn level_ops_exec(lvl: u8) -> (r: Vec<BinOp>)
    ensures
        r@ == level_ops(lvl as int),
{
    let r = if lvl == 1 {
        vec![BinOp::Has]
    } else if lvl == 2 {
        vec![BinOp::In]
    } else if lvl == 4 {
        vec![BinOp::Mul, BinOp::Div, BinOp::Divby, BinOp::Mod]
    } else if lvl == 5 {
        vec![BinOp::Add, BinOp::Sub]
    } else if lvl == 6 {
        vec![BinOp::Gt, BinOp::Ge, BinOp::Lt, BinOp::Le]
    } else if lvl == 7 {
        vec![BinOp::Eq, BinOp::Ne]
    } else if lvl == 8 {
        vec![BinOp::And]
    } else {
        vec![BinOp::Or]
    };
    assert(r@ =~= level_ops(lvl as int));
    r
}

fn op_parse<'src>(lx: &Lexed<'src>, pos: usize, ops: &Vec<BinOp>, k: usize, alt: Alt) -> (r: (
    Step<BinOp>,
    Alt,
))
    requires
        pos <= lx@.toks.len(),
        k <= ops@.len(),
    ensures
        (r.0@, r.1@) == op_spec(lx@, pos as nat, ops@, k as int, alt@),
        r.0 matches Step::Done(_, p) ==> p == pos + 1 && p <= lx@.toks.len(),
    decreases ops@.len() - k,
{
    if k >= ops.len() {
        return (Step::Fail, alt);
    }
    let (r, a) = just(lx, pos, Expected::BinOp(ops[k]), alt);
    match r {
        Step::Done(_, p) => (Step::Done(ops[k], p), a),
        Step::Fail => op_parse(lx, pos, ops, k + 1, a),
    }
}

fn atom_parse<'src>(lx: &Lexed<'src>, pos: usize, alt: Alt) -> (r: (Step<Filter<'src>>, Alt))
    requires
        pos <= lx@.toks.len(),
    ensures
        (r.0@, r.1@) == atom_spec(lx@, pos as nat, alt@),
        r.0 matches Step::Done(_, p) ==> pos <= p <= lx@.toks.len(),
    decreases lx@.toks.len() - pos, 5int,
{
    let (r1, a1) = just(lx, pos, Expected::Ctrl(Ctrl::LParen), alt);
    match r1 {
        Step::Fail => call_parse(lx, pos, a1),
        Step::Done(_, p1) => {
            let (r2, a2) = chain_parse(lx, p1, 9, a1);
            match r2 {
                Step::Fail => call_parse(lx, pos, a2),
                Step::Done(e, p2) => {
                    let (r3, a3) = just(lx, p2, Expected::Ctrl(Ctrl::RParen), a2);
                    match r3 {
                        Step::Fail => call_parse(lx, pos, a3),
                        Step::Done(_, p3) => (Step::Done(e, p3), a3),
                    }
                },
            }
        },
    }
}

fn call_parse<'src>(lx: &Lexed<'src>, pos: usize, alt: Alt) -> (r: (Step<Filter<'src>>, Alt))
    requires
        pos <= lx@.toks.len(),
    ensures
        (r.0@, r.1@) == call_spec(lx@, pos as nat, alt@),
        r.0 matches Step::Done(_, p) ==> pos <= p <= lx@.toks.len(),
    decreases lx@.toks.len() - pos, 4int,
{
    let (r1, a1) = select(lx, pos, Sel::Ident, alt);
    match r1 {
        Step::Fail => literal_parse(lx, pos, a1),
        Step::Done(t, p1) => {
            let name = match t {
                Token::Ident(s) => s,
                _ => {
                    proof {
                        assert(false);
                    }
                    ""
                },
            };
            let (r2, a2) = delimited_parse(lx, p1, Ctrl::LParen, Ctrl::RParen, a1);
            match r2 {
                Step::Fail => literal_parse(lx, pos, a2),
                Step::Done(ps, p2) => {
                    proof {
                        lemma_fn_view(name, ps);
                    }
                    (Step::Done(Filter::Fn { name, params: ps.0 }, p2), a2)
                },
            }
        },
    }
}

#[verifier::rlimit(60)]
fn literal_parse<'src>(lx: &Lexed<'src>, pos: usize, alt: Alt) -> (r: (Step<Filter<'src>>, Alt))
    requires
        pos <= lx@.toks.len(),
    ensures
        (r.0@, r.1@) == literal_spec(lx@, pos as nat, alt@),
        r.0 matches Step::Done(_, p) ==> pos <= p <= lx@.toks.len(),
    decreases lx@.toks.len() - pos, 3int,
{
    let (r1, a1) = just(lx, pos, Expected::Null, alt);
    match r1 {
        Step::Done(_, p) => {
            return (Step::Done(Filter::Null, p), a1);
        },
        Step::Fail => {},
    }
    let (r2, a2) = select(lx, pos, Sel::Bool, a1);
    if let Step::Done(t, p) = r2 {
        if let Token::Bool(b) = t {
            return (Step::Done(Filter::Bool(b), p), a2);
        }
    }
    let (r3, a3) = select(lx, pos, Sel::Offset, a2);
    if let Step::Done(t, p) = r3 {
        if let Token::Offset(n) = t {
            if n < 79228162514264337593543950336u128 {
                return (Step::Done(Filter::Num(Number { mantissa: n as i128, scale: 0 }), p), a3);
            }
        }
    }
    let (r4, a4) = select(lx, pos, Sel::Num, a3);
    if let Step::Done(t, p) = r4 {
        if let Token::Num(n) = t {
            return (Step::Done(Filter::Num(n), p), a4);
        }
    }
    let (r5, a5) = select(lx, pos, Sel::Str, a4);
    if let Step::Done(t, p) = r5 {
        if let Token::Str(s) = t {
            return (Step::Done(Filter::Str(s), p), a5);
        }
    }
    let (r6, a6) = select(lx, pos, Sel::Date, a5);
    if let Step::Done(t, p) = r6 {
        if let Token::Date(d) = t {
            return (Step::Done(Filter::Date(d), p), a6);
        }
    }
    list_parse(lx, pos, a6)
}

fn list_parse<'src>(lx: &Lexed<'src>, pos: usize, alt: Alt) -> (r: (Step<Filter<'src>>, Alt))
    requires
        pos <= lx@.toks.len(),
    ensures
        (r.0@, r.1@) == list_spec(lx@, pos as nat, alt@),
        r.0 matches Step::Done(_, p) ==> pos <= p <= lx@.toks.len(),
    decreases lx@.toks.len() - pos, 2int,
{
    let (r1, a1) = delimited_parse(lx, pos, Ctrl::LParen, Ctrl::RParen, alt);
    match r1 {
        Step::Done(v, p) => {
            proof {
                lemma_list_view(v);
            }
            (Step::Done(Filter::List(v.0), p), a1)
        },
        Step::Fail => {
            let (r2, a2) = delimited_parse(lx, pos, Ctrl::LBracket, Ctrl::RBracket, a1);
            match r2 {
                Step::Done(v, p) => {
                    proof {
                        lemma_list_view(v);
                    }
                    (Step::Done(Filter::List(v.0), p), a2)
                },
                Step::Fail => {
                    let (r3, a3) = path_parse(lx, pos, a2);
                    match r3 {
                        Step::Done(v, p) => (Step::Done(Filter::Path(v), p), a3),
                        Step::Fail => (Step::Fail, a3),
                    }
                },
            }
        },
    }
}

fn delimited_parse<'src>(lx: &Lexed<'src>, pos: usize, open: Ctrl, close: Ctrl, alt: Alt) -> (r: (
    Step<List<Filter<'src>>>,
    Alt,
))
    requires
        pos <= lx@.toks.len(),
    ensures
        (r.0@, r.1@) == delimited_spec(lx@, pos as nat, open, close, alt@),
        r.0 matches Step::Done(_, p) ==> pos < p <= lx@.toks.len(),
    decreases lx@.toks.len() - pos, 1int,
{
    let (r1, a1) = just(lx, pos, Expected::Ctrl(open), alt);
    match r1 {
        Step::Fail => (Step::Fail, a1),
        Step::Done(_, p1) => {
            let (r2, a2) = items_parse(lx, p1, a1);
            match r2 {
                Step::Fail => (Step::Fail, a2),
                Step::Done(v, p2) => {
                    let (r3, a3) = just(lx, p2, Expected::Ctrl(close), a2);
                    match r3 {
                        Step::Fail => (Step::Fail, a3),
                        Step::Done(_, p3) => (Step::Done(v, p3), a3),
                    }
                },
            }
        },
    }
}

fn items_parse<'src>(lx: &Lexed<'src>, pos: usize, alt: Alt) -> (r: (Step<List<Filter<'src>>>, Alt))
    requires
        pos <= lx@.toks.len(),
    ensures
        (r.0@, r.1@) == items_spec(lx@, pos as nat, alt@),
        r.0 matches Step::Done(_, p) ==> pos <= p <= lx@.toks.len(),
    decreases lx@.toks.len() - pos, 25int,
{
    let (r, a) = chain_parse(lx, pos, 9, alt);
    match r {
        Step::Fail => (Step::Done(List::new(), pos), a),
        Step::Done(v, p) => {
            let mut l: List<Filter<'src>> = List::new();
            l.push(v);
            assert(l@ =~= seq![v@]);
            items_rest(lx, p, l, a)
        },
    }
}

fn items_rest<'src>(lx: &Lexed<'src>, pos: usize, acc: List<Filter<'src>>, alt: Alt) -> (r: (
    Step<List<Filter<'src>>>,
    Alt,
))
    requires
        pos <= lx@.toks.len(),
    ensures
        (r.0@, r.1@) == items_rest_spec(lx@, pos as nat, acc@, alt@),
        r.0 matches Step::Done(_, p) ==> pos <= p <= lx@.toks.len(),
    decreases lx@.toks.len() - pos, 0int,
{
    let (r1, a1) = just(lx, pos, Expected::Ctrl(Ctrl::Comma), alt);
    match r1 {
        Step::Fail => (Step::Done(acc, pos), a1),
        Step::Done(_, p1) => {
            let (r2, a2) = chain_parse(lx, p1, 9, a1);
            match r2 {
                Step::Fail => (Step::Done(acc, pos), a2),
                Step::Done(v, p2) => {
                    let mut acc = acc;
                    acc.push(v);
                    items_rest(lx, p2, acc, a2)
                },
            }
        },
    }
}

fn chain_parse<'src>(lx: &Lexed<'src>, pos: usize, lvl: u8, alt: Alt) -> (r: (Step<Filter<'src>>, Alt))
    requires
        pos <= lx@.toks.len(),
        lvl <= 9,
    ensures
        (r.0@, r.1@) == chain_spec(lx@, pos as nat, lvl as int, alt@),
        r.0 matches Step::Done(_, p) ==> pos <= p <= lx@.toks.len(),
    decreases lx@.toks.len() - pos, 2 * lvl + 6,
{
    if lvl == 0 {
        atom_parse(lx, pos, alt)
    } else if lvl == 3 {
        let (r1, a1) = just(lx, pos, Expected::UnOp(UnOp::Not), alt);
        match r1 {
            Step::Fail => chain_parse(lx, pos, 2, a1),
            Step::Done(_, p1) => {
                let (r2, a2) = chain_parse(lx, p1, 3, a1);
                match r2 {
                    Step::Done(e, p2) => (Step::Done(Filter::Not(Box::new(e)), p2), a2),
                    Step::Fail => (Step::Fail, a2),
                }
            },
        }
    } else {
        let (r1, a1) = chain_parse(lx, pos, lvl - 1, alt);
        match r1 {
            Step::Fail => (Step::Fail, a1),
            Step::Done(v, p1) => tail_parse(lx, p1, lvl, v, a1),
        }
    }
}

fn tail_parse<'src>(lx: &Lexed<'src>, pos: usize, lvl: u8, acc: Filter<'src>, alt: Alt) -> (r: (
    Step<Filter<'src>>,
    Alt,
))
    requires
        pos <= lx@.toks.len(),
        1 <= lvl <= 9,
        lvl != 3,
    ensures
        (r.0@, r.1@) == tail_spec(lx@, pos as nat, lvl as int, acc@, alt@),
        r.0 matches Step::Done(_, p) ==> pos <= p <= lx@.toks.len(),
    decreases lx@.toks.len() - pos, 2 * lvl + 5,
{
    let ops = level_ops_exec(lvl);
    let (r1, a1) = op_parse(lx, pos, &ops, 0, alt);
    match r1 {
        Step::Fail => (Step::Done(acc, pos), a1),
        Step::Done(op, p1) => {
            let (r2, a2) = chain_parse(lx, p1, lvl - 1, a1);
            match r2 {
                Step::Fail => (Step::Done(acc, pos), a2),
                Step::Done(rhs, p2) => tail_parse(
                    lx,
                    p2,
                    lvl,
                    Filter::Bin(Box::new(acc), op, Box::new(rhs)),
                    a2,
                ),
            }
        },
    }
}

pub fn filter_parse<'src>(lx: &Lexed<'src>, pos: usize, alt: Alt) -> (r: (Step<Filter<'src>>, Alt))
    requires
        pos <= lx@.toks.len(),
    ensures
        (r.0@, r.1@) == filter_spec(lx@, pos as nat, alt@),
        r.0 matches Step::Done(_, p) ==> pos < p <= lx@.toks.len(),
{
    let (r1, a1) = just(lx, pos, Expected::Kw(Keyword::Filter), alt);
    match r1 {
        Step::Fail => (Step::Fail, a1),
        Step::Done(_, p1) => chain_parse(lx, p1, 9, a1),
    }
}


/// What parsing a whole source as a `$filter=` option gives: the value, or the
/// report of where and why parsing failed.
pub open spec fn filter_outcome(s: Seq<char>) -> Result<FilterV, Seq<char>> {
    let lx = lex_spec(s);
    outcome(s, lx, filter_spec(lx, 0, None))
}

impl<'src> Filter<'src> {
    /// Parses a whole source as a `$filter=` option; the error is a report of where and why
    /// parsing failed.
    pub fn try_from(value: &'src str) -> (r: Result<Filter<'src>, String>)
        ensures
            result_view(r) == filter_outcome(value@),
            r matches Err(e) ==> e@.take(7) == "Error: "@,
    {
        let lx = lex(value);
        let r = filter_parse(&lx, 0, no_alt());
        conclude(value, &lx, r)
    }
}


// ---------------------------------------------------------------------------
// Text
// ---------------------------------------------------------------------------

/// The text of an expression: lists in parentheses, operators between their
/// operands as written in a query.
pub open spec fn expr_text(f: FilterV) -> Seq<char>
    decreases f,
{
    match f {
        FilterV::Null => "null"@,
        FilterV::Bool(b) => if b {
            "true"@
        } else {
            "false"@
        },
        FilterV::Num(n) => decimal_text(n.mantissa, n.scale),
        FilterV::Str(s) => "'"@ + s + "'"@,
        FilterV::Date(d) => date_text(d),
        FilterV::List(l) => "("@ + filters_text(l) + ")"@,
        FilterV::Path(p) => path_text(p),
        FilterV::Fn { name, params } => name + "("@ + filters_text(params) + ")"@,
        FilterV::Not(b) => "not "@ + expr_text(*b),
        FilterV::Bin(l, op, r) => expr_text(*l) + " "@ + binop_name(op) + " "@ + expr_text(*r),
    }
}

/// `$filter=` and the text of the expression.
pub open spec fn filter_text(f: FilterV) -> Seq<char> {
    "$filter="@ + expr_text(f)
}

/// The texts of the expressions separated by `,`.
pub open spec fn filters_text(l: Seq<FilterV>) -> Seq<char>
    decreases l,
{
    if l.len() == 0 {
        Seq::empty()
    } else if l.len() == 1 {
        expr_text(l[0])
    } else {
        filters_text(l.drop_last()) + ","@ + expr_text(l.last())
    }
}

/// The model of the elements of a vector of filters.
pub open spec fn filters_view(v: Seq<Filter>) -> Seq<FilterV> {
    Seq::new(
        v.len(),
        |i: int|
            if 0 <= i < v.len() {
                filter_view(v[i])
            } else {
                FilterV::Null
            },
    )
}

proof fn lemma_filters_view<'src>(f: Filter<'src>)
    ensures
        f matches Filter::List(v) ==> f@ == FilterV::List(filters_view(v@)),
        f matches Filter::Fn { name, params } ==> f@ == (FilterV::Fn {
            name: name@,
            params: filters_view(params@),
        }),
{
    match f {
        Filter::List(v) => {
            if let FilterV::List(l) = filter_view(f) {
                assert(l =~= filters_view(v@));
            }
        },
        Filter::Fn { name, params } => {
            if let FilterV::Fn { name: n, params: l } = filter_view(f) {
                assert(l =~= filters_view(params@));
            }
        },
        _ => {},
    }
}

fn push_filters<'src>(s: &mut String, v: &Vec<Filter<'src>>)
    ensures
        final(s)@ == old(s)@ + filters_text(filters_view(v@)),
    decreases v,
{
    let ghost ls = filters_view(v@);
    let ghost start = s@;
    let n = v.len();
    let mut k: usize = 0;
    assert(ls.take(0) =~= Seq::<FilterV>::empty());
    assert(s@ =~= start + filters_text(ls.take(0)));
    while k < n
        invariant
            n == v@.len(),
            ls == filters_view(v@),
            k <= n,
            s@ == start + filters_text(ls.take(k as int)),
        decreases n - k,
    {
        if k > 0 {
            s.append(",");
        }
        proof {
            assert(decreases_to!(v => v@));
            assert(decreases_to!(v@ => v@[k as int]));
        }
        push_expr(s, &v[k]);
        assert(ls[k as int] == v@[k as int]@);
        assert(ls.take(k + 1).drop_last() =~= ls.take(k as int));
        assert(ls.take(k + 1).last() == ls[k as int]);
        k = k + 1;
        assert(s@ =~= start + filters_text(ls.take(k as int)));
    }
    assert(ls.take(n as int) =~= ls);
}

fn push_expr<'src>(s: &mut String, f: &Filter<'src>)
    ensures
        final(s)@ == old(s)@ + expr_text(f@),
    decreases f,
{
    let ghost start = s@;
    proof {
        lemma_filters_view(*f);
    }
    match f {
        Filter::Null => s.append("null"),
        Filter::Bool(b) => {
            if *b {
                s.append("true");
            } else {
                s.append("false");
            }
        },
        Filter::Num(n) => {
            let t = decimal_to_string(n.mantissa, n.scale);
            s.append(t.as_str());
        },
        Filter::Str(x) => {
            s.append("'");
            s.append(x);
            s.append("'");
        },
        Filter::Date(d) => push_date(s, *d),
        Filter::List(v) => {
            s.append("(");
            push_filters(s, v);
            s.append(")");
        },
        Filter::Path(p) => push_path(s, p),
        Filter::Fn { name, params } => {
            s.append(name);
            s.append("(");
            push_filters(s, params);
            s.append(")");
        },
        Filter::Not(b) => {
            s.append("not ");
            push_expr(s, b);
        },
        Filter::Bin(l, op, r) => {
            push_expr(s, l);
            s.append(" ");
            s.append(binop_name_str(*op));
            s.append(" ");
            push_expr(s, r);
        },
    }
    assert(s@ =~= start + expr_text(f@));
}

impl<'src> Filter<'src> {
    /// `$filter=` and the text of the expression; see [`filter_text`].
    pub fn to_string(&self) -> (r: String)
        ensures
            r@ == filter_text(self@),
    {
        let mut s = String::new();
        s.append("$filter=");
        push_expr(&mut s, self);
        assert(s@ =~= filter_text(self@));
        s
    }
}

} // verus!

verus! {

impl<'src> TryFrom<&'src str> for Filter<'src> {
    type Error = String;

    /// See [`Filter::try_from`].
    fn try_from(value: &'src str) -> (r: Result<Filter<'src>, String>)
        ensures
            result_view(r) == filter_outcome(value@),
    {
        Filter::try_from(value)
    }
}

impl<'src> vstd::std_specs::convert::TryFromSpecImpl<&'src str> for Filter<'src> {
    open spec fn obeys_try_from_spec() -> bool {
        false
    }

    open spec fn try_from_spec(v: &'src str) -> Result<Filter<'src>, String> {
        arbitrary()
    }
}

} // verus!
