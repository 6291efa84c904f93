//! The `$orderby` query option.
use vstd::prelude::*;
use crate::lex::{Lexed, LexedV};
use crate::parse::{
    end_label, just, just_spec, labelled, no_alt, select, select_spec, Alt, AltV, Expected, Label,
    List, Sel, Step, StepV,
};
use crate::path::tok_text;
use crate::token::{Ctrl, Keyword, Token};

use crate::lex::{lex, lex_spec};
use crate::text::{conclude, outcome, result_view};

use crate::text::{direction_name, direction_name_str};
verus! {

/// The [OData $orderby query option](https://docs.oasis-open.org/odata/odata/v4.01/odata-v4.01-part1-protocol.html#sec_SystemQueryOptionorderby).
#[derive(Debug, Clone, PartialEq, Eq, PartialOrd, Ord)]
pub struct Orderby<'src>(pub Vec<(&'src str, Direction)>);

impl<'src> View for Orderby<'src> {
    type V = Seq<(Seq<char>, Direction)>;

    open spec fn view(&self) -> Seq<(Seq<char>, Direction)> {
        Seq::new(self.0@.len(), |i: int| self.0@[i]@)
    }
}

impl<'src> From<Vec<(&'src str, Direction)>> for Orderby<'src> {
    fn from(value: Vec<(&'src str, Direction)>) -> (r: Orderby<'src>) {
        Orderby(value)
    }
}

impl<'src> vstd::std_specs::convert::FromSpecImpl<Vec<(&'src str, Direction)>> for Orderby<'src> {
    open spec fn obeys_from_spec() -> bool {
        true
    }

    open spec fn from_spec(v: Vec<(&'src str, Direction)>) -> Orderby<'src> {
        Orderby(v)
    }
}

/// [`Orderby`] unary direction operators.
#[derive(Debug, Clone, Copy, PartialEq, Eq, PartialOrd, Ord, Structural)]
pub enum Direction {
    Asc,
    Desc,
}

impl View for Direction {
    type V = Direction;

    open spec fn view(&self) -> Direction {
        *self
    }
}

impl Default for Direction {
    fn default() -> (r: Direction)
        ensures
            r == Direction::Asc,
    {
        Direction::Asc
    }
}

/// ` asc` or ` desc`; without either, ascending.
pub open spec fn direction_spec(lx: LexedV, pos: nat, alt: AltV) -> (StepV<Direction>, AltV) {
    let (r1, a1) = select_spec(lx, pos, Sel::Asc, alt);
    match r1 {
        StepV::Done(_, p) => (StepV::Done(Direction::Asc, p), a1),
        StepV::Fail => {
            let (r2, a2) = select_spec(lx, pos, Sel::Desc, a1);
            match r2 {
                StepV::Done(_, p) => (StepV::Done(Direction::Desc, p), a2),
                StepV::Fail => (StepV::Done(Direction::Asc, pos), a2),
            }
        },
    }
}

/// An identifier and its direction.
pub open spec fn orderby_item_spec(lx: LexedV, pos: nat, alt: AltV) -> (StepV<(Seq<char>, Direction)>, AltV) {
    let (r1, a1) = select_spec(lx, pos, Sel::Ident, alt);
    match r1 {
        StepV::Fail => (StepV::Fail, a1),
        StepV::Done(t, p1) => {
            let (r2, a2) = direction_spec(lx, p1, a1);
            match r2 {
                StepV::Done(d, p2) => (StepV::Done((tok_text(t), d), p2), a2),
                StepV::Fail => (StepV::Fail, a2),
            }
        },
    }
}

/// Further items, each after a `,`.
pub open spec fn orderby_rest_spec(
    lx: LexedV,
    pos: nat,
    acc: Seq<(Seq<char>, Direction)>,
    alt: AltV,
) -> (StepV<Seq<(Seq<char>, Direction)>>, AltV)
    decreases lx.toks.len() - pos,
{
    let (r1, a1) = just_spec(lx, pos, Expected::Ctrl(Ctrl::Comma), alt);
    match r1 {
        StepV::Fail => (StepV::Done(acc, pos), a1),
        StepV::Done(_, p1) => {
            let (r2, a2) = orderby_item_spec(lx, p1, a1);
            match r2 {
                StepV::Fail => (StepV::Done(acc, pos), a2),
                StepV::Done(v, p2) => if pos < p2 <= lx.toks.len() {
                    orderby_rest_spec(lx, p2, acc.push(v), a2)
                } else {
                    (StepV::Done(acc.push(v), p2), a2)
                },
            }
        },
    }
}

/// Items separated by `,`, possibly none.
pub open spec fn orderby_items_spec(lx: LexedV, pos: nat, alt: AltV) -> (StepV<Seq<(Seq<char>, Direction)>>, AltV) {
    let (r, a) = orderby_item_spec(lx, pos, alt);
    match r {
        StepV::Fail => (StepV::Done(Seq::empty(), pos), a),
        StepV::Done(v, p) => orderby_rest_spec(lx, p, seq![v], a),
    }
}

/// `$orderby=`, then identifiers with their directions separated by `,`.
pub open spec fn orderby_spec(lx: LexedV, pos: nat, alt: AltV) -> (StepV<Seq<(Seq<char>, Direction)>>, AltV) {
    let (r1, a1) = just_spec(lx, pos, Expected::Kw(Keyword::Orderby), alt);
    match r1 {
        StepV::Fail => (StepV::Fail, a1),
        StepV::Done(_, p1) => {
            let (r2, a2) = orderby_items_spec(lx, p1, None);
            (r2, labelled(a1, p1, a2, Label::IdentsWithDirection))
        },
    }
}

pub fn direction_parse<'src>(lx: &Lexed<'src>, pos: usize, alt: Alt) -> (r: (Step<Direction>, Alt))
    requires
        pos <= lx@.toks.len(),
    ensures
        (r.0@, r.1@) == direction_spec(lx@, pos as nat, alt@),
        r.0 matches Step::Done(_, p) ==> pos <= p <= lx@.toks.len(),
{
    let (r1, a1) = select(lx, pos, Sel::Asc, alt);
    match r1 {
        Step::Done(_, p) => (Step::Done(Direction::Asc, p), a1),
        Step::Fail => {
            let (r2, a2) = select(lx, pos, Sel::Desc, a1);
            match r2 {
                Step::Done(_, p) => (Step::Done(Direction::Desc, p), a2),
                Step::Fail => (Step::Done(Direction::Asc, pos), a2),
            }
        },
    }
}

fn orderby_item<'src>(lx: &Lexed<'src>, pos: usize, alt: Alt) -> (r: (Step<(&'src str, Direction)>, Alt))
    requires
        pos <= lx@.toks.len(),
    ensures
        (r.0@, r.1@) == orderby_item_spec(lx@, pos as nat, alt@),
        r.0 matches Step::Done(_, p) ==> pos < p <= lx@.toks.len(),
{
    let (r1, a1) = select(lx, pos, Sel::Ident, alt);
    match r1 {
        Step::Fail => (Step::Fail, a1),
        Step::Done(t, p1) => {
            let s = match t {
                Token::Ident(s) => s,
                _ => {
                    proof {
                        assert(false);
                    }
                    ""
                },
            };
            let (r2, a2) = direction_parse(lx, p1, a1);
            match r2 {
                Step::Done(d, p2) => (Step::Done((s, d), p2), a2),
                Step::Fail => (Step::Fail, a2),
            }
        },
    }
}

fn orderby_rest<'src>(lx: &Lexed<'src>, pos: usize, acc: List<(&'src str, Direction)>, alt: Alt) -> (r: (
    Step<List<(&'src str, Direction)>>,
    Alt,
))
    requires
        pos <= lx@.toks.len(),
    ensures
        (r.0@, r.1@) == orderby_rest_spec(lx@, pos as nat, acc@, alt@),
        r.0 matches Step::Done(_, p) ==> pos <= p <= lx@.toks.len(),
    decreases lx@.toks.len() - pos,
{
    let (r1, a1) = just(lx, pos, Expected::Ctrl(Ctrl::Comma), alt);
    match r1 {
        Step::Fail => (Step::Done(acc, pos), a1),
        Step::Done(_, p1) => {
            let (r2, a2) = orderby_item(lx, p1, a1);
            match r2 {
                Step::Fail => (Step::Done(acc, pos), a2),
                Step::Done(v, p2) => {
                    let mut acc = acc;
                    acc.push(v);
                    orderby_rest(lx, p2, acc, a2)
                },
            }
        },
    }
}

pub fn orderby_parse<'src>(lx: &Lexed<'src>, pos: usize, alt: Alt) -> (r: (Step<Orderby<'src>>, Alt))
    requires
        pos <= lx@.toks.len(),
    ensures
        (r.0@, r.1@) == orderby_spec(lx@, pos as nat, alt@),
        r.0 matches Step::Done(_, p) ==> pos < p <= lx@.toks.len(),
{
    let (r1, a1) = just(lx, pos, Expected::Kw(Keyword::Orderby), alt);
    match r1 {
        Step::Fail => (Step::Fail, a1),
        Step::Done(_, p1) => {
            let inner = no_alt();
            let (r, a) = orderby_item(lx, p1, inner);
            let (r2, a2) = match r {
                Step::Fail => (Step::Done(List::new(), p1), a),
                Step::Done(v, p) => {
                    let mut l: List<(&'src str, Direction)> = List::new();
                    l.push(v);
                    assert(l@ =~= seq![v@]);
                    orderby_rest(lx, p, l, a)
                },
            };
            let a3 = end_label(a1, p1, a2, Label::IdentsWithDirection);
            match r2 {
                Step::Done(l, p) => (Step::Done(Orderby(l.0), p), a3),
                Step::Fail => (Step::Fail, a3),
            }
        },
    }
}


/// What parsing a whole source as an `$orderby=` option gives: the value, or the
/// report of where and why parsing failed.
pub open spec fn orderby_outcome(s: Seq<char>) -> Result<Seq<(Seq<char>, Direction)>, Seq<char>> {
    let lx = lex_spec(s);
    outcome(s, lx, orderby_spec(lx, 0, None))
}

impl<'src> Orderby<'src> {
    /// Parses a whole source as an `$orderby=` option; the error is a report of where and why
    /// parsing failed.
    pub fn try_from(value: &'src str) -> (r: Result<Orderby<'src>, String>)
        ensures
            result_view(r) == orderby_outcome(value@),
            r matches Err(e) ==> e@.take(7) == "Error: "@,
    {
        let lx = lex(value);
        let r = orderby_parse(&lx, 0, no_alt());
        conclude(value, &lx, r)
    }
}

/// What parsing a whole source as a direction, ` asc`, ` desc` or nothing gives: the value, or the
/// report of where and why parsing failed.
pub open spec fn direction_outcome(s: Seq<char>) -> Result<Direction, Seq<char>> {
    let lx = lex_spec(s);
    outcome(s, lx, direction_spec(lx, 0, None))
}

impl Direction {
    /// Parses a whole source as a direction, ` asc`, ` desc` or nothing; the error is a report of where and why
    /// parsing failed.
    pub fn try_from<'src>(value: &'src str) -> (r: Result<Direction, String>)
        ensures
            result_view(r) == direction_outcome(value@),
            r matches Err(e) ==> e@.take(7) == "Error: "@,
    {
        let lx = lex(value);
        let r = direction_parse(&lx, 0, no_alt());
        conclude(value, &lx, r)
    }
}


/// The items, each identifier and direction separated by a space, separated by `,`.
pub open spec fn orderby_items_text(o: Seq<(Seq<char>, Direction)>) -> Seq<char>
    decreases o.len(),
{
    if o.len() == 0 {
        Seq::empty()
    } else if o.len() == 1 {
        o[0].0 + " "@ + direction_name(o[0].1)
    } else {
        orderby_items_text(o.drop_last()) + ","@ + o.last().0 + " "@ + direction_name(o.last().1)
    }
}

/// `$orderby=` and the items.
pub open spec fn orderby_text(o: Seq<(Seq<char>, Direction)>) -> Seq<char> {
    "$orderby="@ + orderby_items_text(o)
}

impl Direction {
    /// `asc` or `desc`.
    pub fn to_string(&self) -> (r: String)
        ensures
            r@ == direction_name(*self),
    {
        let mut s = String::new();
        s.append(direction_name_str(*self));
        assert(s@ =~= direction_name(*self));
        s
    }
}

impl<'src> Orderby<'src> {
    /// `$orderby=` and the items, each identifier and direction separated by a
    /// space, separated by `,`.
    pub fn to_string(&self) -> (r: String)
        ensures
            r@ == orderby_text(self@),
    {
        let mut s = String::new();
        s.append("$orderby=");
        let ghost start = s@;
        let n = self.0.len();
        let mut k: usize = 0;
        assert(self@.take(0) =~= Seq::<(Seq<char>, Direction)>::empty());
        assert(s@ =~= start + orderby_items_text(self@.take(0)));
        while k < n
            invariant
                n == self.0@.len(),
                n == self@.len(),
                k <= n,
                s@ == start + orderby_items_text(self@.take(k as int)),
            decreases n - k,
        {
            if k > 0 {
                s.append(",");
            }
            let (ident, dir) = self.0[k];
            s.append(ident);
            s.append(" ");
            s.append(direction_name_str(dir));
            assert(self@[k as int] == (ident@, dir));
            assert(self@.take(k + 1).drop_last() =~= self@.take(k as int));
            k = k + 1;
            assert(s@ =~= start + orderby_items_text(self@.take(k as int)));
        }
        assert(self@.take(n as int) =~= self@);
        assert(s@ =~= orderby_text(self@));
        s
    }
}

} // verus!

verus! {

impl<'src> TryFrom<&'src str> for Orderby<'src> {
    type Error = String;

    /// See [`Orderby::try_from`].
    fn try_from(value: &'src str) -> (r: Result<Orderby<'src>, String>)
        ensures
            result_view(r) == orderby_outcome(value@),
    {
        Orderby::try_from(value)
    }
}

impl<'src> vstd::std_specs::convert::TryFromSpecImpl<&'src str> for Orderby<'src> {
    open spec fn obeys_try_from_spec() -> bool {
        false
    }

    open spec fn try_from_spec(v: &'src str) -> Result<Orderby<'src>, String> {
        arbitrary()
    }
}

impl<'src> TryFrom<&'src str> for Direction {
    type Error = String;

    /// See [`Direction::try_from`].
    fn try_from(value: &'src str) -> (r: Result<Direction, String>)
        ensures
            result_view(r) == direction_outcome(value@),
    {
        Direction::try_from(value)
    }
}

impl<'src> vstd::std_specs::convert::TryFromSpecImpl<&'src str> for Direction {
    open spec fn obeys_try_from_spec() -> bool {
        false
    }

    open spec fn try_from_spec(v: &'src str) -> Result<Direction, String> {
        arbitrary()
    }
}

} // verus!
