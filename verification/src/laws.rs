//! Properties that hold of the library as a whole.
use vstd::prelude::*;
use vstd::arithmetic::power::pow;
use crate::{apply, expand_items_text, join_amp, odata_default, odata_parts, odata_text, ODataV, OptV};
use crate::count::count_text;
use crate::filter::filter_text;
use crate::orderby::orderby_text;
use crate::pagination::page_text;
use crate::search::search_text;
use crate::select::select_text;
use crate::lex::{lex_from, lex_spec, pick, all_cands, token_of, Produced};
use crate::token::{normalize, Ctrl, Keyword, Number, TokV};
use crate::filter::{atom_spec, call_spec, chain_spec, level_ops, literal_spec, literal_value, op_spec, tail_spec, FilterV};
use crate::lex::LexedV;
use crate::pagination::{page_spec, PageV};
use crate::parse::{end_spec, just_spec, select_spec, AltV, Expected, Sel, StepV};
use crate::text::{binop_name, direction_name, keyword_name, outcome, token_text};
use crate::lex::{kw_word, lit_text, lit_token, Lit};
use crate::token::{BinOp, UnOp};
use crate::expand::{expand_item_spec, expand_rest_spec, expand_spec, nested_spec};
use crate::{options_spec};
use crate::count::count_spec;
use crate::search::search_spec;
use crate::select::{select_option_spec, SelectV};
use crate::path::path_spec;
use crate::path::SegmentV;
use crate::orderby::{orderby_item_spec, orderby_rest_spec, orderby_spec, Direction};

verus! {

/// Whether two query options are of the same kind (both `$top`, both `$filter`, ...).
pub open spec fn same_kind(a: OptV, b: OptV) -> bool {
    match (a, b) {
        (OptV::Count(_), OptV::Count(_)) => true,
        (OptV::Expand(_), OptV::Expand(_)) => true,
        (OptV::Filter(_), OptV::Filter(_)) => true,
        (OptV::Orderby(_), OptV::Orderby(_)) => true,
        (OptV::Search(_), OptV::Search(_)) => true,
        (OptV::Select(_), OptV::Select(_)) => true,
        (OptV::Skip(_), OptV::Skip(_)) => true,
        (OptV::Top(_), OptV::Top(_)) => true,
        _ => false,
    }
}

/// Of two query options of the same kind, the later one is the one kept: parsing
/// `$top=1&$top=2` gives what parsing `$top=2` gives.
pub proof fn law_later_option_replaces(o: ODataV, a: OptV, b: OptV)
    requires
        same_kind(a, b),
    ensures
        apply(apply(o, a), b) == apply(o, b),
{
}

/// Query options of different kinds do not depend on the order in which they come:
/// `$top=1&$skip=2` and `$skip=2&$top=1` give the same options.
pub proof fn law_distinct_options_commute(o: ODataV, a: OptV, b: OptV)
    requires
        !same_kind(a, b),
    ensures
        apply(apply(o, a), b) == apply(apply(o, b), a),
{
}

proof fn lemma_join_amp_empty(parts: Seq<Seq<char>>)
    requires
        all_nonempty(parts),
    ensures
        (join_amp(parts).len() == 0) <==> (parts.len() == 0),
    decreases parts.len(),
{
    if parts.len() > 1 {
        lemma_join_amp_empty(parts.drop_last());
        assert(parts.last() == parts[parts.len() - 1]);
    } else if parts.len() == 1 {
        assert(parts[0].len() > 0);
    }
}

/// Whether every text of `ps` is non-empty.
pub open spec fn all_nonempty(ps: Seq<Seq<char>>) -> bool {
    forall|i: int| 0 <= i < ps.len() ==> #[trigger] ps[i].len() > 0
}

proof fn lemma_all_nonempty_concat(a: Seq<Seq<char>>, b: Seq<Seq<char>>)
    requires
        all_nonempty(a),
        all_nonempty(b),
    ensures
        all_nonempty(a + b),
{
    assert forall|i: int| 0 <= i < (a + b).len() implies #[trigger] (a + b)[i].len() > 0 by {
        if i >= a.len() {
            assert((a + b)[i] == b[i - a.len()]);
        }
    }
}

proof fn lemma_one_part(p: Seq<char>)
    requires
        p.len() > 0,
    ensures
        all_nonempty(seq![p]),
{
}

/// The text of query options is empty exactly when no option is present (the count
/// not requested): `to_string` gives `""` exactly when `is_empty` holds.
pub proof fn law_text_empty_iff_no_option(o: ODataV)
    ensures
        (odata_text(o).len() == 0) <==> (o == odata_default()),
{
    reveal_strlit("$count=");
    reveal_strlit("$expand=");
    reveal_strlit("$filter=");
    reveal_strlit("$orderby=");
    reveal_strlit("$search=");
    reveal_strlit("$select=");
    reveal_strlit("$skip=");
    reveal_strlit("$top=");
    let e: Seq<Seq<char>> = Seq::empty();
    let q1: Seq<Seq<char>> = if o.count { seq![count_text(true)] } else { e };
    let q2: Seq<Seq<char>> = match o.expand {
        Some(x) => seq!["$expand="@ + expand_items_text(x)],
        None => e,
    };
    let q3: Seq<Seq<char>> = match o.filter {
        Some(x) => seq![filter_text(x)],
        None => e,
    };
    let q4: Seq<Seq<char>> = match o.orderby {
        Some(x) => seq![orderby_text(x)],
        None => e,
    };
    let q5: Seq<Seq<char>> = match o.search {
        Some(x) => seq![search_text(x)],
        None => e,
    };
    let q6: Seq<Seq<char>> = match o.select {
        Some(x) => seq![select_text(x)],
        None => e,
    };
    let q7: Seq<Seq<char>> = match o.skip {
        Some(x) => seq![page_text(Keyword::Skip, x)],
        None => e,
    };
    let q8: Seq<Seq<char>> = match o.top {
        Some(x) => seq![page_text(Keyword::Top, x)],
        None => e,
    };
    let parts = odata_parts(o);
    assert(parts == q1 + q2 + q3 + q4 + q5 + q6 + q7 + q8);
    assert(all_nonempty(e));
    if o.count {
        lemma_one_part(count_text(true));
    }
    if let Some(x) = o.expand {
        lemma_one_part("$expand="@ + expand_items_text(x));
    }
    if let Some(x) = o.filter {
        lemma_one_part(filter_text(x));
    }
    if let Some(x) = o.orderby {
        lemma_one_part(orderby_text(x));
    }
    if let Some(x) = o.search {
        lemma_one_part(search_text(x));
    }
    if let Some(x) = o.select {
        lemma_one_part(select_text(x));
    }
    if let Some(x) = o.skip {
        lemma_one_part(page_text(Keyword::Skip, x));
    }
    if let Some(x) = o.top {
        lemma_one_part(page_text(Keyword::Top, x));
    }
    lemma_all_nonempty_concat(q1, q2);
    lemma_all_nonempty_concat(q1 + q2, q3);
    lemma_all_nonempty_concat(q1 + q2 + q3, q4);
    lemma_all_nonempty_concat(q1 + q2 + q3 + q4, q5);
    lemma_all_nonempty_concat(q1 + q2 + q3 + q4 + q5, q6);
    lemma_all_nonempty_concat(q1 + q2 + q3 + q4 + q5 + q6, q7);
    lemma_all_nonempty_concat(q1 + q2 + q3 + q4 + q5 + q6 + q7, q8);
    lemma_join_amp_empty(parts);
}

proof fn lemma_tokens_in_order(s: Seq<char>, i: int)
    requires
        0 <= i,
    ensures
        forall|k: int|
            0 <= k < lex_from(s, i).toks.len() ==> i <= #[trigger] lex_from(s, i).toks[k].start
                < lex_from(s, i).toks[k].end <= s.len(),
        forall|k: int, l: int|
            0 <= k < l < lex_from(s, i).toks.len() ==> #[trigger] lex_from(s, i).toks[k].end
                <= #[trigger] lex_from(s, i).toks[l].start,
    decreases s.len() - i,
{
    if i < s.len() {
        let (c, n) = pick(s, i, all_cands());
        if n <= 0 || i + n > s.len() {
            let e = crate::lex::error_len(s, i);
            lemma_tokens_in_order(s, i + e);
            let rest = lex_from(s, i + e);
            let all = lex_from(s, i);
            assert forall|k: int, l: int| 0 <= k < l < all.toks.len() implies #[trigger] all.toks[k].end
                <= #[trigger] all.toks[l].start by {
                assert(all.toks[l] == rest.toks[l - 1]);
                if k > 0 {
                    assert(all.toks[k] == rest.toks[k - 1]);
                }
            }
            assert forall|k: int| 0 <= k < all.toks.len() implies i <= #[trigger] all.toks[k].start
                < all.toks[k].end <= s.len() by {
                if k > 0 {
                    assert(all.toks[k] == rest.toks[k - 1]);
                }
            }
        } else {
            lemma_tokens_in_order(s, i + n);
            let rest = lex_from(s, i + n);
            let all = lex_from(s, i);
            match token_of(s, i, c, n) {
                Produced::Tok(t) => {
                    assert forall|k: int, l: int| 0 <= k < l < all.toks.len() implies #[trigger] all.toks[k].end
                        <= #[trigger] all.toks[l].start by {
                        assert(all.toks[l] == rest.toks[l - 1]);
                        if k > 0 {
                            assert(all.toks[k] == rest.toks[k - 1]);
                        }
                    }
                    assert forall|k: int| 0 <= k < all.toks.len() implies i <= #[trigger] all.toks[k].start
                        < all.toks[k].end <= s.len() by {
                        if k > 0 {
                            assert(all.toks[k] == rest.toks[k - 1]);
                        }
                    }
                },
                _ => {},
            }
        }
    }
}

/// The tokens of a source cover non-empty ranges of it, in order and without
/// overlapping.
pub proof fn law_tokens_in_order(s: Seq<char>)
    ensures
        forall|k: int|
            0 <= k < lex_spec(s).toks.len() ==> 0 <= #[trigger] lex_spec(s).toks[k].start
                < lex_spec(s).toks[k].end <= s.len(),
        forall|k: int, l: int|
            0 <= k < l < lex_spec(s).toks.len() ==> #[trigger] lex_spec(s).toks[k].end
                <= #[trigger] lex_spec(s).toks[l].start,
{
    lemma_tokens_in_order(s, 0);
}

/// Trailing zeros in the fraction do not change a number: `10.00 == 10`,
/// `2.550 == 2.55`.
pub proof fn law_trailing_zeros(a: Number, b: Number, k: nat)
    requires
        a.mantissa == b.mantissa * pow(10, k),
        a.scale == b.scale + k,
    ensures
        a.same_value(b),
    decreases k,
{
    lemma_normalize_zeros(b.mantissa as int, b.scale as int, k);
}

proof fn lemma_normalize_zeros(m: int, s: int, k: nat)
    requires
        s >= 0,
    ensures
        normalize(m * pow(10, k), s + k) == normalize(m, s),
    decreases k,
{
    reveal(pow);
    if k > 0 {
        let k1 = (k - 1) as nat;
        lemma_normalize_zeros(m, s, k1);
        let m1 = m * pow(10, k1);
        assert(m * pow(10, k) == m1 * 10) by (nonlinear_arith)
            requires
                pow(10, k) == 10 * pow(10, k1),
                m1 == m * pow(10, k1),
        ;
        assert((m1 * 10) % 10 == 0 && (m1 * 10) / 10 == m1) by (nonlinear_arith);
        assert(normalize(m1 * 10, s + k) == normalize(m1, s + k1));
    }
}

} // verus!

verus! {

/// Parentheses only group: `(` followed by an expression and `)` is that expression,
/// with no node added for the parentheses.
pub proof fn law_parentheses_group(lx: LexedV, pos: nat, alt: AltV, e: FilterV, q: nat)
    requires
        pos < lx.toks.len(),
        lx.toks[pos as int].tok == TokV::Ctrl(Ctrl::LParen),
        chain_spec(lx, pos + 1, 9, alt).0 == StepV::Done(e, q),
        q < lx.toks.len(),
        lx.toks[q as int].tok == TokV::Ctrl(Ctrl::RParen),
    ensures
        atom_spec(lx, pos, alt).0 == StepV::Done(e, q + 1),
{
}

/// `$skip=` or `$top=` followed by an offset token gives that offset, and followed
/// by a string token gives that string as the cursor.
pub proof fn law_page_value(lx: LexedV, pos: nat, k: Keyword, alt: AltV)
    requires
        pos + 1 < lx.toks.len(),
        lx.toks[pos as int].tok == TokV::Kw(k),
    ensures
        lx.toks[pos + 1int].tok matches TokV::Offset(n) ==> page_spec(lx, pos, k, alt).0
            == StepV::Done(PageV::Offset(n), pos + 2),
        lx.toks[pos + 1int].tok matches TokV::Str(c) ==> page_spec(lx, pos, k, alt).0
            == StepV::Done(PageV::Cursor(c), pos + 2),
{
}

} // verus!

verus! {

/// A whole source parses only where the parse ends at the end of its tokens: every
/// `try_from` succeeds only with the value that the parse reached at the last token.
pub proof fn law_whole_input<V>(s: Seq<char>, lx: LexedV, r: (StepV<V>, AltV))
    requires
        r.0 matches StepV::Done(_, p) ==> p <= lx.toks.len(),
    ensures
        outcome(s, lx, r) matches Ok(v) ==> r.0 == StepV::Done(v, lx.toks.len()),
{
    if let StepV::Done(v, p) = r.0 {
        let (e, a) = end_spec(lx, p, r.1);
        if e is Done {
            assert(!(p < lx.toks.len()));
        }
    }
}

} // verus!


verus! {

/// Each operator word reads as the operator whose printed name it is: a literal pattern
/// that the lexer turns into a binary operator is that operator's name between spaces,
/// and every binary operator has such a pattern. Likewise the direction words ` asc` and
/// ` desc` read as the direction of that name, and `true` and `false` as that boolean.
pub proof fn law_operator_words(l: Lit, op: BinOp)
    ensures
        lit_token(l) == TokV::BinOp(op) ==> lit_text(l) == seq![' '] + binop_name(op) + seq![' '],
        exists|m: Lit| #[trigger] lit_token(m) == TokV::BinOp(op),
        lit_token(l) == TokV::UnOp(UnOp::Asc) ==> lit_text(l) == seq![' '] + direction_name(Direction::Asc),
        lit_token(l) == TokV::UnOp(UnOp::Desc) ==> lit_text(l) == seq![' '] + direction_name(Direction::Desc),
        lit_token(l) == TokV::Bool(true) ==> lit_text(l) == "true"@,
        lit_token(l) == TokV::Bool(false) ==> lit_text(l) == "false"@,
{
    reveal_strlit("has");
    reveal_strlit("in");
    reveal_strlit("mul");
    reveal_strlit("div");
    reveal_strlit("divby");
    reveal_strlit("mod");
    reveal_strlit("add");
    reveal_strlit("sub");
    reveal_strlit("gt");
    reveal_strlit("ge");
    reveal_strlit("lt");
    reveal_strlit("le");
    reveal_strlit("eq");
    reveal_strlit("ne");
    reveal_strlit("and");
    reveal_strlit("or");
    reveal_strlit("asc");
    reveal_strlit("desc");
    reveal_strlit("true");
    reveal_strlit("false");
    let w = match op {
        BinOp::Has => Lit::Has,
        BinOp::In => Lit::In,
        BinOp::Mul => Lit::Mul,
        BinOp::Div => Lit::Div,
        BinOp::Divby => Lit::Divby,
        BinOp::Mod => Lit::Mod,
        BinOp::Add => Lit::Add,
        BinOp::Sub => Lit::Sub,
        BinOp::Gt => Lit::Gt,
        BinOp::Ge => Lit::Ge,
        BinOp::Lt => Lit::Lt,
        BinOp::Le => Lit::Le,
        BinOp::Eq => Lit::Eq,
        BinOp::Ne => Lit::Ne,
        BinOp::And => Lit::And,
        BinOp::Or => Lit::Or,
    };
    assert(lit_token(w) == TokV::BinOp(op));
    if lit_token(l) is BinOp {
        assert(lit_text(l) =~= seq![' '] + binop_name(op) + seq![' '] || lit_token(l) != TokV::BinOp(op));
    }
    if lit_token(l) is UnOp {
        assert(lit_text(l) =~= seq![' '] + "asc"@ || lit_text(l) =~= seq![' '] + "desc"@ || lit_token(l)
            == TokV::UnOp(UnOp::Not));
    }
    if lit_token(l) is Bool {
        assert(lit_text(l) =~= "true"@ || lit_text(l) =~= "false"@);
    }
}

} // verus!

verus! {

/// A boolean literal in a `$filter` atom is the boolean that the token carries.
pub proof fn law_bool_atom(lx: LexedV, pos: nat, b: bool, alt: AltV)
    requires
        pos < lx.toks.len(),
        lx.toks[pos as int].tok == TokV::Bool(b),
    ensures
        atom_spec(lx, pos, alt).0 == StepV::Done(FilterV::Bool(b), pos + 1),
{
    let (r1, a1) = just_spec(lx, pos, Expected::Ctrl(Ctrl::LParen), alt);
    assert(r1 is Fail);
    let (r2, a2) = select_spec(lx, pos, Sel::Ident, a1);
    assert(r2 is Fail);
    assert(call_spec(lx, pos, a1) == literal_spec(lx, pos, a2));
    assert(literal_value(TokV::Bool(b)) == Some(FilterV::Bool(b)));
    assert(literal_spec(lx, pos, a2).0 == StepV::Done(FilterV::Bool(b), pos + 1));
}

proof fn lemma_op_fails(lx: LexedV, pos: nat, ops: Seq<BinOp>, k: int, alt: AltV)
    requires
        pos >= lx.toks.len() || !(lx.toks[pos as int].tok is BinOp),
    ensures
        op_spec(lx, pos, ops, k, alt).0 is Fail,
    decreases ops.len() - k,
{
    if 0 <= k < ops.len() {
        let (r, a) = just_spec(lx, pos, Expected::BinOp(ops[k]), alt);
        lemma_op_fails(lx, pos, ops, k + 1, a);
    }
}

/// An atom that no operator follows is the whole expression at every level of
/// precedence.
proof fn lemma_chain_single(lx: LexedV, pos: nat, lvl: int, v: FilterV, alt: AltV)
    requires
        0 <= lvl <= 9,
        pos < lx.toks.len(),
        forall|a: AltV| #[trigger] atom_spec(lx, pos, a).0 == StepV::Done(v, pos + 1),
        lx.toks[pos as int].tok != TokV::UnOp(UnOp::Not),
        pos + 1 >= lx.toks.len() || !(lx.toks[pos + 1int].tok is BinOp),
    ensures
        chain_spec(lx, pos, lvl, alt).0 == StepV::Done(v, pos + 1),
    decreases lvl,
{
    if lvl == 0 {
        assert(atom_spec(lx, pos, alt).0 == StepV::Done(v, pos + 1));
    } else if lvl == 3 {
        let (r1, a1) = just_spec(lx, pos, Expected::UnOp(UnOp::Not), alt);
        lemma_chain_single(lx, pos, 2, v, a1);
    } else {
        lemma_chain_single(lx, pos, lvl - 1, v, alt);
        let (r1, a1) = chain_spec(lx, pos, lvl - 1, alt);
        lemma_op_fails(lx, pos + 1, level_ops(lvl), 0, a1);
        assert(tail_spec(lx, pos + 1, lvl, v, a1).0 == StepV::Done(v, pos + 1));
    }
}

/// A boolean literal that no operator follows is the whole `$filter` expression.
pub proof fn law_bool_expression(lx: LexedV, pos: nat, b: bool, alt: AltV)
    requires
        pos < lx.toks.len(),
        lx.toks[pos as int].tok == TokV::Bool(b),
        pos + 1 >= lx.toks.len() || !(lx.toks[pos + 1int].tok is BinOp),
    ensures
        chain_spec(lx, pos, 9, alt).0 == StepV::Done(FilterV::Bool(b), pos + 1),
{
    assert forall|a: AltV| #[trigger] atom_spec(lx, pos, a).0 == StepV::Done(FilterV::Bool(b), pos + 1) by {
        law_bool_atom(lx, pos, b, a);
    }
    lemma_chain_single(lx, pos, 9, FilterV::Bool(b), alt);
}

} // verus!

verus! {

/// Whether the tokens from `q` on are, by kind and value, exactly `w`.
pub open spec fn toks_are(lx: LexedV, q: int, w: Seq<TokV>) -> bool {
    &&& 0 <= q
    &&& q + w.len() == lx.toks.len()
    &&& forall|m: int| 0 <= m < w.len() ==> #[trigger] lx.toks[q + m].tok == w[m]
}

/// The token of a written direction.
pub open spec fn dir_tok(d: Direction) -> TokV {
    match d {
        Direction::Asc => TokV::UnOp(UnOp::Asc),
        Direction::Desc => TokV::UnOp(UnOp::Desc),
    }
}

/// The tokens of an `$orderby` item: the identifier, then its direction where one
/// is written.
pub open spec fn written_item_toks(it: (Seq<char>, Option<Direction>)) -> Seq<TokV> {
    seq![TokV::Ident(it.0)] + match it.1 {
        Some(d) => seq![dir_tok(d)],
        None => Seq::empty(),
    }
}

/// The tokens of `$orderby` items separated by commas.
pub open spec fn written_items_toks(o: Seq<(Seq<char>, Option<Direction>)>) -> Seq<TokV>
    decreases o.len(),
{
    if o.len() == 0 {
        Seq::empty()
    } else if o.len() == 1 {
        written_item_toks(o[0])
    } else {
        written_item_toks(o[0]) + seq![TokV::Ctrl(Ctrl::Comma)] + written_items_toks(o.drop_first())
    }
}

/// Each item with its written direction, ascending where none is written.
pub open spec fn with_default_direction(o: Seq<(Seq<char>, Option<Direction>)>) -> Seq<(Seq<char>, Direction)> {
    Seq::new(
        o.len(),
        |k: int|
            (
                o[k].0,
                match o[k].1 {
                    Some(d) => d,
                    None => Direction::Asc,
                },
            ),
    )
}

proof fn lemma_written_item(lx: LexedV, q: int, it: (Seq<char>, Option<Direction>), alt: AltV)
    requires
        0 <= q,
        q + written_item_toks(it).len() <= lx.toks.len(),
        forall|m: int| 0 <= m < written_item_toks(it).len() ==> #[trigger] lx.toks[q + m].tok == written_item_toks(it)[m],
        q + written_item_toks(it).len() == lx.toks.len() || lx.toks[q + written_item_toks(it).len()].tok
            == TokV::Ctrl(Ctrl::Comma),
    ensures
        orderby_item_spec(lx, q as nat, alt).0 == StepV::Done(
            (
                it.0,
                match it.1 {
                    Some(d) => d,
                    None => Direction::Asc,
                },
            ),
            (q + written_item_toks(it).len()) as nat,
        ),
{
    assert(lx.toks[q + 0].tok == TokV::Ident(it.0));
    if let Some(d) = it.1 {
        assert(lx.toks[q + 1].tok == dir_tok(d));
    }
}

proof fn lemma_written_rest(
    lx: LexedV,
    q: int,
    o: Seq<(Seq<char>, Option<Direction>)>,
    acc: Seq<(Seq<char>, Direction)>,
    alt: AltV,
)
    requires
        o.len() == 0 ==> q == lx.toks.len(),
        o.len() > 0 ==> toks_are(lx, q, seq![TokV::Ctrl(Ctrl::Comma)] + written_items_toks(o)),
    ensures
        orderby_rest_spec(lx, q as nat, acc, alt).0 == StepV::Done(
            acc + with_default_direction(o),
            lx.toks.len(),
        ),
    decreases o.len(),
{
    if o.len() == 0 {
        assert(acc + with_default_direction(o) =~= acc);
    } else {
        let w = seq![TokV::Ctrl(Ctrl::Comma)] + written_items_toks(o);
        let it = o[0];
        let iw = written_item_toks(it);
        let rest = o.drop_first();
        if o.len() == 1 {
            assert(written_items_toks(o) == iw);
        } else {
            assert(written_items_toks(o) == iw + seq![TokV::Ctrl(Ctrl::Comma)] + written_items_toks(rest));
        }
        assert(lx.toks[q + 0].tok == w[0]);
        let (r1, a1) = just_spec(lx, q as nat, Expected::Ctrl(Ctrl::Comma), alt);
        assert forall|m: int| 0 <= m < iw.len() implies #[trigger] lx.toks[q + 1 + m].tok == iw[m] by {
            assert(lx.toks[q + (1 + m)].tok == w[1 + m]);
        }
        let e = q + 1 + iw.len();
        if rest.len() > 0 {
            assert(lx.toks[q + (1 + iw.len())].tok == w[1 + iw.len() as int]);
        }
        lemma_written_item(lx, q + 1, it, a1);
        let (r2, a2) = orderby_item_spec(lx, (q + 1) as nat, a1);
        if rest.len() > 0 {
            let w2 = seq![TokV::Ctrl(Ctrl::Comma)] + written_items_toks(rest);
            assert forall|m: int| 0 <= m < w2.len() implies #[trigger] lx.toks[e + m].tok == w2[m] by {
                assert(lx.toks[q + (1 + iw.len() + m)].tok == w[1 + iw.len() + m]);
            }
        }
        let v = with_default_direction(o)[0];
        lemma_written_rest(lx, e, rest, acc.push(v), a2);
        assert(acc.push(v) + with_default_direction(rest) =~= acc + with_default_direction(o));
    }
}

/// `$orderby=` followed by items, each an identifier with its direction written or
/// not, separated by commas, parses to the items in order, each with its written
/// direction and ascending where none is written, whatever the items before it.
pub proof fn law_orderby_directions(lx: LexedV, b: int, o: Seq<(Seq<char>, Option<Direction>)>, alt: AltV)
    requires
        0 <= b < lx.toks.len(),
        lx.toks[b].tok == TokV::Kw(Keyword::Orderby),
        toks_are(lx, b + 1, written_items_toks(o)),
    ensures
        orderby_spec(lx, b as nat, alt).0 == StepV::Done(with_default_direction(o), lx.toks.len()),
{
    let (r1, a1) = just_spec(lx, b as nat, Expected::Kw(Keyword::Orderby), alt);
    let q = b + 1;
    if o.len() == 0 {
        assert(q == lx.toks.len());
        assert(with_default_direction(o) =~= Seq::<(Seq<char>, Direction)>::empty());
    } else {
        let w = written_items_toks(o);
        let it = o[0];
        let iw = written_item_toks(it);
        let rest = o.drop_first();
        if o.len() == 1 {
            assert(w == iw);
        } else {
            assert(w == iw + seq![TokV::Ctrl(Ctrl::Comma)] + written_items_toks(rest));
        }
        assert forall|m: int| 0 <= m < iw.len() implies #[trigger] lx.toks[q + m].tok == iw[m] by {
            assert(lx.toks[q + m].tok == w[m]);
        }
        let e = q + iw.len();
        if rest.len() > 0 {
            assert(lx.toks[q + iw.len()].tok == w[iw.len() as int]);
            let w2 = seq![TokV::Ctrl(Ctrl::Comma)] + written_items_toks(rest);
            assert forall|m: int| 0 <= m < w2.len() implies #[trigger] lx.toks[e + m].tok == w2[m] by {
                assert(lx.toks[q + (iw.len() + m)].tok == w[iw.len() + m]);
            }
        }
        lemma_written_item(lx, q, it, None);
        let (r2, a2) = orderby_item_spec(lx, q as nat, None);
        let v = with_default_direction(o)[0];
        lemma_written_rest(lx, e, rest, seq![v], a2);
        assert(seq![v] + with_default_direction(rest) =~= with_default_direction(o));
    }
}

} // verus!

verus! {

/// Where the `k`-th item of an `$expand` whose keyword is at `b` starts: after the
/// keyword, or after the comma that ends the item before it.
pub open spec fn item_start(b: int, ends: Seq<int>, k: int) -> int {
    if k == 0 {
        b + 1
    } else {
        ends[k - 1] + 1
    }
}

/// Whether the `$expand` at `b` is made of items that parse, wherever they stand, to
/// `vs[k]` ending at `ends[k]`, separated by commas, with no comma after the last.
pub open spec fn expand_layout(lx: LexedV, b: int, vs: Seq<(Seq<SegmentV>, ODataV)>, ends: Seq<int>) -> bool {
    &&& 0 <= b < lx.toks.len()
    &&& lx.toks[b].tok == TokV::Kw(Keyword::Expand)
    &&& vs.len() >= 1
    &&& ends.len() == vs.len()
    &&& forall|k: int| 0 <= k < vs.len() ==> b < item_start(b, ends, k) < #[trigger] ends[k] <= lx.toks.len()
    &&& forall|k: int, a: AltV|
        0 <= k < vs.len() ==> #[trigger] expand_item_spec(lx, item_start(b, ends, k) as nat, a).0
            == StepV::Done(vs[k], ends[k] as nat)
    &&& forall|k: int|
        0 <= k < vs.len() - 1 ==> #[trigger] ends[k] < lx.toks.len() && lx.toks[ends[k]].tok == TokV::Ctrl(
            Ctrl::Comma,
        )
    &&& ends[vs.len() - 1] == lx.toks.len() || lx.toks[ends[vs.len() - 1]].tok != TokV::Ctrl(Ctrl::Comma)
}

#[verifier::spinoff_prover]
#[verifier::rlimit(100)]
proof fn lemma_expand_rest(
    lx: LexedV,
    b: int,
    vs: Seq<(Seq<SegmentV>, ODataV)>,
    ends: Seq<int>,
    j: int,
    alt: AltV,
)
    requires
        expand_layout(lx, b, vs, ends),
        1 <= j <= vs.len(),
    ensures
        expand_rest_spec(lx, ends[j - 1] as nat, vs.take(j), alt).0 == StepV::Done(
            vs,
            ends[vs.len() - 1] as nat,
        ),
    decreases vs.len() - j,
{
    let n = vs.len() as int;
    let pos = ends[j - 1];
    assert(item_start(b, ends, j - 1) < ends[j - 1]);
    if j == n {
        assert(vs.take(j) =~= vs);
        let (r1, a1) = just_spec(lx, pos as nat, Expected::Ctrl(Ctrl::Comma), alt);
        assert(r1 is Fail);
    } else {
        assert(ends[j - 1] < lx.toks.len() && lx.toks[ends[j - 1]].tok == TokV::Ctrl(Ctrl::Comma));
        let (r1, a1) = just_spec(lx, pos as nat, Expected::Ctrl(Ctrl::Comma), alt);
        assert(item_start(b, ends, j) == pos + 1);
        assert(expand_item_spec(lx, item_start(b, ends, j) as nat, a1).0 == StepV::Done(vs[j], ends[j] as nat));
        assert(item_start(b, ends, j) < ends[j] <= lx.toks.len());
        let (r2, a2) = expand_item_spec(lx, (pos + 1) as nat, a1);
        assert(r1 == StepV::Done((), (pos + 1) as nat));
        assert(r2 == StepV::Done(vs[j], ends[j] as nat));
        lemma_expand_rest(lx, b, vs, ends, j + 1, a2);
        assert(vs.take(j).push(vs[j]) =~= vs.take(j + 1));
        assert(ends[j] == ends[j + 1 - 1]);
    }
}

/// Each item of an `$expand` keeps its own path and the query options in its own
/// parentheses, wherever it stands: the value of the whole option is the values of
/// its items, in order.
#[verifier::spinoff_prover]
#[verifier::rlimit(100)]
pub proof fn law_expand_items(
    lx: LexedV,
    b: int,
    vs: Seq<(Seq<SegmentV>, ODataV)>,
    ends: Seq<int>,
    alt: AltV,
)
    requires
        expand_layout(lx, b, vs, ends),
    ensures
        expand_spec(lx, b as nat, alt).0 == StepV::Done(vs, ends[vs.len() - 1] as nat),
{
    let (r1, a1) = just_spec(lx, b as nat, Expected::Kw(Keyword::Expand), alt);
    assert(item_start(b, ends, 0) == b + 1);
    assert(expand_item_spec(lx, item_start(b, ends, 0) as nat, a1).0 == StepV::Done(vs[0], ends[0] as nat));
    assert(item_start(b, ends, 0) < ends[0] <= lx.toks.len());
    let (r2, a2) = expand_item_spec(lx, (b + 1) as nat, a1);
    lemma_expand_rest(lx, b, vs, ends, 1, a2);
    assert(vs.take(1) =~= seq![vs[0]]);
}

} // verus!

verus! {

/// A literal token in a `$filter` atom is the value that the token carries: `null`,
/// a string, a number, a date, and an offset below `2^96` as a whole number.
pub proof fn law_literal_atom(lx: LexedV, pos: nat, alt: AltV)
    requires
        pos < lx.toks.len(),
    ensures
        lx.toks[pos as int].tok == TokV::Null ==> atom_spec(lx, pos, alt).0 == StepV::Done(FilterV::Null, pos + 1),
        lx.toks[pos as int].tok matches TokV::Str(x) ==> atom_spec(lx, pos, alt).0 == StepV::Done(
            FilterV::Str(x),
            pos + 1,
        ),
        lx.toks[pos as int].tok matches TokV::Num(x) ==> atom_spec(lx, pos, alt).0 == StepV::Done(
            FilterV::Num(x),
            pos + 1,
        ),
        lx.toks[pos as int].tok matches TokV::Date(x) ==> atom_spec(lx, pos, alt).0 == StepV::Done(
            FilterV::Date(x),
            pos + 1,
        ),
        lx.toks[pos as int].tok matches TokV::Offset(n) ==> (n < 79228162514264337593543950336
            ==> atom_spec(lx, pos, alt).0 == StepV::Done(
            FilterV::Num(Number { mantissa: n as i128, scale: 0 }),
            pos + 1,
        )),
{
    let t = lx.toks[pos as int].tok;
    if t is Null || t is Str || t is Num || t is Date || t is Offset {
        let (r1, a1) = just_spec(lx, pos, Expected::Ctrl(Ctrl::LParen), alt);
        assert(r1 is Fail);
        let (r2, a2) = select_spec(lx, pos, Sel::Ident, a1);
        assert(r2 is Fail);
        assert(call_spec(lx, pos, a1) == literal_spec(lx, pos, a2));
    }
}

/// `$count` followed by a boolean is that boolean, and with no boolean after it is a
/// request for the count.
pub proof fn law_count_value(lx: LexedV, pos: nat, alt: AltV)
    requires
        pos < lx.toks.len(),
        lx.toks[pos as int].tok == TokV::Kw(Keyword::Count),
    ensures
        pos + 1 < lx.toks.len() && lx.toks[pos + 1int].tok == TokV::Bool(false) ==> count_spec(lx, pos, alt).0
            == StepV::Done(false, pos + 2),
        pos + 1 < lx.toks.len() && lx.toks[pos + 1int].tok == TokV::Bool(true) ==> count_spec(lx, pos, alt).0
            == StepV::Done(true, pos + 2),
        (pos + 1 >= lx.toks.len() || !(lx.toks[pos + 1int].tok is Bool)) ==> count_spec(lx, pos, alt).0
            == StepV::Done(true, pos + 1),
{
}

/// A search token is the text of the `$search` option.
pub proof fn law_search_value(lx: LexedV, pos: nat, alt: AltV)
    requires
        pos < lx.toks.len(),
    ensures
        lx.toks[pos as int].tok matches TokV::Search(x) ==> search_spec(lx, pos, alt).0 == StepV::Done(x, pos + 1),
        !(lx.toks[pos as int].tok is Search) ==> search_spec(lx, pos, alt).0 is Fail,
{
}

/// `$select=` followed by `*` selects everything.
pub proof fn law_select_wildcard(lx: LexedV, pos: nat, alt: AltV)
    requires
        pos + 1 < lx.toks.len(),
        lx.toks[pos as int].tok == TokV::Kw(Keyword::Select),
        lx.toks[pos + 1int].tok == TokV::Ctrl(Ctrl::Wildcard),
    ensures
        select_option_spec(lx, pos, alt).0 == StepV::Done(SelectV::Wildcard, pos + 2),
{
}

/// An `$expand` item with no parenthesis after its path is that path with no query
/// options.
pub proof fn law_expand_item_plain(lx: LexedV, pos: nat, path: Seq<SegmentV>, p1: nat, alt: AltV)
    requires
        pos <= p1 <= lx.toks.len(),
        forall|a: AltV| #[trigger] path_spec(lx, pos, a).0 == StepV::Done(path, p1),
        p1 == lx.toks.len() || lx.toks[p1 as int].tok != TokV::Ctrl(Ctrl::LParen),
    ensures
        expand_item_spec(lx, pos, alt).0 == StepV::Done((path, odata_default()), p1),
{
    let (r1, a1) = path_spec(lx, pos, alt);
    assert(r1 == StepV::Done(path, p1));
}

/// An `$expand` item is its path and the query options in the parentheses after it,
/// separated by commas.
pub proof fn law_expand_item_options(
    lx: LexedV,
    pos: nat,
    path: Seq<SegmentV>,
    p1: nat,
    o: ODataV,
    p2: nat,
    alt: AltV,
)
    requires
        pos <= p1 < lx.toks.len(),
        forall|a: AltV| #[trigger] path_spec(lx, pos, a).0 == StepV::Done(path, p1),
        lx.toks[p1 as int].tok == TokV::Ctrl(Ctrl::LParen),
        p1 + 1 <= p2 < lx.toks.len(),
        forall|a: AltV| #[trigger] options_spec(lx, p1 + 1, Ctrl::Comma, a).0 == StepV::Done(o, p2),
        lx.toks[p2 as int].tok == TokV::Ctrl(Ctrl::RParen),
    ensures
        expand_item_spec(lx, pos, alt).0 == StepV::Done((path, o), p2 + 1),
{
    let (r1, a1) = path_spec(lx, pos, alt);
    assert(r1 == StepV::Done(path, p1));
    let (s1, b1) = just_spec(lx, p1, Expected::Ctrl(Ctrl::LParen), a1);
    assert(s1 == StepV::Done((), p1 + 1));
    let (s2, b2) = options_spec(lx, p1 + 1, Ctrl::Comma, b1);
    assert(s2 == StepV::Done(o, p2));
    assert(nested_spec(lx, p1, a1).0 == StepV::Done(o, p2 + 1));
}

} // verus!

verus! {

/// `t` without one space at its start and one at its end, where it has them.
pub open spec fn trim_blank(t: Seq<char>) -> Seq<char> {
    let a: int = if t.len() > 0 && t[0] == ' ' { 1 } else { 0 };
    let b: int = if t.len() > a && t[t.len() - 1] == ' ' { t.len() - 1 } else { t.len() as int };
    t.subrange(a, b)
}

/// Every fixed pattern of the lexer spells the token it gives, as that token is
/// printed: an operator word between its spaces is the operator's name, a punctuation
/// mark is the mark, `true` and `false` are those booleans; `null` is read as the null
/// literal; and each keyword pattern spells the keyword's name.
pub proof fn law_literal_words(l: Lit, k: Keyword)
    ensures
        l != Lit::Null ==> trim_blank(lit_text(l)) == token_text(lit_token(l)),
        l == Lit::Null ==> lit_text(l) == "null"@ && lit_token(l) == TokV::Null,
        kw_word(k) == keyword_name(k),
{
    reveal_strlit("has");
    reveal_strlit("in");
    reveal_strlit("mul");
    reveal_strlit("div");
    reveal_strlit("divby");
    reveal_strlit("mod");
    reveal_strlit("add");
    reveal_strlit("sub");
    reveal_strlit("gt");
    reveal_strlit("ge");
    reveal_strlit("lt");
    reveal_strlit("le");
    reveal_strlit("eq");
    reveal_strlit("ne");
    reveal_strlit("and");
    reveal_strlit("or");
    reveal_strlit("not");
    reveal_strlit("asc");
    reveal_strlit("desc");
    reveal_strlit("true");
    reveal_strlit("false");
    reveal_strlit("null");
    reveal_strlit("&");
    reveal_strlit("(");
    reveal_strlit(")");
    reveal_strlit("[");
    reveal_strlit("]");
    reveal_strlit(",");
    reveal_strlit("*");
    reveal_strlit("/");
    reveal_strlit(";");
    reveal_strlit("compute");
    reveal_strlit("count");
    reveal_strlit("expand");
    reveal_strlit("filter");
    reveal_strlit("orderby");
    reveal_strlit("select");
    reveal_strlit("skip");
    reveal_strlit("top");
    assert(kw_word(k) =~= keyword_name(k));
    if l == Lit::Null {
        assert(lit_text(l) =~= "null"@);
    } else {
        assert(trim_blank(lit_text(l)) =~= token_text(lit_token(l)));
    }
}

} // verus!
