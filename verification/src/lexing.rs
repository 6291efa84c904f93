//! What the lexer and the parsers make of whole sources of a simple shape.
use vstd::prelude::*;
use crate::lex::{
    all_cands, at, ascii_digits, cand_len, digits_value, kw_len, kw_word, lead, lex_from, lex_spec, lit_at, lit_text, lit_token,
    pick, priority, search_word, trail, trim_quotes, Cand, Lit,
};
use crate::{apply, join_amp, odata_default, odata_outcome, odata_parts, odata_text, option_at_spec, option_spec, options_rest_spec, options_spec, ODataV, OptV};
use crate::select::{paths_spec, paths_rest_spec, paths_text, select_option_spec, select_outcome, select_text, SelectV};
use crate::pagination::{page_spec, page_text, skip_outcome, top_outcome, PageV};
use crate::count::{count_outcome, count_spec, count_text};
use crate::filter::{filter_outcome, filter_spec, FilterV};
use crate::laws::law_bool_expression;
use crate::orderby::{orderby_item_spec, orderby_items_spec, orderby_items_text, orderby_rest_spec, orderby_spec, orderby_text, Direction};
use crate::text::direction_name;
use crate::text::{digit_text, nat_text};
use crate::path::{ident_outcome, path_outcome, path_spec, path_text, segment_spec, segments_rest_spec, SegmentV};
use crate::lex::LexedV;
use crate::parse::{just_spec, sel_match, tok_is, AltV, Expected, Sel, StepV};
use crate::token::Ctrl;
use crate::token::{SpannedV, TokV, in_class, is_ascii_digit, is_ident_continue, is_ident_start, run, Class, Keyword};

verus! {

/// Whether a match of length `n` by a pattern of priority `p` loses to a match of
/// length `len` by a pattern of priority `q`.
pub open spec fn loses(n: int, p: int, len: int, q: int) -> bool {
    n < len || (n == len && p < q)
}

proof fn lemma_pick_none(s: Seq<char>, i: int, cs: Seq<Cand>, best: Cand, len: int)
    requires
        len > 0,
        !cs.contains(best),
        forall|c: Cand| c != best ==> loses(#[trigger] cand_len(s, i, c), priority(c), len, priority(best)),
    ensures
        loses(pick(s, i, cs).1, priority(pick(s, i, cs).0), len, priority(best)),
    decreases cs.len(),
{
    if cs.len() > 0 {
        assert(!cs.drop_last().contains(best)) by {
            if cs.drop_last().contains(best) {
                let j = choose|j: int| 0 <= j < cs.drop_last().len() && cs.drop_last()[j] == best;
                assert(cs[j] == best);
            }
        }
        lemma_pick_none(s, i, cs.drop_last(), best, len);
        assert(cs.last() != best) by {
            assert(cs[cs.len() - 1] == cs.last());
        }
    }
}

/// The best match among patterns `cs` is that of `best` where every other pattern
/// loses to it.
proof fn lemma_pick_best(s: Seq<char>, i: int, cs: Seq<Cand>, best: Cand)
    requires
        cand_len(s, i, best) > 0,
        cs.contains(best),
        forall|c: Cand|
            c != best ==> loses(#[trigger] cand_len(s, i, c), priority(c), cand_len(s, i, best), priority(best)),
    ensures
        pick(s, i, cs) == (best, cand_len(s, i, best)),
    decreases cs.len(),
{
    let len = cand_len(s, i, best);
    let prev = cs.drop_last();
    if cs.last() == best {
        if prev.contains(best) {
            lemma_pick_best(s, i, prev, best);
        } else {
            lemma_pick_none(s, i, prev, best, len);
        }
    } else {
        let j = choose|j: int| 0 <= j < cs.len() && cs[j] == best;
        assert(j < cs.len() - 1);
        assert(prev[j] == best);
        lemma_pick_best(s, i, prev, best);
    }
}

proof fn lemma_run_all(s: Seq<char>, i: int, cl: Class)
    requires
        0 <= i <= s.len(),
        forall|k: int| i <= k < s.len() ==> in_class(#[trigger] s[k], cl),
    ensures
        run(s, i, cl) == s.len() - i,
    decreases s.len() - i,
{
    if i < s.len() {
        lemma_run_all(s, i + 1, cl);
    }
}

/// Whether `s` has the shape of an identifier, `[A-Za-z_][A-Za-z0-9_]*`.
pub open spec fn ident_shaped(s: Seq<char>) -> bool {
    &&& s.len() > 0
    &&& is_ident_start(s[0])
    &&& forall|k: int| 1 <= k < s.len() ==> is_ident_continue(#[trigger] s[k])
}

proof fn lemma_ident_wins(s: Seq<char>, c: Cand)
    requires
        ident_shaped(s),
        s != seq!['n', 'u', 'l', 'l'],
        s != seq!['t', 'r', 'u', 'e'],
        s != seq!['f', 'a', 'l', 's', 'e'],
        s != seq!['c', 'o', 'u', 'n', 't'],
        c != Cand::Ident,
    ensures
        loses(cand_len(s, 0, c), priority(c), s.len() as int, priority(Cand::Ident)),
{
    let n = s.len() as int;
    assert(forall|k: int| 0 <= k < n ==> is_ident_continue(#[trigger] s[k]));
    match c {
        Cand::Kw(k) => {
            if lit_at(s, 0, kw_word(k)) {
                let w = kw_word(k);
                assert(s.subrange(0, w.len() as int) == w);
                if k == Keyword::Count && w.len() == n {
                    assert(s =~= s.subrange(0, n));
                }
            }
        },
        Cand::Lit(l) => {
            let t = lit_text(l);
            if lit_at(s, 0, t) {
                assert(s.subrange(0, t.len() as int) == t);
                assert(forall|k: int| 0 <= k < t.len() ==> s[k] == #[trigger] t[k]) by {
                    assert forall|k: int| 0 <= k < t.len() implies s[k] == #[trigger] t[k] by {
                        assert(s.subrange(0, t.len() as int)[k] == s[k]);
                    }
                }
                if t.len() == n {
                    assert(s =~= t);
                }
            }
        },
        Cand::Skip => {},
        Cand::Offset => {},
        _ => {},
    }
}

/// A source of the shape of an identifier, other than the words `null`, `true`,
/// `false` and `count`, parses as that identifier.
pub proof fn law_identifier(s: Seq<char>)
    requires
        ident_shaped(s),
        s != seq!['n', 'u', 'l', 'l'],
        s != seq!['t', 'r', 'u', 'e'],
        s != seq!['f', 'a', 'l', 's', 'e'],
        s != seq!['c', 'o', 'u', 'n', 't'],
    ensures
        ident_outcome(s) == Ok::<Seq<char>, Seq<char>>(s),
{
    let n = s.len() as int;
    lemma_run_all(s, 1, Class::IdentContinue);
    assert(cand_len(s, 0, Cand::Ident) == n);
    assert forall|c: Cand| c != Cand::Ident implies loses(
        #[trigger] cand_len(s, 0, c),
        priority(c),
        cand_len(s, 0, Cand::Ident),
        priority(Cand::Ident),
    ) by {
        lemma_ident_wins(s, c);
    }
    assert(all_cands()[12] == Cand::Ident);
    lemma_pick_best(s, 0, all_cands(), Cand::Ident);
    assert(s.subrange(0, n) =~= s);
    assert(lex_from(s, n).toks.len() == 0);
    assert(lex_spec(s).toks =~= seq![crate::token::SpannedV { tok: crate::token::TokV::Ident(s), start: 0, end: n as nat }]);
}

} // verus!

verus! {

proof fn lemma_digit_text(d: int)
    requires
        0 <= d < 10,
    ensures
        digit_text(d).len() == 1,
        digit_text(d)[0] as int == 48 + d,
{
    reveal_strlit("0");
    reveal_strlit("1");
    reveal_strlit("2");
    reveal_strlit("3");
    reveal_strlit("4");
    reveal_strlit("5");
    reveal_strlit("6");
    reveal_strlit("7");
    reveal_strlit("8");
    reveal_strlit("9");
}

proof fn lemma_nat_text(n: nat)
    ensures
        nat_text(n).len() >= 1,
        ascii_digits(nat_text(n)),
        digits_value(nat_text(n)) == n,
    decreases n,
{
    if n < 10 {
        lemma_digit_text(n as int);
        let t = nat_text(n);
        assert(t.drop_last() =~= Seq::<char>::empty());
        assert(t.last() == t[0]);
        assert(digits_value(t) == digits_value(t.drop_last()) * 10 + (t.last() as int - 48) as nat);
    } else {
        lemma_nat_text(n / 10);
        lemma_digit_text((n % 10) as int);
        let t = nat_text(n);
        let h = nat_text(n / 10);
        assert(t.drop_last() =~= h);
        assert(t.last() == digit_text((n % 10) as int)[0]);
        assert(digits_value(t) == digits_value(h) * 10 + (t.last() as int - 48) as nat);
        assert((n / 10) * 10 + n % 10 == n);
        assert forall|k: int| 0 <= k < t.len() implies is_ascii_digit(#[trigger] t[k]) by {
            if k < h.len() {
                assert(t[k] == h[k]);
            }
        }
    }
}

/// `$` and the keyword `k` and `=`, then `value`.
pub open spec fn page_source(k: Keyword, value: Seq<char>) -> Seq<char> {
    seq!['$'] + kw_word(k) + seq!['='] + value
}

proof fn lemma_page_keyword(k: Keyword, v: Seq<char>, c: Cand)
    requires
        k == Keyword::Skip || k == Keyword::Top || k == Keyword::Count || k == Keyword::Select,
        c != Cand::Kw(k),
    ensures
        cand_len(page_source(k, v), 0, Cand::Kw(k)) == kw_word(k).len() + 2,
        loses(
            cand_len(page_source(k, v), 0, c),
            priority(c),
            kw_word(k).len() + 2int,
            priority(Cand::Kw(k)),
        ),
{
    let s = page_source(k, v);
    let w = kw_word(k);
    let wl = w.len() as int;
    assert(s.subrange(1, 1 + wl) =~= w);
    assert(s[0] == '$');
    assert(s[1] == w[0]);
    assert(s[2] == w[1]);
    assert(s[3] == w[2]);
    assert(s[1 + wl] == '=');
    match c {
        Cand::Kw(k2) => {
            let w2 = kw_word(k2);
            if lit_at(s, 1, w2) {
                assert(s.subrange(1, 1 + w2.len() as int)[0] == w2[0]);
                assert(s.subrange(1, 1 + w2.len() as int)[1] == w2[1]);
                assert(s.subrange(1, 1 + w2.len() as int)[2] == w2[2]);
            }
        },
        Cand::SearchRaw | Cand::SearchStr | Cand::SearchStr2 => {
            if lit_at(s, 1, search_word()) {
                assert(s.subrange(1, 8)[0] == search_word()[0]);
                assert(s.subrange(1, 8)[1] == search_word()[1]);
                assert(s.subrange(1, 8)[2] == search_word()[2]);
            }
        },
        Cand::Lit(l) => {
            let t = lit_text(l);
            if lit_at(s, 0, t) {
                assert(s.subrange(0, t.len() as int)[0] == t[0]);
            }
        },
        _ => {},
    }
}

proof fn lemma_digits_win(s: Seq<char>, p: int, c: Cand)
    requires
        0 <= p < s.len(),
        forall|k: int| p <= k < s.len() ==> is_ascii_digit(#[trigger] s[k]),
        c != Cand::Offset,
    ensures
        cand_len(s, p, Cand::Offset) == s.len() - p,
        loses(cand_len(s, p, c), priority(c), s.len() - p, priority(Cand::Offset)),
{
    lemma_run_all(s, p, Class::UnicodeDigit);
    lemma_run_all(s, p, Class::AsciiDigit);
    match c {
        Cand::Kw(k2) => {
            let w2 = kw_word(k2);
            if lit_at(s, p, w2) {
                assert(s.subrange(p, p + w2.len() as int)[0] == w2[0]);
            }
        },
        Cand::SearchRaw | Cand::SearchStr | Cand::SearchStr2 => {
            if lit_at(s, p, search_word()) {
                assert(s.subrange(p, p + 7)[0] == search_word()[0]);
            }
        },
        Cand::Lit(l) => {
            let t = lit_text(l);
            if lit_at(s, p, t) {
                assert(s.subrange(p, p + t.len() as int)[0] == t[0]);
            }
        },
        Cand::Skip => {},
        _ => {},
    }
}

proof fn lemma_quoted_wins(s: Seq<char>, p: int, c: Cand)
    requires
        0 <= p,
        p + 2 <= s.len(),
        s[p] == '\'',
        s[s.len() - 1] == '\'',
        forall|k: int| p < k < s.len() - 1 ==> #[trigger] s[k] != '\'',
        c != Cand::Str,
    ensures
        cand_len(s, p, Cand::Str) == s.len() - p,
        loses(cand_len(s, p, c), priority(c), s.len() - p, priority(Cand::Str)),
{
    let e = s.len() - 1;
    lemma_run_until_quote(s, p + 1);
    match c {
        Cand::Str2 => {
            if at(s, p + 1, '\'') {
                assert(p + 1 == e);
            }
        },
        Cand::Kw(k2) => {
            let w2 = kw_word(k2);
            if lit_at(s, p, w2) {
                assert(s.subrange(p, p + w2.len() as int)[0] == w2[0]);
            }
        },
        Cand::SearchRaw | Cand::SearchStr | Cand::SearchStr2 => {
            if lit_at(s, p, search_word()) {
                assert(s.subrange(p, p + 7)[0] == search_word()[0]);
            }
        },
        Cand::Lit(l) => {
            let t = lit_text(l);
            if lit_at(s, p, t) {
                assert(s.subrange(p, p + t.len() as int)[0] == t[0]);
            }
        },
        _ => {},
    }
}

proof fn lemma_run_until_quote(s: Seq<char>, i: int)
    requires
        1 <= i <= s.len() - 1,
        s[s.len() - 1] == '\'',
        forall|k: int| i <= k < s.len() - 1 ==> #[trigger] s[k] != '\'',
    ensures
        run(s, i, Class::NotQuote) == s.len() - 1 - i,
    decreases s.len() - i,
{
    if i < s.len() - 1 {
        lemma_run_until_quote(s, i + 1);
    }
}

/// `$skip=` or `$top=` followed by the decimal digits of an offset parses to that
/// offset: `$skip=42` is `Offset(42)`.
pub proof fn law_page_offset(k: Keyword, n: u128)
    requires
        k == Keyword::Skip || k == Keyword::Top,
    ensures
        page_outcome(k, page_source(k, nat_text(n as nat))) == Ok::<PageV, Seq<char>>(PageV::Offset(n)),
{
    let v = nat_text(n as nat);
    lemma_nat_text(n as nat);
    let s = page_source(k, v);
    let p = kw_word(k).len() + 2int;
    assert(s.len() == p + v.len());
    assert forall|c: Cand| c != Cand::Kw(k) implies loses(
        #[trigger] cand_len(s, 0, c),
        priority(c),
        cand_len(s, 0, Cand::Kw(k)),
        priority(Cand::Kw(k)),
    ) by {
        lemma_page_keyword(k, v, c);
    }
    lemma_page_keyword(k, v, Cand::Offset);
    assert(all_cands()[7] == Cand::Kw(Keyword::Skip));
    assert(all_cands()[8] == Cand::Kw(Keyword::Top));
    lemma_pick_best(s, 0, all_cands(), Cand::Kw(k));
    assert forall|j: int| p <= j < s.len() implies is_ascii_digit(#[trigger] s[j]) by {
        assert(s[j] == v[j - p]);
    }
    assert forall|c: Cand| c != Cand::Offset implies loses(
        #[trigger] cand_len(s, p, c),
        priority(c),
        cand_len(s, p, Cand::Offset),
        priority(Cand::Offset),
    ) by {
        lemma_digits_win(s, p, c);
    }
    lemma_digits_win(s, p, Cand::Num);
    assert(all_cands()[13] == Cand::Offset);
    lemma_pick_best(s, p, all_cands(), Cand::Offset);
    assert(s.subrange(p, s.len() as int) =~= v);
    assert(lex_from(s, s.len() as int).toks.len() == 0);
    let t0 = SpannedV { tok: TokV::Kw(k), start: 0, end: p as nat };
    let t1 = SpannedV { tok: TokV::Offset(n), start: p as nat, end: s.len() };
    assert(lex_from(s, p).toks =~= seq![t1]);
    assert(lex_spec(s).toks =~= seq![t0, t1]);
}

/// `$skip=` or `$top=` followed by a text without quotes in quotes parses to that
/// text as the cursor: `$skip='abc'` is `Cursor("abc")`.
pub proof fn law_page_cursor(k: Keyword, c: Seq<char>)
    requires
        k == Keyword::Skip || k == Keyword::Top,
        forall|i: int| 0 <= i < c.len() ==> #[trigger] c[i] != '\'',
    ensures
        page_outcome(k, page_source(k, seq!['\''] + c + seq!['\''])) == Ok::<PageV, Seq<char>>(PageV::Cursor(c)),
{
    let v = seq!['\''] + c + seq!['\''];
    let s = page_source(k, v);
    let p = kw_word(k).len() + 2int;
    assert(s.len() == p + v.len());
    assert forall|x: Cand| x != Cand::Kw(k) implies loses(
        #[trigger] cand_len(s, 0, x),
        priority(x),
        cand_len(s, 0, Cand::Kw(k)),
        priority(Cand::Kw(k)),
    ) by {
        lemma_page_keyword(k, v, x);
    }
    lemma_page_keyword(k, v, Cand::Offset);
    assert(all_cands()[7] == Cand::Kw(Keyword::Skip));
    assert(all_cands()[8] == Cand::Kw(Keyword::Top));
    lemma_pick_best(s, 0, all_cands(), Cand::Kw(k));
    assert(s[p] == '\'');
    assert(s[s.len() - 1] == '\'');
    assert forall|j: int| p < j < s.len() - 1 implies #[trigger] s[j] != '\'' by {
        assert(s[j] == c[j - p - 1]);
    }
    assert forall|x: Cand| x != Cand::Str implies loses(
        #[trigger] cand_len(s, p, x),
        priority(x),
        cand_len(s, p, Cand::Str),
        priority(Cand::Str),
    ) by {
        lemma_quoted_wins(s, p, x);
    }
    lemma_quoted_wins(s, p, Cand::Offset);
    assert(all_cands()[15] == Cand::Str);
    lemma_pick_best(s, p, all_cands(), Cand::Str);
    assert(lex_from(s, s.len() as int).toks.len() == 0);
    let b = s.len() as int;
    if c.len() == 0 {
        reveal_with_fuel(lead, 3);
        assert(lead(s, p, b) == b);
    } else {
        assert(lead(s, p + 1, b) == p + 1);
        assert(lead(s, p, b) == p + 1);
        assert(trail(s, p + 1, b - 1) == b - 1);
        assert(trail(s, p + 1, b) == b - 1);
    }
    assert(trim_quotes(s, p, b) =~= c);
    let t0 = SpannedV { tok: TokV::Kw(k), start: 0, end: p as nat };
    let t1 = SpannedV { tok: TokV::Str(c), start: p as nat, end: s.len() };
    assert(lex_from(s, p).toks =~= seq![t1]);
    assert(lex_spec(s).toks =~= seq![t0, t1]);
}

/// The printed text of a `$skip` or `$top` value parses back to that value, for an
/// offset and for a cursor without quotes.
pub proof fn law_page_round_trip(k: Keyword, p: PageV)
    requires
        k == Keyword::Skip || k == Keyword::Top,
        p matches PageV::Cursor(c) ==> forall|i: int| 0 <= i < c.len() ==> #[trigger] c[i] != '\'',
    ensures
        page_outcome(k, page_text(k, p)) == Ok::<PageV, Seq<char>>(p),
{
    reveal_strlit("$skip=");
    reveal_strlit("$top=");
    reveal_strlit("'");
    let head: Seq<char> = if k == Keyword::Top { "$top="@ } else { "$skip="@ };
    assert(head =~= seq!['$'] + kw_word(k) + seq!['=']);
    match p {
        PageV::Offset(n) => {
            assert(page_text(k, p) =~= page_source(k, nat_text(n as nat)));
            law_page_offset(k, n);
        },
        PageV::Cursor(c) => {
            assert(page_text(k, p) =~= page_source(k, seq!['\''] + c + seq!['\'']));
            law_page_cursor(k, c);
        },
    }
}

proof fn lemma_word_wins(s: Seq<char>, p: int, l: Lit, c: Cand)
    requires
        l == Lit::True || l == Lit::False,
        0 <= p,
        p + lit_text(l).len() == s.len(),
        s.subrange(p, s.len() as int) == lit_text(l),
        c != Cand::Lit(l),
    ensures
        cand_len(s, p, Cand::Lit(l)) == s.len() - p,
        loses(cand_len(s, p, c), priority(c), s.len() - p, priority(Cand::Lit(l))),
{
    let t = lit_text(l);
    assert(forall|k: int| 0 <= k < t.len() ==> s[p + k] == #[trigger] t[k]) by {
        assert forall|k: int| 0 <= k < t.len() implies s[p + k] == #[trigger] t[k] by {
            assert(s.subrange(p, s.len() as int)[k] == s[p + k]);
        }
    }
    assert(s[p] == t[0]);
    assert(s[p + 1] == t[1]);
    assert(forall|k: int| p <= k < s.len() ==> is_ident_continue(#[trigger] s[k])) by {
        assert forall|k: int| p <= k < s.len() implies is_ident_continue(#[trigger] s[k]) by {
            assert(s[p + (k - p)] == t[k - p]);
        }
    }
    lemma_run_all(s, p + 1, Class::IdentContinue);
    match c {
        Cand::Kw(k2) => {
            let w2 = kw_word(k2);
            if lit_at(s, p, w2) {
                assert(s.subrange(p, p + w2.len() as int)[0] == w2[0]);
                assert(s.subrange(p, p + w2.len() as int)[1] == w2[1]);
            }
        },
        Cand::SearchRaw | Cand::SearchStr | Cand::SearchStr2 => {
            if lit_at(s, p, search_word()) {
                assert(s.subrange(p, p + 7)[0] == search_word()[0]);
            }
        },
        Cand::Lit(l2) => {
            let t2 = lit_text(l2);
            if lit_at(s, p, t2) {
                assert(s.subrange(p, p + t2.len() as int)[0] == t2[0]);
                assert(s.subrange(p, p + t2.len() as int)[1] == t2[1]);
            }
        },
        _ => {},
    }
}

/// The printed text of a count, `$count=true` or `$count=false`, parses back to it.
pub proof fn law_count_round_trip(b: bool)
    ensures
        count_outcome(count_text(b)) == Ok::<bool, Seq<char>>(b),
{
    reveal_strlit("$count=");
    reveal_strlit("true");
    reveal_strlit("false");
    let k = Keyword::Count;
    let l = if b { Lit::True } else { Lit::False };
    let v = lit_text(l);
    let s = count_text(b);
    assert(s =~= page_source(k, v));
    let p = kw_word(k).len() + 2int;
    assert forall|c: Cand| c != Cand::Kw(k) implies loses(
        #[trigger] cand_len(s, 0, c),
        priority(c),
        cand_len(s, 0, Cand::Kw(k)),
        priority(Cand::Kw(k)),
    ) by {
        lemma_page_keyword(k, v, c);
    }
    lemma_page_keyword(k, v, Cand::Offset);
    assert(all_cands()[2] == Cand::Kw(Keyword::Count));
    lemma_pick_best(s, 0, all_cands(), Cand::Kw(k));
    assert(s.subrange(p, s.len() as int) =~= v);
    assert forall|c: Cand| c != Cand::Lit(l) implies loses(
        #[trigger] cand_len(s, p, c),
        priority(c),
        cand_len(s, p, Cand::Lit(l)),
        priority(Cand::Lit(l)),
    ) by {
        lemma_word_wins(s, p, l, c);
    }
    lemma_word_wins(s, p, l, Cand::Offset);
    assert(all_cands()[20] == Cand::Lit(Lit::False));
    assert(all_cands()[21] == Cand::Lit(Lit::True));
    lemma_pick_best(s, p, all_cands(), Cand::Lit(l));
    assert(lex_from(s, s.len() as int).toks.len() == 0);
    let t0 = SpannedV { tok: TokV::Kw(k), start: 0, end: p as nat };
    let t1 = SpannedV { tok: TokV::Bool(b), start: p as nat, end: s.len() };
    assert(lex_from(s, p).toks =~= seq![t1]);
    assert(lex_spec(s).toks =~= seq![t0, t1]);
}

/// What parsing a whole source as the option of keyword `k` (`$skip=` or `$top=`) gives.
pub open spec fn page_outcome(k: Keyword, s: Seq<char>) -> Result<PageV, Seq<char>> {
    if k == Keyword::Top {
        top_outcome(s)
    } else {
        skip_outcome(s)
    }
}

} // verus!

verus! {

/// Whether position `e` of `s` ends a word of a path: the end of `s`, a `/`, a `,`
/// or a `&`.
pub open spec fn stops(s: Seq<char>, e: int) -> bool {
    e == s.len() || (0 <= e < s.len() && (s[e] == '/' || s[e] == ',' || s[e] == '&'))
}

/// Whether position `e` of `s` ends a query option: the end of `s` or a `&`.
pub open spec fn ends_option(s: Seq<char>, e: int) -> bool {
    e == s.len() || (0 <= e < s.len() && s[e] == '&')
}

/// Whether `w` can be a segment of a printed path that reads back as the same
/// identifier: identifier-shaped, and not one of the words `null`, `true`, `false`
/// and `count`.
pub open spec fn plain_word(w: Seq<char>) -> bool {
    &&& ident_shaped(w)
    &&& w != seq!['n', 'u', 'l', 'l']
    &&& w != seq!['t', 'r', 'u', 'e']
    &&& w != seq!['f', 'a', 'l', 's', 'e']
    &&& w != seq!['c', 'o', 'u', 'n', 't']
}

/// The path of identifier segments `ws`.
pub open spec fn ident_path(ws: Seq<Seq<char>>) -> Seq<SegmentV> {
    Seq::new(ws.len(), |j: int| SegmentV::Ident(ws[j]))
}

/// `ws` joined by `/`, built from the front.
pub open spec fn slash_join(ws: Seq<Seq<char>>) -> Seq<char>
    decreases ws.len(),
{
    if ws.len() <= 1 {
        if ws.len() == 1 { ws[0] } else { Seq::empty() }
    } else {
        ws[0] + seq!['/'] + slash_join(ws.drop_first())
    }
}

proof fn lemma_slash_join_push(ws: Seq<Seq<char>>, w: Seq<char>)
    requires
        ws.len() >= 1,
    ensures
        slash_join(ws.push(w)) == slash_join(ws) + seq!['/'] + w,
    decreases ws.len(),
{
    if ws.len() == 1 {
        assert(ws.push(w).drop_first() =~= seq![w]);
        assert(slash_join(seq![w]) == w);
    } else {
        assert(ws.push(w).drop_first() =~= ws.drop_first().push(w));
        lemma_slash_join_push(ws.drop_first(), w);
    }
}

proof fn lemma_path_text(ws: Seq<Seq<char>>)
    requires
        ws.len() >= 1,
    ensures
        path_text(ident_path(ws)) == slash_join(ws),
    decreases ws.len(),
{
    if ws.len() > 1 {
        let init = ws.drop_last();
        lemma_path_text(init);
        assert(ident_path(ws).drop_last() =~= ident_path(init));
        reveal_strlit("/");
        lemma_slash_join_push(init, ws.last());
        assert(init.push(ws.last()) =~= ws);
    }
}

proof fn lemma_kw_letters(k: Keyword)
    ensures
        forall|m: int| 0 <= m < kw_word(k).len() ==> is_ident_start(#[trigger] kw_word(k)[m]),
{
    let wd = kw_word(k);
    assert forall|m: int| 0 <= m < wd.len() implies is_ident_start(#[trigger] wd[m]) by {
        match k {
            Keyword::Compute => {},
            Keyword::Count => {},
            Keyword::Expand => {},
            Keyword::Filter => {},
            Keyword::Orderby => {},
            Keyword::Select => {},
            Keyword::Skip => {},
            Keyword::Top => {},
        }
    }
}

proof fn lemma_ident_at(s: Seq<char>, i: int, w: Seq<char>, c: Cand)
    requires
        plain_word(w),
        0 <= i,
        i + w.len() <= s.len(),
        s.subrange(i, i + w.len()) == w,
        stops(s, i + w.len()) || (i + w.len() < s.len() && s[i + w.len()] == ' ' && w != seq!['n', 'o', 't']),
        c != Cand::Ident,
    ensures
        cand_len(s, i, Cand::Ident) == w.len(),
        loses(cand_len(s, i, c), priority(c), w.len() as int, priority(Cand::Ident)),
{
    let n = w.len() as int;
    assert(forall|k: int| 0 <= k < n ==> s[i + k] == #[trigger] w[k]) by {
        assert forall|k: int| 0 <= k < n implies s[i + k] == #[trigger] w[k] by {
            assert(s.subrange(i, i + n)[k] == s[i + k]);
        }
    }
    assert(forall|k: int| 0 <= k < n ==> is_ident_continue(#[trigger] w[k]));
    assert(forall|k: int| i <= k < i + n ==> is_ident_continue(#[trigger] s[k])) by {
        assert forall|k: int| i <= k < i + n implies is_ident_continue(#[trigger] s[k]) by {
            assert(s[i + (k - i)] == w[k - i]);
        }
    }
    assert(i + n == s.len() || s[i + n] == '/' || s[i + n] == ',' || s[i + n] == '&' || s[i + n] == ' ');
    lemma_run_stop(s, i + 1, i + n);
    assert(is_ident_start(s[i]));
    assert(s[i] != '$');
    match c {
        Cand::Kw(k) => {
            let wd = kw_word(k);
            if lit_at(s, i, wd) {
                assert(forall|m: int| 0 <= m < wd.len() ==> s[i + m] == #[trigger] wd[m]) by {
                    assert forall|m: int| 0 <= m < wd.len() implies s[i + m] == #[trigger] wd[m] by {
                        assert(s.subrange(i, i + wd.len() as int)[m] == s[i + m]);
                    }
                }
                if wd.len() == n {
                    assert(w =~= wd);
                    assert(!at(s, i + n, '='));
                }
                if wd.len() < n {
                    assert(s[i + wd.len()] == w[wd.len() as int]);
                    assert(!at(s, i + wd.len(), '='));
                }
                if wd.len() > n {
                    assert(s[i + n] == wd[n]);
                    lemma_kw_letters(k);
                    assert(is_ident_start(wd[n]));
                    assert(false);
                }
                if wd.len() == n {
                    assert(kw_len(s, i, k) < n);
                }
                if wd.len() < n {
                    assert(kw_len(s, i, k) < n);
                }
            } else {
                assert(kw_len(s, i, k) == 0);
            }
            assert(n >= 1);
            assert(cand_len(s, i, c) == kw_len(s, i, k));
            assert(cand_len(s, i, c) < n);
        },
        Cand::Lit(l) => {
            let t = lit_text(l);
            if lit_at(s, i, t) {
                assert(forall|m: int| 0 <= m < t.len() ==> s[i + m] == #[trigger] t[m]) by {
                    assert forall|m: int| 0 <= m < t.len() implies s[i + m] == #[trigger] t[m] by {
                        assert(s.subrange(i, i + t.len() as int)[m] == s[i + m]);
                    }
                }
                if t.len() == n {
                    assert(w =~= t);
                }
                assert(s[i] == t[0]);
                if t.len() > n {
                    assert(s[i + n] == t[n]);
                    if l == Lit::Not && n == 3 {
                        assert(w =~= seq!['n', 'o', 't']);
                    }
                }
            }
            assert(loses(cand_len(s, i, c), priority(c), n, priority(Cand::Ident)));
        },
        Cand::SearchRaw | Cand::SearchStr | Cand::SearchStr2 => {
            assert(loses(cand_len(s, i, c), priority(c), n, priority(Cand::Ident)));
        },
        _ => {
            assert(loses(cand_len(s, i, c), priority(c), n, priority(Cand::Ident)));
        },
    }
}

proof fn lemma_run_stop(s: Seq<char>, i: int, e: int)
    requires
        1 <= i <= e <= s.len(),
        forall|k: int| i <= k < e ==> is_ident_continue(#[trigger] s[k]),
        e == s.len() || !is_ident_continue(s[e]),
    ensures
        run(s, i, Class::IdentContinue) == e - i,
    decreases e - i,
{
    if i < e {
        lemma_run_stop(s, i + 1, e);
    }
}

proof fn lemma_slash_at(s: Seq<char>, i: int, c: Cand)
    requires
        0 <= i < s.len(),
        s[i] == '/',
        c != Cand::Lit(Lit::Slash),
    ensures
        cand_len(s, i, Cand::Lit(Lit::Slash)) == 1,
        loses(cand_len(s, i, c), priority(c), 1, priority(Cand::Lit(Lit::Slash))),
{
    assert(s.subrange(i, i + 1) =~= seq!['/']);
    match c {
        Cand::Kw(k) => {
            let wd = kw_word(k);
            if lit_at(s, i, wd) {
                assert(s.subrange(i, i + wd.len() as int)[0] == wd[0]);
            }
        },
        Cand::SearchRaw | Cand::SearchStr | Cand::SearchStr2 => {
            if lit_at(s, i, search_word()) {
                assert(s.subrange(i, i + 7)[0] == search_word()[0]);
            }
        },
        Cand::Lit(l) => {
            let t = lit_text(l);
            if lit_at(s, i, t) {
                assert(s.subrange(i, i + t.len() as int)[0] == t[0]);
            }
        },
        _ => {},
    }
}

/// The tokens of `ws` joined by `/`, at position `i` of `s`: identifiers at even
/// indices, slashes between them.
pub open spec fn ident_path_toks(toks: Seq<SpannedV>, ws: Seq<Seq<char>>) -> bool {
    &&& toks.len() == 2 * ws.len() - 1
    &&& forall|j: int| 0 <= j < ws.len() ==> #[trigger] toks[2 * j].tok == TokV::Ident(ws[j])
    &&& forall|j: int| 0 <= j < ws.len() - 1 ==> #[trigger] toks[2 * j + 1].tok == TokV::Ctrl(Ctrl::Slash)
}

proof fn lemma_lex_ident_path(s: Seq<char>, i: int, ws: Seq<Seq<char>>)
    requires
        ws.len() >= 1,
        forall|j: int| 0 <= j < ws.len() ==> plain_word(#[trigger] ws[j]),
        0 <= i <= s.len(),
        s.subrange(i, s.len() as int) == slash_join(ws),
    ensures
        ident_path_toks(lex_from(s, i).toks, ws),
    decreases ws.len(),
{
    let w = ws[0];
    let n = w.len() as int;
    assert(plain_word(w));
    let sub = s.subrange(i, s.len() as int);
    if ws.len() == 1 {
        assert(sub == w);
    } else {
        assert(sub == w + seq!['/'] + slash_join(ws.drop_first()));
    }
    assert(i + n <= s.len());
    assert(s.subrange(i, i + n) =~= w) by {
        assert forall|m: int| 0 <= m < n implies s.subrange(i, i + n)[m] == w[m] by {
            assert(sub[m] == s[i + m]);
        }
    }
    if ws.len() > 1 {
        assert(sub[n] == '/');
        assert(s[i + n] == '/');
    } else {
        assert(sub.len() == n);
    }
    assert forall|c: Cand| c != Cand::Ident implies loses(
        #[trigger] cand_len(s, i, c),
        priority(c),
        cand_len(s, i, Cand::Ident),
        priority(Cand::Ident),
    ) by {
        lemma_ident_at(s, i, w, c);
    }
    lemma_ident_at(s, i, w, Cand::Offset);
    assert(all_cands()[12] == Cand::Ident);
    lemma_pick_best(s, i, all_cands(), Cand::Ident);
    let t0 = SpannedV { tok: TokV::Ident(w), start: i as nat, end: (i + n) as nat };
    assert(lex_from(s, i).toks == seq![t0] + lex_from(s, i + n).toks);
    if ws.len() == 1 {
        assert(lex_from(s, i + n).toks.len() == 0);
        assert(lex_from(s, i).toks =~= seq![t0]);
    } else {
        let j = i + n;
        assert forall|c: Cand| c != Cand::Lit(Lit::Slash) implies loses(
            #[trigger] cand_len(s, j, c),
            priority(c),
            cand_len(s, j, Cand::Lit(Lit::Slash)),
            priority(Cand::Lit(Lit::Slash)),
        ) by {
            lemma_slash_at(s, j, c);
        }
        lemma_slash_at(s, j, Cand::Offset);
        assert(all_cands()[48] == Cand::Lit(Lit::Slash));
        lemma_pick_best(s, j, all_cands(), Cand::Lit(Lit::Slash));
        let rest = ws.drop_first();
        assert(s.subrange(j + 1, s.len() as int) =~= slash_join(rest)) by {
            assert forall|m: int| 0 <= m < s.len() - (j + 1) implies s.subrange(j + 1, s.len() as int)[m]
                == slash_join(rest)[m] by {
                assert(sub[n + 1 + m] == s[j + 1 + m]);
            }
        }
        lemma_lex_ident_path(s, j + 1, rest);
        let t1 = SpannedV { tok: TokV::Ctrl(Ctrl::Slash), start: j as nat, end: (j + 1) as nat };
        let after = lex_from(s, j + 1).toks;
        assert(lex_from(s, j).toks == seq![t1] + after);
        let all = lex_from(s, i).toks;
        assert(all =~= seq![t0, t1] + after);
        assert forall|k: int| 0 <= k < ws.len() implies #[trigger] all[2 * k].tok == TokV::Ident(ws[k]) by {
            if k > 0 {
                assert(all[2 * k] == after[2 * (k - 1)]);
                assert(rest[k - 1] == ws[k]);
            }
        }
        assert forall|k: int| 0 <= k < ws.len() - 1 implies #[trigger] all[2 * k + 1].tok == TokV::Ctrl(Ctrl::Slash) by {
            if k > 0 {
                assert(all[2 * k + 1] == after[2 * (k - 1) + 1]);
            }
        }
    }
}

} // verus!

verus! {

proof fn lemma_segments_rest_ident_path(lx: LexedV, ws: Seq<Seq<char>>, k: int, acc: Seq<SegmentV>, alt: AltV)
    requires
        ident_path_toks(lx.toks, ws),
        1 <= k <= ws.len(),
        acc == ident_path(ws.take(k)),
    ensures
        segments_rest_spec(lx, (2 * k - 1) as nat, acc, alt).0 == StepV::Done(ident_path(ws), lx.toks.len()),
    decreases ws.len() - k,
{
    let pos = (2 * k - 1) as nat;
    if k == ws.len() {
        assert(ws.take(k) =~= ws);
    } else {
        assert(lx.toks[2 * (k - 1) + 1].tok == TokV::Ctrl(Ctrl::Slash));
        assert(lx.toks[2 * k].tok == TokV::Ident(ws[k]));
        let (r1, a1) = just_spec(lx, pos, Expected::Ctrl(Ctrl::Slash), alt);
        let (r2, a2) = segment_spec(lx, pos + 1, a1);
        assert(r2 == StepV::Done(SegmentV::Ident(ws[k]), pos + 2));
        assert(acc.push(SegmentV::Ident(ws[k])) =~= ident_path(ws.take(k + 1)));
        lemma_segments_rest_ident_path(lx, ws, k + 1, acc.push(SegmentV::Ident(ws[k])), a2);
    }
}

/// A printed path of identifiers, each identifier-shaped and none of the words
/// `null`, `true`, `false` and `count`, parses back to the same path.
pub proof fn law_path_round_trip(ws: Seq<Seq<char>>)
    requires
        ws.len() >= 1,
        forall|j: int| 0 <= j < ws.len() ==> plain_word(#[trigger] ws[j]),
    ensures
        path_outcome(path_text(ident_path(ws))) == Ok::<Seq<SegmentV>, Seq<char>>(ident_path(ws)),
{
    lemma_path_text(ws);
    let s = path_text(ident_path(ws));
    assert(s.subrange(0, s.len() as int) =~= s);
    lemma_lex_ident_path(s, 0, ws);
    let lx = lex_spec(s);
    assert(ident_path_toks(lx.toks, ws));
    assert(lx.toks[2 * 0int].tok == TokV::Ident(ws[0]));
    let (r, a) = segment_spec(lx, 0, None);
    assert(r == StepV::Done(SegmentV::Ident(ws[0]), 1nat));
    assert(seq![SegmentV::Ident(ws[0])] =~= ident_path(ws.take(1)));
    lemma_segments_rest_ident_path(lx, ws, 1, seq![SegmentV::Ident(ws[0])], a);
}

} // verus!

verus! {

/// The tokens of the path `ws` printed from position `i` on.
pub open spec fn path_toks(ws: Seq<Seq<char>>, i: int) -> Seq<SpannedV>
    decreases ws.len(),
{
    if ws.len() == 0 {
        Seq::empty()
    } else {
        let n = ws[0].len() as int;
        let t0 = SpannedV { tok: TokV::Ident(ws[0]), start: i as nat, end: (i + n) as nat };
        if ws.len() == 1 {
            seq![t0]
        } else {
            seq![t0, SpannedV { tok: TokV::Ctrl(Ctrl::Slash), start: (i + n) as nat, end: (i + n + 1) as nat }]
                + path_toks(ws.drop_first(), i + n + 1)
        }
    }
}

proof fn lemma_path_toks(ws: Seq<Seq<char>>, i: int)
    requires
        ws.len() >= 1,
    ensures
        path_toks(ws, i).len() == 2 * ws.len() - 1,
        forall|j: int| 0 <= j < ws.len() ==> #[trigger] path_toks(ws, i)[2 * j].tok == TokV::Ident(ws[j]),
        forall|j: int| 0 <= j < ws.len() - 1 ==> #[trigger] path_toks(ws, i)[2 * j + 1].tok
            == TokV::Ctrl(Ctrl::Slash),
    decreases ws.len(),
{
    if ws.len() > 1 {
        let rest = ws.drop_first();
        let n = ws[0].len() as int;
        lemma_path_toks(rest, i + n + 1);
        let t = path_toks(ws, i);
        let r = path_toks(rest, i + n + 1);
        assert forall|j: int| 0 <= j < ws.len() implies #[trigger] t[2 * j].tok == TokV::Ident(ws[j]) by {
            if j > 0 {
                assert(t[2 * j] == r[2 * (j - 1)]);
                assert(rest[j - 1] == ws[j]);
            }
        }
        assert forall|j: int| 0 <= j < ws.len() - 1 implies #[trigger] t[2 * j + 1].tok == TokV::Ctrl(Ctrl::Slash) by {
            if j > 0 {
                assert(t[2 * j + 1] == r[2 * (j - 1) + 1]);
            }
        }
    }
}

proof fn lemma_lex_path_at(s: Seq<char>, i: int, e: int, ws: Seq<Seq<char>>)
    requires
        ws.len() >= 1,
        forall|j: int| 0 <= j < ws.len() ==> plain_word(#[trigger] ws[j]),
        0 <= i <= e <= s.len(),
        s.subrange(i, e) == slash_join(ws),
        e == s.len() || s[e] == ',' || s[e] == '&',
    ensures
        lex_from(s, i).toks == path_toks(ws, i) + lex_from(s, e).toks,
    decreases ws.len(),
{
    let w = ws[0];
    let n = w.len() as int;
    assert(plain_word(w));
    let sub = s.subrange(i, e);
    if ws.len() == 1 {
        assert(sub == w);
    } else {
        assert(sub == w + seq!['/'] + slash_join(ws.drop_first()));
    }
    assert(i + n <= e);
    assert(s.subrange(i, i + n) =~= w) by {
        assert forall|m: int| 0 <= m < n implies s.subrange(i, i + n)[m] == w[m] by {
            assert(sub[m] == s[i + m]);
        }
    }
    if ws.len() > 1 {
        assert(sub[n] == '/');
        assert(s[i + n] == '/');
    } else {
        assert(sub.len() == n);
    }
    assert forall|c: Cand| c != Cand::Ident implies loses(
        #[trigger] cand_len(s, i, c),
        priority(c),
        cand_len(s, i, Cand::Ident),
        priority(Cand::Ident),
    ) by {
        lemma_ident_at(s, i, w, c);
    }
    lemma_ident_at(s, i, w, Cand::Offset);
    assert(all_cands()[12] == Cand::Ident);
    lemma_pick_best(s, i, all_cands(), Cand::Ident);
    let t0 = SpannedV { tok: TokV::Ident(w), start: i as nat, end: (i + n) as nat };
    assert(lex_from(s, i).toks == seq![t0] + lex_from(s, i + n).toks);
    if ws.len() == 1 {
        assert(path_toks(ws, i) == seq![t0]);
    } else {
        let j = i + n;
        assert forall|c: Cand| c != Cand::Lit(Lit::Slash) implies loses(
            #[trigger] cand_len(s, j, c),
            priority(c),
            cand_len(s, j, Cand::Lit(Lit::Slash)),
            priority(Cand::Lit(Lit::Slash)),
        ) by {
            lemma_slash_at(s, j, c);
        }
        lemma_slash_at(s, j, Cand::Offset);
        assert(all_cands()[48] == Cand::Lit(Lit::Slash));
        lemma_pick_best(s, j, all_cands(), Cand::Lit(Lit::Slash));
        let rest = ws.drop_first();
        assert(s.subrange(j + 1, e) =~= slash_join(rest)) by {
            assert forall|m: int| 0 <= m < e - (j + 1) implies s.subrange(j + 1, e)[m] == slash_join(rest)[m] by {
                assert(sub[n + 1 + m] == s[j + 1 + m]);
            }
        }
        lemma_lex_path_at(s, j + 1, e, rest);
        let t1 = SpannedV { tok: TokV::Ctrl(Ctrl::Slash), start: j as nat, end: (j + 1) as nat };
        assert(lex_from(s, j).toks == seq![t1] + lex_from(s, j + 1).toks);
        assert(lex_from(s, i).toks =~= path_toks(ws, i) + lex_from(s, e).toks);
    }
}

/// Whether the tokens of `lx` from index `b` on are the path `ws`, followed by the
/// end of the tokens or by a token other than `/`.
pub open spec fn path_at(lx: LexedV, b: int, ws: Seq<Seq<char>>) -> bool {
    &&& 0 <= b
    &&& ws.len() >= 1
    &&& b + 2 * ws.len() - 1 <= lx.toks.len()
    &&& forall|j: int| 0 <= j < ws.len() ==> #[trigger] lx.toks[b + 2 * j].tok == TokV::Ident(ws[j])
    &&& forall|j: int| 0 <= j < ws.len() - 1 ==> #[trigger] lx.toks[b + 2 * j + 1].tok == TokV::Ctrl(Ctrl::Slash)
    &&& b + 2 * ws.len() - 1 < lx.toks.len() ==> lx.toks[b + 2 * ws.len() - 1].tok != TokV::Ctrl(Ctrl::Slash)
}

proof fn lemma_segments_rest_at(lx: LexedV, b: int, ws: Seq<Seq<char>>, k: int, acc: Seq<SegmentV>, alt: AltV)
    requires
        path_at(lx, b, ws),
        1 <= k <= ws.len(),
        acc == ident_path(ws.take(k)),
    ensures
        segments_rest_spec(lx, (b + 2 * k - 1) as nat, acc, alt).0 == StepV::Done(
            ident_path(ws),
            (b + 2 * ws.len() - 1) as nat,
        ),
    decreases ws.len() - k,
{
    let pos = (b + 2 * k - 1) as nat;
    if k == ws.len() {
        assert(ws.take(k) =~= ws);
    } else {
        assert(lx.toks[b + 2 * (k - 1) + 1].tok == TokV::Ctrl(Ctrl::Slash));
        assert(lx.toks[b + 2 * k].tok == TokV::Ident(ws[k]));
        let (r1, a1) = just_spec(lx, pos, Expected::Ctrl(Ctrl::Slash), alt);
        let (r2, a2) = segment_spec(lx, pos + 1, a1);
        assert(r2 == StepV::Done(SegmentV::Ident(ws[k]), pos + 2));
        assert(acc.push(SegmentV::Ident(ws[k])) =~= ident_path(ws.take(k + 1)));
        lemma_segments_rest_at(lx, b, ws, k + 1, acc.push(SegmentV::Ident(ws[k])), a2);
    }
}

proof fn lemma_path_parse_at(lx: LexedV, b: int, ws: Seq<Seq<char>>, alt: AltV)
    requires
        path_at(lx, b, ws),
    ensures
        path_spec(lx, b as nat, alt).0 == StepV::Done(ident_path(ws), (b + 2 * ws.len() - 1) as nat),
{
    assert(lx.toks[b + 2 * 0].tok == TokV::Ident(ws[0]));
    let (r, a) = segment_spec(lx, b as nat, alt);
    assert(r == StepV::Done(SegmentV::Ident(ws[0]), (b + 1) as nat));
    assert(seq![SegmentV::Ident(ws[0])] =~= ident_path(ws.take(1)));
    lemma_segments_rest_at(lx, b, ws, 1, seq![SegmentV::Ident(ws[0])], a);
}

} // verus!

verus! {

/// The paths of identifier segments `wss`.
pub open spec fn ident_paths(wss: Seq<Seq<Seq<char>>>) -> Seq<Seq<SegmentV>> {
    Seq::new(wss.len(), |k: int| ident_path(wss[k]))
}

/// The paths `wss` printed and joined by `,`, built from the front.
pub open spec fn comma_join(wss: Seq<Seq<Seq<char>>>) -> Seq<char>
    decreases wss.len(),
{
    if wss.len() <= 1 {
        if wss.len() == 1 { slash_join(wss[0]) } else { Seq::empty() }
    } else {
        slash_join(wss[0]) + seq![','] + comma_join(wss.drop_first())
    }
}

/// Whether every path of `wss` is a non-empty path of plain words.
pub open spec fn plain_paths(wss: Seq<Seq<Seq<char>>>) -> bool {
    forall|k: int| 0 <= k < wss.len() ==> {
        &&& (#[trigger] wss[k]).len() >= 1
        &&& forall|j: int| 0 <= j < wss[k].len() ==> plain_word(#[trigger] wss[k][j])
    }
}

proof fn lemma_comma_join_push(wss: Seq<Seq<Seq<char>>>, w: Seq<Seq<char>>)
    requires
        wss.len() >= 1,
    ensures
        comma_join(wss.push(w)) == comma_join(wss) + seq![','] + slash_join(w),
    decreases wss.len(),
{
    let ww = wss.push(w);
    assert(ww[0] == wss[0]);
    if wss.len() == 1 {
        assert(ww.drop_first() =~= seq![w]);
        assert(comma_join(seq![w]) == slash_join(w));
        assert(comma_join(ww) =~= comma_join(wss) + seq![','] + slash_join(w));
    } else {
        assert(ww.drop_first() =~= wss.drop_first().push(w));
        lemma_comma_join_push(wss.drop_first(), w);
        assert(comma_join(ww) =~= comma_join(wss) + seq![','] + slash_join(w));
    }
}

proof fn lemma_paths_text(wss: Seq<Seq<Seq<char>>>)
    requires
        wss.len() >= 1,
        plain_paths(wss),
    ensures
        paths_text(ident_paths(wss)) == comma_join(wss),
    decreases wss.len(),
{
    assert(wss[wss.len() - 1].len() >= 1);
    lemma_path_text(wss[wss.len() - 1]);
    if wss.len() == 1 {
        assert(ident_paths(wss)[0] == ident_path(wss[0]));
    } else {
        let init = wss.drop_last();
        assert(plain_paths(init)) by {
            assert forall|k: int| 0 <= k < init.len() implies (#[trigger] init[k]).len() >= 1 by {
                assert(init[k] == wss[k]);
            }
        }
        lemma_paths_text(init);
        assert(ident_paths(wss).drop_last() =~= ident_paths(init));
        reveal_strlit(",");
        lemma_comma_join_push(init, wss.last());
        assert(init.push(wss.last()) =~= wss);
    }
}

proof fn lemma_comma_at(s: Seq<char>, i: int, c: Cand)
    requires
        0 <= i < s.len(),
        s[i] == ',',
        c != Cand::Lit(Lit::Comma),
    ensures
        cand_len(s, i, Cand::Lit(Lit::Comma)) == 1,
        loses(cand_len(s, i, c), priority(c), 1, priority(Cand::Lit(Lit::Comma))),
{
    assert(s.subrange(i, i + 1) =~= seq![',']);
    match c {
        Cand::Kw(k) => {
            let wd = kw_word(k);
            if lit_at(s, i, wd) {
                assert(s.subrange(i, i + wd.len() as int)[0] == wd[0]);
            }
        },
        Cand::SearchRaw | Cand::SearchStr | Cand::SearchStr2 => {
            if lit_at(s, i, search_word()) {
                assert(s.subrange(i, i + 7)[0] == search_word()[0]);
            }
        },
        Cand::Lit(l) => {
            let t = lit_text(l);
            if lit_at(s, i, t) {
                assert(s.subrange(i, i + t.len() as int)[0] == t[0]);
            }
        },
        _ => {},
    }
}

/// The tokens of the paths `wss` printed from position `i` on.
pub open spec fn paths_toks(wss: Seq<Seq<Seq<char>>>, i: int) -> Seq<SpannedV>
    decreases wss.len(),
{
    if wss.len() == 0 {
        Seq::empty()
    } else {
        let e = i + slash_join(wss[0]).len();
        path_toks(wss[0], i) + if wss.len() == 1 {
            Seq::empty()
        } else {
            seq![SpannedV { tok: TokV::Ctrl(Ctrl::Comma), start: e as nat, end: (e + 1) as nat }]
                + paths_toks(wss.drop_first(), e + 1)
        }
    }
}

proof fn lemma_lex_paths(s: Seq<char>, i: int, e: int, wss: Seq<Seq<Seq<char>>>)
    requires
        wss.len() >= 1,
        plain_paths(wss),
        0 <= i <= e <= s.len(),
        s.subrange(i, e) == comma_join(wss),
        ends_option(s, e),
    ensures
        lex_from(s, i).toks == paths_toks(wss, i) + lex_from(s, e).toks,
    decreases wss.len(),
{
    let ws = wss[0];
    let e0 = i + slash_join(ws).len();
    let sub = s.subrange(i, e);
    if wss.len() == 1 {
        assert(sub == slash_join(ws));
    } else {
        assert(sub == slash_join(ws) + seq![','] + comma_join(wss.drop_first()));
    }
    assert(s.subrange(i, e0) =~= slash_join(ws)) by {
        assert forall|m: int| 0 <= m < e0 - i implies s.subrange(i, e0)[m] == slash_join(ws)[m] by {
            assert(sub[m] == s[i + m]);
        }
    }
    if wss.len() > 1 {
        assert(sub[e0 - i] == ',');
    }
    assert(ws.len() >= 1);
    lemma_lex_path_at(s, i, e0, ws);
    if wss.len() == 1 {
        assert(lex_from(s, i).toks =~= paths_toks(wss, i) + lex_from(s, e).toks);
    } else {
        assert forall|c: Cand| c != Cand::Lit(Lit::Comma) implies loses(
            #[trigger] cand_len(s, e0, c),
            priority(c),
            cand_len(s, e0, Cand::Lit(Lit::Comma)),
            priority(Cand::Lit(Lit::Comma)),
        ) by {
            lemma_comma_at(s, e0, c);
        }
        lemma_comma_at(s, e0, Cand::Offset);
        assert(all_cands()[46] == Cand::Lit(Lit::Comma));
        lemma_pick_best(s, e0, all_cands(), Cand::Lit(Lit::Comma));
        let rest = wss.drop_first();
        assert(plain_paths(rest)) by {
            assert forall|k: int| 0 <= k < rest.len() implies (#[trigger] rest[k]).len() >= 1 by {
                assert(rest[k] == wss[k + 1]);
            }
        }
        assert(s.subrange(e0 + 1, e) =~= comma_join(rest)) by {
            assert forall|m: int| 0 <= m < e - (e0 + 1) implies s.subrange(e0 + 1, e)[m]
                == comma_join(rest)[m] by {
                assert(sub[e0 - i + 1 + m] == s[e0 + 1 + m]);
            }
        }
        lemma_lex_paths(s, e0 + 1, e, rest);
        let t1 = SpannedV { tok: TokV::Ctrl(Ctrl::Comma), start: e0 as nat, end: (e0 + 1) as nat };
        assert(lex_from(s, e0).toks == seq![t1] + lex_from(s, e0 + 1).toks);
        assert(lex_from(s, i).toks =~= paths_toks(wss, i) + lex_from(s, e).toks);
    }
}

} // verus!

verus! {

proof fn lemma_path_at_from(lx: LexedV, b: int, ws: Seq<Seq<char>>, i: int, after: Seq<SpannedV>)
    requires
        0 <= b <= lx.toks.len(),
        ws.len() >= 1,
        lx.toks.skip(b) == path_toks(ws, i) + after,
        after.len() == 0 || after[0].tok != TokV::Ctrl(Ctrl::Slash),
    ensures
        path_at(lx, b, ws),
{
    lemma_path_toks(ws, i);
    let p = path_toks(ws, i);
    let t = lx.toks.skip(b);
    assert(t.len() == lx.toks.len() - b);
    assert(t.len() == p.len() + after.len());
    assert forall|k: int| 0 <= k < p.len() implies #[trigger] t[k] == p[k] by {
        assert((p + after)[k] == p[k]);
    }
    assert forall|k: int| 0 <= k < t.len() implies #[trigger] t[k] == lx.toks[b + k] by {}
    assert forall|j: int| 0 <= j < ws.len() implies #[trigger] lx.toks[b + 2 * j].tok == TokV::Ident(ws[j]) by {
        assert(t[2 * j] == p[2 * j]);
        assert(t[2 * j] == lx.toks[b + 2 * j]);
    }
    assert forall|j: int| 0 <= j < ws.len() - 1 implies #[trigger] lx.toks[b + 2 * j + 1].tok
        == TokV::Ctrl(Ctrl::Slash) by {
        assert(t[2 * j + 1] == p[2 * j + 1]);
        assert(t[2 * j + 1] == lx.toks[b + 2 * j + 1]);
    }
    let m = 2 * ws.len() - 1;
    if b + m < lx.toks.len() {
        assert((p + after)[m] == after[0]);
        assert(t[m] == lx.toks[b + m]);
    }
}

/// The comma token before position `i`.
pub open spec fn comma_tok(i: int) -> SpannedV {
    SpannedV { tok: TokV::Ctrl(Ctrl::Comma), start: (i - 1) as nat, end: i as nat }
}

/// The tokens of further paths `wss`, each after a comma, the first printed at `i`.
pub open spec fn more_paths_toks(wss: Seq<Seq<Seq<char>>>, i: int) -> Seq<SpannedV> {
    if wss.len() == 0 {
        Seq::empty()
    } else {
        seq![comma_tok(i)] + paths_toks(wss, i)
    }
}

/// Whether `tail` is empty or starts with the `&` that ends an option.
pub open spec fn option_tail(tail: Seq<SpannedV>) -> bool {
    tail.len() == 0 || tail[0].tok == TokV::Ctrl(Ctrl::Delim)
}

proof fn lemma_paths_rest_toks(
    lx: LexedV,
    q: int,
    wss: Seq<Seq<Seq<char>>>,
    i: int,
    tail: Seq<SpannedV>,
    acc: Seq<Seq<SegmentV>>,
    alt: AltV,
)
    requires
        0 <= q <= lx.toks.len(),
        plain_paths(wss),
        option_tail(tail),
        lx.toks.skip(q) == more_paths_toks(wss, i) + tail,
    ensures
        paths_rest_spec(lx, q as nat, acc, alt).0 == StepV::Done(
            acc + ident_paths(wss),
            (lx.toks.len() - tail.len()) as nat,
        ),
    decreases wss.len(),
{
    let t = lx.toks.skip(q);
    assert(t.len() == lx.toks.len() - q);
    if wss.len() == 0 {
        assert(t =~= tail);
        if tail.len() > 0 {
            assert(t[0] == lx.toks[q]);
        }
        assert(acc + ident_paths(wss) =~= acc);
    } else {
        let ws = wss[0];
        assert(ws.len() >= 1);
        let e = i + slash_join(ws).len();
        let rest = wss.drop_first();
        let after: Seq<SpannedV> = if wss.len() == 1 {
            Seq::empty()
        } else {
            seq![comma_tok(e + 1)] + paths_toks(rest, e + 1)
        };
        assert(after == more_paths_toks(rest, e + 1));
        assert(paths_toks(wss, i) == path_toks(ws, i) + after);
        assert(t.len() >= 1);
        assert(t[0] == lx.toks[q]);
        assert(t[0] == comma_tok(i));
        assert(lx.toks[q].tok == TokV::Ctrl(Ctrl::Comma));
        let (r1, a1) = just_spec(lx, q as nat, Expected::Ctrl(Ctrl::Comma), alt);
        assert(lx.toks.skip(q + 1) =~= t.skip(1));
        assert(t.skip(1) =~= path_toks(ws, i) + (after + tail));
        if after.len() == 0 {
            assert(after + tail =~= tail);
        } else {
            assert((after + tail)[0] == after[0]);
        }
        lemma_path_at_from(lx, q + 1, ws, i, after + tail);
        lemma_path_parse_at(lx, q + 1, ws, a1);
        lemma_path_toks(ws, i);
        let (r2, a2) = path_spec(lx, (q + 1) as nat, a1);
        let q2 = q + 1 + 2 * ws.len() - 1;
        let t1 = lx.toks.skip(q + 1);
        assert(lx.toks.skip(q2) =~= t1.skip(2 * ws.len() - 1));
        assert(t1.skip(2 * ws.len() - 1) =~= after + tail);
        assert(plain_paths(rest)) by {
            assert forall|k: int| 0 <= k < rest.len() implies (#[trigger] rest[k]).len() >= 1 by {
                assert(rest[k] == wss[k + 1]);
            }
        }
        lemma_paths_rest_toks(lx, q2, rest, e + 1, tail, acc.push(ident_path(ws)), a2);
        assert(acc.push(ident_path(ws)) + ident_paths(rest) =~= acc + ident_paths(wss));
    }
}

proof fn lemma_select_lex(wss: Seq<Seq<Seq<char>>>)
    requires
        wss.len() >= 1,
        plain_paths(wss),
    ensures
        lex_spec(select_text(SelectV::Paths(ident_paths(wss)))).toks == seq![
            SpannedV { tok: TokV::Kw(Keyword::Select), start: 0, end: 8 },
        ] + paths_toks(wss, 8),
{
    reveal_strlit("$select=");
    lemma_paths_text(wss);
    let v = comma_join(wss);
    let k = Keyword::Select;
    let s = select_text(SelectV::Paths(ident_paths(wss)));
    assert(s =~= page_source(k, v));
    let p = kw_word(k).len() + 2int;
    assert(p == 8);
    assert forall|c: Cand| c != Cand::Kw(k) implies loses(
        #[trigger] cand_len(s, 0, c),
        priority(c),
        cand_len(s, 0, Cand::Kw(k)),
        priority(Cand::Kw(k)),
    ) by {
        lemma_page_keyword(k, v, c);
    }
    lemma_page_keyword(k, v, Cand::Offset);
    assert(all_cands()[6] == Cand::Kw(Keyword::Select));
    lemma_pick_best(s, 0, all_cands(), Cand::Kw(k));
    assert(s.subrange(p, s.len() as int) =~= v);
    lemma_lex_paths(s, p, s.len() as int, wss);
    assert(lex_from(s, s.len() as int).toks.len() == 0);
    assert(lex_spec(s).toks =~= seq![SpannedV { tok: TokV::Kw(Keyword::Select), start: 0, end: 8 }] + paths_toks(wss, 8));
}

proof fn lemma_paths_parse(lx: LexedV, b: int, wss: Seq<Seq<Seq<char>>>, i: int, tail: Seq<SpannedV>, alt: AltV)
    requires
        0 <= b <= lx.toks.len(),
        wss.len() >= 1,
        plain_paths(wss),
        option_tail(tail),
        lx.toks.skip(b) == paths_toks(wss, i) + tail,
    ensures
        paths_spec(lx, b as nat, alt).0 == StepV::Done(ident_paths(wss), (lx.toks.len() - tail.len()) as nat),
{
    let ws = wss[0];
    assert(ws.len() >= 1);
    let e = i + slash_join(ws).len();
    let rest = wss.drop_first();
    let after: Seq<SpannedV> = if wss.len() == 1 {
        Seq::empty()
    } else {
        seq![comma_tok(e + 1)] + paths_toks(rest, e + 1)
    };
    assert(after == more_paths_toks(rest, e + 1));
    assert(paths_toks(wss, i) == path_toks(ws, i) + after);
    if after.len() == 0 {
        assert(after + tail =~= tail);
    } else {
        assert((after + tail)[0] == after[0]);
    }
    assert(lx.toks.skip(b) =~= path_toks(ws, i) + (after + tail));
    lemma_path_at_from(lx, b, ws, i, after + tail);
    lemma_path_parse_at(lx, b, ws, alt);
    lemma_path_toks(ws, i);
    let (r, a) = path_spec(lx, b as nat, alt);
    let q2 = b + 2 * ws.len() - 1;
    let t1 = lx.toks.skip(b);
    assert(lx.toks.skip(q2) =~= t1.skip(2 * ws.len() - 1));
    assert(t1.skip(2 * ws.len() - 1) =~= after + tail);
    assert(plain_paths(rest)) by {
        assert forall|j: int| 0 <= j < rest.len() implies (#[trigger] rest[j]).len() >= 1 by {
            assert(rest[j] == wss[j + 1]);
        }
    }
    lemma_paths_rest_toks(lx, q2, rest, e + 1, tail, seq![ident_path(ws)], a);
    assert(seq![ident_path(ws)] + ident_paths(rest) =~= ident_paths(wss));
}

/// A printed `$select` of paths of identifiers, each identifier-shaped and none of
/// the words `null`, `true`, `false` and `count`, parses back to the same paths.
#[verifier::spinoff_prover]
pub proof fn law_select_round_trip(wss: Seq<Seq<Seq<char>>>)
    requires
        wss.len() >= 1,
        plain_paths(wss),
    ensures
        select_outcome(select_text(SelectV::Paths(ident_paths(wss)))) == Ok::<SelectV, Seq<char>>(
            SelectV::Paths(ident_paths(wss)),
        ),
{
    lemma_select_lex(wss);
    let s = select_text(SelectV::Paths(ident_paths(wss)));
    let lx = lex_spec(s);
    let k = Keyword::Select;
    let t0 = SpannedV { tok: TokV::Kw(k), start: 0, end: 8 };
    assert(lx.toks.skip(1) =~= paths_toks(wss, 8));
    assert(lx.toks.skip(1) =~= paths_toks(wss, 8) + Seq::<SpannedV>::empty());
    lemma_paths_parse(lx, 1, wss, 8, Seq::empty(), None);
    let ws = wss[0];
    assert(ws.len() >= 1);
    lemma_path_toks(ws, 8);
    let e = 8 + slash_join(ws).len();
    assert(paths_toks(wss, 8)[0] == path_toks(ws, 8)[0]);
    assert(lx.toks[0] == t0);
    assert(lx.toks[1] == paths_toks(wss, 8)[0]);
    assert(lx.toks[1].tok == TokV::Ident(ws[0]));
}

} // verus!

verus! {

/// `$`, the word of keyword `k` and `=`.
pub open spec fn kw_text(k: Keyword) -> Seq<char> {
    seq!['$'] + kw_word(k) + seq!['=']
}

/// The keywords of the options whose printed text reads back.
pub open spec fn plain_kw(k: Keyword) -> bool {
    k == Keyword::Skip || k == Keyword::Top || k == Keyword::Count || k == Keyword::Select || k
        == Keyword::Orderby || k == Keyword::Filter
}

proof fn lemma_kw_at(s: Seq<char>, i: int, k: Keyword, c: Cand)
    requires
        plain_kw(k),
        0 <= i,
        i + kw_text(k).len() <= s.len(),
        s.subrange(i, i + kw_text(k).len()) == kw_text(k),
        c != Cand::Kw(k),
    ensures
        cand_len(s, i, Cand::Kw(k)) == kw_text(k).len(),
        loses(cand_len(s, i, c), priority(c), kw_text(k).len() as int, priority(Cand::Kw(k))),
{
    let w = kw_word(k);
    let wl = w.len() as int;
    let t = kw_text(k);
    assert forall|m: int| 0 <= m < t.len() implies s[i + m] == #[trigger] t[m] by {
        assert(s.subrange(i, i + t.len() as int)[m] == s[i + m]);
    }
    assert(s.subrange(i + 1, i + 1 + wl) =~= w) by {
        assert forall|m: int| 0 <= m < wl implies s.subrange(i + 1, i + 1 + wl)[m] == w[m] by {
            assert(s[i + 1 + m] == t[1 + m]);
        }
    }
    assert(s[i] == '$') by { assert(t[0] == '$'); }
    assert(s[i + 1] == w[0]) by { assert(t[1] == w[0]); }
    assert(s[i + 2] == w[1]) by { assert(t[2] == w[1]); }
    assert(s[i + 3] == w[2]) by { assert(t[3] == w[2]); }
    assert(s[i + 1 + wl] == '=') by { assert(t[1 + wl] == '='); }
    match c {
        Cand::Kw(k2) => {
            let w2 = kw_word(k2);
            if lit_at(s, i + 1, w2) {
                assert(s.subrange(i + 1, i + 1 + w2.len() as int)[0] == w2[0]);
                assert(s.subrange(i + 1, i + 1 + w2.len() as int)[1] == w2[1]);
                assert(s.subrange(i + 1, i + 1 + w2.len() as int)[2] == w2[2]);
            }
        },
        Cand::SearchRaw | Cand::SearchStr | Cand::SearchStr2 => {
            if lit_at(s, i + 1, search_word()) {
                assert(s.subrange(i + 1, i + 8)[0] == search_word()[0]);
                assert(s.subrange(i + 1, i + 8)[1] == search_word()[1]);
                assert(s.subrange(i + 1, i + 8)[2] == search_word()[2]);
            }
        },
        Cand::Lit(l) => {
            let tl = lit_text(l);
            if lit_at(s, i, tl) {
                assert(s.subrange(i, i + tl.len() as int)[0] == tl[0]);
            }
        },
        _ => {},
    }
}

proof fn lemma_run_until(s: Seq<char>, i: int, e: int, cl: Class)
    requires
        0 <= i <= e <= s.len(),
        forall|k: int| i <= k < e ==> in_class(#[trigger] s[k], cl),
        e == s.len() || !in_class(s[e], cl),
    ensures
        run(s, i, cl) == e - i,
    decreases e - i,
{
    if i < e {
        lemma_run_until(s, i + 1, e, cl);
    }
}

proof fn lemma_word_at(s: Seq<char>, p: int, e: int, l: Lit, c: Cand)
    requires
        l == Lit::True || l == Lit::False,
        0 <= p,
        p + lit_text(l).len() == e,
        e <= s.len(),
        ends_option(s, e),
        s.subrange(p, e) == lit_text(l),
        c != Cand::Lit(l),
    ensures
        cand_len(s, p, Cand::Lit(l)) == e - p,
        loses(cand_len(s, p, c), priority(c), e - p, priority(Cand::Lit(l))),
{
    let t = lit_text(l);
    assert(forall|k: int| 0 <= k < t.len() ==> s[p + k] == #[trigger] t[k]) by {
        assert forall|k: int| 0 <= k < t.len() implies s[p + k] == #[trigger] t[k] by {
            assert(s.subrange(p, e)[k] == s[p + k]);
        }
    }
    assert(s.subrange(p, p + t.len() as int) =~= t);
    assert(s[p] == t[0]);
    assert(s[p + 1] == t[1]);
    assert(forall|k: int| p <= k < e ==> is_ident_continue(#[trigger] s[k])) by {
        assert forall|k: int| p <= k < e implies is_ident_continue(#[trigger] s[k]) by {
            assert(s[p + (k - p)] == t[k - p]);
        }
    }
    lemma_run_until(s, p + 1, e, Class::IdentContinue);
    match c {
        Cand::Kw(k2) => {
            let w2 = kw_word(k2);
            if lit_at(s, p, w2) {
                assert(s.subrange(p, p + w2.len() as int)[0] == w2[0]);
                assert(s.subrange(p, p + w2.len() as int)[1] == w2[1]);
            }
        },
        Cand::SearchRaw | Cand::SearchStr | Cand::SearchStr2 => {
            if lit_at(s, p, search_word()) {
                assert(s.subrange(p, p + 7)[0] == search_word()[0]);
            }
        },
        Cand::Lit(l2) => {
            let t2 = lit_text(l2);
            if lit_at(s, p, t2) {
                assert(s.subrange(p, p + t2.len() as int)[0] == t2[0]);
                assert(s.subrange(p, p + t2.len() as int)[1] == t2[1]);
            }
        },
        _ => {},
    }
}

proof fn lemma_digits_at(s: Seq<char>, p: int, e: int, c: Cand)
    requires
        0 <= p < e <= s.len(),
        forall|k: int| p <= k < e ==> is_ascii_digit(#[trigger] s[k]),
        ends_option(s, e),
        c != Cand::Offset,
    ensures
        cand_len(s, p, Cand::Offset) == e - p,
        loses(cand_len(s, p, c), priority(c), e - p, priority(Cand::Offset)),
{
    lemma_run_until(s, p, e, Class::UnicodeDigit);
    lemma_run_until(s, p, e, Class::AsciiDigit);
    match c {
        Cand::Kw(k2) => {
            let w2 = kw_word(k2);
            if lit_at(s, p, w2) {
                assert(s.subrange(p, p + w2.len() as int)[0] == w2[0]);
            }
        },
        Cand::SearchRaw | Cand::SearchStr | Cand::SearchStr2 => {
            if lit_at(s, p, search_word()) {
                assert(s.subrange(p, p + 7)[0] == search_word()[0]);
            }
        },
        Cand::Lit(l) => {
            let t = lit_text(l);
            if lit_at(s, p, t) {
                assert(s.subrange(p, p + t.len() as int)[0] == t[0]);
            }
        },
        _ => {},
    }
}

} // verus!

verus! {

/// A query option whose printed text reads back: a requested count, a `$select` of
/// paths of plain words or of everything, an offset `$skip` or `$top`.
pub enum PlainOpt {
    Count,
    Select(Seq<Seq<Seq<char>>>),
    SelectAll,
    Orderby(Seq<(Seq<char>, Direction)>),
    Skip(u128),
    Top(u128),
}

pub open spec fn plain_ok(p: PlainOpt) -> bool {
    match p {
        PlainOpt::Select(wss) => wss.len() >= 1 && plain_paths(wss),
        PlainOpt::Orderby(o) => sort_items(o),
        _ => true,
    }
}

/// The model of the option.
pub open spec fn plain_value(p: PlainOpt) -> OptV {
    match p {
        PlainOpt::Count => OptV::Count(true),
        PlainOpt::Select(wss) => OptV::Select(SelectV::Paths(ident_paths(wss))),
        PlainOpt::SelectAll => OptV::Select(SelectV::Wildcard),
        PlainOpt::Orderby(o) => OptV::Orderby(o),
        PlainOpt::Skip(n) => OptV::Skip(PageV::Offset(n)),
        PlainOpt::Top(n) => OptV::Top(PageV::Offset(n)),
    }
}

/// The keyword of the option.
pub open spec fn plain_kw_of(p: PlainOpt) -> Keyword {
    match p {
        PlainOpt::Count => Keyword::Count,
        PlainOpt::Select(_) => Keyword::Select,
        PlainOpt::SelectAll => Keyword::Select,
        PlainOpt::Orderby(_) => Keyword::Orderby,
        PlainOpt::Skip(_) => Keyword::Skip,
        PlainOpt::Top(_) => Keyword::Top,
    }
}

/// What follows the keyword in the printed option.
pub open spec fn plain_rest_text(p: PlainOpt) -> Seq<char> {
    match p {
        PlainOpt::Count => lit_text(Lit::True),
        PlainOpt::Select(wss) => comma_join(wss),
        PlainOpt::SelectAll => seq!['*'],
        PlainOpt::Orderby(o) => sort_join(o),
        PlainOpt::Skip(n) => nat_text(n as nat),
        PlainOpt::Top(n) => nat_text(n as nat),
    }
}

/// The printed option.
pub open spec fn plain_text(p: PlainOpt) -> Seq<char> {
    kw_text(plain_kw_of(p)) + plain_rest_text(p)
}

/// The tokens of the printed option at position `i`.
pub open spec fn plain_toks(p: PlainOpt, i: int) -> Seq<SpannedV> {
    let k = kw_text(plain_kw_of(p)).len() as int;
    let e = i + k + plain_rest_text(p).len();
    seq![SpannedV { tok: TokV::Kw(plain_kw_of(p)), start: i as nat, end: (i + k) as nat }] + match p {
        PlainOpt::Count => seq![SpannedV { tok: TokV::Bool(true), start: (i + k) as nat, end: e as nat }],
        PlainOpt::Select(wss) => paths_toks(wss, i + k),
        PlainOpt::SelectAll => seq![SpannedV { tok: TokV::Ctrl(Ctrl::Wildcard), start: (i + k) as nat, end: e as nat }],
        PlainOpt::Orderby(o) => sort_toks(o, i + k),
        PlainOpt::Skip(n) => seq![SpannedV { tok: TokV::Offset(n), start: (i + k) as nat, end: e as nat }],
        PlainOpt::Top(n) => seq![SpannedV { tok: TokV::Offset(n), start: (i + k) as nat, end: e as nat }],
    }
}

proof fn lemma_lex_plain(s: Seq<char>, i: int, e: int, p: PlainOpt)
    requires
        plain_ok(p),
        0 <= i <= e <= s.len(),
        s.subrange(i, e) == plain_text(p),
        ends_option(s, e),
    ensures
        lex_from(s, i).toks == plain_toks(p, i) + lex_from(s, e).toks,
{
    let k = plain_kw_of(p);
    let kt = kw_text(k);
    let kl = kt.len() as int;
    let v = plain_rest_text(p);
    let sub = s.subrange(i, e);
    let q = i + kl;
    assert(sub == kt + v);
    assert(sub.len() == e - i);
    assert(q <= e);
    assert(s.subrange(i, q) =~= kt) by {
        assert forall|m: int| 0 <= m < kl implies s.subrange(i, q)[m] == kt[m] by {
            assert(sub[m] == s[i + m]);
            assert((kt + v)[m] == kt[m]);
        }
    }
    assert(s.subrange(q, e) =~= v) by {
        assert forall|m: int| 0 <= m < e - q implies s.subrange(q, e)[m] == v[m] by {
            assert(sub[kl + m] == s[q + m]);
            assert((kt + v)[kl + m] == v[m]);
        }
    }
    assert forall|c: Cand| c != Cand::Kw(k) implies loses(
        #[trigger] cand_len(s, i, c),
        priority(c),
        cand_len(s, i, Cand::Kw(k)),
        priority(Cand::Kw(k)),
    ) by {
        lemma_kw_at(s, i, k, c);
    }
    lemma_kw_at(s, i, k, Cand::Offset);
    assert(all_cands()[2] == Cand::Kw(Keyword::Count));
    assert(all_cands()[6] == Cand::Kw(Keyword::Select));
    assert(all_cands()[7] == Cand::Kw(Keyword::Skip));
    assert(all_cands()[8] == Cand::Kw(Keyword::Top));
    lemma_pick_best(s, i, all_cands(), Cand::Kw(k));
    let t0 = SpannedV { tok: TokV::Kw(k), start: i as nat, end: q as nat };
    assert(lex_from(s, i).toks == seq![t0] + lex_from(s, q).toks);
    match p {
        PlainOpt::Count => {
            let l = Lit::True;
            assert forall|c: Cand| c != Cand::Lit(l) implies loses(
                #[trigger] cand_len(s, q, c),
                priority(c),
                cand_len(s, q, Cand::Lit(l)),
                priority(Cand::Lit(l)),
            ) by {
                lemma_word_at(s, q, e, l, c);
            }
            lemma_word_at(s, q, e, l, Cand::Offset);
            assert(all_cands()[21] == Cand::Lit(Lit::True));
            lemma_pick_best(s, q, all_cands(), Cand::Lit(l));
            let t1 = SpannedV { tok: TokV::Bool(true), start: q as nat, end: e as nat };
            assert(lex_from(s, q).toks == seq![t1] + lex_from(s, e).toks);
            assert(lex_from(s, i).toks =~= plain_toks(p, i) + lex_from(s, e).toks);
        },
        PlainOpt::Select(wss) => {
            lemma_lex_paths(s, q, e, wss);
            assert(lex_from(s, i).toks =~= plain_toks(p, i) + lex_from(s, e).toks);
        },
        PlainOpt::Orderby(o) => {
            if o.len() == 0 {
                assert(q == e);
            } else {
                lemma_lex_sort(s, q, e, o);
            }
            assert(lex_from(s, i).toks =~= plain_toks(p, i) + lex_from(s, e).toks);
        },
        PlainOpt::SelectAll => {
            assert(s[q] == '*') by {
                assert(s.subrange(q, e)[0] == s[q]);
            }
            assert forall|c: Cand| c != Cand::Lit(Lit::Wildcard) implies loses(
                #[trigger] cand_len(s, q, c),
                priority(c),
                cand_len(s, q, Cand::Lit(Lit::Wildcard)),
                priority(Cand::Lit(Lit::Wildcard)),
            ) by {
                lemma_sign_at(s, q, Lit::Wildcard, '*', c);
            }
            lemma_sign_at(s, q, Lit::Wildcard, '*', Cand::Offset);
            assert(all_cands()[47] == Cand::Lit(Lit::Wildcard));
            lemma_pick_best(s, q, all_cands(), Cand::Lit(Lit::Wildcard));
            let t1 = SpannedV { tok: TokV::Ctrl(Ctrl::Wildcard), start: q as nat, end: e as nat };
            assert(lex_from(s, q).toks == seq![t1] + lex_from(s, e).toks);
            assert(lex_from(s, i).toks =~= plain_toks(p, i) + lex_from(s, e).toks);
        },
        PlainOpt::Skip(n) | PlainOpt::Top(n) => {
            lemma_nat_text(n as nat);
            assert forall|m: int| q <= m < e implies is_ascii_digit(#[trigger] s[m]) by {
                assert(s.subrange(q, e)[m - q] == s[m]);
            }
            assert forall|c: Cand| c != Cand::Offset implies loses(
                #[trigger] cand_len(s, q, c),
                priority(c),
                cand_len(s, q, Cand::Offset),
                priority(Cand::Offset),
            ) by {
                lemma_digits_at(s, q, e, c);
            }
            lemma_digits_at(s, q, e, Cand::Num);
            assert(all_cands()[13] == Cand::Offset);
            lemma_pick_best(s, q, all_cands(), Cand::Offset);
            let t1 = SpannedV { tok: TokV::Offset(n), start: q as nat, end: e as nat };
            assert(lex_from(s, q).toks == seq![t1] + lex_from(s, e).toks);
            assert(lex_from(s, i).toks =~= plain_toks(p, i) + lex_from(s, e).toks);
        },
    }
}

} // verus!

verus! {

/// The place of the kind of option `p` among the kinds that a query option is tried as.
pub open spec fn plain_kind(p: PlainOpt) -> int {
    match p {
        PlainOpt::Count => 0,
        PlainOpt::Select(_) => 5,
        PlainOpt::SelectAll => 5,
        PlainOpt::Orderby(_) => 3,
        PlainOpt::Skip(_) => 6,
        PlainOpt::Top(_) => 7,
    }
}

proof fn lemma_option_other(lx: LexedV, b: int, p: PlainOpt, j: int, alt: AltV)
    requires
        0 <= b < lx.toks.len(),
        lx.toks[b].tok == TokV::Kw(plain_kw_of(p)),
        0 <= j < 8,
        j != plain_kind(p),
    ensures
        option_at_spec(lx, b as nat, j, alt).0 == StepV::<OptV>::Fail,
{
    let k = plain_kw_of(p);
    if j == 0 {
        assert(!tok_is(TokV::Kw(k), Expected::Kw(Keyword::Count)));
    } else if j == 1 {
        assert(!tok_is(TokV::Kw(k), Expected::Kw(Keyword::Expand)));
    } else if j == 2 {
        assert(!tok_is(TokV::Kw(k), Expected::Kw(Keyword::Filter)));
    } else if j == 3 {
        assert(!tok_is(TokV::Kw(k), Expected::Kw(Keyword::Orderby)));
    } else if j == 4 {
        assert(!sel_match(TokV::Kw(k), Sel::Search));
    } else if j == 5 {
        assert(!tok_is(TokV::Kw(k), Expected::Kw(Keyword::Select)));
    } else if j == 6 {
        assert(!tok_is(TokV::Kw(k), Expected::Kw(Keyword::Skip)));
    } else {
        assert(!tok_is(TokV::Kw(k), Expected::Kw(Keyword::Top)));
    }
}

/// What parsing the option `p` by the parser of its own kind gives.
pub open spec fn plain_step(lx: LexedV, b: nat, p: PlainOpt, alt: AltV) -> StepV<OptV> {
    match p {
        PlainOpt::Count => match count_spec(lx, b, alt).0 {
            StepV::Done(v, q) => StepV::Done(OptV::Count(v), q),
            StepV::Fail => StepV::Fail,
        },
        PlainOpt::Orderby(_) => match orderby_spec(lx, b, alt).0 {
            StepV::Done(v, q) => StepV::Done(OptV::Orderby(v), q),
            StepV::Fail => StepV::Fail,
        },
        PlainOpt::Select(_) | PlainOpt::SelectAll => match select_option_spec(lx, b, alt).0 {
            StepV::Done(v, q) => StepV::Done(OptV::Select(v), q),
            StepV::Fail => StepV::Fail,
        },
        PlainOpt::Skip(_) => match page_spec(lx, b, Keyword::Skip, alt).0 {
            StepV::Done(v, q) => StepV::Done(OptV::Skip(v), q),
            StepV::Fail => StepV::Fail,
        },
        PlainOpt::Top(_) => match page_spec(lx, b, Keyword::Top, alt).0 {
            StepV::Done(v, q) => StepV::Done(OptV::Top(v), q),
            StepV::Fail => StepV::Fail,
        },
    }
}

#[verifier::spinoff_prover]
proof fn lemma_option_at_plain(lx: LexedV, b: int, p: PlainOpt, i: int, tail: Seq<SpannedV>, alt: AltV)
    requires
        plain_ok(p),
        0 <= b <= lx.toks.len(),
        option_tail(tail),
        lx.toks.skip(b) == plain_toks(p, i) + tail,
    ensures
        option_at_spec(lx, b as nat, plain_kind(p), alt).0 == StepV::Done(
            plain_value(p),
            (lx.toks.len() - tail.len()) as nat,
        ),
{
    lemma_plain_step(lx, b, p, i, tail, alt);
}

proof fn lemma_plain_step(lx: LexedV, b: int, p: PlainOpt, i: int, tail: Seq<SpannedV>, alt: AltV)
    requires
        plain_ok(p),
        0 <= b <= lx.toks.len(),
        option_tail(tail),
        lx.toks.skip(b) == plain_toks(p, i) + tail,
    ensures
        plain_step(lx, b as nat, p, alt) == StepV::Done(
            plain_value(p),
            (lx.toks.len() - tail.len()) as nat,
        ),
{
    let t = lx.toks.skip(b);
    let pt = plain_toks(p, i);
    assert(t.len() == lx.toks.len() - b);
    assert forall|m: int| 0 <= m < pt.len() implies #[trigger] lx.toks[b + m] == pt[m] by {
        assert(t[m] == lx.toks[b + m]);
        assert((pt + tail)[m] == pt[m]);
    }
    let k = plain_kw_of(p);
    assert(lx.toks[b + 0].tok == TokV::Kw(k));
    let rest = pt.drop_first();
    assert(lx.toks.skip(b + 1) =~= rest + tail) by {
        assert forall|m: int| 0 <= m < rest.len() + tail.len() implies #[trigger] lx.toks.skip(b + 1)[m] == (rest
            + tail)[m] by {
            assert(t[1 + m] == lx.toks[b + 1 + m]);
            if m < rest.len() {
                assert((pt + tail)[1 + m] == pt[1 + m]);
            } else {
                assert((pt + tail)[1 + m] == tail[m - rest.len()]);
            }
        }
    }
    match p {
        PlainOpt::Select(wss) => {
            let kl = kw_text(k).len() as int;
            let ws = wss[0];
            assert(ws.len() >= 1);
            assert(rest =~= paths_toks(wss, i + kl));
            lemma_path_toks(ws, i + kl);
            assert(pt[1] == paths_toks(wss, i + kl)[0]);
            assert(lx.toks[b + 1].tok == TokV::Ident(ws[0]));
            lemma_paths_parse(lx, b + 1, wss, i + kl, tail, None);
        },
        PlainOpt::Orderby(o) => {
            let kl = kw_text(k).len() as int;
            assert(rest =~= sort_toks(o, i + kl));
            lemma_sort_parse(lx, b + 1, o, i + kl, tail);
        },
        _ => {
            assert(rest.len() == 1);
            assert(lx.toks.skip(b + 2) =~= lx.toks.skip(b + 1).skip(1));
            assert(lx.toks.skip(b + 2) =~= tail);
            assert(lx.toks[b + 1] == pt[1]);
        },
    }
}

proof fn lemma_option_from(lx: LexedV, b: int, p: PlainOpt, i: int, tail: Seq<SpannedV>, j: int, alt: AltV)
    requires
        plain_ok(p),
        0 <= b <= lx.toks.len(),
        option_tail(tail),
        lx.toks.skip(b) == plain_toks(p, i) + tail,
        0 <= j <= plain_kind(p),
    ensures
        option_spec(lx, b as nat, j, alt).0 == StepV::Done(
            plain_value(p),
            (lx.toks.len() - tail.len()) as nat,
        ),
    decreases plain_kind(p) - j,
{
    lemma_option_at_plain(lx, b, p, i, tail, alt);
    if j < plain_kind(p) {
        let t = lx.toks.skip(b);
        assert(t.len() == lx.toks.len() - b);
        assert(t[0] == lx.toks[b]);
        assert((plain_toks(p, i) + tail)[0] == plain_toks(p, i)[0]);
        lemma_option_other(lx, b, p, j, alt);
        let a = option_at_spec(lx, b as nat, j, alt).1;
        lemma_option_from(lx, b, p, i, tail, j + 1, a);
    }
}

} // verus!

verus! {

/// Whether every option of `ps` is one whose printed text reads back.
pub open spec fn plain_opts(ps: Seq<PlainOpt>) -> bool {
    forall|k: int| 0 <= k < ps.len() ==> plain_ok(#[trigger] ps[k])
}

/// The printed options `ps` joined by `&`, built from the front.
pub open spec fn amp_join(ps: Seq<PlainOpt>) -> Seq<char>
    decreases ps.len(),
{
    if ps.len() <= 1 {
        if ps.len() == 1 { plain_text(ps[0]) } else { Seq::empty() }
    } else {
        plain_text(ps[0]) + seq!['&'] + amp_join(ps.drop_first())
    }
}

/// The `&` token that ends at `i`.
pub open spec fn amp_tok(i: int) -> SpannedV {
    SpannedV { tok: TokV::Ctrl(Ctrl::Delim), start: (i - 1) as nat, end: i as nat }
}

/// The tokens of the printed options `ps`, the first printed at `i`.
pub open spec fn items_toks(ps: Seq<PlainOpt>, i: int) -> Seq<SpannedV>
    decreases ps.len(),
{
    if ps.len() == 0 {
        Seq::empty()
    } else {
        let e = i + plain_text(ps[0]).len();
        plain_toks(ps[0], i) + if ps.len() == 1 {
            Seq::empty()
        } else {
            seq![amp_tok(e + 1)] + items_toks(ps.drop_first(), e + 1)
        }
    }
}

/// The tokens of further options `ps`, each after an `&`, the first printed at `i`.
pub open spec fn more_items_toks(ps: Seq<PlainOpt>, i: int) -> Seq<SpannedV> {
    if ps.len() == 0 {
        Seq::empty()
    } else {
        seq![amp_tok(i)] + items_toks(ps, i)
    }
}

/// The options `ps` set in turn on `acc`.
pub open spec fn plain_fold(acc: ODataV, ps: Seq<PlainOpt>) -> ODataV
    decreases ps.len(),
{
    if ps.len() == 0 {
        acc
    } else {
        plain_fold(apply(acc, plain_value(ps[0])), ps.drop_first())
    }
}

proof fn lemma_sign_at(s: Seq<char>, i: int, l: Lit, ch: char, c: Cand)
    requires
        0 <= i < s.len(),
        s[i] == ch,
        lit_text(l) == seq![ch],
        l == Lit::Delim || l == Lit::Wildcard,
        c != Cand::Lit(l),
    ensures
        cand_len(s, i, Cand::Lit(l)) == 1,
        loses(cand_len(s, i, c), priority(c), 1, priority(Cand::Lit(l))),
{
    assert(seq![ch][0] == ch);
    if l == Lit::Delim {
        assert(ch == '&');
        assert(s.subrange(i, i + 1) =~= seq![ch]);
        match c {
            Cand::Kw(k) => {
                let wd = kw_word(k);
                if lit_at(s, i, wd) {
                    assert(s.subrange(i, i + wd.len() as int)[0] == wd[0]);
                }
            },
            Cand::SearchRaw | Cand::SearchStr | Cand::SearchStr2 => {
                if lit_at(s, i, search_word()) {
                    assert(s.subrange(i, i + 7)[0] == search_word()[0]);
                }
            },
            Cand::Lit(m) => {
                let t = lit_text(m);
                if lit_at(s, i, t) {
                    assert(s.subrange(i, i + t.len() as int)[0] == t[0]);
                }
            },
            _ => {},
        }
    } else {
        assert(ch == '*');
        assert(s.subrange(i, i + 1) =~= seq![ch]);
        match c {
            Cand::Kw(k) => {
                let wd = kw_word(k);
                if lit_at(s, i, wd) {
                    assert(s.subrange(i, i + wd.len() as int)[0] == wd[0]);
                }
            },
            Cand::SearchRaw | Cand::SearchStr | Cand::SearchStr2 => {
                if lit_at(s, i, search_word()) {
                    assert(s.subrange(i, i + 7)[0] == search_word()[0]);
                }
            },
            Cand::Lit(m) => {
                let t = lit_text(m);
                if lit_at(s, i, t) {
                    assert(s.subrange(i, i + t.len() as int)[0] == t[0]);
                }
            },
            _ => {},
        }
    }
}

proof fn lemma_lex_items(s: Seq<char>, i: int, ps: Seq<PlainOpt>)
    requires
        ps.len() >= 1,
        plain_opts(ps),
        0 <= i <= s.len(),
        s.subrange(i, s.len() as int) == amp_join(ps),
    ensures
        lex_from(s, i).toks == items_toks(ps, i),
    decreases ps.len(),
{
    let p0 = ps[0];
    assert(plain_ok(p0));
    let e0 = i + plain_text(p0).len();
    let sub = s.subrange(i, s.len() as int);
    if ps.len() == 1 {
        assert(sub == plain_text(p0));
    } else {
        assert(sub == plain_text(p0) + seq!['&'] + amp_join(ps.drop_first()));
        assert(sub[e0 - i] == '&');
    }
    assert(s.subrange(i, e0) =~= plain_text(p0)) by {
        assert forall|m: int| 0 <= m < e0 - i implies s.subrange(i, e0)[m] == plain_text(p0)[m] by {
            assert(sub[m] == s[i + m]);
        }
    }
    lemma_lex_plain(s, i, e0, p0);
    if ps.len() == 1 {
        assert(lex_from(s, e0).toks.len() == 0);
        assert(lex_from(s, i).toks =~= items_toks(ps, i));
    } else {
        assert forall|c: Cand| c != Cand::Lit(Lit::Delim) implies loses(
            #[trigger] cand_len(s, e0, c),
            priority(c),
            cand_len(s, e0, Cand::Lit(Lit::Delim)),
            priority(Cand::Lit(Lit::Delim)),
        ) by {
            lemma_sign_at(s, e0, Lit::Delim, '&', c);
        }
        lemma_sign_at(s, e0, Lit::Delim, '&', Cand::Offset);
        assert(all_cands()[41] == Cand::Lit(Lit::Delim));
        lemma_pick_best(s, e0, all_cands(), Cand::Lit(Lit::Delim));
        let rest = ps.drop_first();
        assert(plain_opts(rest)) by {
            assert forall|k: int| 0 <= k < rest.len() implies plain_ok(#[trigger] rest[k]) by {
                assert(rest[k] == ps[k + 1]);
            }
        }
        assert(s.subrange(e0 + 1, s.len() as int) =~= amp_join(rest)) by {
            assert forall|m: int| 0 <= m < s.len() - (e0 + 1) implies s.subrange(e0 + 1, s.len() as int)[m]
                == amp_join(rest)[m] by {
                assert(sub[e0 - i + 1 + m] == s[e0 + 1 + m]);
            }
        }
        lemma_lex_items(s, e0 + 1, rest);
        assert(lex_from(s, e0).toks == seq![amp_tok(e0 + 1)] + lex_from(s, e0 + 1).toks);
        assert(lex_from(s, i).toks =~= items_toks(ps, i));
    }
}

} // verus!

verus! {

proof fn lemma_items_toks(ps: Seq<PlainOpt>, i: int)
    requires
        ps.len() >= 1,
    ensures
        items_toks(ps, i) == plain_toks(ps[0], i) + more_items_toks(
            ps.drop_first(),
            i + plain_text(ps[0]).len() + 1,
        ),
{
    let e = i + plain_text(ps[0]).len();
    if ps.len() == 1 {
        assert(items_toks(ps, i) =~= plain_toks(ps[0], i));
        assert(more_items_toks(ps.drop_first(), e + 1) =~= Seq::<SpannedV>::empty());
        assert(plain_toks(ps[0], i) + Seq::<SpannedV>::empty() =~= plain_toks(ps[0], i));
    }
}

proof fn lemma_plain_toks_len(p: PlainOpt, i: int)
    ensures
        plain_toks(p, i).len() >= 1,
{
}

proof fn lemma_options_rest_items(lx: LexedV, q: int, ps: Seq<PlainOpt>, i: int, acc: ODataV, alt: AltV)
    requires
        0 <= q <= lx.toks.len(),
        plain_opts(ps),
        lx.toks.skip(q) == more_items_toks(ps, i),
    ensures
        options_rest_spec(lx, q as nat, Ctrl::Delim, acc, alt).0 == StepV::Done(
            plain_fold(acc, ps),
            lx.toks.len(),
        ),
    decreases ps.len(),
{
    let t = lx.toks.skip(q);
    assert(t.len() == lx.toks.len() - q);
    if ps.len() == 0 {
        assert(q == lx.toks.len());
    } else {
        let p0 = ps[0];
        assert(plain_ok(p0));
        let rest = ps.drop_first();
        let e = i + plain_text(p0).len();
        let tail = more_items_toks(rest, e + 1);
        lemma_items_toks(ps, i);
        assert(t[0] == lx.toks[q]);
        assert(lx.toks[q].tok == TokV::Ctrl(Ctrl::Delim));
        let (r1, a1) = just_spec(lx, q as nat, Expected::Ctrl(Ctrl::Delim), alt);
        let pt = plain_toks(p0, i);
        assert(t == seq![amp_tok(i)] + (pt + tail));
        assert(lx.toks.skip(q + 1) =~= pt + tail) by {
            assert forall|m: int| 0 <= m < pt.len() + tail.len() implies #[trigger] lx.toks.skip(q + 1)[m] == (pt
                + tail)[m] by {
                assert(t[1 + m] == lx.toks[q + 1 + m]);
                assert((seq![amp_tok(i)] + (pt + tail))[1 + m] == (pt + tail)[m]);
            }
        }
        if rest.len() > 0 {
            assert(tail[0] == amp_tok(e + 1));
        }
        lemma_option_from(lx, q + 1, p0, i, tail, 0, a1);
        lemma_plain_toks_len(p0, i);
        let q2 = lx.toks.len() - tail.len();
        let (r2, a2) = option_spec(lx, (q + 1) as nat, 0, a1);
        assert(lx.toks.skip(q2) =~= tail) by {
            let t1 = lx.toks.skip(q + 1);
            assert(t1.len() == plain_toks(p0, i).len() + tail.len());
            assert forall|m: int| 0 <= m < tail.len() implies #[trigger] lx.toks.skip(q2)[m] == tail[m] by {
                assert(t1[plain_toks(p0, i).len() + m] == lx.toks[q2 + m]);
                assert((plain_toks(p0, i) + tail)[plain_toks(p0, i).len() + m] == tail[m]);
            }
        }
        assert(plain_opts(rest)) by {
            assert forall|k: int| 0 <= k < rest.len() implies plain_ok(#[trigger] rest[k]) by {
                assert(rest[k] == ps[k + 1]);
            }
        }
        lemma_options_rest_items(lx, q2, rest, e + 1, apply(acc, plain_value(p0)), a2);
    }
}

proof fn lemma_option_end(lx: LexedV, j: int, alt: AltV)
    requires
        0 <= j <= 8,
    ensures
        option_spec(lx, lx.toks.len(), j, alt).0 == StepV::<OptV>::Fail,
    decreases 8 - j,
{
    if j < 8 {
        let a = option_at_spec(lx, lx.toks.len(), j, alt).1;
        lemma_option_end(lx, j + 1, a);
    }
}

proof fn lemma_options_items(lx: LexedV, ps: Seq<PlainOpt>)
    requires
        plain_opts(ps),
        lx.toks == items_toks(ps, 0),
    ensures
        options_spec(lx, 0, Ctrl::Delim, None).0 == StepV::Done(plain_fold(odata_default(), ps), lx.toks.len()),
{
    if ps.len() == 0 {
        assert(lx.toks.len() == 0);
        lemma_option_end(lx, 0, None);
    } else {
        let p0 = ps[0];
        assert(plain_ok(p0));
        let rest = ps.drop_first();
        let e = plain_text(p0).len() as int;
        let tail = more_items_toks(rest, e + 1);
        lemma_items_toks(ps, 0);
        assert(lx.toks.skip(0) =~= plain_toks(p0, 0) + tail);
        if rest.len() > 0 {
            assert(tail[0] == amp_tok(e + 1));
        }
        lemma_option_from(lx, 0, p0, 0, tail, 0, None);
        let q2 = lx.toks.len() - tail.len();
        let (r, a) = option_spec(lx, 0, 0, None);
        lemma_plain_toks_len(p0, 0);
        assert(lx.toks.skip(q2) =~= tail) by {
            assert forall|m: int| 0 <= m < tail.len() implies #[trigger] lx.toks.skip(q2)[m] == tail[m] by {
                assert((plain_toks(p0, 0) + tail)[plain_toks(p0, 0).len() + m] == tail[m]);
            }
        }
        assert(plain_opts(rest)) by {
            assert forall|k: int| 0 <= k < rest.len() implies plain_ok(#[trigger] rest[k]) by {
                assert(rest[k] == ps[k + 1]);
            }
        }
        lemma_options_rest_items(lx, q2, rest, e + 1, apply(odata_default(), plain_value(p0)), a);
    }
}

/// A source of options that each print back the same (a requested count, `$select`
/// of paths of plain words, offsets for `$skip` and `$top`), joined by `&`, parses to
/// each option set in turn, a later one replacing an earlier one of its kind.
pub proof fn law_plain_options(ps: Seq<PlainOpt>)
    requires
        plain_opts(ps),
    ensures
        odata_outcome(amp_join(ps)) == Ok::<ODataV, Seq<char>>(plain_fold(odata_default(), ps)),
{
    let s = amp_join(ps);
    let lx = lex_spec(s);
    if ps.len() == 0 {
        assert(lx.toks.len() == 0);
    } else {
        assert(s.subrange(0, s.len() as int) =~= s);
        lemma_lex_items(s, 0, ps);
    }
    lemma_options_items(lx, ps);
}

} // verus!

verus! {

/// Whether `ps` is a non-empty list of non-empty paths whose segments are all plain
/// words.
pub open spec fn plain_select(ps: Seq<Seq<SegmentV>>) -> bool {
    &&& ps.len() >= 1
    &&& forall|k: int| 0 <= k < ps.len() ==> (#[trigger] ps[k]).len() >= 1
    &&& forall|k: int, j: int|
        0 <= k < ps.len() && 0 <= j < ps[k].len() ==> (#[trigger] ps[k][j] matches SegmentV::Ident(w)
            && plain_word(w))
}

/// The words of the paths `ps`.
pub open spec fn words_of(ps: Seq<Seq<SegmentV>>) -> Seq<Seq<Seq<char>>> {
    Seq::new(
        ps.len(),
        |k: int|
            Seq::new(
                ps[k].len(),
                |j: int|
                    match ps[k][j] {
                        SegmentV::Ident(w) => w,
                        SegmentV::Count => Seq::empty(),
                    },
            ),
    )
}

proof fn lemma_words_of(ps: Seq<Seq<SegmentV>>)
    requires
        plain_select(ps),
    ensures
        words_of(ps).len() >= 1,
        plain_paths(words_of(ps)),
        ident_paths(words_of(ps)) == ps,
{
    let wss = words_of(ps);
    assert forall|k: int| 0 <= k < wss.len() implies {
        &&& (#[trigger] wss[k]).len() >= 1
        &&& forall|j: int| 0 <= j < wss[k].len() ==> plain_word(#[trigger] wss[k][j])
    } by {
        assert(ps[k].len() >= 1);
        assert forall|j: int| 0 <= j < wss[k].len() implies plain_word(#[trigger] wss[k][j]) by {
            assert(ps[k][j] matches SegmentV::Ident(w) && plain_word(w));
        }
    }
    assert forall|k: int| 0 <= k < ps.len() implies #[trigger] ident_paths(wss)[k] == ps[k] by {
        assert forall|j: int| 0 <= j < ps[k].len() implies #[trigger] ident_path(wss[k])[j] == ps[k][j] by {
            assert(ps[k][j] matches SegmentV::Ident(w) && plain_word(w));
        }
        assert(ident_path(wss[k]) =~= ps[k]);
    }
    assert(ident_paths(wss) =~= ps);
}

/// The options with the count `count`, the order `orderby`, the selection `sel`, and
/// offsets `skip` and `top`, every other option absent.
pub open spec fn plain_data(
    count: bool,
    orderby: Option<Seq<(Seq<char>, Direction)>>,
    sel: Option<SelectV>,
    skip: Option<u128>,
    top: Option<u128>,
) -> ODataV {
    ODataV {
        count: count,
        expand: None,
        filter: None,
        orderby: orderby,
        search: None,
        select: sel,
        skip: match skip {
            Some(n) => Some(PageV::Offset(n)),
            None => None,
        },
        top: match top {
            Some(n) => Some(PageV::Offset(n)),
            None => None,
        },
    }
}

/// The options of [`plain_data`] that are present, in the order in which they are printed.
pub open spec fn plain_list(
    count: bool,
    orderby: Option<Seq<(Seq<char>, Direction)>>,
    sel: Option<SelectV>,
    skip: Option<u128>,
    top: Option<u128>,
) -> Seq<
    PlainOpt,
> {
    (if count { seq![PlainOpt::Count] } else { Seq::empty() }) + match orderby {
        Some(o) => seq![PlainOpt::Orderby(o)],
        None => Seq::empty(),
    } + match sel {
        Some(SelectV::Paths(ps)) => seq![PlainOpt::Select(words_of(ps))],
        Some(SelectV::Wildcard) => seq![PlainOpt::SelectAll],
        None => Seq::empty(),
    } + match skip {
        Some(n) => seq![PlainOpt::Skip(n)],
        None => Seq::empty(),
    } + match top {
        Some(n) => seq![PlainOpt::Top(n)],
        None => Seq::empty(),
    }
}

proof fn lemma_join_amp_front(parts: Seq<Seq<char>>)
    requires
        parts.len() >= 2,
    ensures
        join_amp(parts) == parts[0] + seq!['&'] + join_amp(parts.drop_first()),
    decreases parts.len(),
{
    reveal_strlit("&");
    let init = parts.drop_last();
    assert("&"@ =~= seq!['&']);
    if parts.len() == 2 {
        assert(init =~= seq![parts[0]]);
        assert(join_amp(init) == parts[0]);
        assert(parts.drop_first() =~= seq![parts[1]]);
        assert(join_amp(parts.drop_first()) == parts[1]);
        assert(parts.last() == parts[1]);
        assert(join_amp(parts) =~= parts[0] + seq!['&'] + join_amp(parts.drop_first()));
    } else {
        lemma_join_amp_front(init);
        assert(parts.drop_first().drop_last() =~= init.drop_first());
        assert(parts.drop_first().last() == parts.last());
        assert(init[0] == parts[0]);
        assert(join_amp(parts) =~= parts[0] + seq!['&'] + join_amp(parts.drop_first()));
    }
}

proof fn lemma_amp_join_parts(ps: Seq<PlainOpt>)
    ensures
        join_amp(ps.map_values(|p: PlainOpt| plain_text(p))) == amp_join(ps),
    decreases ps.len(),
{
    let parts = ps.map_values(|p: PlainOpt| plain_text(p));
    if ps.len() == 1 {
        assert(parts[0] == plain_text(ps[0]));
    } else if ps.len() >= 2 {
        lemma_join_amp_front(parts);
        lemma_amp_join_parts(ps.drop_first());
        assert(parts.drop_first() =~= ps.drop_first().map_values(|p: PlainOpt| plain_text(p)));
        assert(parts[0] == plain_text(ps[0]));
    }
}

proof fn lemma_fold_concat(acc: ODataV, a: Seq<PlainOpt>, b: Seq<PlainOpt>)
    ensures
        plain_fold(acc, a + b) == plain_fold(plain_fold(acc, a), b),
    decreases a.len(),
{
    if a.len() == 0 {
        assert(a + b =~= b);
    } else {
        assert((a + b).drop_first() =~= a.drop_first() + b);
        assert((a + b)[0] == a[0]);
        lemma_fold_concat(apply(acc, plain_value(a[0])), a.drop_first(), b);
    }
}

proof fn lemma_fold_one(acc: ODataV, p: PlainOpt)
    ensures
        plain_fold(acc, seq![p]) == apply(acc, plain_value(p)),
{
    let one = seq![p];
    assert(one.len() == 1);
    assert(one[0] == p);
    assert(one.drop_first() =~= Seq::<PlainOpt>::empty());
    assert(plain_fold(apply(acc, plain_value(p)), one.drop_first()) == apply(acc, plain_value(p)));
}

proof fn lemma_plain_text_parts(p: PlainOpt)
    requires
        plain_ok(p),
    ensures
        p is Count ==> plain_text(p) == count_text(true),
        p matches PlainOpt::Select(wss) ==> plain_text(p) == select_text(SelectV::Paths(ident_paths(wss))),
        p is SelectAll ==> plain_text(p) == select_text(SelectV::Wildcard),
        p matches PlainOpt::Orderby(o) ==> plain_text(p) == orderby_text(o),
        p matches PlainOpt::Skip(n) ==> plain_text(p) == page_text(Keyword::Skip, PageV::Offset(n)),
        p matches PlainOpt::Top(n) ==> plain_text(p) == page_text(Keyword::Top, PageV::Offset(n)),
{
    reveal_strlit("$count=");
    reveal_strlit("true");
    reveal_strlit("$select=");
    reveal_strlit("$skip=");
    reveal_strlit("$top=");
    match p {
        PlainOpt::Count => {
            assert(plain_text(p) =~= count_text(true));
        },
        PlainOpt::Select(wss) => {
            lemma_paths_text(wss);
            assert(plain_text(p) =~= select_text(SelectV::Paths(ident_paths(wss))));
        },
        PlainOpt::Orderby(o) => {
            reveal_strlit("$orderby=");
            lemma_sort_text(o);
            assert(plain_text(p) =~= orderby_text(o));
        },
        PlainOpt::SelectAll => {
            reveal_strlit("*");
            assert(plain_text(p) =~= select_text(SelectV::Wildcard));
        },
        PlainOpt::Skip(n) => {
            assert(plain_text(p) =~= page_text(Keyword::Skip, PageV::Offset(n)));
        },
        PlainOpt::Top(n) => {
            assert(plain_text(p) =~= page_text(Keyword::Top, PageV::Offset(n)));
        },
    }
}

/// Printing query options and parsing the text gives them back, where every option
/// present prints as text that reads back: the count, an `$orderby` of identifiers
/// (identifier-shaped, none of `null`, `true`, `false`, `count` and `not`), a `$select`
/// of everything or of paths whose segments are identifiers (identifier-shaped, none of
/// `null`, `true`, `false` and `count`), and offsets for `$skip` and `$top`.
#[verifier::spinoff_prover]
proof fn lemma_plain_list_parts(
    count: bool,
    orderby: Option<Seq<(Seq<char>, Direction)>>,
    sel: Option<SelectV>,
    skip: Option<u128>,
    top: Option<u128>,
)
    requires
        orderby matches Some(o) ==> sort_items(o),
        sel matches Some(SelectV::Paths(ps)) ==> plain_select(ps),
    ensures
        plain_opts(plain_list(count, orderby, sel, skip, top)),
        odata_parts(plain_data(count, orderby, sel, skip, top)) == plain_list(
            count,
            orderby,
            sel,
            skip,
            top,
        ).map_values(|p: PlainOpt| plain_text(p)),
{
    let o = plain_data(count, orderby, sel, skip, top);
    let l0: Seq<PlainOpt> = (if count { seq![PlainOpt::Count] } else { Seq::empty() }) + match orderby {
        Some(o) => seq![PlainOpt::Orderby(o)],
        None => Seq::empty(),
    };
    let l1: Seq<PlainOpt> = match sel {
        Some(SelectV::Paths(ps)) => seq![PlainOpt::Select(words_of(ps))],
        Some(SelectV::Wildcard) => seq![PlainOpt::SelectAll],
        None => Seq::empty(),
    };
    let l2: Seq<PlainOpt> = match skip {
        Some(n) => seq![PlainOpt::Skip(n)],
        None => Seq::empty(),
    };
    let l3: Seq<PlainOpt> = match top {
        Some(n) => seq![PlainOpt::Top(n)],
        None => Seq::empty(),
    };
    if let Some(SelectV::Paths(ps)) = sel {
        lemma_words_of(ps);
    }
    let ps = plain_list(count, orderby, sel, skip, top);
    assert(ps == l0 + l1 + l2 + l3);
    assert(plain_opts(ps)) by {
        assert forall|k: int| 0 <= k < ps.len() implies plain_ok(#[trigger] ps[k]) by {
            if let Some(SelectV::Paths(qs)) = sel {
                if ps[k] is Select {
                    assert(ps[k] == PlainOpt::Select(words_of(qs)));
                }
            }
            if let Some(o) = orderby {
                if ps[k] is Orderby {
                    assert(ps[k] == PlainOpt::Orderby(o));
                }
            }
        }
    }
    let parts = ps.map_values(|p: PlainOpt| plain_text(p));
    assert(odata_parts(o) =~= parts) by {
        assert forall|k: int| 0 <= k < ps.len() implies #[trigger] parts[k] == odata_parts(o)[k] by {
            lemma_plain_text_parts(ps[k]);
        }
    }
}

#[verifier::spinoff_prover]
proof fn lemma_plain_list_fold(
    count: bool,
    orderby: Option<Seq<(Seq<char>, Direction)>>,
    sel: Option<SelectV>,
    skip: Option<u128>,
    top: Option<u128>,
)
    requires
        orderby matches Some(o) ==> sort_items(o),
        sel matches Some(SelectV::Paths(ps)) ==> plain_select(ps),
    ensures
        plain_fold(odata_default(), plain_list(count, orderby, sel, skip, top)) == plain_data(
            count,
            orderby,
            sel,
            skip,
            top,
        ),
{
    let o = plain_data(count, orderby, sel, skip, top);
    let l0: Seq<PlainOpt> = (if count { seq![PlainOpt::Count] } else { Seq::empty() }) + match orderby {
        Some(o) => seq![PlainOpt::Orderby(o)],
        None => Seq::empty(),
    };
    let l1: Seq<PlainOpt> = match sel {
        Some(SelectV::Paths(ps)) => seq![PlainOpt::Select(words_of(ps))],
        Some(SelectV::Wildcard) => seq![PlainOpt::SelectAll],
        None => Seq::empty(),
    };
    let l2: Seq<PlainOpt> = match skip {
        Some(n) => seq![PlainOpt::Skip(n)],
        None => Seq::empty(),
    };
    let l3: Seq<PlainOpt> = match top {
        Some(n) => seq![PlainOpt::Top(n)],
        None => Seq::empty(),
    };
    if let Some(SelectV::Paths(ps)) = sel {
        lemma_words_of(ps);
    }
    let ps = plain_list(count, orderby, sel, skip, top);
    assert(ps == l0 + l1 + l2 + l3);
    let d = odata_default();
    lemma_fold_concat(d, l0 + l1 + l2, l3);
    lemma_fold_concat(d, l0 + l1, l2);
    lemma_fold_concat(d, l0, l1);
    let c0: Seq<PlainOpt> = if count { seq![PlainOpt::Count] } else { Seq::empty() };
    let c1: Seq<PlainOpt> = match orderby {
        Some(o) => seq![PlainOpt::Orderby(o)],
        None => Seq::empty(),
    };
    lemma_fold_concat(d, c0, c1);
    if count {
        lemma_fold_one(d, PlainOpt::Count);
    }
    if let Some(o) = orderby {
        lemma_fold_one(plain_fold(d, c0), PlainOpt::Orderby(o));
    }
    let f0 = plain_fold(d, l0);
    match sel {
        Some(SelectV::Paths(qs)) => {
            lemma_fold_one(f0, PlainOpt::Select(words_of(qs)));
        },
        Some(SelectV::Wildcard) => {
            lemma_fold_one(f0, PlainOpt::SelectAll);
        },
        None => {},
    }
    let f1 = plain_fold(f0, l1);
    if let Some(n) = skip {
        lemma_fold_one(f1, PlainOpt::Skip(n));
    }
    let f2 = plain_fold(f1, l2);
    if let Some(n) = top {
        lemma_fold_one(f2, PlainOpt::Top(n));
    }
    assert(plain_fold(d, ps) == o);
}


#[verifier::spinoff_prover]
pub proof fn law_odata_round_trip(
    count: bool,
    orderby: Option<Seq<(Seq<char>, Direction)>>,
    sel: Option<SelectV>,
    skip: Option<u128>,
    top: Option<u128>,
)
    requires
        orderby matches Some(o) ==> sort_items(o),
        sel matches Some(SelectV::Paths(ps)) ==> plain_select(ps),
    ensures
        odata_outcome(odata_text(plain_data(count, orderby, sel, skip, top))) == Ok::<ODataV, Seq<char>>(
            plain_data(count, orderby, sel, skip, top),
        ),
{
    let ps = plain_list(count, orderby, sel, skip, top);
    lemma_plain_list_parts(count, orderby, sel, skip, top);
    lemma_plain_list_fold(count, orderby, sel, skip, top);
    lemma_amp_join_parts(ps);
    law_plain_options(ps);
}

/// Two options of different kinds, each printing as text that reads back, give the
/// same options in either order when joined by `&`: the option of each kind as it
/// alone gives it, every other option absent.
#[verifier::spinoff_prover]
#[verifier::rlimit(60)]
pub proof fn law_plain_options_commute(a: PlainOpt, b: PlainOpt)
    requires
        plain_ok(a),
        plain_ok(b),
        plain_kind(a) != plain_kind(b),
    ensures
        odata_outcome(plain_text(a)) == Ok::<ODataV, Seq<char>>(apply(odata_default(), plain_value(a))),
        odata_outcome(plain_text(a) + "&"@ + plain_text(b)) == odata_outcome(plain_text(b) + "&"@ + plain_text(a)),
        odata_outcome(plain_text(a) + "&"@ + plain_text(b)) == Ok::<ODataV, Seq<char>>(
            apply(apply(odata_default(), plain_value(a)), plain_value(b)),
        ),
{
    reveal_strlit("&");
    let d = odata_default();
    let va = plain_value(a);
    let vb = plain_value(b);
    let one = seq![a];
    assert(plain_opts(one));
    law_plain_options(one);
    lemma_fold_one(d, a);
    assert(amp_join(one) == plain_text(a));
    let ab = seq![a, b];
    let ba = seq![b, a];
    assert(plain_opts(ab));
    assert(plain_opts(ba));
    assert(amp_join(ab) == plain_text(a) + "&"@ + plain_text(b)) by {
        assert(ab.drop_first() =~= seq![b]);
        assert(amp_join(seq![b]) == plain_text(b));
        assert(amp_join(ab) =~= plain_text(a) + "&"@ + plain_text(b));
    }
    assert(amp_join(ba) == plain_text(b) + "&"@ + plain_text(a)) by {
        assert(ba.drop_first() =~= seq![a]);
        assert(amp_join(seq![a]) == plain_text(a));
        assert(amp_join(ba) =~= plain_text(b) + "&"@ + plain_text(a));
    }
    assert(plain_fold(d, ab) == apply(apply(d, va), vb)) by {
        lemma_fold_concat(d, seq![a], seq![b]);
        assert(seq![a] + seq![b] =~= ab);
        lemma_fold_one(apply(d, va), b);
    }
    assert(plain_fold(d, ba) == apply(apply(d, vb), va)) by {
        lemma_fold_concat(d, seq![b], seq![a]);
        assert(seq![b] + seq![a] =~= ba);
        lemma_fold_one(d, b);
        lemma_fold_one(apply(d, vb), a);
    }
    assert(apply(apply(d, va), vb) == apply(apply(d, vb), va));
    law_plain_options(ab);
    law_plain_options(ba);
}

} // verus!

verus! {

/// The literal that prints direction `d`, with the space before it.
pub open spec fn dir_lit(d: Direction) -> Lit {
    match d {
        Direction::Asc => Lit::Asc,
        Direction::Desc => Lit::Desc,
    }
}

/// Whether `w` prints before a direction and reads back as the same identifier: a
/// plain word other than `not`.
pub open spec fn sort_word(w: Seq<char>) -> bool {
    plain_word(w) && w != seq!['n', 'o', 't']
}

/// Whether every identifier of the items `o` is a sort word.
pub open spec fn sort_items(o: Seq<(Seq<char>, Direction)>) -> bool {
    forall|k: int| 0 <= k < o.len() ==> sort_word(#[trigger] o[k].0)
}

/// An identifier and its direction, printed.
pub open spec fn sort_item_text(it: (Seq<char>, Direction)) -> Seq<char> {
    it.0 + lit_text(dir_lit(it.1))
}

/// The items `o` printed and joined by `,`, built from the front.
pub open spec fn sort_join(o: Seq<(Seq<char>, Direction)>) -> Seq<char>
    decreases o.len(),
{
    if o.len() <= 1 {
        if o.len() == 1 { sort_item_text(o[0]) } else { Seq::empty() }
    } else {
        sort_item_text(o[0]) + seq![','] + sort_join(o.drop_first())
    }
}

/// The tokens of the items `o` printed from position `i` on.
pub open spec fn sort_toks(o: Seq<(Seq<char>, Direction)>, i: int) -> Seq<SpannedV>
    decreases o.len(),
{
    if o.len() == 0 {
        Seq::empty()
    } else {
        let m = i + o[0].0.len();
        let e = m + lit_text(dir_lit(o[0].1)).len();
        seq![
            SpannedV { tok: TokV::Ident(o[0].0), start: i as nat, end: m as nat },
            SpannedV { tok: lit_token(dir_lit(o[0].1)), start: m as nat, end: e as nat },
        ] + if o.len() == 1 {
            Seq::empty()
        } else {
            seq![SpannedV { tok: TokV::Ctrl(Ctrl::Comma), start: e as nat, end: (e + 1) as nat }]
                + sort_toks(o.drop_first(), e + 1)
        }
    }
}

proof fn lemma_dir_at(s: Seq<char>, m: int, d: Direction, c: Cand)
    requires
        0 <= m,
        m + lit_text(dir_lit(d)).len() <= s.len(),
        s.subrange(m, m + lit_text(dir_lit(d)).len()) == lit_text(dir_lit(d)),
        c != Cand::Lit(dir_lit(d)),
    ensures
        cand_len(s, m, Cand::Lit(dir_lit(d))) == lit_text(dir_lit(d)).len(),
        loses(
            cand_len(s, m, c),
            priority(c),
            lit_text(dir_lit(d)).len() as int,
            priority(Cand::Lit(dir_lit(d))),
        ),
{
    let t = lit_text(dir_lit(d));
    assert(forall|k: int| 0 <= k < t.len() ==> s[m + k] == #[trigger] t[k]) by {
        assert forall|k: int| 0 <= k < t.len() implies s[m + k] == #[trigger] t[k] by {
            assert(s.subrange(m, m + t.len())[k] == s[m + k]);
        }
    }
    assert(s[m] == ' ');
    assert(s[m + 1] == t[1]);
    assert(s[m + 2] == t[2]);
    lemma_run_until(s, m + 1, m + 1, Class::Space);
    lemma_run_until(s, m, m + 1, Class::Space);
    match c {
        Cand::Kw(k2) => {
            let w2 = kw_word(k2);
            if lit_at(s, m, w2) {
                assert(s.subrange(m, m + w2.len() as int)[0] == w2[0]);
            }
        },
        Cand::SearchRaw | Cand::SearchStr | Cand::SearchStr2 => {
            if lit_at(s, m, search_word()) {
                assert(s.subrange(m, m + 7)[0] == search_word()[0]);
            }
        },
        Cand::Lit(l2) => {
            let t2 = lit_text(l2);
            if lit_at(s, m, t2) {
                assert(s.subrange(m, m + t2.len() as int)[0] == t2[0]);
                assert(s.subrange(m, m + t2.len() as int)[1] == t2[1]);
                assert(s.subrange(m, m + t2.len() as int)[2] == t2[2]);
                if t2.len() > 3 {
                    assert(s.subrange(m, m + t2.len() as int)[3] == t2[3]);
                }
            }
        },
        _ => {},
    }
}

proof fn lemma_lex_sort(s: Seq<char>, i: int, e: int, o: Seq<(Seq<char>, Direction)>)
    requires
        o.len() >= 1,
        sort_items(o),
        0 <= i <= e <= s.len(),
        s.subrange(i, e) == sort_join(o),
        ends_option(s, e),
    ensures
        lex_from(s, i).toks == sort_toks(o, i) + lex_from(s, e).toks,
    decreases o.len(),
{
    let w = o[0].0;
    let d = o[0].1;
    assert(sort_word(w));
    let t = lit_text(dir_lit(d));
    let m = i + w.len();
    let e0 = m + t.len();
    let sub = s.subrange(i, e);
    if o.len() == 1 {
        assert(sub == sort_item_text(o[0]));
    } else {
        assert(sub == sort_item_text(o[0]) + seq![','] + sort_join(o.drop_first()));
        assert(sub[e0 - i] == ',');
    }
    assert(s.subrange(i, m) =~= w) by {
        assert forall|k: int| 0 <= k < m - i implies s.subrange(i, m)[k] == w[k] by {
            assert(sub[k] == s[i + k]);
        }
    }
    assert(s.subrange(m, e0) =~= t) by {
        assert forall|k: int| 0 <= k < e0 - m implies s.subrange(m, e0)[k] == t[k] by {
            assert(sub[m - i + k] == s[m + k]);
        }
    }
    assert(s[m] == ' ') by {
        assert(sub[m - i] == s[m]);
    }
    assert forall|c: Cand| c != Cand::Ident implies loses(
        #[trigger] cand_len(s, i, c),
        priority(c),
        cand_len(s, i, Cand::Ident),
        priority(Cand::Ident),
    ) by {
        lemma_ident_at(s, i, w, c);
    }
    lemma_ident_at(s, i, w, Cand::Offset);
    assert(all_cands()[12] == Cand::Ident);
    lemma_pick_best(s, i, all_cands(), Cand::Ident);
    assert forall|c: Cand| c != Cand::Lit(dir_lit(d)) implies loses(
        #[trigger] cand_len(s, m, c),
        priority(c),
        cand_len(s, m, Cand::Lit(dir_lit(d))),
        priority(Cand::Lit(dir_lit(d))),
    ) by {
        lemma_dir_at(s, m, d, c);
    }
    lemma_dir_at(s, m, d, Cand::Offset);
    assert(all_cands()[23] == Cand::Lit(Lit::Asc));
    assert(all_cands()[24] == Cand::Lit(Lit::Desc));
    lemma_pick_best(s, m, all_cands(), Cand::Lit(dir_lit(d)));
    let t0 = SpannedV { tok: TokV::Ident(w), start: i as nat, end: m as nat };
    let t1 = SpannedV { tok: lit_token(dir_lit(d)), start: m as nat, end: e0 as nat };
    assert(lex_from(s, i).toks == seq![t0] + lex_from(s, m).toks);
    assert(lex_from(s, m).toks == seq![t1] + lex_from(s, e0).toks);
    if o.len() == 1 {
        assert(lex_from(s, i).toks =~= sort_toks(o, i) + lex_from(s, e).toks);
    } else {
        assert forall|c: Cand| c != Cand::Lit(Lit::Comma) implies loses(
            #[trigger] cand_len(s, e0, c),
            priority(c),
            cand_len(s, e0, Cand::Lit(Lit::Comma)),
            priority(Cand::Lit(Lit::Comma)),
        ) by {
            lemma_comma_at(s, e0, c);
        }
        lemma_comma_at(s, e0, Cand::Offset);
        assert(all_cands()[46] == Cand::Lit(Lit::Comma));
        lemma_pick_best(s, e0, all_cands(), Cand::Lit(Lit::Comma));
        let rest = o.drop_first();
        assert(sort_items(rest)) by {
            assert forall|k: int| 0 <= k < rest.len() implies sort_word(#[trigger] rest[k].0) by {
                assert(rest[k] == o[k + 1]);
            }
        }
        assert(s.subrange(e0 + 1, e) =~= sort_join(rest)) by {
            assert forall|k: int| 0 <= k < e - (e0 + 1) implies s.subrange(e0 + 1, e)[k] == sort_join(rest)[k] by {
                assert(sub[e0 - i + 1 + k] == s[e0 + 1 + k]);
            }
        }
        lemma_lex_sort(s, e0 + 1, e, rest);
        let t2 = SpannedV { tok: TokV::Ctrl(Ctrl::Comma), start: e0 as nat, end: (e0 + 1) as nat };
        assert(lex_from(s, e0).toks == seq![t2] + lex_from(s, e0 + 1).toks);
        assert(lex_from(s, i).toks =~= sort_toks(o, i) + lex_from(s, e).toks);
    }
}

} // verus!

verus! {

/// The tokens of further items `o`, each after a comma, the first printed at `i`.
pub open spec fn more_sort_toks(o: Seq<(Seq<char>, Direction)>, i: int) -> Seq<SpannedV> {
    if o.len() == 0 {
        Seq::empty()
    } else {
        seq![comma_tok(i)] + sort_toks(o, i)
    }
}

proof fn lemma_sort_toks(o: Seq<(Seq<char>, Direction)>, i: int)
    requires
        o.len() >= 1,
    ensures
        sort_toks(o, i) == seq![
            SpannedV { tok: TokV::Ident(o[0].0), start: i as nat, end: (i + o[0].0.len()) as nat },
            SpannedV {
                tok: lit_token(dir_lit(o[0].1)),
                start: (i + o[0].0.len()) as nat,
                end: (i + sort_item_text(o[0]).len()) as nat,
            },
        ] + more_sort_toks(o.drop_first(), i + sort_item_text(o[0]).len() + 1),
{
    let e = i + sort_item_text(o[0]).len();
    if o.len() == 1 {
        assert(more_sort_toks(o.drop_first(), e + 1) =~= Seq::<SpannedV>::empty());
    }
    assert(sort_toks(o, i) =~= seq![
        SpannedV { tok: TokV::Ident(o[0].0), start: i as nat, end: (i + o[0].0.len()) as nat },
        SpannedV {
            tok: lit_token(dir_lit(o[0].1)),
            start: (i + o[0].0.len()) as nat,
            end: (i + sort_item_text(o[0]).len()) as nat,
        },
    ] + more_sort_toks(o.drop_first(), e + 1));
}

/// The item at `q`, given the two tokens there.
proof fn lemma_sort_item(lx: LexedV, q: int, it: (Seq<char>, Direction), alt: AltV)
    requires
        0 <= q,
        q + 2 <= lx.toks.len(),
        lx.toks[q].tok == TokV::Ident(it.0),
        lx.toks[q + 1].tok == lit_token(dir_lit(it.1)),
    ensures
        orderby_item_spec(lx, q as nat, alt).0 == StepV::Done(it, (q + 2) as nat),
{
}

#[verifier::spinoff_prover]
proof fn lemma_sort_rest(
    lx: LexedV,
    q: int,
    o: Seq<(Seq<char>, Direction)>,
    i: int,
    tail: Seq<SpannedV>,
    acc: Seq<(Seq<char>, Direction)>,
    alt: AltV,
)
    requires
        0 <= q <= lx.toks.len(),
        option_tail(tail),
        lx.toks.skip(q) == more_sort_toks(o, i) + tail,
    ensures
        orderby_rest_spec(lx, q as nat, acc, alt).0 == StepV::Done(acc + o, (lx.toks.len() - tail.len()) as nat),
    decreases o.len(),
{
    let t = lx.toks.skip(q);
    assert(t.len() == lx.toks.len() - q);
    if o.len() == 0 {
        assert(t =~= tail);
        if tail.len() > 0 {
            assert(t[0] == lx.toks[q]);
        }
        assert(acc + o =~= acc);
    } else {
        let e = i + sort_item_text(o[0]).len();
        let rest = o.drop_first();
        let more = more_sort_toks(rest, e + 1);
        lemma_sort_toks(o, i);
        assert(t[0] == lx.toks[q]);
        assert(t[1] == lx.toks[q + 1]);
        assert(t[2] == lx.toks[q + 2]);
        let (r1, a1) = just_spec(lx, q as nat, Expected::Ctrl(Ctrl::Comma), alt);
        lemma_sort_item(lx, q + 1, o[0], a1);
        let (r2, a2) = orderby_item_spec(lx, (q + 1) as nat, a1);
        assert(lx.toks.skip(q + 3) =~= more + tail) by {
            assert forall|m: int| 0 <= m < more.len() + tail.len() implies #[trigger] lx.toks.skip(q + 3)[m] == (more
                + tail)[m] by {
                assert(t[3 + m] == lx.toks[q + 3 + m]);
            }
        }
        lemma_sort_rest(lx, q + 3, rest, e + 1, tail, acc.push(o[0]), a2);
        assert(acc.push(o[0]) + rest =~= acc + o);
    }
}

#[verifier::spinoff_prover]
#[verifier::rlimit(40)]
proof fn lemma_sort_parse(lx: LexedV, b: int, o: Seq<(Seq<char>, Direction)>, i: int, tail: Seq<SpannedV>)
    requires
        0 <= b <= lx.toks.len(),
        option_tail(tail),
        lx.toks.skip(b) == sort_toks(o, i) + tail,
    ensures
        orderby_items_spec(lx, b as nat, None).0 == StepV::Done(o, (lx.toks.len() - tail.len()) as nat),
{
    let t = lx.toks.skip(b);
    assert(t.len() == lx.toks.len() - b);
    if o.len() == 0 {
        assert(t =~= tail);
        if tail.len() > 0 {
            assert(t[0] == lx.toks[b]);
        }
        assert(o =~= Seq::<(Seq<char>, Direction)>::empty());
    } else {
        let e = i + sort_item_text(o[0]).len();
        let rest = o.drop_first();
        let more = more_sort_toks(rest, e + 1);
        lemma_sort_toks(o, i);
        assert(t[0] == lx.toks[b]);
        assert(t[1] == lx.toks[b + 1]);
        lemma_sort_item(lx, b, o[0], None);
        let (r, a) = orderby_item_spec(lx, b as nat, None);
        assert(lx.toks.skip(b + 2) =~= more + tail) by {
            assert forall|m: int| 0 <= m < more.len() + tail.len() implies #[trigger] lx.toks.skip(b + 2)[m] == (more
                + tail)[m] by {
                assert(t[2 + m] == lx.toks[b + 2 + m]);
            }
        }
        lemma_sort_rest(lx, b + 2, rest, e + 1, tail, seq![o[0]], a);
        assert(seq![o[0]] + rest =~= o);
    }
}

proof fn lemma_sort_join_push(o: Seq<(Seq<char>, Direction)>, it: (Seq<char>, Direction))
    requires
        o.len() >= 1,
    ensures
        sort_join(o.push(it)) == sort_join(o) + seq![','] + sort_item_text(it),
    decreases o.len(),
{
    let oo = o.push(it);
    assert(oo[0] == o[0]);
    if o.len() == 1 {
        assert(oo.drop_first() =~= seq![it]);
        assert(sort_join(seq![it]) == sort_item_text(it));
        assert(sort_join(oo) =~= sort_join(o) + seq![','] + sort_item_text(it));
    } else {
        assert(oo.drop_first() =~= o.drop_first().push(it));
        lemma_sort_join_push(o.drop_first(), it);
        assert(sort_join(oo) =~= sort_join(o) + seq![','] + sort_item_text(it));
    }
}

proof fn lemma_sort_text(o: Seq<(Seq<char>, Direction)>)
    ensures
        orderby_items_text(o) == sort_join(o),
    decreases o.len(),
{
    reveal_strlit(" ");
    reveal_strlit(",");
    reveal_strlit("asc");
    reveal_strlit("desc");
    if o.len() >= 1 {
        let it = o.last();
        assert(" "@ + direction_name(it.1) =~= lit_text(dir_lit(it.1)));
        if o.len() == 1 {
            assert(orderby_items_text(o) =~= sort_join(o));
        } else {
            let init = o.drop_last();
            lemma_sort_text(init);
            lemma_sort_join_push(init, it);
            assert(init.push(it) =~= o);
            assert(orderby_items_text(o) =~= sort_join(o));
        }
    }
}

} // verus!

verus! {

/// `$filter=true` parses to the boolean `true`, and `$filter=false` to `false`.
pub proof fn law_filter_bool(b: bool)
    ensures
        filter_outcome("$filter="@ + if b { "true"@ } else { "false"@ }) == Ok::<FilterV, Seq<char>>(
            FilterV::Bool(b),
        ),
{
    reveal_strlit("$filter=");
    reveal_strlit("true");
    reveal_strlit("false");
    let k = Keyword::Filter;
    let l = if b { Lit::True } else { Lit::False };
    let s = "$filter="@ + if b { "true"@ } else { "false"@ };
    let kt = kw_text(k);
    let q = kt.len() as int;
    assert(s =~= kt + lit_text(l));
    let e = s.len() as int;
    assert(s.subrange(0, q) =~= kt);
    assert(s.subrange(q, e) =~= lit_text(l));
    assert forall|c: Cand| c != Cand::Kw(k) implies loses(
        #[trigger] cand_len(s, 0, c),
        priority(c),
        cand_len(s, 0, Cand::Kw(k)),
        priority(Cand::Kw(k)),
    ) by {
        lemma_kw_at(s, 0, k, c);
    }
    lemma_kw_at(s, 0, k, Cand::Offset);
    assert(all_cands()[4] == Cand::Kw(Keyword::Filter));
    lemma_pick_best(s, 0, all_cands(), Cand::Kw(k));
    assert forall|c: Cand| c != Cand::Lit(l) implies loses(
        #[trigger] cand_len(s, q, c),
        priority(c),
        cand_len(s, q, Cand::Lit(l)),
        priority(Cand::Lit(l)),
    ) by {
        lemma_word_at(s, q, e, l, c);
    }
    lemma_word_at(s, q, e, l, Cand::Offset);
    assert(all_cands()[20] == Cand::Lit(Lit::False));
    assert(all_cands()[21] == Cand::Lit(Lit::True));
    lemma_pick_best(s, q, all_cands(), Cand::Lit(l));
    assert(lex_from(s, e).toks.len() == 0);
    let t0 = SpannedV { tok: TokV::Kw(k), start: 0, end: q as nat };
    let t1 = SpannedV { tok: TokV::Bool(b), start: q as nat, end: e as nat };
    assert(lex_from(s, q).toks =~= seq![t1]);
    let lx = lex_spec(s);
    assert(lx.toks =~= seq![t0, t1]);
    let (r1, a1) = just_spec(lx, 0, Expected::Kw(k), None);
    law_bool_expression(lx, 1, b, a1);
    assert(filter_spec(lx, 0, None).0 == StepV::Done(FilterV::Bool(b), 2));
}

} // verus!

