//! Texts of tokens and of parse errors.
use vstd::prelude::*;
use vstd::string::StringSliceAdditionalSpecFns;
use vstd::utf8::encode_utf8;
use crate::ext::{
    civil_date_text, civil_date_to_string, decimal_text, decimal_to_string, render_report,
    report_text, timestamp_text, timestamp_to_string,
};
use crate::laws::law_tokens_in_order;
use crate::lex::{lex_spec, Lexed, LexedV};
use crate::orderby::Direction;
use crate::parse::{end, end_spec, Alt, AltV, Expected, Label, Step, StepV};
use crate::token::{BinOp, Ctrl, Date, Keyword, TokV, Token, UnOp};

verus! {

pub open spec fn keyword_name(x: Keyword) -> Seq<char> {
    match x {
        Keyword::Compute => "compute"@,
        Keyword::Count => "count"@,
        Keyword::Expand => "expand"@,
        Keyword::Filter => "filter"@,
        Keyword::Orderby => "orderby"@,
        Keyword::Select => "select"@,
        Keyword::Skip => "skip"@,
        Keyword::Top => "top"@,
    }
}

pub fn keyword_name_str(x: Keyword) -> (r: &'static str)
    ensures
        r@ == keyword_name(x),
{
    match x {
        Keyword::Compute => "compute",
        Keyword::Count => "count",
        Keyword::Expand => "expand",
        Keyword::Filter => "filter",
        Keyword::Orderby => "orderby",
        Keyword::Select => "select",
        Keyword::Skip => "skip",
        Keyword::Top => "top",
    }
}

pub open spec fn unop_name(x: UnOp) -> Seq<char> {
    match x {
        UnOp::Not => "not"@,
        UnOp::Asc => "asc"@,
        UnOp::Desc => "desc"@,
    }
}

pub fn unop_name_str(x: UnOp) -> (r: &'static str)
    ensures
        r@ == unop_name(x),
{
    match x {
        UnOp::Not => "not",
        UnOp::Asc => "asc",
        UnOp::Desc => "desc",
    }
}

pub open spec fn binop_name(x: BinOp) -> Seq<char> {
    match x {
        BinOp::Has => "has"@,
        BinOp::In => "in"@,
        BinOp::Mul => "mul"@,
        BinOp::Div => "div"@,
        BinOp::Divby => "divby"@,
        BinOp::Mod => "mod"@,
        BinOp::Add => "add"@,
        BinOp::Sub => "sub"@,
        BinOp::Gt => "gt"@,
        BinOp::Ge => "ge"@,
        BinOp::Lt => "lt"@,
        BinOp::Le => "le"@,
        BinOp::Eq => "eq"@,
        BinOp::Ne => "ne"@,
        BinOp::And => "and"@,
        BinOp::Or => "or"@,
    }
}

pub fn binop_name_str(x: BinOp) -> (r: &'static str)
    ensures
        r@ == binop_name(x),
{
    match x {
        BinOp::Has => "has",
        BinOp::In => "in",
        BinOp::Mul => "mul",
        BinOp::Div => "div",
        BinOp::Divby => "divby",
        BinOp::Mod => "mod",
        BinOp::Add => "add",
        BinOp::Sub => "sub",
        BinOp::Gt => "gt",
        BinOp::Ge => "ge",
        BinOp::Lt => "lt",
        BinOp::Le => "le",
        BinOp::Eq => "eq",
        BinOp::Ne => "ne",
        BinOp::And => "and",
        BinOp::Or => "or",
    }
}

pub open spec fn ctrl_text(x: Ctrl) -> Seq<char> {
    match x {
        Ctrl::Delim => "&"@,
        Ctrl::LParen => "("@,
        Ctrl::RParen => ")"@,
        Ctrl::LBracket => "["@,
        Ctrl::RBracket => "]"@,
        Ctrl::Comma => ","@,
        Ctrl::Wildcard => "*"@,
        Ctrl::Slash => "/"@,
        Ctrl::Semi => ";"@,
    }
}

pub fn ctrl_text_str(x: Ctrl) -> (r: &'static str)
    ensures
        r@ == ctrl_text(x),
{
    match x {
        Ctrl::Delim => "&",
        Ctrl::LParen => "(",
        Ctrl::RParen => ")",
        Ctrl::LBracket => "[",
        Ctrl::RBracket => "]",
        Ctrl::Comma => ",",
        Ctrl::Wildcard => "*",
        Ctrl::Slash => "/",
        Ctrl::Semi => ";",
    }
}

pub open spec fn label_text(x: Label) -> Seq<char> {
    match x {
        Label::TrueFalse => "true, false"@,
        Label::IdentsWithDirection => "identifiers with direction"@,
        Label::Search => "'search'"@,
        Label::Identifiers => "identifiers"@,
        Label::Offset => "offset"@,
        Label::Cursor => "cursor"@,
    }
}

pub fn label_text_str(x: Label) -> (r: &'static str)
    ensures
        r@ == label_text(x),
{
    match x {
        Label::TrueFalse => "true, false",
        Label::IdentsWithDirection => "identifiers with direction",
        Label::Search => "'search'",
        Label::Identifiers => "identifiers",
        Label::Offset => "offset",
        Label::Cursor => "cursor",
    }
}

pub open spec fn direction_name(x: Direction) -> Seq<char> {
    match x {
        Direction::Asc => "asc"@,
        Direction::Desc => "desc"@,
    }
}

pub fn direction_name_str(x: Direction) -> (r: &'static str)
    ensures
        r@ == direction_name(x),
{
    match x {
        Direction::Asc => "asc",
        Direction::Desc => "desc",
    }
}


pub open spec fn digit_text(d: int) -> Seq<char> {
    if d == 0 {
        "0"@
    } else if d == 1 {
        "1"@
    } else if d == 2 {
        "2"@
    } else if d == 3 {
        "3"@
    } else if d == 4 {
        "4"@
    } else if d == 5 {
        "5"@
    } else if d == 6 {
        "6"@
    } else if d == 7 {
        "7"@
    } else if d == 8 {
        "8"@
    } else {
        "9"@
    }
}

fn digit_str(d: u128) -> (r: &'static str)
    ensures
        r@ == digit_text(d as int),
{
    if d == 0 {
        "0"
    } else if d == 1 {
        "1"
    } else if d == 2 {
        "2"
    } else if d == 3 {
        "3"
    } else if d == 4 {
        "4"
    } else if d == 5 {
        "5"
    } else if d == 6 {
        "6"
    } else if d == 7 {
        "7"
    } else if d == 8 {
        "8"
    } else {
        "9"
    }
}

/// The decimal digits of `n`.
pub open spec fn nat_text(n: nat) -> Seq<char>
    decreases n,
{
    if n < 10 {
        digit_text(n as int)
    } else {
        nat_text(n / 10) + digit_text((n % 10) as int)
    }
}

/// Appends the decimal digits of `n` to `s`.
pub fn push_nat(s: &mut String, n: u128)
    ensures
        final(s)@ == old(s)@ + nat_text(n as nat),
    decreases n,
{
    if n < 10 {
        s.append(digit_str(n));
    } else {
        push_nat(s, n / 10);
        s.append(digit_str(n % 10));
        assert(final(s)@ =~= old(s)@ + nat_text(n as nat));
    }
}

pub open spec fn date_text(d: Date) -> Seq<char> {
    match d {
        Date::Date(c) => civil_date_text(c.year, c.month, c.day),
        Date::Timestamp(t) => timestamp_text(t.second, t.nanosecond),
    }
}

/// Appends the text of a date to `s`.
pub fn push_date(s: &mut String, d: Date)
    ensures
        final(s)@ == old(s)@ + date_text(d),
{
    match d {
        Date::Date(c) => {
            let t = civil_date_to_string(c.year, c.month, c.day);
            s.append(t.as_str());
        },
        Date::Timestamp(t) => {
            let x = timestamp_to_string(t.second, t.nanosecond);
            s.append(x.as_str());
        },
    }
}

/// The text of a token, as error messages show it.
pub open spec fn token_text(t: TokV) -> Seq<char> {
    match t {
        TokV::Error => "<error>"@,
        TokV::Kw(k) => keyword_name(k),
        TokV::Search(s) => s,
        TokV::Ident(s) => s,
        TokV::Null => "Null"@,
        TokV::Bool(b) => if b {
            "true"@
        } else {
            "false"@
        },
        TokV::Offset(n) => nat_text(n as nat),
        TokV::Num(n) => decimal_text(n.mantissa, n.scale),
        TokV::Str(s) => s,
        TokV::Date(d) => date_text(d),
        TokV::UnOp(u) => unop_name(u),
        TokV::BinOp(b) => binop_name(b),
        TokV::Ctrl(c) => ctrl_text(c),
    }
}

fn push_token(s: &mut String, t: Token)
    ensures
        final(s)@ == old(s)@ + token_text(t@),
{
    match t {
        Token::Error => s.append("<error>"),
        Token::Kw(k) => s.append(keyword_name_str(k)),
        Token::Search(x) => s.append(x),
        Token::Ident(x) => s.append(x),
        Token::Null => s.append("Null"),
        Token::Bool(b) => {
            if b {
                s.append("true")
            } else {
                s.append("false")
            }
        },
        Token::Offset(n) => push_nat(s, n),
        Token::Num(n) => {
            let t = decimal_to_string(n.mantissa, n.scale);
            s.append(t.as_str());
        },
        Token::Str(x) => s.append(x),
        Token::Date(d) => push_date(s, d),
        Token::UnOp(u) => s.append(unop_name_str(u)),
        Token::BinOp(b) => s.append(binop_name_str(b)),
        Token::Ctrl(c) => s.append(ctrl_text_str(c)),
    }
}

/// The text of an expected pattern.
pub open spec fn expected_text(e: Expected) -> Seq<char> {
    match e {
        Expected::Kw(k) => "'"@ + keyword_name(k) + "'"@,
        Expected::UnOp(u) => "'"@ + unop_name(u) + "'"@,
        Expected::BinOp(b) => "'"@ + binop_name(b) + "'"@,
        Expected::Ctrl(c) => "'"@ + ctrl_text(c) + "'"@,
        Expected::Null => "'Null'"@,
        Expected::SomethingElse => "something else"@,
        Expected::EndOfInput => "end of input"@,
        Expected::Label(l) => label_text(l),
    }
}

fn push_expected(s: &mut String, e: Expected)
    ensures
        final(s)@ == old(s)@ + expected_text(e),
{
    match e {
        Expected::Kw(k) => {
            s.append("'");
            s.append(keyword_name_str(k));
            s.append("'");
        },
        Expected::UnOp(u) => {
            s.append("'");
            s.append(unop_name_str(u));
            s.append("'");
        },
        Expected::BinOp(b) => {
            s.append("'");
            s.append(binop_name_str(b));
            s.append("'");
        },
        Expected::Ctrl(c) => {
            s.append("'");
            s.append(ctrl_text_str(c));
            s.append("'");
        },
        Expected::Null => s.append("'Null'"),
        Expected::SomethingElse => s.append("something else"),
        Expected::EndOfInput => s.append("end of input"),
        Expected::Label(l) => s.append(label_text_str(l)),
    }
    assert(final(s)@ =~= old(s)@ + expected_text(e));
}

/// Each pattern's text followed by `, `.
pub open spec fn comma_list(es: Seq<Expected>) -> Seq<char>
    decreases es.len(),
{
    if es.len() == 0 {
        Seq::empty()
    } else {
        comma_list(es.drop_last()) + expected_text(es.last()) + ", "@
    }
}

/// The expected patterns, as `a`, `a, or b`, `a, b, or c`; none is "something else".
pub open spec fn expected_list(es: Seq<Expected>) -> Seq<char> {
    if es.len() == 0 {
        "something else"@
    } else if es.len() == 1 {
        expected_text(es[0])
    } else {
        comma_list(es.drop_last()) + "or "@ + expected_text(es.last())
    }
}

fn push_expected_list(s: &mut String, es: &Vec<Expected>)
    ensures
        final(s)@ == old(s)@ + expected_list(es@),
{
    let n = es.len();
    if n == 0 {
        s.append("something else");
        return ;
    }
    if n == 1 {
        push_expected(s, es[0]);
        return ;
    }
    let mut k: usize = 0;
    while k < n - 1
        invariant
            n == es@.len(),
            n >= 2,
            k <= n - 1,
            s@ == old(s)@ + comma_list(es@.take(k as int)),
        decreases n - 1 - k,
    {
        push_expected(s, es[k]);
        s.append(", ");
        assert(es@.take(k + 1).drop_last() =~= es@.take(k as int));
        k = k + 1;
        assert(s@ =~= old(s)@ + comma_list(es@.take(k as int)));
    }
    s.append("or ");
    push_expected(s, es[n - 1]);
    assert(es@.take((n - 1) as int) =~= es@.drop_last());
    assert(s@ =~= old(s)@ + expected_list(es@));
}

/// What was found where parsing failed.
pub open spec fn found_text(lx: LexedV, pos: nat) -> Seq<char> {
    if pos < lx.toks.len() {
        "'"@ + token_text(lx.toks[pos as int].tok) + "'"@
    } else {
        "end of input"@
    }
}

/// The message of a parse error.
pub open spec fn message(lx: LexedV, pos: nat, es: Seq<Expected>) -> Seq<char> {
    "found "@ + found_text(lx, pos) + " expected "@ + expected_list(es)
}

/// The number of bytes of the first `k` characters of `s` in UTF-8.
pub open spec fn byte_len(s: Seq<char>, k: int) -> nat {
    encode_utf8(s.take(k)).len()
}

proof fn lemma_encode_concat(a: Seq<char>, b: Seq<char>)
    ensures
        encode_utf8(a + b) == encode_utf8(a) + encode_utf8(b),
    decreases a.len(),
{
    if a.len() == 0 {
        assert(a + b =~= b);
        assert(encode_utf8(a) =~= Seq::<u8>::empty());
        assert(encode_utf8(a) + encode_utf8(b) =~= encode_utf8(b));
    } else {
        lemma_encode_concat(a.drop_first(), b);
        assert((a + b).drop_first() =~= a.drop_first() + b);
        assert((a + b)[0] == a[0]);
        assert(encode_utf8(a + b) =~= encode_utf8(a) + encode_utf8(b));
    }
}

proof fn lemma_byte_len_mono(s: Seq<char>, a: int, b: int)
    requires
        0 <= a <= b <= s.len(),
    ensures
        byte_len(s, a) <= byte_len(s, b) <= byte_len(s, s.len() as int),
{
    assert(s.take(b) =~= s.take(a) + s.subrange(a, b));
    lemma_encode_concat(s.take(a), s.subrange(a, b));
    assert(s.take(s.len() as int) =~= s.take(b) + s.subrange(b, s.len() as int));
    lemma_encode_concat(s.take(b), s.subrange(b, s.len() as int));
}

/// The error report for the furthest failure `alt` of a parse of source `s`.
pub open spec fn failure_text(s: Seq<char>, lx: LexedV, alt: AltV) -> Seq<char> {
    let pos = match alt {
        Some((p, _)) => p,
        None => lx.toks.len(),
    };
    let es = match alt {
        Some((_, e)) => e,
        None => Seq::empty(),
    };
    let (a, b) = error_span(s, lx, pos);
    report_text(s, byte_len(s, a) as usize, byte_len(s, b) as usize, message(lx, pos, es))
}

/// The UTF-8 length of the first `k` characters of `value`.
fn byte_offset(value: &str, k: usize) -> (r: usize)
    requires
        k <= value@.len(),
    ensures
        r == byte_len(value@, k as int),
{
    let t = value.substring_char(0, k);
    assert(t@ =~= value@.take(k as int));
    t.as_bytes().len()
}

proof fn lemma_span_in_source(s: Seq<char>, lx: LexedV, pos: nat)
    requires
        lx == lex_spec(s),
        pos < lx.toks.len(),
    ensures
        lx.toks[pos as int].start < lx.toks[pos as int].end <= s.len(),
{
    law_tokens_in_order(s);
}

/// The span, in characters, that an error at token `pos` reports.
pub open spec fn error_span(s: Seq<char>, lx: LexedV, pos: nat) -> (int, int) {
    if pos < lx.toks.len() {
        (lx.toks[pos as int].start as int, lx.toks[pos as int].end as int)
    } else {
        (s.len() as int, s.len() as int)
    }
}

fn error_span_exec<'src>(value: &'src str, lx: &Lexed<'src>, pos: usize) -> (r: (usize, usize))
    requires
        lx@ == lex_spec(value@),
    ensures
        (r.0 as int, r.1 as int) == error_span(value@, lx@, pos as nat),
        r.0 <= r.1 <= value@.len(),
{
    if pos < lx.toks.len() {
        proof {
            assert(lx@.toks[pos as int] == lx.toks@[pos as int]@);
            lemma_span_in_source(value@, lx@, pos as nat);
        }
        (lx.toks[pos].start, lx.toks[pos].end)
    } else {
        let len = value.unicode_len();
        (len, len)
    }
}

fn message_exec<'src>(lx: &Lexed<'src>, pos: usize, es: &Vec<Expected>) -> (r: String)
    ensures
        r@ == message(lx@, pos as nat, es@),
{
    let mut msg = String::new();
    msg.append("found ");
    if pos < lx.toks.len() {
        msg.append("'");
        push_token(&mut msg, lx.toks[pos].tok);
        msg.append("'");
        assert(lx@.toks[pos as int] == lx.toks@[pos as int]@);
    } else {
        msg.append("end of input");
    }
    msg.append(" expected ");
    push_expected_list(&mut msg, es);
    assert(msg@ =~= message(lx@, pos as nat, es@));
    msg
}

/// The report of a failed parse.
pub fn failure<'src>(value: &'src str, lx: &Lexed<'src>, alt: Alt) -> (r: String)
    requires
        lx@ == lex_spec(value@),
    ensures
        r@ == failure_text(value@, lx@, alt@),
        r@.take(7) == "Error: "@,
{
    let n = lx.toks.len();
    let (pos, es): (usize, Vec<Expected>) = match alt.at {
        Some((p, e)) => (p, e),
        None => (n, Vec::new()),
    };
    assert(es@ == (match alt@ {
        Some((_, e)) => e,
        None => Seq::<Expected>::empty(),
    }));
    let msg = message_exec(lx, pos, &es);
    let (a, b) = error_span_exec(value, lx, pos);
    let ba = byte_offset(value, a);
    let bb = byte_offset(value, b);
    proof {
        lemma_byte_len_mono(value@, a as int, b as int);
        assert(value@.take(value@.len() as int) =~= value@);
        assert(value.spec_bytes().len() == byte_len(value@, value@.len() as int));
        assert(byte_len(value@, a as int) == ba);
        assert(byte_len(value@, b as int) == bb);
    }
    let r = render_report(value, ba, bb, msg.as_str());
    proof {
        reveal_strlit("Error: ");
        assert(r@.take(7) =~= ("Error: "@ + msg@ + "\n"@).take(7));
    }
    r
}

/// What a parse of a whole source gives: the value where the tokens end after it,
/// else the report of the furthest failure.
pub open spec fn outcome<V>(s: Seq<char>, lx: LexedV, r: (StepV<V>, AltV)) -> Result<V, Seq<char>> {
    match r.0 {
        StepV::Fail => Err(failure_text(s, lx, r.1)),
        StepV::Done(v, p) => {
            let (e, a) = end_spec(lx, p, r.1);
            match e {
                StepV::Fail => Err(failure_text(s, lx, a)),
                StepV::Done(_, _) => Ok(v),
            }
        },
    }
}

pub open spec fn result_view<T: View>(r: Result<T, String>) -> Result<T::V, Seq<char>> {
    match r {
        Ok(t) => Ok(t@),
        Err(e) => Err(e@),
    }
}

/// Finishes the parse of a whole source: the value where the tokens end after it.
pub fn conclude<'src, T: View>(value: &'src str, lx: &Lexed<'src>, r: (Step<T>, Alt)) -> (o: Result<T, String>)
    requires
        lx@ == lex_spec(value@),
        r.0 matches Step::Done(_, p) ==> p <= lx@.toks.len(),
    ensures
        result_view(o) == outcome(value@, lx@, (r.0@, r.1@)),
        o matches Err(e) ==> e@.take(7) == "Error: "@,
{
    let (step, alt) = r;
    match step {
        Step::Fail => Err(failure(value, lx, alt)),
        Step::Done(v, p) => {
            let (e, a) = end(lx, p, alt);
            match e {
                Step::Fail => Err(failure(value, lx, a)),
                Step::Done(_, _) => Ok(v),
            }
        },
    }
}

} // verus!
