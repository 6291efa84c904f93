//! The lexer: a query string becomes a sequence of spanned tokens.
//!
//! At each position the longest match among the token patterns wins; on equal
//! lengths the pattern of higher priority wins. Whitespace between tokens is
//! skipped; a character where no pattern matches becomes an error token, and a
//! quote that nothing closes makes one error token of the rest of the source.
use vstd::prelude::*;
use crate::ext::{
    civil_date_of, decimal_of, parse_civil_date, parse_decimal, parse_timestamp, timestamp_of,
};
use crate::token::{
    char_in_class, is_ascii_digit, is_ident_start, is_unicode_digit, lemma_run_bounds, run, run_len, BinOp, CivilDate,
    Class, Ctrl, Date, Keyword, Number, Spanned, SpannedV, Timestamp, TokV, Token, UnOp,
};

verus! {

/// The tokens spelled by a fixed text.
#[derive(Debug, Clone, Copy, PartialEq, Eq, Structural)]
pub enum Lit {
    Null,
    False,
    True,
    Not,
    Asc,
    Desc,
    Has,
    In,
    Mul,
    Div,
    Divby,
    Mod,
    Add,
    Sub,
    Gt,
    Ge,
    Lt,
    Le,
    Eq,
    Ne,
    And,
    Or,
    Delim,
    LParen,
    RParen,
    LBracket,
    RBracket,
    Comma,
    Wildcard,
    Slash,
    Semi,
}

pub open spec fn lit_text(l: Lit) -> Seq<char> {
    match l {
        Lit::Null => seq!['n', 'u', 'l', 'l'],
        Lit::False => seq!['f', 'a', 'l', 's', 'e'],
        Lit::True => seq!['t', 'r', 'u', 'e'],
        Lit::Not => seq!['n', 'o', 't', ' '],
        Lit::Asc => seq![' ', 'a', 's', 'c'],
        Lit::Desc => seq![' ', 'd', 'e', 's', 'c'],
        Lit::Has => seq![' ', 'h', 'a', 's', ' '],
        Lit::In => seq![' ', 'i', 'n', ' '],
        Lit::Mul => seq![' ', 'm', 'u', 'l', ' '],
        Lit::Div => seq![' ', 'd', 'i', 'v', ' '],
        Lit::Divby => seq![' ', 'd', 'i', 'v', 'b', 'y', ' '],
        Lit::Mod => seq![' ', 'm', 'o', 'd', ' '],
        Lit::Add => seq![' ', 'a', 'd', 'd', ' '],
        Lit::Sub => seq![' ', 's', 'u', 'b', ' '],
        Lit::Gt => seq![' ', 'g', 't', ' '],
        Lit::Ge => seq![' ', 'g', 'e', ' '],
        Lit::Lt => seq![' ', 'l', 't', ' '],
        Lit::Le => seq![' ', 'l', 'e', ' '],
        Lit::Eq => seq![' ', 'e', 'q', ' '],
        Lit::Ne => seq![' ', 'n', 'e', ' '],
        Lit::And => seq![' ', 'a', 'n', 'd', ' '],
        Lit::Or => seq![' ', 'o', 'r', ' '],
        Lit::Delim => seq!['&'],
        Lit::LParen => seq!['('],
        Lit::RParen => seq![')'],
        Lit::LBracket => seq!['['],
        Lit::RBracket => seq![']'],
        Lit::Comma => seq![','],
        Lit::Wildcard => seq!['*'],
        Lit::Slash => seq!['/'],
        Lit::Semi => seq![';'],
    }
}

pub open spec fn lit_token(l: Lit) -> TokV {
    match l {
        Lit::Null => TokV::Null,
        Lit::False => TokV::Bool(false),
        Lit::True => TokV::Bool(true),
        Lit::Not => TokV::UnOp(UnOp::Not),
        Lit::Asc => TokV::UnOp(UnOp::Asc),
        Lit::Desc => TokV::UnOp(UnOp::Desc),
        Lit::Has => TokV::BinOp(BinOp::Has),
        Lit::In => TokV::BinOp(BinOp::In),
        Lit::Mul => TokV::BinOp(BinOp::Mul),
        Lit::Div => TokV::BinOp(BinOp::Div),
        Lit::Divby => TokV::BinOp(BinOp::Divby),
        Lit::Mod => TokV::BinOp(BinOp::Mod),
        Lit::Add => TokV::BinOp(BinOp::Add),
        Lit::Sub => TokV::BinOp(BinOp::Sub),
        Lit::Gt => TokV::BinOp(BinOp::Gt),
        Lit::Ge => TokV::BinOp(BinOp::Ge),
        Lit::Lt => TokV::BinOp(BinOp::Lt),
        Lit::Le => TokV::BinOp(BinOp::Le),
        Lit::Eq => TokV::BinOp(BinOp::Eq),
        Lit::Ne => TokV::BinOp(BinOp::Ne),
        Lit::And => TokV::BinOp(BinOp::And),
        Lit::Or => TokV::BinOp(BinOp::Or),
        Lit::Delim => TokV::Ctrl(Ctrl::Delim),
        Lit::LParen => TokV::Ctrl(Ctrl::LParen),
        Lit::RParen => TokV::Ctrl(Ctrl::RParen),
        Lit::LBracket => TokV::Ctrl(Ctrl::LBracket),
        Lit::RBracket => TokV::Ctrl(Ctrl::RBracket),
        Lit::Comma => TokV::Ctrl(Ctrl::Comma),
        Lit::Wildcard => TokV::Ctrl(Ctrl::Wildcard),
        Lit::Slash => TokV::Ctrl(Ctrl::Slash),
        Lit::Semi => TokV::Ctrl(Ctrl::Semi),
    }
}

fn lit_chars(l: Lit) -> (r: &'static [char])
    ensures
        r@ == lit_text(l),
{
    match l {
        Lit::Null => &['n', 'u', 'l', 'l'],
        Lit::False => &['f', 'a', 'l', 's', 'e'],
        Lit::True => &['t', 'r', 'u', 'e'],
        Lit::Not => &['n', 'o', 't', ' '],
        Lit::Asc => &[' ', 'a', 's', 'c'],
        Lit::Desc => &[' ', 'd', 'e', 's', 'c'],
        Lit::Has => &[' ', 'h', 'a', 's', ' '],
        Lit::In => &[' ', 'i', 'n', ' '],
        Lit::Mul => &[' ', 'm', 'u', 'l', ' '],
        Lit::Div => &[' ', 'd', 'i', 'v', ' '],
        Lit::Divby => &[' ', 'd', 'i', 'v', 'b', 'y', ' '],
        Lit::Mod => &[' ', 'm', 'o', 'd', ' '],
        Lit::Add => &[' ', 'a', 'd', 'd', ' '],
        Lit::Sub => &[' ', 's', 'u', 'b', ' '],
        Lit::Gt => &[' ', 'g', 't', ' '],
        Lit::Ge => &[' ', 'g', 'e', ' '],
        Lit::Lt => &[' ', 'l', 't', ' '],
        Lit::Le => &[' ', 'l', 'e', ' '],
        Lit::Eq => &[' ', 'e', 'q', ' '],
        Lit::Ne => &[' ', 'n', 'e', ' '],
        Lit::And => &[' ', 'a', 'n', 'd', ' '],
        Lit::Or => &[' ', 'o', 'r', ' '],
        Lit::Delim => &['&'],
        Lit::LParen => &['('],
        Lit::RParen => &[')'],
        Lit::LBracket => &['['],
        Lit::RBracket => &[']'],
        Lit::Comma => &[','],
        Lit::Wildcard => &['*'],
        Lit::Slash => &['/'],
        Lit::Semi => &[';'],
    }
}

fn lit_tok<'src>(l: Lit) -> (t: Token<'src>)
    ensures
        t@ == lit_token(l),
{
    match l {
        Lit::Null => Token::Null,
        Lit::False => Token::Bool(false),
        Lit::True => Token::Bool(true),
        Lit::Not => Token::UnOp(UnOp::Not),
        Lit::Asc => Token::UnOp(UnOp::Asc),
        Lit::Desc => Token::UnOp(UnOp::Desc),
        Lit::Has => Token::BinOp(BinOp::Has),
        Lit::In => Token::BinOp(BinOp::In),
        Lit::Mul => Token::BinOp(BinOp::Mul),
        Lit::Div => Token::BinOp(BinOp::Div),
        Lit::Divby => Token::BinOp(BinOp::Divby),
        Lit::Mod => Token::BinOp(BinOp::Mod),
        Lit::Add => Token::BinOp(BinOp::Add),
        Lit::Sub => Token::BinOp(BinOp::Sub),
        Lit::Gt => Token::BinOp(BinOp::Gt),
        Lit::Ge => Token::BinOp(BinOp::Ge),
        Lit::Lt => Token::BinOp(BinOp::Lt),
        Lit::Le => Token::BinOp(BinOp::Le),
        Lit::Eq => Token::BinOp(BinOp::Eq),
        Lit::Ne => Token::BinOp(BinOp::Ne),
        Lit::And => Token::BinOp(BinOp::And),
        Lit::Or => Token::BinOp(BinOp::Or),
        Lit::Delim => Token::Ctrl(Ctrl::Delim),
        Lit::LParen => Token::Ctrl(Ctrl::LParen),
        Lit::RParen => Token::Ctrl(Ctrl::RParen),
        Lit::LBracket => Token::Ctrl(Ctrl::LBracket),
        Lit::RBracket => Token::Ctrl(Ctrl::RBracket),
        Lit::Comma => Token::Ctrl(Ctrl::Comma),
        Lit::Wildcard => Token::Ctrl(Ctrl::Wildcard),
        Lit::Slash => Token::Ctrl(Ctrl::Slash),
        Lit::Semi => Token::Ctrl(Ctrl::Semi),
    }
}

/// The patterns of the lexical grammar.
#[derive(Debug, Clone, Copy, PartialEq, Eq, Structural)]
pub enum Cand {
    /// No pattern matches.
    Nothing,
    /// `\s+`, skipped.
    Skip,
    /// `\$?keyword=` (`\$?count=?`).
    Kw(Keyword),
    /// `\$?search=[^&]+`
    SearchRaw,
    /// `\$?search='[^']*'`
    SearchStr,
    /// `\$?search=''(?:[^']|'[^'])*''`
    SearchStr2,
    /// `[A-Za-z_][A-Za-z0-9_]*`
    Ident,
    /// A fixed text.
    Lit(Lit),
    /// `\d+`
    Offset,
    /// `[+-]?([0-9]*[.])?[0-9]+`
    Num,
    /// `'[^']*'`
    Str,
    /// `''(?:[^']|'[^'])*''`
    Str2,
    /// `\d{4}-(?:0[1-9]|1[0-2])-(?:0[1-9]|[12]\d|3[01])`
    Date,
    /// A date, `T`, `hh:mm:ss`, an optional fraction of 1 to 9 digits and `Z` or an offset `[+-]hh:mm`.
    Ts,
}

pub open spec fn kw_word(k: Keyword) -> Seq<char> {
    match k {
        Keyword::Compute => seq!['c', 'o', 'm', 'p', 'u', 't', 'e'],
        Keyword::Count => seq!['c', 'o', 'u', 'n', 't'],
        Keyword::Expand => seq!['e', 'x', 'p', 'a', 'n', 'd'],
        Keyword::Filter => seq!['f', 'i', 'l', 't', 'e', 'r'],
        Keyword::Orderby => seq!['o', 'r', 'd', 'e', 'r', 'b', 'y'],
        Keyword::Select => seq!['s', 'e', 'l', 'e', 'c', 't'],
        Keyword::Skip => seq!['s', 'k', 'i', 'p'],
        Keyword::Top => seq!['t', 'o', 'p'],
    }
}

fn kw_chars(k: Keyword) -> (r: &'static [char])
    ensures
        r@ == kw_word(k),
{
    match k {
        Keyword::Compute => &['c', 'o', 'm', 'p', 'u', 't', 'e'],
        Keyword::Count => &['c', 'o', 'u', 'n', 't'],
        Keyword::Expand => &['e', 'x', 'p', 'a', 'n', 'd'],
        Keyword::Filter => &['f', 'i', 'l', 't', 'e', 'r'],
        Keyword::Orderby => &['o', 'r', 'd', 'e', 'r', 'b', 'y'],
        Keyword::Select => &['s', 'e', 'l', 'e', 'c', 't'],
        Keyword::Skip => &['s', 'k', 'i', 'p'],
        Keyword::Top => &['t', 'o', 'p'],
    }
}

pub open spec fn search_word() -> Seq<char> {
    seq!['s', 'e', 'a', 'r', 'c', 'h', '=']
}

/// Priority of a pattern, deciding between matches of equal length: two per
/// literal character or class, nothing for optional or repeated parts; `\d+` has 3.
pub open spec fn priority(c: Cand) -> int {
    match c {
        Cand::Nothing => 0,
        Cand::Skip => 2,
        Cand::Kw(k) => if k == Keyword::Count {
            10
        } else {
            2 * kw_word(k).len() as int + 2
        },
        Cand::SearchRaw => 16,
        Cand::SearchStr => 18,
        Cand::SearchStr2 => 22,
        Cand::Ident => 2,
        Cand::Lit(l) => 2 * lit_text(l).len() as int,
        Cand::Offset => 3,
        Cand::Num => 2,
        Cand::Str => 4,
        Cand::Str2 => 8,
        Cand::Date => 20,
        Cand::Ts => 40,
    }
}

fn exec_priority(c: Cand) -> (r: u8)
    ensures
        r == priority(c),
{
    match c {
        Cand::Nothing => 0,
        Cand::Skip => 2,
        Cand::Kw(k) => {
            let w = kw_chars(k);
            if k == Keyword::Count {
                10
            } else {
                2 * (w.len() as u8) + 2
            }
        },
        Cand::SearchRaw => 16,
        Cand::SearchStr => 18,
        Cand::SearchStr2 => 22,
        Cand::Ident => 2,
        Cand::Lit(l) => {
            let t = lit_chars(l);
            assert(t@.len() <= 8);
            2 * (t.len() as u8)
        },
        Cand::Offset => 3,
        Cand::Num => 2,
        Cand::Str => 4,
        Cand::Str2 => 8,
        Cand::Date => 20,
        Cand::Ts => 40,
    }
}

// ---------------------------------------------------------------------------
// Matching the patterns (lengths; 0 where a pattern does not match)
// ---------------------------------------------------------------------------

pub open spec fn at(s: Seq<char>, i: int, c: char) -> bool {
    0 <= i < s.len() && s[i] == c
}

pub open spec fn in_range(s: Seq<char>, i: int, lo: char, hi: char) -> bool {
    0 <= i < s.len() && lo <= s[i] && s[i] <= hi
}

pub open spec fn udigit_at(s: Seq<char>, i: int) -> bool {
    0 <= i < s.len() && is_unicode_digit(s[i])
}

pub open spec fn lit_at(s: Seq<char>, i: int, t: Seq<char>) -> bool {
    0 <= i && i + t.len() <= s.len() && s.subrange(i, i + t.len()) == t
}

pub open spec fn dollar(s: Seq<char>, i: int) -> int {
    if at(s, i, '$') {
        1
    } else {
        0
    }
}

pub open spec fn kw_len(s: Seq<char>, i: int, k: Keyword) -> int {
    let p = i + dollar(s, i);
    let q = p + kw_word(k).len();
    if lit_at(s, p, kw_word(k)) {
        if at(s, q, '=') {
            q + 1 - i
        } else if k == Keyword::Count {
            q - i
        } else {
            0
        }
    } else {
        0
    }
}

/// Where the text of a `search=` option starts, after `$?search=`.
pub open spec fn search_start(s: Seq<char>, i: int) -> int {
    i + dollar(s, i) + 7
}

pub open spec fn has_search(s: Seq<char>, i: int) -> bool {
    lit_at(s, i + dollar(s, i), search_word())
}

/// End of `'[^']*'` starting at `q`, or -1.
pub open spec fn str_end(s: Seq<char>, q: int) -> int {
    if at(s, q, '\'') && q + 1 + run(s, q + 1, Class::NotQuote) < s.len() {
        q + 2 + run(s, q + 1, Class::NotQuote)
    } else {
        -1
    }
}

/// End of `(?:[^']|'[^'])*''` starting at `p`, or -1.
pub open spec fn str2_scan(s: Seq<char>, p: int) -> int
    decreases s.len() - p,
{
    if p < 0 || p >= s.len() {
        -1
    } else if s[p] == '\'' {
        if p + 1 < s.len() {
            if s[p + 1] == '\'' {
                p + 2
            } else {
                str2_scan(s, p + 2)
            }
        } else {
            -1
        }
    } else {
        str2_scan(s, p + 1)
    }
}

/// End of `''(?:[^']|'[^'])*''` starting at `q`, or -1.
pub open spec fn str2_end(s: Seq<char>, q: int) -> int {
    if at(s, q, '\'') && at(s, q + 1, '\'') {
        str2_scan(s, q + 2)
    } else {
        -1
    }
}

pub open spec fn date_ok(s: Seq<char>, i: int) -> bool {
    &&& udigit_at(s, i)
    &&& udigit_at(s, i + 1)
    &&& udigit_at(s, i + 2)
    &&& udigit_at(s, i + 3)
    &&& at(s, i + 4, '-')
    &&& ((at(s, i + 5, '0') && in_range(s, i + 6, '1', '9')) || (at(s, i + 5, '1') && in_range(
        s,
        i + 6,
        '0',
        '2',
    )))
    &&& at(s, i + 7, '-')
    &&& ((at(s, i + 8, '0') && in_range(s, i + 9, '1', '9')) || ((at(s, i + 8, '1') || at(
        s,
        i + 8,
        '2',
    )) && udigit_at(s, i + 9)) || (at(s, i + 8, '3') && in_range(s, i + 9, '0', '1')))
}

/// Date, `T` and `hh:mm:ss`.
pub open spec fn ts_head_ok(s: Seq<char>, i: int) -> bool {
    &&& date_ok(s, i)
    &&& at(s, i + 10, 'T')
    &&& (((at(s, i + 11, '0') || at(s, i + 11, '1')) && udigit_at(s, i + 12)) || (at(
        s,
        i + 11,
        '2',
    ) && in_range(s, i + 12, '0', '3')))
    &&& at(s, i + 13, ':')
    &&& in_range(s, i + 14, '0', '5')
    &&& udigit_at(s, i + 15)
    &&& at(s, i + 16, ':')
    &&& in_range(s, i + 17, '0', '5')
    &&& udigit_at(s, i + 18)
}

/// Where the zone of a timestamp starts, after the optional fraction; -1 where the fraction is malformed.
pub open spec fn ts_zone_start(s: Seq<char>, i: int) -> int {
    if at(s, i + 19, '.') {
        let f = run(s, i + 20, Class::UnicodeDigit);
        if 1 <= f <= 9 {
            i + 20 + f
        } else {
            -1
        }
    } else {
        i + 19
    }
}

/// End of `Z|[+-](?:0[0-9]|1[0-4]):[0-5][0-9]` at `t`, or -1.
pub open spec fn zone_end(s: Seq<char>, t: int) -> int {
    if at(s, t, 'Z') {
        t + 1
    } else if (at(s, t, '+') || at(s, t, '-')) && ((at(s, t + 1, '0') && in_range(
        s,
        t + 2,
        '0',
        '9',
    )) || (at(s, t + 1, '1') && in_range(s, t + 2, '0', '4'))) && at(s, t + 3, ':') && in_range(
        s,
        t + 4,
        '0',
        '5',
    ) && in_range(s, t + 5, '0', '9') {
        t + 6
    } else {
        -1
    }
}

pub open spec fn ts_len(s: Seq<char>, i: int) -> int {
    if ts_head_ok(s, i) && ts_zone_start(s, i) >= 0 && zone_end(s, ts_zone_start(s, i)) >= 0 {
        zone_end(s, ts_zone_start(s, i)) - i
    } else {
        0
    }
}

pub open spec fn num_len(s: Seq<char>, i: int) -> int {
    let sg = if at(s, i, '+') || at(s, i, '-') {
        1int
    } else {
        0int
    };
    let j = i + sg;
    let d1 = run(s, j, Class::AsciiDigit);
    let d2 = run(s, j + d1 + 1, Class::AsciiDigit);
    if at(s, j + d1, '.') && d2 >= 1 {
        sg + d1 + 1 + d2
    } else if d1 >= 1 {
        sg + d1
    } else {
        0
    }
}

/// Length of the match of pattern `c` at position `i`; 0 where it does not match.
pub open spec fn cand_len(s: Seq<char>, i: int, c: Cand) -> int {
    match c {
        Cand::Nothing => 0,
        Cand::Skip => run(s, i, Class::Space),
        Cand::Kw(k) => kw_len(s, i, k),
        Cand::SearchRaw => if has_search(s, i) && run(s, search_start(s, i), Class::NotAmp) >= 1 {
            search_start(s, i) + run(s, search_start(s, i), Class::NotAmp) - i
        } else {
            0
        },
        Cand::SearchStr => if has_search(s, i) && str_end(s, search_start(s, i)) >= 0 {
            str_end(s, search_start(s, i)) - i
        } else {
            0
        },
        Cand::SearchStr2 => if has_search(s, i) && str2_end(s, search_start(s, i)) >= 0 {
            str2_end(s, search_start(s, i)) - i
        } else {
            0
        },
        Cand::Ident => if 0 <= i < s.len() && is_ident_start(s[i]) {
            1 + run(s, i + 1, Class::IdentContinue)
        } else {
            0
        },
        Cand::Lit(l) => if lit_at(s, i, lit_text(l)) {
            lit_text(l).len() as int
        } else {
            0
        },
        Cand::Offset => run(s, i, Class::UnicodeDigit),
        Cand::Num => num_len(s, i),
        Cand::Str => if str_end(s, i) >= 0 {
            str_end(s, i) - i
        } else {
            0
        },
        Cand::Str2 => if str2_end(s, i) >= 0 {
            str2_end(s, i) - i
        } else {
            0
        },
        Cand::Date => if date_ok(s, i) {
            10
        } else {
            0
        },
        Cand::Ts => ts_len(s, i),
    }
}

/// All patterns, in the order in which they are tried.
pub open spec fn all_cands() -> Seq<Cand> {
    seq![
        Cand::Skip,
        Cand::Kw(Keyword::Compute),
        Cand::Kw(Keyword::Count),
        Cand::Kw(Keyword::Expand),
        Cand::Kw(Keyword::Filter),
        Cand::Kw(Keyword::Orderby),
        Cand::Kw(Keyword::Select),
        Cand::Kw(Keyword::Skip),
        Cand::Kw(Keyword::Top),
        Cand::SearchRaw,
        Cand::SearchStr,
        Cand::SearchStr2,
        Cand::Ident,
        Cand::Offset,
        Cand::Num,
        Cand::Str,
        Cand::Str2,
        Cand::Date,
        Cand::Ts,
        Cand::Lit(Lit::Null), Cand::Lit(Lit::False), Cand::Lit(Lit::True), Cand::Lit(Lit::Not), Cand::Lit(Lit::Asc), Cand::Lit(Lit::Desc), Cand::Lit(Lit::Has), Cand::Lit(Lit::In), Cand::Lit(Lit::Mul), Cand::Lit(Lit::Div), Cand::Lit(Lit::Divby), Cand::Lit(Lit::Mod), Cand::Lit(Lit::Add), Cand::Lit(Lit::Sub), Cand::Lit(Lit::Gt), Cand::Lit(Lit::Ge), Cand::Lit(Lit::Lt), Cand::Lit(Lit::Le), Cand::Lit(Lit::Eq), Cand::Lit(Lit::Ne), Cand::Lit(Lit::And), Cand::Lit(Lit::Or), Cand::Lit(Lit::Delim), Cand::Lit(Lit::LParen), Cand::Lit(Lit::RParen), Cand::Lit(Lit::LBracket), Cand::Lit(Lit::RBracket), Cand::Lit(Lit::Comma), Cand::Lit(Lit::Wildcard), Cand::Lit(Lit::Slash), Cand::Lit(Lit::Semi)
    ]
}

/// The better of two matches: the longer, or on equal length the one of higher priority.
pub open spec fn better(a: (Cand, int), b: (Cand, int)) -> (Cand, int) {
    if b.1 > a.1 || (b.1 == a.1 && b.1 > 0 && priority(b.0) > priority(a.0)) {
        b
    } else {
        a
    }
}

/// The best match at `i` among the patterns `cs`.
pub open spec fn pick(s: Seq<char>, i: int, cs: Seq<Cand>) -> (Cand, int)
    decreases cs.len(),
{
    if cs.len() == 0 {
        (Cand::Nothing, 0)
    } else {
        better(pick(s, i, cs.drop_last()), (cs.last(), cand_len(s, i, cs.last())))
    }
}


// ---------------------------------------------------------------------------
// Matching, executable
// ---------------------------------------------------------------------------

fn at_off(cs: &Vec<char>, i: usize, off: usize, c: char) -> (r: bool)
    requires
        i <= cs@.len(),
    ensures
        r == at(cs@, i + off, c),
{
    off < cs.len() - i && cs[i + off] == c
}

fn range_off(cs: &Vec<char>, i: usize, off: usize, lo: char, hi: char) -> (r: bool)
    requires
        i <= cs@.len(),
    ensures
        r == in_range(cs@, i + off, lo, hi),
{
    off < cs.len() - i && lo <= cs[i + off] && cs[i + off] <= hi
}

fn udigit_off(cs: &Vec<char>, i: usize, off: usize) -> (r: bool)
    requires
        i <= cs@.len(),
    ensures
        r == udigit_at(cs@, i + off),
{
    off < cs.len() - i && char_in_class(cs[i + off], Class::UnicodeDigit)
}

fn lit_at_exec(cs: &Vec<char>, i: usize, t: &[char]) -> (r: bool)
    requires
        i <= cs@.len(),
    ensures
        r == lit_at(cs@, i as int, t@),
{
    let len: usize = cs.len();
    assert(len == cs@.len());
    if t.len() > cs.len() - i {
        return false;
    }
    let mut k: usize = 0;
    while k < t.len()
        invariant
            len == cs@.len(),
            i + t@.len() <= cs@.len(),
            k <= t@.len(),
            forall|j: int| 0 <= j < k ==> cs@[i + j] == t@[j],
        decreases t@.len() - k,
    {
        if cs[i + k] != t[k] {
            assert(cs@.subrange(i as int, i + t@.len())[k as int] != t@[k as int]);
            return false;
        }
        k = k + 1;
    }
    assert(cs@.subrange(i as int, i + t@.len()) =~= t@);
    true
}

fn dollar_exec(cs: &Vec<char>, i: usize) -> (r: usize)
    requires
        i <= cs@.len(),
    ensures
        r == dollar(cs@, i as int),
        r <= cs@.len() - i,
{
    if at_off(cs, i, 0, '$') {
        1
    } else {
        0
    }
}

fn kw_len_exec(cs: &Vec<char>, i: usize, k: Keyword) -> (r: usize)
    requires
        i <= cs@.len(),
    ensures
        r == kw_len(cs@, i as int, k),
        r <= cs@.len() - i,
{
    let len: usize = cs.len();
    assert(len == cs@.len());
    let d = dollar_exec(cs, i);
    let w = kw_chars(k);
    if lit_at_exec(cs, i + d, w) {
        let q = d + w.len();
        if at_off(cs, i, q, '=') {
            q + 1
        } else if k == Keyword::Count {
            q
        } else {
            0
        }
    } else {
        0
    }
}

fn search_chars() -> (r: &'static [char])
    ensures
        r@ == search_word(),
{
    &['s', 'e', 'a', 'r', 'c', 'h', '=']
}

/// `Some(search_start)` where `$?search=` stands at `i`.
fn search_exec(cs: &Vec<char>, i: usize) -> (r: Option<usize>)
    requires
        i <= cs@.len(),
    ensures
        r is Some <==> has_search(cs@, i as int),
        r matches Some(q) ==> q == search_start(cs@, i as int) && q <= cs@.len(),
{
    let len: usize = cs.len();
    assert(len == cs@.len());
    let d = dollar_exec(cs, i);
    if lit_at_exec(cs, i + d, search_chars()) {
        Some(i + d + 7)
    } else {
        None
    }
}

fn str_end_exec(cs: &Vec<char>, q: usize) -> (r: Option<usize>)
    requires
        q <= cs@.len(),
    ensures
        match r {
            Some(e) => e == str_end(cs@, q as int) && q < e <= cs@.len(),
            None => str_end(cs@, q as int) < 0,
        },
{
    let len: usize = cs.len();
    assert(len == cs@.len());
    if at_off(cs, q, 0, '\'') {
        let r = run_len(cs, q + 1, Class::NotQuote);
        if q + 1 + r < cs.len() {
            Some(q + 2 + r)
        } else {
            None
        }
    } else {
        None
    }
}

proof fn lemma_str2_scan(s: Seq<char>, p: int)
    ensures
        str2_scan(s, p) >= 0 ==> p < str2_scan(s, p) <= s.len(),
    decreases s.len() - p,
{
    if 0 <= p < s.len() {
        if s[p] == '\'' {
            if p + 1 < s.len() && s[p + 1] != '\'' {
                lemma_str2_scan(s, p + 2);
            }
        } else {
            lemma_str2_scan(s, p + 1);
        }
    }
}

fn str2_end_exec(cs: &Vec<char>, q: usize) -> (r: Option<usize>)
    requires
        q <= cs@.len(),
    ensures
        match r {
            Some(e) => e == str2_end(cs@, q as int) && q < e <= cs@.len(),
            None => str2_end(cs@, q as int) < 0,
        },
{
    let len: usize = cs.len();
    assert(len == cs@.len());
    if !(at_off(cs, q, 0, '\'') && at_off(cs, q, 1, '\'')) {
        return None;
    }
    let mut p: usize = q + 2;
    proof {
        lemma_str2_scan(cs@, p as int);
    }
    while p < cs.len()
        invariant
            q + 2 <= p <= cs@.len(),
            str2_end(cs@, q as int) == str2_scan(cs@, p as int),
        decreases cs@.len() - p,
    {
        if cs[p] == '\'' {
            if p + 1 < cs.len() {
                if cs[p + 1] == '\'' {
                    return Some(p + 2);
                } else {
                    p = p + 2;
                }
            } else {
                return None;
            }
        } else {
            p = p + 1;
        }
    }
    None
}

fn date_ok_exec(cs: &Vec<char>, i: usize) -> (r: bool)
    requires
        i <= cs@.len(),
    ensures
        r == date_ok(cs@, i as int),
{
    udigit_off(cs, i, 0) && udigit_off(cs, i, 1) && udigit_off(cs, i, 2) && udigit_off(cs, i, 3)
        && at_off(cs, i, 4, '-') && ((at_off(cs, i, 5, '0') && range_off(cs, i, 6, '1', '9')) || (
    at_off(cs, i, 5, '1') && range_off(cs, i, 6, '0', '2'))) && at_off(cs, i, 7, '-') && ((
    at_off(cs, i, 8, '0') && range_off(cs, i, 9, '1', '9')) || ((at_off(cs, i, 8, '1') || at_off(
        cs,
        i,
        8,
        '2',
    )) && udigit_off(cs, i, 9)) || (at_off(cs, i, 8, '3') && range_off(cs, i, 9, '0', '1')))
}

fn ts_len_exec(cs: &Vec<char>, i: usize) -> (r: usize)
    requires
        i <= cs@.len(),
    ensures
        r == ts_len(cs@, i as int),
        r <= cs@.len() - i,
{
    let len: usize = cs.len();
    assert(len == cs@.len());
    let head = date_ok_exec(cs, i) && at_off(cs, i, 10, 'T') && (((at_off(cs, i, 11, '0')
        || at_off(cs, i, 11, '1')) && udigit_off(cs, i, 12)) || (at_off(cs, i, 11, '2')
        && range_off(cs, i, 12, '0', '3'))) && at_off(cs, i, 13, ':') && range_off(
        cs,
        i,
        14,
        '0',
        '5',
    ) && udigit_off(cs, i, 15) && at_off(cs, i, 16, ':') && range_off(cs, i, 17, '0', '5')
        && udigit_off(cs, i, 18);
    if !head {
        return 0;
    }
    assert(i + 19 <= cs@.len());
    let t: usize;
    if at_off(cs, i, 19, '.') {
        let f = run_len(cs, i + 20, Class::UnicodeDigit);
        if 1 <= f && f <= 9 {
            t = 20 + f;
        } else {
            return 0;
        }
    } else {
        t = 19;
    }
    assert(ts_zone_start(cs@, i as int) == i + t);
    if at_off(cs, i, t, 'Z') {
        t + 1
    } else if (at_off(cs, i, t, '+') || at_off(cs, i, t, '-')) && ((at_off(cs, i, t + 1, '0')
        && range_off(cs, i, t + 2, '0', '9')) || (at_off(cs, i, t + 1, '1') && range_off(
        cs,
        i,
        t + 2,
        '0',
        '4',
    ))) && at_off(cs, i, t + 3, ':') && range_off(cs, i, t + 4, '0', '5') && range_off(
        cs,
        i,
        t + 5,
        '0',
        '9',
    ) {
        t + 6
    } else {
        0
    }
}

fn num_len_exec(cs: &Vec<char>, i: usize) -> (r: usize)
    requires
        i <= cs@.len(),
    ensures
        r == num_len(cs@, i as int),
        r <= cs@.len() - i,
{
    let len: usize = cs.len();
    assert(len == cs@.len());
    let sg: usize = if at_off(cs, i, 0, '+') || at_off(cs, i, 0, '-') {
        1
    } else {
        0
    };
    let j = i + sg;
    let d1 = run_len(cs, j, Class::AsciiDigit);
    if at_off(cs, j, d1, '.') {
        let d2 = run_len(cs, j + d1 + 1, Class::AsciiDigit);
        if d2 >= 1 {
            return sg + d1 + 1 + d2;
        }
    }
    if d1 >= 1 {
        sg + d1
    } else {
        0
    }
}

proof fn lemma_cand_len_bounds(s: Seq<char>, i: int, c: Cand)
    requires
        0 <= i <= s.len(),
    ensures
        0 <= cand_len(s, i, c) <= s.len() - i,
{
    lemma_run_bounds(s, i, Class::Space);
    lemma_run_bounds(s, i, Class::UnicodeDigit);
    if 0 <= i < s.len() {
        lemma_run_bounds(s, i + 1, Class::IdentContinue);
        lemma_run_bounds(s, i + 1, Class::NotQuote);
    }
    lemma_str2_scan(s, i + 2);
    if has_search(s, i) {
        let q = search_start(s, i);
        lemma_run_bounds(s, q, Class::NotAmp);
        if q < s.len() {
            lemma_run_bounds(s, q + 1, Class::NotQuote);
        }
        lemma_str2_scan(s, q + 2);
    }
    if i + 20 <= s.len() {
        lemma_run_bounds(s, i + 20, Class::UnicodeDigit);
    }
    let sg = if at(s, i, '+') || at(s, i, '-') {
        1int
    } else {
        0int
    };
    if i + sg <= s.len() {
        lemma_run_bounds(s, i + sg, Class::AsciiDigit);
        let d1 = run(s, i + sg, Class::AsciiDigit);
        if i + sg + d1 + 1 <= s.len() {
            lemma_run_bounds(s, i + sg + d1 + 1, Class::AsciiDigit);
        }
    }
}

fn cand_len_exec(cs: &Vec<char>, i: usize, c: Cand) -> (r: usize)
    requires
        i <= cs@.len(),
    ensures
        r == cand_len(cs@, i as int, c),
        r <= cs@.len() - i,
{
    let len: usize = cs.len();
    assert(len == cs@.len());
    proof {
        lemma_cand_len_bounds(cs@, i as int, c);
    }
    match c {
        Cand::Nothing => 0,
        Cand::Skip => run_len(cs, i, Class::Space),
        Cand::Kw(k) => kw_len_exec(cs, i, k),
        Cand::SearchRaw => match search_exec(cs, i) {
            Some(q) => {
                let r = run_len(cs, q, Class::NotAmp);
                if r >= 1 {
                    q + r - i
                } else {
                    0
                }
            },
            None => 0,
        },
        Cand::SearchStr => match search_exec(cs, i) {
            Some(q) => match str_end_exec(cs, q) {
                Some(e) => e - i,
                None => 0,
            },
            None => 0,
        },
        Cand::SearchStr2 => match search_exec(cs, i) {
            Some(q) => match str2_end_exec(cs, q) {
                Some(e) => e - i,
                None => 0,
            },
            None => 0,
        },
        Cand::Ident => {
            if i < cs.len() && ('A' <= cs[i] && cs[i] <= 'Z' || 'a' <= cs[i] && cs[i] <= 'z' || cs[i]
                == '_') {
                1 + run_len(cs, i + 1, Class::IdentContinue)
            } else {
                0
            }
        },
        Cand::Lit(l) => {
            let t = lit_chars(l);
            if lit_at_exec(cs, i, t) {
                t.len()
            } else {
                0
            }
        },
        Cand::Offset => run_len(cs, i, Class::UnicodeDigit),
        Cand::Num => num_len_exec(cs, i),
        Cand::Str => match str_end_exec(cs, i) {
            Some(e) => e - i,
            None => 0,
        },
        Cand::Str2 => match str2_end_exec(cs, i) {
            Some(e) => e - i,
            None => 0,
        },
        Cand::Date => if date_ok_exec(cs, i) {
            10
        } else {
            0
        },
        Cand::Ts => ts_len_exec(cs, i),
    }
}

fn all_cands_exec() -> (r: Vec<Cand>)
    ensures
        r@ == all_cands(),
{
    let r = vec![
        Cand::Skip,
        Cand::Kw(Keyword::Compute),
        Cand::Kw(Keyword::Count),
        Cand::Kw(Keyword::Expand),
        Cand::Kw(Keyword::Filter),
        Cand::Kw(Keyword::Orderby),
        Cand::Kw(Keyword::Select),
        Cand::Kw(Keyword::Skip),
        Cand::Kw(Keyword::Top),
        Cand::SearchRaw,
        Cand::SearchStr,
        Cand::SearchStr2,
        Cand::Ident,
        Cand::Offset,
        Cand::Num,
        Cand::Str,
        Cand::Str2,
        Cand::Date,
        Cand::Ts,
        Cand::Lit(Lit::Null), Cand::Lit(Lit::False), Cand::Lit(Lit::True), Cand::Lit(Lit::Not), Cand::Lit(Lit::Asc), Cand::Lit(Lit::Desc), Cand::Lit(Lit::Has), Cand::Lit(Lit::In), Cand::Lit(Lit::Mul), Cand::Lit(Lit::Div), Cand::Lit(Lit::Divby), Cand::Lit(Lit::Mod), Cand::Lit(Lit::Add), Cand::Lit(Lit::Sub), Cand::Lit(Lit::Gt), Cand::Lit(Lit::Ge), Cand::Lit(Lit::Lt), Cand::Lit(Lit::Le), Cand::Lit(Lit::Eq), Cand::Lit(Lit::Ne), Cand::Lit(Lit::And), Cand::Lit(Lit::Or), Cand::Lit(Lit::Delim), Cand::Lit(Lit::LParen), Cand::Lit(Lit::RParen), Cand::Lit(Lit::LBracket), Cand::Lit(Lit::RBracket), Cand::Lit(Lit::Comma), Cand::Lit(Lit::Wildcard), Cand::Lit(Lit::Slash), Cand::Lit(Lit::Semi)
    ];
    assert(r@ =~= all_cands());
    r
}

fn pick_exec(cs: &Vec<char>, i: usize) -> (r: (Cand, usize))
    requires
        i <= cs@.len(),
    ensures
        (r.0, r.1 as int) == pick(cs@, i as int, all_cands()),
        r.1 <= cs@.len() - i,
{
    let cands = all_cands_exec();
    let mut best: (Cand, usize) = (Cand::Nothing, 0);
    let mut k: usize = 0;
    while k < cands.len()
        invariant
            i <= cs@.len(),
            cands@ == all_cands(),
            k <= cands@.len(),
            (best.0, best.1 as int) == pick(cs@, i as int, all_cands().take(k as int)),
            best.1 <= cs@.len() - i,
        decreases cands@.len() - k,
    {
        let c = cands[k];
        let n = cand_len_exec(cs, i, c);
        assert(all_cands().take(k + 1).drop_last() =~= all_cands().take(k as int));
        if n > best.1 || (n == best.1 && n > 0 && exec_priority(c) > exec_priority(best.0)) {
            best = (c, n);
        }
        k = k + 1;
    }
    assert(all_cands().take(cands@.len() as int) =~= all_cands());
    best
}

} // verus!

verus! {

// ---------------------------------------------------------------------------
// Token values
// ---------------------------------------------------------------------------

/// First index in `a..b` after the leading quotes.
pub open spec fn lead(s: Seq<char>, a: int, b: int) -> int
    decreases b - a,
{
    if a < b && 0 <= a < s.len() && s[a] == '\'' {
        lead(s, a + 1, b)
    } else {
        a
    }
}

/// Last index in `a..b` before the trailing quotes.
pub open spec fn trail(s: Seq<char>, a: int, b: int) -> int
    decreases b - a,
{
    if a < b && 0 <= b - 1 < s.len() && s[b - 1] == '\'' {
        trail(s, a, b - 1)
    } else {
        b
    }
}

/// `s[a..b]` without its leading and trailing quotes (`str::trim_matches('\'')`).
pub open spec fn trim_quotes(s: Seq<char>, a: int, b: int) -> Seq<char> {
    s.subrange(lead(s, a, b), trail(s, lead(s, a, b), b))
}

pub open spec fn ascii_digits(t: Seq<char>) -> bool {
    forall|k: int| 0 <= k < t.len() ==> is_ascii_digit(#[trigger] t[k])
}

/// The value of a string of ASCII digits.
pub open spec fn digits_value(t: Seq<char>) -> nat
    decreases t.len(),
{
    if t.len() == 0 {
        0
    } else {
        digits_value(t.drop_last()) * 10 + (t.last() as int - 48) as nat
    }
}

/// What the lexer makes of a match.
pub enum Produced {
    Skip,
    Tok(TokV),
}

/// The token made of the match of pattern `c` over `s[i..i+n]`; a literal whose value
/// cannot be represented (an offset beyond `u128`, a number, date or timestamp that
/// the parsing library refuses) is an error token.
pub open spec fn token_of(s: Seq<char>, i: int, c: Cand, n: int) -> Produced {
    let text = s.subrange(i, i + n);
    match c {
        Cand::Nothing => Produced::Tok(TokV::Error),
        Cand::Skip => Produced::Skip,
        Cand::Kw(k) => Produced::Tok(TokV::Kw(k)),
        Cand::SearchRaw => Produced::Tok(TokV::Search(s.subrange(search_start(s, i), i + n))),
        Cand::SearchStr => Produced::Tok(TokV::Search(trim_quotes(s, search_start(s, i), i + n))),
        Cand::SearchStr2 => Produced::Tok(TokV::Search(trim_quotes(s, search_start(s, i), i + n))),
        Cand::Ident => Produced::Tok(TokV::Ident(text)),
        Cand::Lit(l) => Produced::Tok(lit_token(l)),
        Cand::Offset => if ascii_digits(text) && digits_value(text) <= u128::MAX {
            Produced::Tok(TokV::Offset(digits_value(text) as u128))
        } else {
            Produced::Tok(TokV::Error)
        },
        Cand::Num => match decimal_of(text) {
            Some((m, sc)) => Produced::Tok(TokV::Num(Number { mantissa: m, scale: sc })),
            None => Produced::Tok(TokV::Error),
        },
        Cand::Str => Produced::Tok(TokV::Str(trim_quotes(s, i, i + n))),
        Cand::Str2 => Produced::Tok(TokV::Str(trim_quotes(s, i, i + n))),
        Cand::Date => match civil_date_of(text) {
            Some((y, m, d)) => Produced::Tok(
                TokV::Date(Date::Date(CivilDate { year: y, month: m, day: d })),
            ),
            None => Produced::Tok(TokV::Error),
        },
        Cand::Ts => match timestamp_of(text) {
            Some((sec, ns)) => Produced::Tok(
                TokV::Date(Date::Timestamp(Timestamp { second: sec, nanosecond: ns })),
            ),
            None => Produced::Tok(TokV::Error),
        },
    }
}

/// The tokens of a source.
pub struct LexedV {
    pub toks: Seq<SpannedV>,
}

pub open spec fn cons(t: SpannedV, rest: LexedV) -> LexedV {
    LexedV { toks: seq![t] + rest.toks }
}

/// The length of the error token at `i`, where no pattern matches there: a quote
/// that no later quote closes starts a string that runs to the end of the source,
/// and the error covers all of it; any other character is an error by itself.
pub open spec fn error_len(s: Seq<char>, i: int) -> int {
    if 0 <= i < s.len() && s[i] == '\'' {
        s.len() - i
    } else {
        1
    }
}

/// The tokens of `s` from position `i` on.
pub open spec fn lex_from(s: Seq<char>, i: int) -> LexedV
    decreases s.len() - i,
{
    if i < 0 || i >= s.len() {
        LexedV { toks: seq![] }
    } else {
        let (c, n) = pick(s, i, all_cands());
        if n <= 0 || i + n > s.len() {
            let e = error_len(s, i);
            cons(SpannedV { tok: TokV::Error, start: i as nat, end: (i + e) as nat }, lex_from(s, i + e))
        } else {
            match token_of(s, i, c, n) {
                Produced::Skip => lex_from(s, i + n),
                Produced::Tok(t) => cons(
                    SpannedV { tok: t, start: i as nat, end: (i + n) as nat },
                    lex_from(s, i + n),
                ),
            }
        }
    }
}

/// The tokens of a source.
pub open spec fn lex_spec(s: Seq<char>) -> LexedV {
    lex_from(s, 0)
}

/// The tokens of a source, with the source itself.
pub struct Lexed<'src> {
    pub source: &'src str,
    pub toks: Vec<Spanned<'src>>,
}

impl<'src> View for Lexed<'src> {
    type V = LexedV;

    open spec fn view(&self) -> LexedV {
        LexedV { toks: self.toks@.map_values(|t: Spanned<'src>| t@) }
    }
}

enum ProducedE<'src> {
    Skip,
    Tok(Token<'src>),
}

fn chars_of(value: &str) -> (cs: Vec<char>)
    ensures
        cs@ == value@,
{
    let n = value.unicode_len();
    let mut cs: Vec<char> = Vec::new();
    let mut k: usize = 0;
    while k < n
        invariant
            n == value@.len(),
            k <= n,
            cs@ == value@.take(k as int),
        decreases n - k,
    {
        let c = value.get_char(k);
        cs.push(c);
        k = k + 1;
        assert(cs@ =~= value@.take(k as int));
    }
    assert(value@.take(n as int) =~= value@);
    cs
}

fn lead_exec(cs: &Vec<char>, a: usize, b: usize) -> (r: usize)
    requires
        a <= b <= cs@.len(),
    ensures
        r == lead(cs@, a as int, b as int),
        a <= r <= b,
{
    let mut k: usize = a;
    while k < b && cs[k] == '\''
        invariant
            a <= k <= b <= cs@.len(),
            lead(cs@, a as int, b as int) == lead(cs@, k as int, b as int),
        decreases b - k,
    {
        k = k + 1;
    }
    k
}

fn trail_exec(cs: &Vec<char>, a: usize, b: usize) -> (r: usize)
    requires
        a <= b <= cs@.len(),
    ensures
        r == trail(cs@, a as int, b as int),
        a <= r <= b,
{
    let mut k: usize = b;
    while k > a && cs[k - 1] == '\''
        invariant
            a <= k <= b <= cs@.len(),
            trail(cs@, a as int, b as int) == trail(cs@, a as int, k as int),
        decreases k - a,
    {
        k = k - 1;
    }
    k
}

fn trimmed<'src>(value: &'src str, cs: &Vec<char>, a: usize, b: usize) -> (r: &'src str)
    requires
        cs@ == value@,
        a <= b <= cs@.len(),
    ensures
        r@ == trim_quotes(cs@, a as int, b as int),
{
    let a2 = lead_exec(cs, a, b);
    let b2 = trail_exec(cs, a2, b);
    value.substring_char(a2, b2)
}

proof fn lemma_digits_prefix(t: Seq<char>, k: int)
    requires
        0 <= k <= t.len(),
        ascii_digits(t),
    ensures
        digits_value(t.take(k)) <= digits_value(t),
    decreases t.len() - k,
{
    if k < t.len() {
        lemma_digits_prefix(t, k + 1);
        assert(t.take(k + 1).drop_last() =~= t.take(k));
        assert(is_ascii_digit(t[k]));
        assert(t.take(k + 1).last() == t[k]);
    } else {
        assert(t.take(k) =~= t);
    }
}

fn offset_value(cs: &Vec<char>, i: usize, n: usize) -> (r: Option<u128>)
    requires
        i + n <= cs@.len(),
    ensures
        r is Some <==> (ascii_digits(cs@.subrange(i as int, i + n)) && digits_value(
            cs@.subrange(i as int, i + n),
        ) <= u128::MAX),
        r matches Some(v) ==> v == digits_value(cs@.subrange(i as int, i + n)),
{
    let len: usize = cs.len();
    let ghost t = cs@.subrange(i as int, i + n);
    let mut v: u128 = 0;
    let mut k: usize = 0;
    while k < n
        invariant
            len == cs@.len(),
            i + n <= cs@.len(),
            t == cs@.subrange(i as int, i + n),
            k <= n,
            ascii_digits(t.take(k as int)),
            v == digits_value(t.take(k as int)),
        decreases n - k,
    {
        let c = cs[i + k];
        assert(t.take(k + 1).drop_last() =~= t.take(k as int));
        if !('0' <= c && c <= '9') {
            assert(!is_ascii_digit(t[k as int]));
            return None;
        }
        let d = (c as u32 - 48) as u128;
        match v.checked_mul(10) {
            Some(v10) => match v10.checked_add(d) {
                Some(v2) => {
                    v = v2;
                },
                None => {
                    proof {
                        if ascii_digits(t) {
                            lemma_digits_prefix(t, k + 1);
                        }
                    }
                    return None;
                },
            },
            None => {
                proof {
                    if ascii_digits(t) {
                        lemma_digits_prefix(t, k + 1);
                    }
                }
                return None;
            },
        }
        k = k + 1;
        assert(ascii_digits(t.take(k as int)));
    }
    assert(t.take(n as int) =~= t);
    Some(v)
}

fn token_exec<'src>(value: &'src str, cs: &Vec<char>, i: usize, c: Cand, n: usize) -> (r: ProducedE<
    'src,
>)
    requires
        cs@ == value@,
        i + n <= cs@.len(),
        c == Cand::SearchRaw || c == Cand::SearchStr || c == Cand::SearchStr2 ==> has_search(
            cs@,
            i as int,
        ) && search_start(cs@, i as int) <= i + n,
    ensures
        match (r, token_of(cs@, i as int, c, n as int)) {
            (ProducedE::Skip, Produced::Skip) => true,
            (ProducedE::Tok(t), Produced::Tok(tv)) => t@ == tv,
            _ => false,
        },
{
    let len: usize = cs.len();
    assert(len == cs@.len());
    let ghost text = cs@.subrange(i as int, i + n);
    match c {
        Cand::Nothing => ProducedE::Tok(Token::Error),
        Cand::Skip => ProducedE::Skip,
        Cand::Kw(k) => ProducedE::Tok(Token::Kw(k)),
        Cand::SearchRaw => {
            let q = i + dollar_exec(cs, i) + 7;
            ProducedE::Tok(Token::Search(value.substring_char(q, i + n)))
        },
        Cand::SearchStr | Cand::SearchStr2 => {
            let q = i + dollar_exec(cs, i) + 7;
            ProducedE::Tok(Token::Search(trimmed(value, cs, q, i + n)))
        },
        Cand::Ident => ProducedE::Tok(Token::Ident(value.substring_char(i, i + n))),
        Cand::Lit(l) => ProducedE::Tok(lit_tok(l)),
        Cand::Offset => match offset_value(cs, i, n) {
            Some(v) => ProducedE::Tok(Token::Offset(v)),
            None => ProducedE::Tok(Token::Error),
        },
        Cand::Num => match parse_decimal(value.substring_char(i, i + n)) {
            Some((m, sc)) => ProducedE::Tok(Token::Num(Number { mantissa: m, scale: sc })),
            None => ProducedE::Tok(Token::Error),
        },
        Cand::Str | Cand::Str2 => ProducedE::Tok(Token::Str(trimmed(value, cs, i, i + n))),
        Cand::Date => match parse_civil_date(value.substring_char(i, i + n)) {
            Some((y, m, d)) => ProducedE::Tok(
                Token::Date(Date::Date(CivilDate { year: y, month: m, day: d })),
            ),
            None => ProducedE::Tok(Token::Error),
        },
        Cand::Ts => match parse_timestamp(value.substring_char(i, i + n)) {
            Some((sec, ns)) => ProducedE::Tok(
                Token::Date(Date::Timestamp(Timestamp { second: sec, nanosecond: ns })),
            ),
            None => ProducedE::Tok(Token::Error),
        },
    }
}

proof fn lemma_pick_search(s: Seq<char>, i: int, cs: Seq<Cand>)
    requires
        0 <= i <= s.len(),
    ensures
        ({
            let (c, n) = pick(s, i, cs);
            (c == Cand::SearchRaw || c == Cand::SearchStr || c == Cand::SearchStr2) && n > 0
                ==> has_search(s, i) && search_start(s, i) <= i + n
        }),
        pick(s, i, cs).1 == cand_len(s, i, pick(s, i, cs).0),
    decreases cs.len(),
{
    if cs.len() > 0 {
        lemma_pick_search(s, i, cs.drop_last());
        let c = cs.last();
        if has_search(s, i) {
            let q = search_start(s, i);
            lemma_run_bounds(s, q, Class::NotAmp);
            if q < s.len() {
                lemma_run_bounds(s, q + 1, Class::NotQuote);
            }
            lemma_str2_scan(s, q + 2);
        }
    }
}

/// Splits a query string into tokens.
pub fn lex<'src>(value: &'src str) -> (lx: Lexed<'src>)
    ensures
        lx@ == lex_spec(value@),
        lx.source == value,
{
    let cs = chars_of(value);
    let mut toks: Vec<Spanned<'src>> = Vec::new();
    let mut i: usize = 0;
    while i < cs.len()
        invariant
            cs@ == value@,
            i <= cs@.len(),
            lex_from(value@, 0) == (LexedV {
                toks: toks@.map_values(|t: Spanned<'src>| t@) + lex_from(value@, i as int).toks,
            }),
        decreases cs@.len() - i,
    {
        let (c, n) = pick_exec(&cs, i);
        proof {
            lemma_pick_search(cs@, i as int, all_cands());
        }
        let ghost old_toks = toks@;
        let ghost rest = lex_from(value@, i as int);
        if n == 0 {
            let e: usize = if cs[i] == '\'' {
                cs.len() - i
            } else {
                1
            };
            assert(e == error_len(value@, i as int));
            toks.push(Spanned { tok: Token::Error, start: i, end: i + e });
            assert(toks@.map_values(|t: Spanned<'src>| t@) =~= old_toks.map_values(
                |t: Spanned<'src>| t@,
            ) + seq![SpannedV { tok: TokV::Error, start: i as nat, end: (i + e) as nat }]);
            assert(rest == cons(
                SpannedV { tok: TokV::Error, start: i as nat, end: (i + e) as nat },
                lex_from(value@, i + e),
            ));
            assert(rest.toks =~= seq![SpannedV { tok: TokV::Error, start: i as nat, end: (i + e) as nat }] + lex_from(value@, i + e).toks);
            assert(toks@.map_values(|t: Spanned<'src>| t@) + lex_from(value@, i + e).toks
                =~= old_toks.map_values(|t: Spanned<'src>| t@) + rest.toks);
            i = i + e;
        } else {
            match token_exec(value, &cs, i, c, n) {
                ProducedE::Skip => {
                    assert(rest == lex_from(value@, i + n));
                    i = i + n;
                },
                ProducedE::Tok(t) => {
                    toks.push(Spanned { tok: t, start: i, end: i + n });
                    assert(toks@.map_values(|t: Spanned<'src>| t@) =~= old_toks.map_values(
                        |t: Spanned<'src>| t@,
                    ) + seq![SpannedV { tok: t@, start: i as nat, end: (i + n) as nat }]);
                    assert(rest == cons(
                        SpannedV { tok: t@, start: i as nat, end: (i + n) as nat },
                        lex_from(value@, i + n),
                    ));
                    assert(rest.toks =~= seq![SpannedV { tok: t@, start: i as nat, end: (i + n) as nat }] + lex_from(value@, i + n).toks);
                    assert(toks@.map_values(|t: Spanned<'src>| t@) + lex_from(value@, i + n).toks
                        =~= old_toks.map_values(|t: Spanned<'src>| t@) + rest.toks);
                    i = i + n;
                },
            }
        }
    }
    assert(toks@.map_values(|t: Spanned<'src>| t@) =~= toks@.map_values(|t: Spanned<'src>| t@)
        + seq![]);
    Lexed { source: value, toks }
}

} // verus!
