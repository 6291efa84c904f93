//! Tokens of OData query options and the character classes of their lexical grammar.
use vstd::prelude::*;

verus! {

/// Query option keywords, written `$name=` or `name=` (`$count` may omit the `=`).
#[derive(Debug, Clone, Copy, PartialEq, Eq, PartialOrd, Ord, Structural)]
pub enum Keyword {
    Compute,
    Count,
    Expand,
    Filter,
    Orderby,
    Select,
    Skip,
    Top,
}

/// Unary operators: `not ` before a filter, ` asc` / ` desc` after an orderby identifier.
#[derive(Debug, Clone, Copy, PartialEq, Eq, PartialOrd, Ord, Structural)]
pub enum UnOp {
    Not,
    Asc,
    Desc,
}

/// [OData $filter operations](https://docs.oasis-open.org/odata/odata/v4.01/odata-v4.01-part1-protocol.html#sec_BuiltinFilterOperations).
#[derive(Debug, Clone, Copy, PartialEq, Eq, PartialOrd, Ord, Structural)]
pub enum BinOp {
    Has,
    In,
    Mul,
    Div,
    Divby,
    Mod,
    Add,
    Sub,
    Gt,
    Ge,
    Lt,
    Le,
    Eq,
    Ne,
    And,
    Or,
}

impl View for BinOp {
    type V = BinOp;

    open spec fn view(&self) -> BinOp {
        *self
    }
}

/// Punctuation.
#[derive(Debug, Clone, Copy, PartialEq, Eq, PartialOrd, Ord, Structural)]
pub enum Ctrl {
    Delim,
    LParen,
    RParen,
    LBracket,
    RBracket,
    Comma,
    Wildcard,
    Slash,
    Semi,
}


/// A decimal number `mantissa * 10^-scale`, the value of a numeric literal.
///
/// Two numbers are equal when they denote the same value (`10.00 == 10`).
#[derive(Debug, Clone, Copy)]
pub struct Number {
    pub mantissa: i128,
    pub scale: u32,
}

/// The number with trailing zeros of the fraction removed.
pub open spec fn normalize(mantissa: int, scale: int) -> (int, int)
    decreases scale,
{
    if scale > 0 && mantissa % 10 == 0 {
        normalize(mantissa / 10, scale - 1)
    } else {
        (mantissa, scale)
    }
}

impl Number {
    /// `num * 10^-scale`; the scale is at most 28.
    pub fn new(num: i64, scale: u32) -> (r: Number)
        requires
            scale <= 28,
        ensures
            r.mantissa == num,
            r.scale == scale,
    {
        Number { mantissa: num as i128, scale }
    }

    pub open spec fn same_value(self, other: Number) -> bool {
        normalize(self.mantissa as int, self.scale as int) == normalize(
            other.mantissa as int,
            other.scale as int,
        )
    }

    fn normalized(self) -> (r: (i128, u32))
        ensures
            (r.0 as int, r.1 as int) == normalize(self.mantissa as int, self.scale as int),
    {
        let mut m: i128 = self.mantissa;
        let mut s: u32 = self.scale;
        while s > 0 && m % 10 == 0
            invariant
                normalize(m as int, s as int) == normalize(self.mantissa as int, self.scale as int),
            decreases s,
        {
            assert(m / 10 == (m as int) / 10) by {
                assert(m % 10 == 0);
            }
            m = m / 10;
            s = s - 1;
        }
        (m, s)
    }
}

impl PartialEq for Number {
    fn eq(&self, other: &Number) -> (r: bool) {
        let a = self.normalized();
        let b = other.normalized();
        a.0 == b.0 && a.1 == b.1
    }
}

impl vstd::std_specs::cmp::PartialEqSpecImpl for Number {
    open spec fn obeys_eq_spec() -> bool {
        true
    }

    open spec fn eq_spec(&self, other: &Number) -> bool {
        self.same_value(*other)
    }
}

/// A calendar date (proleptic Gregorian).
#[derive(Debug, Clone, Copy, PartialEq, Eq, Structural)]
pub struct CivilDate {
    pub year: i16,
    pub month: i8,
    pub day: i8,
}

/// An instant: seconds and nanoseconds since the Unix epoch.
#[derive(Debug, Clone, Copy, PartialEq, Eq, Structural)]
pub struct Timestamp {
    pub second: i64,
    pub nanosecond: i32,
}

/// A date literal, `2023-01-01`, or a timestamp literal, `2023-01-01T10:00:00Z`.
#[derive(Debug, Clone, Copy, PartialEq, Eq, Structural)]
pub enum Date {
    Date(CivilDate),
    Timestamp(Timestamp),
}

/// A token of an OData query string; strings borrow from the source.
#[derive(Debug, Clone, Copy, PartialEq)]
pub enum Token<'src> {
    Error,
    Kw(Keyword),
    Search(&'src str),
    Ident(&'src str),
    Null,
    Bool(bool),
    Offset(u128),
    Num(Number),
    Str(&'src str),
    Date(Date),
    UnOp(UnOp),
    BinOp(BinOp),
    Ctrl(Ctrl),
}

/// The model of a token: strings as character sequences.
pub enum TokV {
    Error,
    Kw(Keyword),
    Search(Seq<char>),
    Ident(Seq<char>),
    Null,
    Bool(bool),
    Offset(u128),
    Num(Number),
    Str(Seq<char>),
    Date(Date),
    UnOp(UnOp),
    BinOp(BinOp),
    Ctrl(Ctrl),
}

impl<'src> View for Token<'src> {
    type V = TokV;

    open spec fn view(&self) -> TokV {
        match *self {
            Token::Error => TokV::Error,
            Token::Kw(k) => TokV::Kw(k),
            Token::Search(s) => TokV::Search(s@),
            Token::Ident(s) => TokV::Ident(s@),
            Token::Null => TokV::Null,
            Token::Bool(b) => TokV::Bool(b),
            Token::Offset(n) => TokV::Offset(n),
            Token::Num(n) => TokV::Num(n),
            Token::Str(s) => TokV::Str(s@),
            Token::Date(d) => TokV::Date(d),
            Token::UnOp(u) => TokV::UnOp(u),
            Token::BinOp(b) => TokV::BinOp(b),
            Token::Ctrl(c) => TokV::Ctrl(c),
        }
    }
}

/// A token with the character positions `start..end` of its text in the source.
#[derive(Debug, Clone, Copy)]
pub struct Spanned<'src> {
    pub tok: Token<'src>,
    pub start: usize,
    pub end: usize,
}

pub struct SpannedV {
    pub tok: TokV,
    pub start: nat,
    pub end: nat,
}

impl<'src> View for Spanned<'src> {
    type V = SpannedV;

    open spec fn view(&self) -> SpannedV {
        SpannedV { tok: self.tok@, start: self.start as nat, end: self.end as nat }
    }
}

// ---------------------------------------------------------------------------
// Character classes

// ---------------------------------------------------------------------------

/// ASCII decimal digit `[0-9]`.
pub open spec fn is_ascii_digit(c: char) -> bool {
    '0' <= c && c <= '9'
}

/// Unicode decimal digit (general category Nd), the class `\d` of the lexical grammar.
pub open spec fn is_unicode_digit(ch: char) -> bool {
    let c = ch as u32;
    (0x30 <= c && c <= 0x39)
        || (0x660 <= c && c <= 0x669)
        || (0x6f0 <= c && c <= 0x6f9)
        || (0x7c0 <= c && c <= 0x7c9)
        || (0x966 <= c && c <= 0x96f)
        || (0x9e6 <= c && c <= 0x9ef)
        || (0xa66 <= c && c <= 0xa6f)
        || (0xae6 <= c && c <= 0xaef)
        || (0xb66 <= c && c <= 0xb6f)
        || (0xbe6 <= c && c <= 0xbef)
        || (0xc66 <= c && c <= 0xc6f)
        || (0xce6 <= c && c <= 0xcef)
        || (0xd66 <= c && c <= 0xd6f)
        || (0xde6 <= c && c <= 0xdef)
        || (0xe50 <= c && c <= 0xe59)
        || (0xed0 <= c && c <= 0xed9)
        || (0xf20 <= c && c <= 0xf29)
        || (0x1040 <= c && c <= 0x1049)
        || (0x1090 <= c && c <= 0x1099)
        || (0x17e0 <= c && c <= 0x17e9)
        || (0x1810 <= c && c <= 0x1819)
        || (0x1946 <= c && c <= 0x194f)
        || (0x19d0 <= c && c <= 0x19d9)
        || (0x1a80 <= c && c <= 0x1a89)
        || (0x1a90 <= c && c <= 0x1a99)
        || (0x1b50 <= c && c <= 0x1b59)
        || (0x1bb0 <= c && c <= 0x1bb9)
        || (0x1c40 <= c && c <= 0x1c49)
        || (0x1c50 <= c && c <= 0x1c59)
        || (0xa620 <= c && c <= 0xa629)
        || (0xa8d0 <= c && c <= 0xa8d9)
        || (0xa900 <= c && c <= 0xa909)
        || (0xa9d0 <= c && c <= 0xa9d9)
        || (0xa9f0 <= c && c <= 0xa9f9)
        || (0xaa50 <= c && c <= 0xaa59)
        || (0xabf0 <= c && c <= 0xabf9)
        || (0xff10 <= c && c <= 0xff19)
        || (0x104a0 <= c && c <= 0x104a9)
        || (0x10d30 <= c && c <= 0x10d39)
        || (0x10d40 <= c && c <= 0x10d49)
        || (0x11066 <= c && c <= 0x1106f)
        || (0x110f0 <= c && c <= 0x110f9)
        || (0x11136 <= c && c <= 0x1113f)
        || (0x111d0 <= c && c <= 0x111d9)
        || (0x112f0 <= c && c <= 0x112f9)
        || (0x11450 <= c && c <= 0x11459)
        || (0x114d0 <= c && c <= 0x114d9)
        || (0x11650 <= c && c <= 0x11659)
        || (0x116c0 <= c && c <= 0x116c9)
        || (0x116d0 <= c && c <= 0x116e3)
        || (0x11730 <= c && c <= 0x11739)
        || (0x118e0 <= c && c <= 0x118e9)
        || (0x11950 <= c && c <= 0x11959)
        || (0x11bf0 <= c && c <= 0x11bf9)
        || (0x11c50 <= c && c <= 0x11c59)
        || (0x11d50 <= c && c <= 0x11d59)
        || (0x11da0 <= c && c <= 0x11da9)
        || (0x11f50 <= c && c <= 0x11f59)
        || (0x16130 <= c && c <= 0x16139)
        || (0x16a60 <= c && c <= 0x16a69)
        || (0x16ac0 <= c && c <= 0x16ac9)
        || (0x16b50 <= c && c <= 0x16b59)
        || (0x16d70 <= c && c <= 0x16d79)
        || (0x1ccf0 <= c && c <= 0x1ccf9)
        || (0x1d7ce <= c && c <= 0x1d7ff)
        || (0x1e140 <= c && c <= 0x1e149)
        || (0x1e2f0 <= c && c <= 0x1e2f9)
        || (0x1e4f0 <= c && c <= 0x1e4f9)
        || (0x1e5f1 <= c && c <= 0x1e5fa)
        || (0x1e950 <= c && c <= 0x1e959)
        || (0x1fbf0 <= c && c <= 0x1fbf9)
}

/// Unicode `White_Space`, the class `\s` of the lexical grammar.
pub open spec fn is_white_space(ch: char) -> bool {
    let c = ch as u32;
    (0x9 <= c && c <= 0xd) || c == 0x20 || c == 0x85 || c == 0xa0 || c == 0x1680
        || (0x2000 <= c && c <= 0x200a) || c == 0x2028 || c == 0x2029 || c == 0x202f
        || c == 0x205f || c == 0x3000
}

/// `[A-Za-z_]`
pub open spec fn is_ident_start(c: char) -> bool {
    ('A' <= c && c <= 'Z') || ('a' <= c && c <= 'z') || c == '_'
}

/// `[A-Za-z0-9_]`
pub open spec fn is_ident_continue(c: char) -> bool {
    is_ident_start(c) || is_ascii_digit(c)
}

/// The character classes whose runs the lexer measures.
#[derive(Debug, Clone, Copy, PartialEq, Eq, Structural)]
pub enum Class {
    AsciiDigit,
    UnicodeDigit,
    Space,
    IdentContinue,
    NotQuote,
    NotAmp,
}

pub open spec fn in_class(c: char, cl: Class) -> bool {
    match cl {
        Class::AsciiDigit => is_ascii_digit(c),
        Class::UnicodeDigit => is_unicode_digit(c),
        Class::Space => is_white_space(c),
        Class::IdentContinue => is_ident_continue(c),
        Class::NotQuote => c != '\'',
        Class::NotAmp => c != '&',
    }
}

pub fn char_in_class(c: char, cl: Class) -> (r: bool)
    ensures
        r == in_class(c, cl),
{
    let u = c as u32;
    match cl {
        Class::AsciiDigit => '0' <= c && c <= '9',
        Class::UnicodeDigit => {
            let c = u;
            (0x30 <= c && c <= 0x39)
        || (0x660 <= c && c <= 0x669)
        || (0x6f0 <= c && c <= 0x6f9)
        || (0x7c0 <= c && c <= 0x7c9)
        || (0x966 <= c && c <= 0x96f)
        || (0x9e6 <= c && c <= 0x9ef)
        || (0xa66 <= c && c <= 0xa6f)
        || (0xae6 <= c && c <= 0xaef)
        || (0xb66 <= c && c <= 0xb6f)
        || (0xbe6 <= c && c <= 0xbef)
        || (0xc66 <= c && c <= 0xc6f)
        || (0xce6 <= c && c <= 0xcef)
        || (0xd66 <= c && c <= 0xd6f)
        || (0xde6 <= c && c <= 0xdef)
        || (0xe50 <= c && c <= 0xe59)
        || (0xed0 <= c && c <= 0xed9)
        || (0xf20 <= c && c <= 0xf29)
        || (0x1040 <= c && c <= 0x1049)
        || (0x1090 <= c && c <= 0x1099)
        || (0x17e0 <= c && c <= 0x17e9)
        || (0x1810 <= c && c <= 0x1819)
        || (0x1946 <= c && c <= 0x194f)
        || (0x19d0 <= c && c <= 0x19d9)
        || (0x1a80 <= c && c <= 0x1a89)
        || (0x1a90 <= c && c <= 0x1a99)
        || (0x1b50 <= c && c <= 0x1b59)
        || (0x1bb0 <= c && c <= 0x1bb9)
        || (0x1c40 <= c && c <= 0x1c49)
        || (0x1c50 <= c && c <= 0x1c59)
        || (0xa620 <= c && c <= 0xa629)
        || (0xa8d0 <= c && c <= 0xa8d9)
        || (0xa900 <= c && c <= 0xa909)
        || (0xa9d0 <= c && c <= 0xa9d9)
        || (0xa9f0 <= c && c <= 0xa9f9)
        || (0xaa50 <= c && c <= 0xaa59)
        || (0xabf0 <= c && c <= 0xabf9)
        || (0xff10 <= c && c <= 0xff19)
        || (0x104a0 <= c && c <= 0x104a9)
        || (0x10d30 <= c && c <= 0x10d39)
        || (0x10d40 <= c && c <= 0x10d49)
        || (0x11066 <= c && c <= 0x1106f)
        || (0x110f0 <= c && c <= 0x110f9)
        || (0x11136 <= c && c <= 0x1113f)
        || (0x111d0 <= c && c <= 0x111d9)
        || (0x112f0 <= c && c <= 0x112f9)
        || (0x11450 <= c && c <= 0x11459)
        || (0x114d0 <= c && c <= 0x114d9)
        || (0x11650 <= c && c <= 0x11659)
        || (0x116c0 <= c && c <= 0x116c9)
        || (0x116d0 <= c && c <= 0x116e3)
        || (0x11730 <= c && c <= 0x11739)
        || (0x118e0 <= c && c <= 0x118e9)
        || (0x11950 <= c && c <= 0x11959)
        || (0x11bf0 <= c && c <= 0x11bf9)
        || (0x11c50 <= c && c <= 0x11c59)
        || (0x11d50 <= c && c <= 0x11d59)
        || (0x11da0 <= c && c <= 0x11da9)
        || (0x11f50 <= c && c <= 0x11f59)
        || (0x16130 <= c && c <= 0x16139)
        || (0x16a60 <= c && c <= 0x16a69)
        || (0x16ac0 <= c && c <= 0x16ac9)
        || (0x16b50 <= c && c <= 0x16b59)
        || (0x16d70 <= c && c <= 0x16d79)
        || (0x1ccf0 <= c && c <= 0x1ccf9)
        || (0x1d7ce <= c && c <= 0x1d7ff)
        || (0x1e140 <= c && c <= 0x1e149)
        || (0x1e2f0 <= c && c <= 0x1e2f9)
        || (0x1e4f0 <= c && c <= 0x1e4f9)
        || (0x1e5f1 <= c && c <= 0x1e5fa)
        || (0x1e950 <= c && c <= 0x1e959)
        || (0x1fbf0 <= c && c <= 0x1fbf9)
        },
        Class::Space => {
            let c = u;
            (0x9 <= c && c <= 0xd) || c == 0x20 || c == 0x85 || c == 0xa0 || c == 0x1680
                || (0x2000 <= c && c <= 0x200a) || c == 0x2028 || c == 0x2029 || c == 0x202f
                || c == 0x205f || c == 0x3000
        },
        Class::IdentContinue => ('A' <= c && c <= 'Z') || ('a' <= c && c <= 'z') || c == '_' || (
        '0' <= c && c <= '9'),
        Class::NotQuote => c != '\'',
        Class::NotAmp => c != '&',
    }
}

/// Length of the longest run of characters of class `cl` starting at `i`.
pub open spec fn run(s: Seq<char>, i: int, cl: Class) -> int
    decreases s.len() - i,
{
    if 0 <= i < s.len() && in_class(s[i], cl) {
        1 + run(s, i + 1, cl)
    } else {
        0
    }
}

pub proof fn lemma_run_bounds(s: Seq<char>, i: int, cl: Class)
    requires
        0 <= i <= s.len(),
    ensures
        0 <= run(s, i, cl) <= s.len() - i,
        forall|k: int| i <= k < i + run(s, i, cl) ==> in_class(#[trigger] s[k], cl),
        i + run(s, i, cl) < s.len() ==> !in_class(s[i + run(s, i, cl)], cl),
    decreases s.len() - i,
{
    if i < s.len() && in_class(s[i], cl) {
        lemma_run_bounds(s, i + 1, cl);
    }
}

pub fn run_len(cs: &Vec<char>, i: usize, cl: Class) -> (r: usize)
    requires
        i <= cs@.len(),
    ensures
        r == run(cs@, i as int, cl),
        i + r <= cs@.len(),
{
    let mut k: usize = i;
    proof { lemma_run_bounds(cs@, i as int, cl); }
    while k < cs.len() && char_in_class(cs[k], cl)
        invariant
            i <= k <= cs@.len(),
            run(cs@, i as int, cl) == (k - i) + run(cs@, k as int, cl),
        decreases cs@.len() - k,
    {
        k = k + 1;
    }
    k - i
}

} // verus!
