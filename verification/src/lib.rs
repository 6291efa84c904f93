//! `odata` is an [OData (Open Data Protocol)](https://www.odata.org/) query options parser.
//!
//! Parsing is done with [`OData::try_from`].
use vstd::prelude::*;

pub mod count;
pub mod expand;
pub mod ext;
pub mod filter;
pub mod laws;
pub mod lex;
pub mod lexing;
pub mod orderby;
pub mod pagination;
pub mod parse;
pub mod path;
pub mod search;
pub mod select;
pub mod text;
pub mod token;

use crate::count::{count_parse, count_spec, Count};
use crate::expand::{expand_parse, expand_spec, Expand};
use crate::filter::{filter_parse, filter_spec, Filter, FilterV};
use crate::lex::{Lexed, LexedV};
use crate::orderby::{orderby_parse, orderby_spec, Direction, Orderby};
use crate::pagination::{page_spec, skip_parse, top_parse, PageV, Skip, Top};
use crate::parse::{just, just_spec, Alt, AltV, Expected, Step, StepV};
use crate::path::{copy_path, Path, SegmentV};
use crate::search::{search_parse, search_spec, Search};
use crate::select::{select_option_spec, select_parse, Select, SelectV};
use crate::token::{Ctrl, Keyword};

use crate::lex::{lex, lex_spec};
use crate::parse::no_alt;
use crate::text::{conclude, outcome, result_view};

use crate::count::count_text;
use crate::filter::filter_text;
use crate::orderby::orderby_text;
use crate::pagination::page_text;
use crate::path::{path_text, push_path};
use crate::search::search_text;
use crate::select::select_text;
verus! {

/// Represents [OData system query options](https://docs.oasis-open.org/odata/odata/v4.01/odata-v4.01-part1-protocol.html#sec_SystemQueryOptions).
#[derive(Debug, PartialEq)]
pub struct OData<'src> {
    pub count: Count,
    pub expand: Option<Expand<'src>>,
    pub filter: Option<Filter<'src>>,
    pub orderby: Option<Orderby<'src>>,
    pub search: Option<Search<'src>>,
    pub select: Option<Select<'src>>,
    pub skip: Option<Skip<'src>>,
    pub top: Option<Top<'src>>,
}

/// The model of an [`OData`].
pub struct ODataV {
    pub count: bool,
    pub expand: Option<Seq<(Seq<SegmentV>, ODataV)>>,
    pub filter: Option<FilterV>,
    pub orderby: Option<Seq<(Seq<char>, Direction)>>,
    pub search: Option<Seq<char>>,
    pub select: Option<SelectV>,
    pub skip: Option<PageV>,
    pub top: Option<PageV>,
}

/// No query option: the count not requested, every other option absent.
pub open spec fn odata_default() -> ODataV {
    ODataV {
        count: false,
        expand: None,
        filter: None,
        orderby: None,
        search: None,
        select: None,
        skip: None,
        top: None,
    }
}

pub open spec fn odata_view(o: OData) -> ODataV
    decreases o,
{
    ODataV {
        count: o.count.0,
        expand: match o.expand {
            Some(e) => Some(
                Seq::new(
                    e.0@.len(),
                    |i: int|
                        if 0 <= i < e.0@.len() {
                            (e.0@[i].0@, odata_view(e.0@[i].1))
                        } else {
                            (Seq::empty(), odata_default())
                        },
                ),
            ),
            None => None,
        },
        filter: match o.filter {
            Some(f) => Some(f@),
            None => None,
        },
        orderby: match o.orderby {
            Some(x) => Some(x@),
            None => None,
        },
        search: match o.search {
            Some(x) => Some(x@),
            None => None,
        },
        select: match o.select {
            Some(x) => Some(x@),
            None => None,
        },
        skip: match o.skip {
            Some(x) => Some(x@),
            None => None,
        },
        top: match o.top {
            Some(x) => Some(x@),
            None => None,
        },
    }
}

impl<'src> View for OData<'src> {
    type V = ODataV;

    open spec fn view(&self) -> ODataV {
        odata_view(*self)
    }
}

impl<'src> OData<'src> {
    /// No query option.
    pub fn empty() -> (r: OData<'src>)
        ensures
            r@ == odata_default(),
    {
        OData {
            count: Count(false),
            expand: None,
            filter: None,
            orderby: None,
            search: None,
            select: None,
            skip: None,
            top: None,
        }
    }
}

impl<'src> Default for OData<'src> {
    fn default() -> (r: OData<'src>)
        ensures
            r@ == odata_default(),
    {
        OData::empty()
    }
}

/// One query option.
pub enum OptV {
    Count(bool),
    Expand(Seq<(Seq<SegmentV>, ODataV)>),
    Filter(FilterV),
    Orderby(Seq<(Seq<char>, Direction)>),
    Search(Seq<char>),
    Select(SelectV),
    Skip(PageV),
    Top(PageV),
}

/// `o` with the option `it` set, replacing an earlier value of it.
pub open spec fn apply(o: ODataV, it: OptV) -> ODataV {
    match it {
        OptV::Count(c) => ODataV { count: c, ..o },
        OptV::Expand(e) => ODataV { expand: Some(e), ..o },
        OptV::Filter(f) => ODataV { filter: Some(f), ..o },
        OptV::Orderby(x) => ODataV { orderby: Some(x), ..o },
        OptV::Search(x) => ODataV { search: Some(x), ..o },
        OptV::Select(x) => ODataV { select: Some(x), ..o },
        OptV::Skip(x) => ODataV { skip: Some(x), ..o },
        OptV::Top(x) => ODataV { top: Some(x), ..o },
    }
}

/// The `k`-th kind of query option: `$count`, `$expand`, `$filter`, `$orderby`,
/// `$search`, `$select`, `$skip`, `$top`.
pub open spec fn option_at_spec(lx: LexedV, pos: nat, k: int, alt: AltV) -> (StepV<OptV>, AltV)
    decreases lx.toks.len() - pos, 4int,
{
    if k == 0 {
        let (r, a) = count_spec(lx, pos, alt);
        (
            match r {
                StepV::Done(v, p) => StepV::Done(OptV::Count(v), p),
                StepV::Fail => StepV::Fail,
            },
            a,
        )
    } else if k == 1 {
        let (r, a) = expand_spec(lx, pos, alt);
        (
            match r {
                StepV::Done(v, p) => StepV::Done(OptV::Expand(v), p),
                StepV::Fail => StepV::Fail,
            },
            a,
        )
    } else if k == 2 {
        let (r, a) = filter_spec(lx, pos, alt);
        (
            match r {
                StepV::Done(v, p) => StepV::Done(OptV::Filter(v), p),
                StepV::Fail => StepV::Fail,
            },
            a,
        )
    } else if k == 3 {
        let (r, a) = orderby_spec(lx, pos, alt);
        (
            match r {
                StepV::Done(v, p) => StepV::Done(OptV::Orderby(v), p),
                StepV::Fail => StepV::Fail,
            },
            a,
        )
    } else if k == 4 {
        let (r, a) = search_spec(lx, pos, alt);
        (
            match r {
                StepV::Done(v, p) => StepV::Done(OptV::Search(v), p),
                StepV::Fail => StepV::Fail,
            },
            a,
        )
    } else if k == 5 {
        let (r, a) = select_option_spec(lx, pos, alt);
        (
            match r {
                StepV::Done(v, p) => StepV::Done(OptV::Select(v), p),
                StepV::Fail => StepV::Fail,
            },
            a,
        )
    } else if k == 6 {
        let (r, a) = page_spec(lx, pos, Keyword::Skip, alt);
        (
            match r {
                StepV::Done(v, p) => StepV::Done(OptV::Skip(v), p),
                StepV::Fail => StepV::Fail,
            },
            a,
        )
    } else {
        let (r, a) = page_spec(lx, pos, Keyword::Top, alt);
        (
            match r {
                StepV::Done(v, p) => StepV::Done(OptV::Top(v), p),
                StepV::Fail => StepV::Fail,
            },
            a,
        )
    }
}

/// The first of the kinds of query options from the `k`-th on that parses at `pos`.
pub open spec fn option_spec(lx: LexedV, pos: nat, k: int, alt: AltV) -> (StepV<OptV>, AltV)
    decreases lx.toks.len() - pos, 12 - k,
{
    if k < 0 || k >= 8 {
        (StepV::Fail, alt)
    } else {
        let (r, a) = option_at_spec(lx, pos, k, alt);
        match r {
            StepV::Done(v, p) => (StepV::Done(v, p), a),
            StepV::Fail => option_spec(lx, pos, k + 1, a),
        }
    }
}

/// Query options separated by `sep`, possibly none, a trailing `sep` allowed;
/// a later option replaces an earlier one of the same kind.
pub open spec fn options_spec(lx: LexedV, pos: nat, sep: Ctrl, alt: AltV) -> (StepV<ODataV>, AltV)
    decreases lx.toks.len() - pos, 13int,
{
    let (r, a) = option_spec(lx, pos, 0, alt);
    match r {
        StepV::Fail => (StepV::Done(odata_default(), pos), a),
        StepV::Done(it, p) => if pos <= p <= lx.toks.len() {
            options_rest_spec(lx, p, sep, apply(odata_default(), it), a)
        } else {
            (StepV::Fail, a)
        },
    }
}

/// Further query options, each after a `sep`.
pub open spec fn options_rest_spec(lx: LexedV, pos: nat, sep: Ctrl, acc: ODataV, alt: AltV) -> (StepV<
    ODataV,
>, AltV)
    decreases lx.toks.len() - pos, 0int,
{
    let (r1, a1) = just_spec(lx, pos, Expected::Ctrl(sep), alt);
    match r1 {
        StepV::Fail => (StepV::Done(acc, pos), a1),
        StepV::Done(_, p1) => if pos < p1 <= lx.toks.len() {
            let (r2, a2) = option_spec(lx, p1, 0, a1);
            match r2 {
                StepV::Fail => (StepV::Done(acc, p1), a2),
                StepV::Done(it, p2) => if pos < p2 <= lx.toks.len() {
                    options_rest_spec(lx, p2, sep, apply(acc, it), a2)
                } else {
                    (StepV::Fail, a2)
                },
            }
        } else {
            (StepV::Fail, a1)
        },
    }
}


/// One query option.
enum ODataItem<'src> {
    Count(Count),
    Expand(Expand<'src>),
    Filter(Filter<'src>),
    Orderby(Orderby<'src>),
    Search(Search<'src>),
    Select(Select<'src>),
    Skip(Skip<'src>),
    Top(Top<'src>),
}

impl<'src> View for ODataItem<'src> {
    type V = OptV;

    closed spec fn view(&self) -> OptV {
        match self {
            ODataItem::Count(c) => OptV::Count(c.0),
            ODataItem::Expand(e) => OptV::Expand(e@),
            ODataItem::Filter(f) => OptV::Filter(f@),
            ODataItem::Orderby(x) => OptV::Orderby(x@),
            ODataItem::Search(x) => OptV::Search(x@),
            ODataItem::Select(x) => OptV::Select(x@),
            ODataItem::Skip(x) => OptV::Skip(x@),
            ODataItem::Top(x) => OptV::Top(x@),
        }
    }
}

proof fn lemma_expand_view<'src>(o: OData<'src>)
    ensures
        o.expand matches Some(e) ==> odata_view(o).expand == Some(e@),
{
    if let Some(e) = o.expand {
        if let Some(s) = odata_view(o).expand {
            assert forall|i: int| 0 <= i < e.0@.len() implies #[trigger] e@[i] == s[i] by {
                assert(e@[i] == e.0@[i]@);
            }
            assert(e@ =~= s);
        }
    }
}

fn apply_item<'src>(o: OData<'src>, it: ODataItem<'src>) -> (r: OData<'src>)
    ensures
        r@ == apply(o@, it@),
{
    let mut o = o;
    let ghost old_o = o;
    proof {
        lemma_expand_view(old_o);
    }
    match it {
        ODataItem::Count(c) => {
            o.count = c;
        },
        ODataItem::Expand(e) => {
            o.expand = Some(e);
        },
        ODataItem::Filter(f) => {
            o.filter = Some(f);
        },
        ODataItem::Orderby(x) => {
            o.orderby = Some(x);
        },
        ODataItem::Search(x) => {
            o.search = Some(x);
        },
        ODataItem::Select(x) => {
            o.select = Some(x);
        },
        ODataItem::Skip(x) => {
            o.skip = Some(x);
        },
        ODataItem::Top(x) => {
            o.top = Some(x);
        },
    }
    proof {
        lemma_expand_view(o);
    }
    o
}

fn option_at_parse<'src>(lx: &Lexed<'src>, pos: usize, k: u8, alt: Alt) -> (r: (Step<ODataItem<'src>>, Alt))
    requires
        pos <= lx@.toks.len(),
        k < 8,
    ensures
        (r.0@, r.1@) == option_at_spec(lx@, pos as nat, k as int, alt@),
        r.0 matches Step::Done(_, p) ==> pos < p <= lx@.toks.len(),
    decreases lx@.toks.len() - pos, 4int,
{
    if k == 0 {
        let (r, a) = count_parse(lx, pos, alt);
        match r {
            Step::Done(v, p) => (Step::Done(ODataItem::Count(v), p), a),
            Step::Fail => (Step::Fail, a),
        }
    } else if k == 1 {
        let (r, a) = expand_parse(lx, pos, alt);
        match r {
            Step::Done(v, p) => (Step::Done(ODataItem::Expand(v), p), a),
            Step::Fail => (Step::Fail, a),
        }
    } else if k == 2 {
        let (r, a) = filter_parse(lx, pos, alt);
        match r {
            Step::Done(v, p) => (Step::Done(ODataItem::Filter(v), p), a),
            Step::Fail => (Step::Fail, a),
        }
    } else if k == 3 {
        let (r, a) = orderby_parse(lx, pos, alt);
        match r {
            Step::Done(v, p) => (Step::Done(ODataItem::Orderby(v), p), a),
            Step::Fail => (Step::Fail, a),
        }
    } else if k == 4 {
        let (r, a) = search_parse(lx, pos, alt);
        match r {
            Step::Done(v, p) => (Step::Done(ODataItem::Search(v), p), a),
            Step::Fail => (Step::Fail, a),
        }
    } else if k == 5 {
        let (r, a) = select_parse(lx, pos, alt);
        match r {
            Step::Done(v, p) => (Step::Done(ODataItem::Select(v), p), a),
            Step::Fail => (Step::Fail, a),
        }
    } else if k == 6 {
        let (r, a) = skip_parse(lx, pos, alt);
        match r {
            Step::Done(v, p) => (Step::Done(ODataItem::Skip(v), p), a),
            Step::Fail => (Step::Fail, a),
        }
    } else {
        let (r, a) = top_parse(lx, pos, alt);
        match r {
            Step::Done(v, p) => (Step::Done(ODataItem::Top(v), p), a),
            Step::Fail => (Step::Fail, a),
        }
    }
}

fn option_parse<'src>(lx: &Lexed<'src>, pos: usize, k: u8, alt: Alt) -> (r: (Step<ODataItem<'src>>, Alt))
    requires
        pos <= lx@.toks.len(),
        k <= 8,
    ensures
        (r.0@, r.1@) == option_spec(lx@, pos as nat, k as int, alt@),
        r.0 matches Step::Done(_, p) ==> pos < p <= lx@.toks.len(),
    decreases lx@.toks.len() - pos, 12 - k,
{
    if k >= 8 {
        return (Step::Fail, alt);
    }
    let (r, a) = option_at_parse(lx, pos, k, alt);
    match r {
        Step::Done(v, p) => (Step::Done(v, p), a),
        Step::Fail => option_parse(lx, pos, k + 1, a),
    }
}

pub fn options_parse<'src>(lx: &Lexed<'src>, pos: usize, sep: Ctrl, alt: Alt) -> (r: (
    Step<OData<'src>>,
    Alt,
))
    requires
        pos <= lx@.toks.len(),
    ensures
        (r.0@, r.1@) == options_spec(lx@, pos as nat, sep, alt@),
        r.0 matches Step::Done(_, p) ==> pos <= p <= lx@.toks.len(),
    decreases lx@.toks.len() - pos, 13int,
{
    let (r, a) = option_parse(lx, pos, 0, alt);
    match r {
        Step::Fail => (Step::Done(OData::empty(), pos), a),
        Step::Done(it, p) => {
            let o = apply_item(OData::empty(), it);
            options_rest(lx, p, sep, o, a)
        },
    }
}

fn options_rest<'src>(lx: &Lexed<'src>, pos: usize, sep: Ctrl, acc: OData<'src>, alt: Alt) -> (r: (
    Step<OData<'src>>,
    Alt,
))
    requires
        pos <= lx@.toks.len(),
    ensures
        (r.0@, r.1@) == options_rest_spec(lx@, pos as nat, sep, acc@, alt@),
        r.0 matches Step::Done(_, p) ==> pos <= p <= lx@.toks.len(),
    decreases lx@.toks.len() - pos, 0int,
{
    let (r1, a1) = just(lx, pos, Expected::Ctrl(sep), alt);
    match r1 {
        Step::Fail => (Step::Done(acc, pos), a1),
        Step::Done(_, p1) => {
            let (r2, a2) = option_parse(lx, p1, 0, a1);
            match r2 {
                Step::Fail => (Step::Done(acc, p1), a2),
                Step::Done(it, p2) => {
                    let o = apply_item(acc, it);
                    options_rest(lx, p2, sep, o, a2)
                },
            }
        },
    }
}


/// What parsing a whole source as query options separated by `&` gives: the value, or the
/// report of where and why parsing failed.
pub open spec fn odata_outcome(s: Seq<char>) -> Result<ODataV, Seq<char>> {
    let lx = lex_spec(s);
    outcome(s, lx, options_spec(lx, 0, Ctrl::Delim, None))
}

impl<'src> OData<'src> {
    /// Parses a whole source as query options separated by `&`; the error is a report of where and why
    /// parsing failed.
    pub fn try_from(value: &'src str) -> (r: Result<OData<'src>, String>)
        ensures
            result_view(r) == odata_outcome(value@),
            r matches Err(e) ==> e@.take(7) == "Error: "@,
    {
        let lx = lex(value);
        let r = options_parse(&lx, 0, Ctrl::Delim, no_alt());
        conclude(value, &lx, r)
    }
}


// ---------------------------------------------------------------------------
// Text
// ---------------------------------------------------------------------------

/// The texts separated by `&`.
pub open spec fn join_amp(parts: Seq<Seq<char>>) -> Seq<char>
    decreases parts.len(),
{
    if parts.len() == 0 {
        Seq::empty()
    } else if parts.len() == 1 {
        parts[0]
    } else {
        join_amp(parts.drop_last()) + "&"@ + parts.last()
    }
}

/// The texts of the options present, in the order count (when requested), expand,
/// filter, orderby, search, select, skip, top.
pub open spec fn odata_parts(o: ODataV) -> Seq<Seq<char>>
    decreases o,
{
    (if o.count {
        seq![count_text(true)]
    } else {
        Seq::empty()
    }) + match o.expand {
        Some(e) => seq!["$expand="@ + expand_items_text(e)],
        None => Seq::empty(),
    } + match o.filter {
        Some(f) => seq![filter_text(f)],
        None => Seq::empty(),
    } + match o.orderby {
        Some(x) => seq![orderby_text(x)],
        None => Seq::empty(),
    } + match o.search {
        Some(x) => seq![search_text(x)],
        None => Seq::empty(),
    } + match o.select {
        Some(x) => seq![select_text(x)],
        None => Seq::empty(),
    } + match o.skip {
        Some(x) => seq![page_text(Keyword::Skip, x)],
        None => Seq::empty(),
    } + match o.top {
        Some(x) => seq![page_text(Keyword::Top, x)],
        None => Seq::empty(),
    }
}

/// The text of the expand items separated by `,`: each path, then its query options
/// in parentheses unless it has none.
pub open spec fn expand_items_text(e: Seq<(Seq<SegmentV>, ODataV)>) -> Seq<char>
    decreases e,
{
    if e.len() == 0 {
        Seq::empty()
    } else if e.len() == 1 {
        expand_item_text(e[0])
    } else {
        expand_items_text(e.drop_last()) + ","@ + expand_item_text(e.last())
    }
}

pub open spec fn expand_item_text(it: (Seq<SegmentV>, ODataV)) -> Seq<char>
    decreases it,
{
    path_text(it.0) + if it.1 != odata_default() {
        "("@ + join_amp(odata_parts(it.1)) + ")"@
    } else {
        Seq::empty()
    }
}

/// The options present, separated by `&`.
pub open spec fn odata_text(o: ODataV) -> Seq<char> {
    join_amp(odata_parts(o))
}

impl<'src> OData<'src> {
    /// Whether no option is present (the count not requested).
    pub fn is_empty(&self) -> (r: bool)
        ensures
            r == (self@ == odata_default()),
    {
        !self.count.0 && self.expand.is_none() && self.filter.is_none() && self.orderby.is_none()
            && self.search.is_none() && self.select.is_none() && self.skip.is_none()
            && self.top.is_none()
    }
}

fn push_joined(s: &mut String, parts: &Vec<String>)
    ensures
        final(s)@ == old(s)@ + join_amp(Seq::new(parts@.len(), |i: int| parts@[i]@)),
{
    let ghost ps = Seq::new(parts@.len(), |i: int| parts@[i]@);
    let ghost start = s@;
    let n = parts.len();
    let mut k: usize = 0;
    assert(ps.take(0) =~= Seq::<Seq<char>>::empty());
    assert(s@ =~= start + join_amp(ps.take(0)));
    while k < n
        invariant
            n == parts@.len(),
            ps == Seq::new(parts@.len(), |i: int| parts@[i]@),
            k <= n,
            s@ == start + join_amp(ps.take(k as int)),
        decreases n - k,
    {
        if k > 0 {
            s.append("&");
        }
        s.append(parts[k].as_str());
        assert(ps.take(k + 1).drop_last() =~= ps.take(k as int));
        k = k + 1;
        assert(s@ =~= start + join_amp(ps.take(k as int)));
    }
    assert(ps.take(n as int) =~= ps);
}

fn push_part(parts: &mut Vec<String>, part: String)
    ensures
        Seq::new(final(parts)@.len(), |i: int| final(parts)@[i]@) == Seq::new(
            old(parts)@.len(),
            |i: int| old(parts)@[i]@,
        ).push(part@),
{
    parts.push(part);
    assert(Seq::new(parts@.len(), |i: int| parts@[i]@) =~= Seq::new(
        old(parts)@.len(),
        |i: int| old(parts)@[i]@,
    ).push(part@));
}

spec fn strings_view(v: Seq<String>) -> Seq<Seq<char>> {
    Seq::new(v.len(), |i: int| v[i]@)
}

#[verifier::rlimit(100)]
fn odata_string<'src>(o: &OData<'src>) -> (r: String)
    ensures
        r@ == odata_text(o@),
    decreases o,
{
    let mut parts: Vec<String> = Vec::new();
    assert(strings_view(parts@) =~= Seq::<Seq<char>>::empty());
    proof {
        lemma_expand_view(*o);
    }
    let ghost ov = o@;
    if o.count.0 {
        push_part(&mut parts, o.count.to_string());
    }
    let ghost v1 = strings_view(parts@);
    assert(v1 =~= (if ov.count {
        seq![count_text(true)]
    } else {
        Seq::empty()
    }));
    match &o.expand {
        Some(e) => {
            proof {
                assert(decreases_to!(o => o.expand));
            }
            push_part(&mut parts, expand_string(e));
        },
        None => {},
    }
    let ghost v2 = strings_view(parts@);
    assert(v2 =~= v1 + match ov.expand {
        Some(e) => seq!["$expand="@ + expand_items_text(e)],
        None => Seq::empty(),
    });
    match &o.filter {
        Some(f) => push_part(&mut parts, f.to_string()),
        None => {},
    }
    let ghost v3 = strings_view(parts@);
    assert(v3 =~= v2 + match ov.filter {
        Some(f) => seq![filter_text(f)],
        None => Seq::empty(),
    });
    match &o.orderby {
        Some(x) => push_part(&mut parts, x.to_string()),
        None => {},
    }
    let ghost v4 = strings_view(parts@);
    assert(v4 =~= v3 + match ov.orderby {
        Some(x) => seq![orderby_text(x)],
        None => Seq::empty(),
    });
    match &o.search {
        Some(x) => push_part(&mut parts, x.to_string()),
        None => {},
    }
    let ghost v5 = strings_view(parts@);
    assert(v5 =~= v4 + match ov.search {
        Some(x) => seq![search_text(x)],
        None => Seq::empty(),
    });
    match &o.select {
        Some(x) => push_part(&mut parts, x.to_string()),
        None => {},
    }
    let ghost v6 = strings_view(parts@);
    assert(v6 =~= v5 + match ov.select {
        Some(x) => seq![select_text(x)],
        None => Seq::empty(),
    });
    match &o.skip {
        Some(x) => push_part(&mut parts, x.to_string()),
        None => {},
    }
    let ghost v7 = strings_view(parts@);
    assert(v7 =~= v6 + match ov.skip {
        Some(x) => seq![page_text(Keyword::Skip, x)],
        None => Seq::empty(),
    });
    match &o.top {
        Some(x) => push_part(&mut parts, x.to_string()),
        None => {},
    }
    let ghost v8 = strings_view(parts@);
    assert(v8 =~= v7 + match ov.top {
        Some(x) => seq![page_text(Keyword::Top, x)],
        None => Seq::empty(),
    });
    assert(v8 == odata_parts(ov));
    let mut s = String::new();
    push_joined(&mut s, &parts);
    assert(s@ =~= odata_text(o@));
    s
}

fn expand_item_string<'src>(item: &(Path<'src>, OData<'src>)) -> (r: String)
    ensures
        r@ == expand_item_text(item@),
    decreases item,
{
    let mut s = String::new();
    push_path(&mut s, &item.0);
    if !item.1.is_empty() {
        s.append("(");
        let inner = odata_string(&item.1);
        s.append(inner.as_str());
        s.append(")");
    }
    assert(s@ =~= expand_item_text(item@));
    s
}

/// `$expand=` and the items.
pub fn expand_string<'src>(e: &Expand<'src>) -> (r: String)
    ensures
        r@ == "$expand="@ + expand_items_text(e@),
    decreases e,
{
    let mut s = String::new();
    s.append("$expand=");
    let ghost start = s@;
    let n = e.0.len();
    let mut k: usize = 0;
    assert(e@.take(0) =~= Seq::<(Seq<SegmentV>, ODataV)>::empty());
    assert(s@ =~= start + expand_items_text(e@.take(0)));
    while k < n
        invariant
            n == e.0@.len(),
            n == e@.len(),
            k <= n,
            s@ == start + expand_items_text(e@.take(k as int)),
        decreases n - k,
    {
        if k > 0 {
            s.append(",");
        }
        proof {
            assert(decreases_to!(e => e.0));
            assert(decreases_to!(e.0 => e.0@));
            assert(decreases_to!(e.0@ => e.0@[k as int]));
        }
        let item_s = expand_item_string(&e.0[k]);
        s.append(item_s.as_str());
        assert(e@[k as int] == e.0@[k as int]@);
        assert(e@.take(k + 1).drop_last() =~= e@.take(k as int));
        assert(e@.take(k + 1).last() == e@[k as int]);
        assert(e@.take(k + 1).len() == k + 1);
        k = k + 1;
        assert(s@ =~= start + expand_items_text(e@.take(k as int)));
    }
    assert(e@.take(n as int) =~= e@);
    s
}

fn copy_orderby<'src>(o: &Orderby<'src>) -> (r: Orderby<'src>)
    ensures
        r@ == o@,
{
    let mut v: Vec<(&'src str, Direction)> = Vec::new();
    let mut k: usize = 0;
    while k < o.0.len()
        invariant
            k <= o.0@.len(),
            v@ == o.0@.take(k as int),
        decreases o.0@.len() - k,
    {
        v.push(o.0[k]);
        k = k + 1;
        assert(v@ =~= o.0@.take(k as int));
    }
    assert(v@ =~= o.0@);
    let r = Orderby(v);
    assert(r@ =~= o@);
    r
}

fn copy_select<'src>(s: &Select<'src>) -> (r: Select<'src>)
    ensures
        r@ == s@,
{
    match s {
        Select::Wildcard => Select::Wildcard,
        Select::Paths(ps) => {
            let mut v: Vec<Path<'src>> = Vec::new();
            let mut k: usize = 0;
            while k < ps.len()
                invariant
                    k <= ps@.len(),
                    v@.len() == k,
                    forall|i: int| 0 <= i < k ==> #[trigger] v@[i]@ == ps@[i]@,
                decreases ps@.len() - k,
            {
                let p = copy_path(&ps[k]);
                v.push(p);
                k = k + 1;
            }
            let r = Select::Paths(v);
            assert(Seq::new(v@.len(), |i: int| v@[i]@) =~= Seq::new(ps@.len(), |i: int| ps@[i]@));
            r
        },
    }
}

fn clone_expand_item<'src>(item: &(Path<'src>, OData<'src>)) -> (r: (Path<'src>, OData<'src>))
    ensures
        r@ == item@,
    decreases item,
{
    let p = copy_path(&item.0);
    let o = clone_odata(&item.1);
    (p, o)
}

fn clone_expand<'src>(e: &Expand<'src>) -> (r: Expand<'src>)
    ensures
        r@ == e@,
    decreases e,
{
    let mut v: Vec<(Path<'src>, OData<'src>)> = Vec::new();
    let mut k: usize = 0;
    while k < e.0.len()
        invariant
            k <= e.0@.len(),
            v@.len() == k,
            forall|i: int| 0 <= i < k ==> #[trigger] v@[i]@ == e.0@[i]@,
        decreases e.0@.len() - k,
    {
        proof {
            assert(decreases_to!(e => e.0));
            assert(decreases_to!(e.0 => e.0@));
            assert(decreases_to!(e.0@ => e.0@[k as int]));
        }
        let it = clone_expand_item(&e.0[k]);
        v.push(it);
        k = k + 1;
    }
    let r = Expand(v);
    assert(r@ =~= e@);
    r
}

fn clone_odata<'src>(o: &OData<'src>) -> (r: OData<'src>)
    ensures
        r@ == o@,
    decreases o,
{
    let expand = match &o.expand {
        Some(e) => {
            proof {
                assert(decreases_to!(o => o.expand));
            }
            Some(clone_expand(e))
        },
        None => None,
    };
    let filter = match &o.filter {
        Some(f) => Some(f.clone_filter()),
        None => None,
    };
    let orderby = match &o.orderby {
        Some(x) => Some(copy_orderby(x)),
        None => None,
    };
    let select = match &o.select {
        Some(x) => Some(copy_select(x)),
        None => None,
    };
    let r = OData {
        count: o.count,
        expand,
        filter,
        orderby,
        search: o.search,
        select,
        skip: o.skip,
        top: o.top,
    };
    proof {
        lemma_expand_view(*o);
        lemma_expand_view(r);
    }
    r
}

impl<'src> Clone for OData<'src> {
    fn clone(&self) -> (r: OData<'src>)
        ensures
            r@ == self@,
    {
        clone_odata(self)
    }
}

impl<'src> Clone for Expand<'src> {
    fn clone(&self) -> (r: Expand<'src>)
        ensures
            r@ == self@,
    {
        clone_expand(self)
    }
}

impl<'src> OData<'src> {
    /// The options present, separated by `&`: the count (`$count=true`) when
    /// requested, then expand, filter, orderby, search, select, skip and top.
    pub fn to_string(&self) -> (r: String)
        ensures
            r@ == odata_text(self@),
    {
        odata_string(self)
    }
}

} // verus!

verus! {

impl<'src> TryFrom<&'src str> for OData<'src> {
    type Error = String;

    /// See [`OData::try_from`].
    fn try_from(value: &'src str) -> (r: Result<OData<'src>, String>)
        ensures
            result_view(r) == odata_outcome(value@),
    {
        OData::try_from(value)
    }
}

impl<'src> vstd::std_specs::convert::TryFromSpecImpl<&'src str> for OData<'src> {
    open spec fn obeys_try_from_spec() -> bool {
        false
    }

    open spec fn try_from_spec(v: &'src str) -> Result<OData<'src>, String> {
        arbitrary()
    }
}

} // verus!
