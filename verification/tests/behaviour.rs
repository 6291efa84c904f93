use odata::count::Count;
use odata::expand::Expand;
use odata::filter::Filter;
use odata::orderby::{Direction, Orderby};
use odata::pagination::{Skip, Top};
use odata::path::{Ident, Path, Segment};
use odata::search::Search;
use odata::select::Select;
use odata::token::{BinOp, CivilDate, Date, Number, Timestamp};
use odata::OData;

fn seg_path(s: &str) -> Path<'_> {
    Path(vec![Segment::Ident(Ident(s))])
}

fn prop(s: &str) -> Filter<'_> {
    Filter::Path(seg_path(s))
}

fn combine<'a>(l: Filter<'a>, op: BinOp, r: Filter<'a>) -> Filter<'a> {
    Filter::from((l, op, r))
}

#[test]
fn decimal_literal_equals_integer() {
    assert_eq!(
        Ok(OData {
            filter: Some(combine(prop("price"), BinOp::Lt, Filter::from(10))),
            ..Default::default()
        }),
        OData::try_from("$filter=price lt 10.00"),
    );
}

#[test]
fn top_offset_option() {
    assert_eq!(
        Ok(OData {
            top: Some(Top::Offset(5)),
            ..Default::default()
        }),
        OData::try_from("$top=5"),
    );
}

#[test]
fn select_error_report() {
    assert_eq!(
        Err("Error: found 'str' expected '*', identifiers, '&', or end of input
   ╭─[ <unknown>:1:9 ]
 1 │$select='str'
   │          ╰─── found 'str' expected '*', identifiers, '&', or end of input
"
        .to_string()),
        OData::try_from("$select='str'"),
    );
}

#[test]
fn errors_name_the_failure() {
    for source in ["$count=no", "$orderby='str'", "$skip=text", "$top=text", "$select='str'"] {
        let err = OData::try_from(source).unwrap_err();
        assert!(err.starts_with("Error: found "), "{err}");
        assert!(err.contains(source), "{err}");
    }
}

#[test]
fn later_option_replaces_earlier() {
    assert_eq!(
        Ok(OData {
            top: Some(Top::Offset(2)),
            ..Default::default()
        }),
        OData::try_from("$top=1&$top=2"),
    );
    assert_eq!(
        Ok(OData {
            count: Count(false),
            ..Default::default()
        }),
        OData::try_from("$count&$count=false"),
    );
}

#[test]
fn option_order_does_not_matter() {
    assert_eq!(OData::try_from("$top=1&$skip=2"), OData::try_from("$skip=2&$top=1"));
    assert_eq!(
        Ok(OData {
            skip: Some(Skip::Offset(2)),
            top: Some(Top::Offset(1)),
            ..Default::default()
        }),
        OData::try_from("$skip=2&$top=1"),
    );
}

#[test]
fn trailing_delimiter_is_allowed() {
    assert_eq!(
        Ok(OData {
            top: Some(Top::Offset(1)),
            ..Default::default()
        }),
        OData::try_from("$top=1&"),
    );
}

#[test]
fn dollar_is_optional() {
    assert_eq!(OData::try_from("top=3&skip=4"), OData::try_from("$top=3&$skip=4"));
}

#[test]
fn count_without_value_is_requested() {
    assert_eq!(Ok(Count(true)), Count::try_from("$count"));
    assert_eq!(Count(false), Count::default());
}

#[test]
fn direction_defaults_to_ascending() {
    assert_eq!(Direction::Asc, Direction::default());
    assert_eq!(Ok(Direction::Desc), Direction::try_from(" desc"));
}

#[test]
fn bracket_list() {
    assert_eq!(
        Ok(combine(
            prop("name"),
            BinOp::In,
            Filter::List(vec![Filter::Str("milk"), Filter::Str("cheese")]),
        )),
        Filter::try_from("$filter=name in ['milk','cheese']")
    );
}

#[test]
fn precedence_and_associativity() {
    assert_eq!(
        Ok(combine(
            combine(prop("a"), BinOp::Eq, Filter::from(1)),
            BinOp::Or,
            combine(
                combine(prop("b"), BinOp::Eq, Filter::from(2)),
                BinOp::And,
                combine(prop("c"), BinOp::Eq, Filter::from(3)),
            ),
        )),
        Filter::try_from("$filter=a eq 1 or b eq 2 and c eq 3")
    );
    assert_eq!(
        Ok(combine(
            combine(Filter::from(1), BinOp::Sub, Filter::from(2)),
            BinOp::Sub,
            Filter::from(3),
        )),
        Filter::try_from("$filter=1 sub 2 sub 3")
    );
    assert_eq!(
        Ok(combine(
            Filter::from(1),
            BinOp::Add,
            combine(Filter::from(2), BinOp::Mul, Filter::from(3)),
        )),
        Filter::try_from("$filter=1 add 2 mul 3")
    );
}

#[test]
fn literals() {
    assert_eq!(Ok(Filter::Null), Filter::try_from("$filter=null"));
    assert_eq!(Ok(Filter::Bool(true)), Filter::try_from("$filter=true"));
    assert_eq!(Ok(Filter::Num(Number::new(-15, 1))), Filter::try_from("$filter=-1.5"));
    assert_eq!(Ok(Filter::Str("it's")), Filter::try_from("$filter=''it's''"));
    assert_eq!(
        Ok(Filter::Date(Date::Date(CivilDate { year: 2024, month: 2, day: 29 }))),
        Filter::try_from("$filter=2024-02-29")
    );
    assert_eq!(
        Ok(Filter::Date(Date::Timestamp(Timestamp {
            second: 1672567200,
            nanosecond: 0
        }))),
        Filter::try_from("$filter=2023-01-01T10:00:00Z")
    );
}

#[test]
fn unrepresentable_literals_are_errors() {
    assert!(Filter::try_from("$filter=2023-02-30").is_err());
    assert!(Filter::try_from("$filter=x gt 79228162514264337593543950336").is_err());
    assert!(Skip::try_from("$skip=340282366920938463463374607431768211456").is_err());
    assert!(Top::try_from("$top=999999999999999999999999999999999999999999").is_err());
    assert!(Filter::try_from("$filter=x gt 79228162514264337593543950335").is_ok());
    assert_eq!(Ok(Top::Offset(7)), Top::try_from("$top=7"));
    let err = Filter::try_from("$filter=d eq 2023-02-30").unwrap_err();
    assert!(err.starts_with("Error: found '<error>' expected "), "{err}");
}

#[test]
fn failures() {
    assert!(Filter::try_from("$filter=name eq").is_err());
    assert!(Filter::try_from("$filter=(a eq 1").is_err());
    assert!(Expand::try_from("$expand=one(").is_err());
    assert!(Search::try_from("$search=").is_err());
    assert!(OData::try_from("$top=1$skip=2").is_err());
    assert!(Ident::try_from("1abc").is_err());
    assert_eq!(Ok(Ident("_abc1")), Ident::try_from("_abc1"));
    assert_eq!(Ok(Segment::Count), Segment::try_from("$count"));
}

#[test]
fn empty_paths_parse() {
    assert_eq!(Ok(Path(vec![])), Path::try_from(""));
    assert_eq!(Ok(Select::Paths(vec![Path(vec![])])), Select::try_from("$select="));
}

#[test]
fn count_text() {
    assert_eq!("$count=true", Count(true).to_string());
    assert_eq!("$count=false", Count(false).to_string());
}

#[test]
fn page_text() {
    assert_eq!("$skip=20", Skip::Offset(20).to_string());
    assert_eq!("$skip='abc'", Skip::Cursor("abc").to_string());
    assert_eq!("$top=10", Top::Offset(10).to_string());
    assert_eq!("$top='bar'", Top::Cursor("bar").to_string());
}

#[test]
fn search_and_select_text() {
    assert_eq!("$search=blue sky", Search("blue sky").to_string());
    assert_eq!("$select=*", Select::Wildcard.to_string());
    assert_eq!(
        "$select=one,two/three",
        Select::Paths(vec![
            seg_path("one"),
            Path(vec![Segment::Ident(Ident("two")), Segment::Ident(Ident("three"))])
        ])
        .to_string()
    );
    assert_eq!(
        "one/$count",
        Path(vec![Segment::Ident(Ident("one")), Segment::Count]).to_string()
    );
}

#[test]
fn orderby_text() {
    assert_eq!(
        "$orderby=one asc,two desc",
        Orderby(vec![("one", Direction::Asc), ("two", Direction::Desc)]).to_string()
    );
    assert_eq!("desc", Direction::Desc.to_string());
}

#[test]
fn filter_text() {
    assert_eq!(
        "$filter=name eq 'milk'",
        combine(prop("name"), BinOp::Eq, Filter::Str("milk")).to_string()
    );
    assert_eq!("$filter=2.55", Filter::Num(Number::new(255, 2)).to_string());
    assert_eq!(
        "$filter=2023-01-01",
        Filter::Date(Date::Date(CivilDate { year: 2023, month: 1, day: 1 })).to_string()
    );
    assert_eq!(
        "$filter=2023-01-01T10:00:00Z",
        Filter::Date(Date::Timestamp(Timestamp {
            second: 1672567200,
            nanosecond: 0
        }))
        .to_string()
    );
    assert_eq!(
        "$filter=not f(x,null)",
        Filter::Not(Box::new(Filter::from(("f", vec![prop("x"), Filter::Null])))).to_string()
    );
}

#[test]
fn odata_text() {
    assert_eq!("", OData::default().to_string());
    let o = OData {
        count: Count(true),
        expand: Some(Expand(vec![
            (
                seg_path("one"),
                OData {
                    count: Count(true),
                    ..Default::default()
                },
            ),
            (seg_path("two"), OData::default()),
        ])),
        top: Some(Top::Offset(3)),
        ..Default::default()
    };
    assert_eq!("$count=true&$expand=one($count=true),two&$top=3", o.to_string());
    assert!(!o.is_empty());
    assert!(OData::default().is_empty());
}

#[test]
fn expand_nested_options() {
    assert_eq!(
        Ok(Expand(vec![
            (
                seg_path("one"),
                OData {
                    top: Some(Top::Offset(1)),
                    skip: Some(Skip::Offset(2)),
                    ..Default::default()
                }
            ),
            (seg_path("two"), OData::default()),
        ])),
        Expand::try_from("$expand=one($top=1,$skip=2),two")
    );
}

#[test]
fn printed_options_parse_back() {
    for c in [Count(true), Count(false)] {
        let text = c.to_string();
        assert_eq!(Ok(c), Count::try_from(text.as_str()));
    }
    let skip = Skip::Offset(340282366920938463463374607431768211455);
    let text = skip.to_string();
    assert_eq!(Ok(skip), Skip::try_from(text.as_str()));
    let orderby = Orderby(vec![("a", Direction::Asc), ("b", Direction::Desc)]);
    let text = orderby.to_string();
    assert_eq!(Ok(orderby), Orderby::try_from(text.as_str()));
    let select = Select::Paths(vec![seg_path("a"), seg_path("b")]);
    let text = select.to_string();
    assert_eq!(Ok(select), Select::try_from(text.as_str()));
}

#[test]
fn printed_pages_and_paths_parse_back() {
    for t in [Top::Offset(4), Top::Cursor("c1")] {
        let text = t.to_string();
        assert_eq!(Ok(t), Top::try_from(text.as_str()));
    }
    let skip = Skip::Cursor("next page");
    let text = skip.to_string();
    assert_eq!(Ok(skip), Skip::try_from(text.as_str()));
    let path = Path(vec![Segment::Ident(Ident("a")), Segment::Count]);
    let text = path.to_string();
    assert_eq!(Ok(path), Path::try_from(text.as_str()));
    let f = combine(
        prop("name"),
        BinOp::In,
        Filter::List(vec![Filter::Str("milk"), Filter::Str("cheese")]),
    );
    let text = f.to_string();
    assert_eq!("$filter=name in ('milk','cheese')", text);
    assert_eq!(Ok(f), Filter::try_from(text.as_str()));
    let o = OData::try_from("$top=1&$skip='x'&$select=a/$count").unwrap();
    let text = o.to_string();
    assert_eq!(Ok(o), OData::try_from(text.as_str()));
}

#[test]
fn expand_items_are_separated_by_commas() {
    assert_eq!(
        Ok(Expand(vec![
            (seg_path("one"), OData::default()),
            (seg_path("two"), OData::default()),
            (seg_path("three"), OData::default()),
        ])),
        Expand::try_from("$expand=one,two,three")
    );
}

#[test]
fn tokens_are_in_order() {
    let lx = odata::lex::lex("$top=1 & $skip='x' &$filter=a eq 2.5");
    assert!(!lx.toks.is_empty());
    let mut last = 0;
    for t in lx.toks.iter() {
        assert!(last <= t.start && t.start < t.end);
        last = t.end;
    }
    assert!(last <= "$top=1 & $skip='x' &$filter=a eq 2.5".chars().count());
}

#[test]
fn clones_are_equal() {
    let o = OData::try_from("$count&$expand=a($filter=x in (1,2) and not f(y,'z'),top=3),b&$orderby=c desc&$select=d/e&$search=q").unwrap();
    let c = o.clone();
    assert_eq!(o, c);
    assert_eq!(o.to_string(), c.to_string());
    let f = Filter::try_from("$filter=a/b eq 2023-01-01 or [1.5,null] eq true").unwrap();
    assert_eq!(f, f.clone());
    let e = o.expand.clone().unwrap();
    assert_eq!(Some(e), o.expand);
}

#[test]
fn unterminated_string_is_one_error() {
    let lx = odata::lex::lex("$top='abc &x");
    assert_eq!(2, lx.toks.len());
    assert_eq!((5, 12), (lx.toks[1].start, lx.toks[1].end));
    assert_eq!(odata::token::Token::Error, lx.toks[1].tok);
    let lx = odata::lex::lex("#a");
    assert_eq!((0, 1), (lx.toks[0].start, lx.toks[0].end));
    assert_eq!(odata::token::Token::Ident("a"), lx.toks[1].tok);
    let err = Top::try_from("$top='abc").unwrap_err();
    assert!(err.starts_with("Error: found '<error>' expected "), "{err}");
    assert!(err.contains(":1:6 ]"), "{err}");
}

#[test]
fn filter_conversions() {
    assert_eq!(Filter::Null, Filter::from(()));
    assert_eq!(Filter::from(3), Filter::from(3u8));
    assert_eq!(Filter::Num(Number::new(-7, 0)), Filter::from(-7i16));
    assert_eq!(Filter::Num(Number::new(30, 1)), Filter::from(3u32));
    assert_eq!(Filter::List(vec![Filter::Bool(true)]), Filter::from(vec![Filter::from(true)]));
    assert_eq!(Ok(Filter::from(Box::new(prop("a")))), Filter::try_from("$filter=not a"));
}

#[test]
fn number_and_date_texts() {
    let num = |m: i64, s: u32| Filter::Num(Number::new(m, s)).to_string();
    assert_eq!("$filter=0.005", num(5, 3));
    assert_eq!("$filter=0.00", num(0, 2));
    assert_eq!("$filter=-1.5", num(-15, 1));
    assert_eq!("$filter=0", num(0, 0));
    assert_eq!("$filter=10.00", num(1000, 2));
    let date = |year: i16, month: i8, day: i8| {
        Filter::Date(Date::Date(CivilDate { year, month, day })).to_string()
    };
    assert_eq!("$filter=-000001-01-01", date(-1, 1, 1));
    assert_eq!("$filter=0042-07-04", date(42, 7, 4));
    assert_eq!("$filter=2024-02-29", date(2024, 2, 29));
    assert_eq!("$filter=", date(2023, 2, 29));
}

#[test]
fn try_into_and_deref() {
    let o: Result<OData, String> = "$top=5&$count".try_into();
    let o = o.unwrap();
    assert_eq!(Some(Top::Offset(5)), o.top);
    assert!(*o.count);
    let s: Result<Search, String> = "$search=blue".try_into();
    assert_eq!("blue", *s.unwrap());
    let p: Result<Path, String> = "a/b".try_into();
    assert_eq!(2, p.unwrap().segments().len());
}

#[test]
fn parentheses_only_group() {
    assert_eq!(
        Filter::try_from("$filter=a eq 1 and b"),
        Filter::try_from("$filter=(a eq 1 and b)")
    );
    assert_eq!(Filter::try_from("$filter=x"), Filter::try_from("$filter=((x))"));
}

#[test]
fn identifiers_and_pages_for_any_value() {
    for s in ["a", "_", "counter", "nullable", "A1_b2"] {
        assert_eq!(Ok(Ident(s)), Ident::try_from(s));
    }
    for s in ["count", "null", "1a", "a-b", ""] {
        let err = Ident::try_from(s).unwrap_err();
        assert!(err.starts_with("Error: "), "{err}");
    }
    assert_eq!(Ok(Top::Offset(0)), Top::try_from("$top=0"));
    assert_eq!(Ok(Skip::Cursor("a b&c")), Skip::try_from("$skip='a b&c'"));
    assert_eq!(Ok(Skip::Cursor("")), Skip::try_from("$skip=''"));
}

#[test]
fn printed_query_options_parse_back() {
    let o = OData {
        count: Count(true),
        select: Some(Select::Paths(vec![
            Path(vec![Segment::Ident(Ident("a")), Segment::Ident(Ident("b"))]),
            seg_path("c"),
        ])),
        skip: Some(Skip::Offset(7)),
        top: Some(Top::Offset(0)),
        ..Default::default()
    };
    let text = o.to_string();
    assert_eq!("$count=true&$select=a/b,c&$skip=7&$top=0", text);
    assert_eq!(Ok(o), OData::try_from(text.as_str()));
    let o = OData {
        orderby: Some(Orderby(vec![("name", Direction::Desc), ("id", Direction::Asc)])),
        select: Some(Select::Wildcard),
        top: Some(Top::Offset(12)),
        ..Default::default()
    };
    let text = o.to_string();
    assert_eq!("$orderby=name desc,id asc&$select=*&$top=12", text);
    assert_eq!(Ok(o), OData::try_from(text.as_str()));
    let empty = OData::default();
    assert_eq!("", empty.to_string());
    assert_eq!(Ok(OData::default()), OData::try_from(""));
}

#[test]
fn printed_options_commute() {
    assert_eq!(
        OData::try_from("$select=a,b&$count=true"),
        OData::try_from("$count=true&$select=a,b")
    );
    assert_eq!(
        Ok(OData {
            count: Count(true),
            select: Some(Select::Wildcard),
            ..Default::default()
        }),
        OData::try_from("$select=*&$count=true"),
    );
    assert_eq!(OData::try_from("$skip=3&$select=*"), OData::try_from("$select=*&$skip=3"));
}

#[test]
fn whole_input_is_consumed() {
    assert!(Skip::try_from("$skip=5&").is_err());
    assert!(Count::try_from("$count=true x").is_err());
    assert!(Top::try_from("$top=1 2").is_err());
    assert!(OData::try_from("$top=1 $skip=2").is_err());
}

#[test]
fn an_option_text_can_take_in_the_next() {
    // The quote of the search opens a string that the first quote of the filter closes.
    let a = "$search='x";
    let b = "$filter=y eq 'z'";
    assert!(OData::try_from(a).unwrap().search.is_some());
    assert!(OData::try_from(b).unwrap().filter.is_some());
    assert!(OData::try_from(format!("{a}&{b}").as_str()).is_err());
    let text = format!("{b}&{a}");
    let ba = OData::try_from(text.as_str()).unwrap();
    assert!(ba.filter.is_some());
    assert!(ba.search.is_some());
}

#[test]
fn printed_order_and_paths_commute() {
    assert_eq!(
        OData::try_from("$orderby=a desc&$select=b/c"),
        OData::try_from("$select=b/c&$orderby=a desc")
    );
}
