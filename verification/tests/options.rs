use odata::count::Count;
use odata::expand::Expand;
use odata::filter::Filter;
use odata::orderby::{Direction, Orderby};
use odata::pagination::{Skip, Top};
use odata::path::{Ident, Path, Segment};
use odata::search::Search;
use odata::select::Select;
use odata::token::{BinOp, CivilDate, Date, Number};
use odata::OData;

fn id_path(s: &str) -> Path<'_> {
    Path(vec![Segment::Ident(Ident(s))])
}

fn field(s: &str) -> Filter<'_> {
    Filter::Path(id_path(s))
}

fn bin<'a>(l: Filter<'a>, op: BinOp, r: Filter<'a>) -> Filter<'a> {
    Filter::from((l, op, r))
}

fn day(year: i16, month: i8, day: i8) -> Filter<'static> {
    Filter::Date(Date::Date(CivilDate { year, month, day }))
}

#[test]
fn count_valid() {
    assert_eq!(
        (
            Ok(Count(true)),
            Ok(Count(true)),
            Ok(Count(true)),
            Ok(Count(false)),
        ),
        (
            Count::try_from("$count"),
            Count::try_from("$count="),
            Count::try_from("$count=true"),
            Count::try_from("$count=false"),
        )
    );
}

#[test]
fn count_invalid() {
    assert_eq!(
        "Error: found end of input expected 'count'\n   ╭─[ <unknown>:1:1 ]\n 1 │\n   │╰ found end of input expected 'count'\n\nError: found 'no' expected true, false, or end of input\n   ╭─[ <unknown>:1:8 ]\n 1 │$count=no\n   │        ╰─ found 'no' expected true, false, or end of input\n",
        Count::try_from("").unwrap_err() + "\n" + &Count::try_from("$count=no").unwrap_err()
    );
}

#[test]
fn ident() {
    assert_eq!(
        Ok(Expand(vec![(id_path("one"), OData::default())])),
        Expand::try_from("$expand=one")
    );
}

#[test]
fn expand_count() {
    assert_eq!(
        Ok(Expand(vec![(
            id_path("one"),
            OData {
                count: true.into(),
                ..Default::default()
            }
        )])),
        Expand::try_from("$expand=one($count)")
    );
}

#[test]
fn expand() {
    assert_eq!(
        Ok(Expand(vec![(
            id_path("one"),
            OData {
                expand: Some(Expand(vec![(id_path("two"), OData::default())])),
                ..Default::default()
            }
        )])),
        Expand::try_from("$expand=one($expand=two)")
    );
}

#[test]
fn filter() {
    assert_eq!(
        Ok(Expand(vec![(
            id_path("one"),
            OData {
                filter: Some(bin(field("name"), BinOp::Eq, Filter::Str("milk"))),
                ..Default::default()
            }
        )])),
        Expand::try_from("$expand=one($filter=name eq 'milk')")
    );
}

#[test]
fn orderby() {
    assert_eq!(
        Ok(Expand(vec![(
            id_path("one"),
            OData {
                orderby: Some(Orderby(vec![
                    ("two", Direction::Asc),
                    ("three", Direction::Asc),
                    ("four", Direction::Desc)
                ])),
                ..Default::default()
            }
        )])),
        Expand::try_from("$expand=one($orderby=two,three asc,four desc)")
    );
}

#[test]
fn expand_select() {
    assert_eq!(
        Ok(Expand(vec![(
            id_path("one"),
            OData {
                select: Some(Select::Paths(vec![
                    id_path("two"),
                    id_path("three"),
                    id_path("four"),
                ])),
                ..Default::default()
            }
        )])),
        Expand::try_from("$expand=one($select=two,three,four)")
    );
}

#[test]
fn eq_str() {
    assert_eq!(
        Ok(bin(field("name"), BinOp::Eq, Filter::Str("milk"))),
        Filter::try_from("$filter=name eq 'milk'")
    );
}

#[test]
fn gt_num() {
    assert_eq!(
        Ok(bin(field("price"), BinOp::Gt, Filter::from(42))),
        Filter::try_from("$filter=price gt 42")
    );
}

#[test]
fn and() {
    assert_eq!(
        Ok(bin(
            bin(field("name"), BinOp::Eq, Filter::Str("milk")),
            BinOp::And,
            bin(field("price"), BinOp::Lt, Filter::Num(Number::new(255, 2))),
        )),
        Filter::try_from("$filter=name eq 'milk' and price lt 2.55")
    );
}

#[test]
fn endswith() {
    assert_eq!(
        Ok(Filter::Not(Box::new(Filter::from((
            "endswith",
            vec![field("name"), Filter::Str("ilk")]
        ))))),
        Filter::try_from("$filter=not endswith(name,'ilk')")
    );
}

#[test]
fn group() {
    assert_eq!(
        Ok(bin(
            bin(
                bin(Filter::from(4), BinOp::Add, Filter::from(5)),
                BinOp::Mod,
                bin(Filter::from(4), BinOp::Sub, Filter::from(1)),
            ),
            BinOp::Eq,
            Filter::from(0),
        )),
        Filter::try_from("$filter=(4 add 5) mod (4 sub 1) eq 0")
    );
}

#[test]
fn concat() {
    assert_eq!(
        Ok(bin(
            Filter::from((
                "concat",
                vec![
                    Filter::from(("concat", vec![field("city"), Filter::Str(", ")])),
                    field("country")
                ]
            )),
            BinOp::Eq,
            Filter::Str("Berlin, Germany"),
        )),
        Filter::try_from("$filter=concat(concat(city,', '), country) eq 'Berlin, Germany'")
    );
}

#[test]
fn filter_in() {
    assert_eq!(
        Ok(bin(
            field("name"),
            BinOp::In,
            Filter::List(vec![Filter::Str("milk"), Filter::Str("cheese")]),
        )),
        Filter::try_from("$filter=name in ('milk', 'cheese')")
    );
}

#[test]
fn filter_count() {
    assert_eq!(
        Ok(bin(
            Filter::from(Path::from(vec![
                Segment::Ident(Ident("products")),
                Segment::Count
            ])),
            BinOp::Gt,
            Filter::from(0),
        )),
        Filter::try_from("$filter=products/$count gt 0"),
    );
}

#[test]
fn empty() {
    assert_eq!(Ok(OData::default()), OData::try_from(""));
}

#[test]
fn lib_select() {
    assert_eq!(
        Ok(OData {
            select: Some(vec![id_path("address"), id_path("orders")].into()),
            ..Default::default()
        }),
        OData::try_from("$select=address,orders"),
    );
}

#[test]
fn full() {
    assert_eq!(
        Ok(OData {
            count: true.into(),
            expand: Some(
                vec![(
                    id_path("rel"),
                    OData {
                        count: true.into(),
                        select: Some(vec![id_path("sub")].into()),
                        ..Default::default()
                    }
                )]
                .into()
            ),
            filter: Some(bin(field("name"), BinOp::Eq, Filter::Str("milk"))),
            orderby: Some(
                vec![
                    ("one", Direction::Asc),
                    ("two", Direction::Asc),
                    ("three", Direction::Desc),
                ]
                .into()
            ),
            search: Some(Search("In sapiente atque eum molestias eos.")),
            select: Some(vec![id_path("one"), id_path("two"), id_path("three")].into()),
            skip: Some(Skip::Offset(20)),
            top: Some(Top::Offset(10))
        }),
        OData::try_from("$count&$expand=rel($count,select=sub)&$filter=name eq 'milk'&$orderby=one,two asc,three desc&$search=In sapiente atque eum molestias eos.&$select=one,two,three&$skip=20&$top=10&"),
    );
}

#[test]
fn lib_complex() {
    assert_eq!(
        Ok(OData {
            count: true.into(),
            expand: Some(
                vec![(
                    id_path("Order_Details"),
                    OData {
                        select: Some(Select::Paths(vec![
                            id_path("ProductID"),
                            id_path("UnitPrice"),
                            id_path("Quantity"),
                            id_path("Discount"),
                        ])),
                        ..Default::default()
                    }
                )]
                .into()
            ),
            filter: Some(bin(
                bin(
                    bin(
                        bin(
                            bin(field("OrderDate"), BinOp::Ge, day(2023, 1, 1)),
                            BinOp::And,
                            bin(field("OrderDate"), BinOp::Le, day(2023, 12, 31)),
                        ),
                        BinOp::And,
                        bin(field("ShipCountry"), BinOp::Eq, Filter::Str("USA")),
                    ),
                    BinOp::And,
                    bin(
                        bin(field("ShipCity"), BinOp::Eq, Filter::Str("Seattle")),
                        BinOp::Or,
                        bin(field("ShipCity"), BinOp::Eq, Filter::Str("New York")),
                    ),
                ),
                BinOp::And,
                bin(
                    bin(field("CustomerID"), BinOp::Eq, Filter::Str("ALFKI")),
                    BinOp::Or,
                    bin(field("CustomerID"), BinOp::Eq, Filter::Str("ANATR")),
                ),
            )),
            orderby: Some(vec![("OrderDate", Direction::Desc), ("ShipCity", Direction::Asc)].into()),
            search: None,
            select: Some(Select::Paths(vec![
                id_path("OrderID"),
                id_path("OrderDate"),
                id_path("ShipName"),
                id_path("ShipCity"),
                id_path("ShipCountry"),
                id_path("CustomerID"),
            ])),
            skip: Some(Skip::Offset(5)),
            top: Some(Top::Offset(10))
        }),
        OData::try_from("$filter=OrderDate ge 2023-01-01 and OrderDate le 2023-12-31 and ShipCountry eq 'USA' and (ShipCity eq 'Seattle' or ShipCity eq 'New York') and (CustomerID eq 'ALFKI' or CustomerID eq 'ANATR')&$orderby=OrderDate desc, ShipCity asc&$select=OrderID, OrderDate, ShipName, ShipCity, ShipCountry, CustomerID&$expand=Order_Details($select=ProductID, UnitPrice, Quantity, Discount)&$count=true&$top=10&$skip=5&"),
    );
}

#[test]
fn orderby_valid() {
    assert_eq!(
        (Ok(Orderby(vec![
            ("one", Direction::Asc),
            ("two", Direction::Asc),
            ("three", Direction::Desc)
        ])),),
        (Orderby::try_from("$orderby=one,two asc,three desc"),)
    );
}

#[test]
fn orderby_invalid() {
    assert_eq!(
        "Error: found end of input expected 'orderby'\n   ╭─[ <unknown>:1:1 ]\n 1 │\n   │╰ found end of input expected 'orderby'\n\nError: found 'str' expected identifiers with direction, or end of input\n   ╭─[ <unknown>:1:10 ]\n 1 │$orderby='str'\n   │           ╰─── found 'str' expected identifiers with direction, or end of input\n",
        Orderby::try_from("").unwrap_err() + "\n" + &Orderby::try_from("$orderby='str'").unwrap_err()
    );
}

#[test]
fn pagination_valid() {
    assert_eq!(
        (
            Ok(Skip::Offset(42)),
            Ok(Skip::Cursor("jc8mUc")),
            Ok(Top::Offset(42)),
            Ok(Top::Cursor("jc8mUc")),
        ),
        (
            Skip::try_from("$skip=42"),
            Skip::try_from("$skip='jc8mUc'"),
            Top::try_from("$top=42"),
            Top::try_from("$top='jc8mUc'"),
        )
    );
}

#[test]
fn pagination_invalid() {
    assert_eq!(
        "Error: found end of input expected 'skip'\n   ╭─[ <unknown>:1:1 ]\n 1 │\n   │╰ found end of input expected 'skip'\n\nError: found 'text' expected offset, or cursor\n   ╭─[ <unknown>:1:7 ]\n 1 │$skip=text\n   │        ╰── found 'text' expected offset, or cursor\n\nError: found end of input expected 'top'\n   ╭─[ <unknown>:1:1 ]\n 1 │\n   │╰ found end of input expected 'top'\n\nError: found 'text' expected offset, or cursor\n   ╭─[ <unknown>:1:6 ]\n 1 │$top=text\n   │       ╰── found 'text' expected offset, or cursor\n",
        Skip::try_from("").unwrap_err()
            + "\n"
            + &Skip::try_from("$skip=text").unwrap_err()
            + "\n"
            + &Top::try_from("").unwrap_err()
            + "\n"
            + &Top::try_from("$top=text").unwrap_err()
    );
}

#[test]
fn path_valid() {
    assert_eq!(
        (Ok(Path(vec![
            Segment::Ident(Ident("one")),
            Segment::Ident(Ident("two")),
            Segment::Ident(Ident("three")),
            Segment::Count,
        ])),),
        (Path::try_from("one/two/three/$count"),)
    );
}

#[test]
fn search_valid() {
    assert_eq!(
        (
            Ok(Search("In sapiente atque eum molestias eos.")),
            Ok(Search("Quasi est & consequatur sed eligendi.")),
            Ok(Search("Animi non 'saepe' sed laudantium."))
        ),
        (
            Search::try_from("$search=In sapiente atque eum molestias eos."),
            Search::try_from("$search='Quasi est & consequatur sed eligendi.'"),
            Search::try_from("$search=''Animi non 'saepe' sed laudantium.''"),
        ),
    );
}

#[test]
fn select_valid() {
    assert_eq!(
        (
            Ok(Select::Wildcard),
            Ok(Select::Paths(vec![id_path("one"), id_path("two"), id_path("three")])),
            Ok(Select::Paths(vec![id_path("one"), id_path("two"), id_path("three")])),
        ),
        (
            Select::try_from("$select=*"),
            Select::try_from("$select=one,two,three"),
            Select::try_from("$select= one,two , three "),
        )
    );
}

#[test]
fn select_invalid() {
    assert_eq!(
        "Error: found end of input expected 'select'\n   ╭─[ <unknown>:1:1 ]\n 1 │\n   │╰ found end of input expected 'select'\n\nError: found 'str' expected '*', identifiers, or end of input\n   ╭─[ <unknown>:1:9 ]\n 1 │$select='str'\n   │          ╰─── found 'str' expected '*', identifiers, or end of input\n",
        Select::try_from("").unwrap_err() + "\n" + &Select::try_from("$select='str'").unwrap_err()
    );
}
