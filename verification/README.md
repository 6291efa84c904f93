# odata

A parser for [OData](https://www.odata.org/) system query options
(`$count`, `$expand`, `$filter`, `$orderby`, `$search`, `$select`, `$skip`, `$top`),
written in Verus: every parser, printer and the lexer carry contracts that Verus proves.

## Layout

- `src/lex.rs`: the lexer, from characters to tokens (longest match, then pattern priority).
- `src/parse.rs`: the steps of a parser over tokens and the record of the furthest failure.
- `src/count.rs`, `expand.rs`, `filter.rs`, `orderby.rs`, `pagination.rs`, `path.rs`,
  `search.rs`, `select.rs`, `lib.rs`: one module per query option; each has a spec function
  for its grammar, an executable parser proved equal to it, `try_from` on whole
  sources, and `to_string`.
- `src/text.rs`: names of tokens and the error report of a failed parse.
- `src/ext.rs`: the calls into `rust_decimal` (numbers), `jiff` (dates, timestamps) and
  `ariadne` (error reports), with the contracts Verus trusts.
- `src/laws.rs`, `src/lexing.rs`: properties of the library as a whole, and what the lexer and
  parsers make of whole sources of a simple shape: identifiers, paths, `$count`, `$orderby`,
  `$select`, `$skip` and `$top`, alone and joined by `&` (printing then parsing gives the
  options back; options of different kinds commute).

## Use

```rust
use odata::OData;
use odata::pagination::Top;

let options = OData::try_from("$top=5").unwrap();
assert_eq!(Some(Top::Offset(5)), options.top);
```

`try_from` gives the value or an error report on every source. A literal whose value
cannot be represented (an offset beyond `u128`, a number that `rust_decimal` refuses,
a date or timestamp that `jiff` refuses) is lexed as an error token; an integer of
`2^96` or more is not taken as a number in `$filter`.
