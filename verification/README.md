# leptos_i18n_ranges

Plural ranges for localized messages, written in Verus.

A plural picks one of several values by the count it is given. Each value
is guarded by a range text such as `0`, `1..5`, `5..=9 | 20..`, or `_`.
This crate reads such texts into `Range` values, checks the ranges of a
plural (a fallback that shadows later arms, several fallbacks), and gives
the tokens of the `match` pattern each range expands to.

Layout:

- `src/text.rs`: whitespace trimming, splitting and decimal integer
  parsing on characters, each proved against its specification.
- `src/number.rs`: the integer types a count can have (`RangeNumber`).
- `src/range_type.rs`: `RangeType`, the names of the count types.
- `src/range.rs`: `Range`, `Range::new` with its specification
  `spec_new`, and the laws proved of it.
- `src/ranges.rs`: `Ranges`, the ranges and values of one plural, and
  their check.
- `src/pattern.rs`: the pattern tokens of a range.
- `src/condition.rs`: the test a range puts on a count when it is
  written as a condition, for each arm of a plural (a fallback has none).
- `src/de.rs`: what a sequence, a bare number, or the fields of an entry
  become while a plural is read from a document.
- `app/lib.rs`: the edges, not verified: `proc_macro2`/`quote` token
  output and `serde` visitors that call the library.

Ranges over floating-point counts are not held in `src/`: Verus cannot
reason about floats, so the verified library covers the eight integer
count types. Reading float ranges stands in `app/lib.rs`; the `if` chain of
a plural over a float count takes its tests from the library's
`arm_conditions`, which does not compare counts, and its check uses
`check_ranges`, which looks only at the shape of the ranges.

Not held here at all: the `Locale` and `LocaleKeys` traits (built on
`icu`), and everything that needs the values of a plural to be the parsed
message values of the macro crate: the token output of a whole plural
with its captured interpolation keys, `as_string_impl`, the key-gathering
walk and the resolution of foreign keys, and reading ranges from a `syn`
parse buffer. The library offers the general walks they are made of
(`try_for_each_value`, `try_for_each_value_mut`, `try_fold_values`) and the
arm patterns of a plural (`match_arms`). What the changing walk makes of
each value is stated over the pairs of one type, by
`try_for_each_pair_value_mut`, which `try_for_each_value_mut` calls.
