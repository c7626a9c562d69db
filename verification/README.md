# raptor_domain

Verified domain core of a personal-finance toolkit that reads OFX statements.

- `decimal`: exact decimal amounts (`mantissa / 10^scale`, the representation
  of `rust_decimal`); additions that may round and divisions are done by
  `rust_decimal`.
- `money`: `Money` with a mandatory ISO 4217 `CurrencyCode`; sums only within
  one currency (`Money::try_add`, `sum_homogeneous`).
- `cashflow`: classification of Banking and Investments entries as external,
  performance or neutral cashflow, with a confidence.
- `date`: calendar dates as proleptic Gregorian day numbers, made by `chrono`.
- `dedupe`: removal of repeated FITIDs, keeping the earliest dated copy.
- `consolidation`: several imported sources combined into one series in date
  order, deduplicated by FITID.
- `metric`: metrics with provenance (sample size, outside inputs, low-sample
  diagnostic).
- `predictive`: burn rate and runway.

`src/` is verified with Verus; `tests/` runs the library; `app/` holds the
conversions from `rust_decimal::Decimal` and `chrono::NaiveDate` and the text
of the errors.
