//! Money with a mandatory currency. `Money` never adds across currencies: it
//! has no `+`, and sums go through [`Money::try_add`] or [`sum_homogeneous`],
//! which answer `Err(CurrencyMismatch)` instead of mixing currencies.

use vstd::prelude::*;
use vstd::string::StringSliceAdditionalSpecFns;
use vstd::utf8::{encode_utf8, encode_utf8_decode_utf8, is_ascii_chars, is_ascii_chars_encode_utf8};
use crate::decimal::{Amount, decimal_sum, exact_sum_fits, MAX_MANTISSA};

verus! {

/// The byte is an ASCII capital letter.
pub open spec fn is_upper_ascii(b: u8) -> bool {
    65 <= b <= 90
}

/// The bytes are an ISO 4217 code: three ASCII capital letters.
pub open spec fn is_currency_bytes(s: Seq<u8>) -> bool {
    &&& s.len() == 3
    &&& forall|i: int| 0 <= i < 3 ==> #[trigger] is_upper_ascii(s[i])
}

/// The characters that the ASCII bytes `s` spell.
pub open spec fn ascii_chars(s: Seq<u8>) -> Seq<char> {
    s.map_values(|b: u8| b as char)
}

/// An ISO 4217 currency code (three ASCII capital letters, e.g. `BRL`, `USD`).
#[derive(Debug, Clone, Copy, Hash, PartialOrd, Ord)]
pub struct CurrencyCode([u8; 3]);

impl View for CurrencyCode {
    type V = Seq<u8>;

    closed spec fn view(&self) -> Seq<u8> {
        self.0@
    }
}

/// Calls `std::str::from_utf8` on three ASCII bytes.
/// Claimed of it: ASCII bytes are valid UTF-8, so the call succeeds, and the
/// string holds one character per byte, with the byte's code.
#[verifier::external_body]
fn ascii_str(bytes: &[u8; 3]) -> (r: &str)
    requires
        forall|i: int| 0 <= i < 3 ==> #[trigger] bytes@[i] < 128,
    ensures
        r@ == ascii_chars(bytes@),
{
    std::str::from_utf8(bytes).unwrap()
}

impl CurrencyCode {
    #[verifier::type_invariant]
    spec fn well_formed(self) -> bool {
        is_currency_bytes(self@)
    }

    /// Brazilian real.
    pub fn brl() -> (r: CurrencyCode)
        ensures
            r@ == seq![66u8, 82u8, 76u8],
    {
        let r = CurrencyCode([66u8, 82u8, 76u8]);
        assert(r@ =~= seq![66u8, 82u8, 76u8]);
        r
    }

    /// United States dollar.
    pub fn usd() -> (r: CurrencyCode)
        ensures
            r@ == seq![85u8, 83u8, 68u8],
    {
        let r = CurrencyCode([85u8, 83u8, 68u8]);
        assert(r@ =~= seq![85u8, 83u8, 68u8]);
        r
    }

    /// The code as a string (e.g. `"BRL"`).
    pub fn as_str(&self) -> (r: &str)
        ensures
            r@ == ascii_chars(self@),
            is_currency_bytes(self@),
    {
        proof {
            use_type_invariant(self);
        }
        assert forall|i: int| 0 <= i < 3 implies #[trigger] self.0@[i] < 128 by {
            assert(is_upper_ascii(self@[i]));
        }
        ascii_str(&self.0)
    }
}

impl PartialEq for CurrencyCode {
    fn eq(&self, other: &CurrencyCode) -> (r: bool) {
        let r = self.0[0] == other.0[0] && self.0[1] == other.0[1] && self.0[2] == other.0[2];
        proof {
            if r {
                assert(self@ =~= other@);
            }
        }
        r
    }
}

impl vstd::std_specs::cmp::PartialEqSpecImpl for CurrencyCode {
    open spec fn obeys_eq_spec() -> bool {
        true
    }

    open spec fn eq_spec(&self, other: &CurrencyCode) -> bool {
        self@ == other@
    }
}

impl Eq for CurrencyCode {}

/// A string that is not a currency code.
#[derive(Debug, Clone, PartialEq, Eq)]
pub struct InvalidCurrencyCode {
    pub input: String,
}

/// Reads a currency code: succeeds exactly when the UTF-8 bytes of the string
/// are three ASCII capital letters; the error keeps the string.
impl<'a> TryFrom<&'a str> for CurrencyCode {
    type Error = InvalidCurrencyCode;

    fn try_from(value: &'a str) -> (r: Result<CurrencyCode, InvalidCurrencyCode>)
        ensures
            r is Ok <==> is_currency_bytes(value.spec_bytes()),
            r matches Ok(c) ==> c@ == value.spec_bytes(),
            r matches Err(e) ==> e.input@ == value@,
    {
        let bytes = value.as_bytes();
        if bytes.len() == 3 && 65 <= bytes[0] && bytes[0] <= 90 && 65 <= bytes[1] && bytes[1] <= 90
            && 65 <= bytes[2] && bytes[2] <= 90 {
            let c = CurrencyCode([bytes[0], bytes[1], bytes[2]]);
            assert(c@ =~= value.spec_bytes());
            Ok(c)
        } else {
            proof {
                if is_currency_bytes(value.spec_bytes()) {
                    assert(is_upper_ascii(bytes@[0]));
                    assert(is_upper_ascii(bytes@[1]));
                    assert(is_upper_ascii(bytes@[2]));
                }
            }
            Err(InvalidCurrencyCode { input: value.to_owned() })
        }
    }
}

impl<'a> vstd::std_specs::convert::TryFromSpecImpl<&'a str> for CurrencyCode {
    open spec fn obeys_try_from_spec() -> bool {
        false
    }

    open spec fn try_from_spec(v: &'a str) -> Result<CurrencyCode, InvalidCurrencyCode> {
        arbitrary()
    }
}

/// The UTF-8 bytes of the text of a currency code are the code's bytes, so
/// reading back the text that [`CurrencyCode::as_str`] gives yields the same
/// code.
pub proof fn lemma_code_text_round_trip(c: CurrencyCode)
    requires
        is_currency_bytes(c@),
    ensures
        encode_utf8(ascii_chars(c@)) == c@,
{
    let chars = ascii_chars(c@);
    assert forall|i: int| 0 <= i < chars.len() implies '\0' <= #[trigger] chars[i] <= '\u{7f}' by {
        assert(is_upper_ascii(c@[i]));
    }
    assert(is_ascii_chars(chars));
    is_ascii_chars_encode_utf8(chars);
    assert forall|i: int| 0 <= i < 3 implies #[trigger] encode_utf8(chars)[i] == c@[i] by {
        assert(is_upper_ascii(c@[i]));
        assert(chars[i] as u8 == encode_utf8(chars)[i]);
    }
    assert(encode_utf8(chars) =~= c@);
}

/// A string accepted as a currency code is the text of that code: the
/// characters of its bytes are the string itself, so [`CurrencyCode::as_str`]
/// on the code read from `s` gives `s` back.
pub proof fn lemma_text_code_round_trip(s: &str)
    requires
        is_currency_bytes(s.spec_bytes()),
    ensures
        ascii_chars(s.spec_bytes()) == s@,
{
    let b = s.spec_bytes();
    let chars = ascii_chars(b);
    assert forall|i: int| 0 <= i < chars.len() implies '\0' <= #[trigger] chars[i] <= '\u{7f}' by {
        assert(is_upper_ascii(b[i]));
    }
    is_ascii_chars_encode_utf8(chars);
    assert forall|i: int| 0 <= i < 3 implies #[trigger] encode_utf8(chars)[i] == b[i] by {
        assert(is_upper_ascii(b[i]));
        assert(chars[i] as u8 == encode_utf8(chars)[i]);
    }
    assert(encode_utf8(chars) =~= b);
    encode_utf8_decode_utf8(chars);
    encode_utf8_decode_utf8(s@);
}


/// An exact monetary value with its currency.
#[derive(Debug, Clone, Copy, PartialEq, Eq)]
pub struct Money {
    amount: Amount,
    currency: CurrencyCode,
}

/// The error of adding values in different currencies.
#[derive(Debug, Clone, Copy, PartialEq, Eq)]
pub struct CurrencyMismatch {
    pub expected: CurrencyCode,
    pub found: CurrencyCode,
}

impl Money {
    pub closed spec fn spec_amount(&self) -> Amount {
        self.amount
    }

    pub closed spec fn spec_currency(&self) -> CurrencyCode {
        self.currency
    }

    /// A monetary value.
    pub fn new(amount: Amount, currency: CurrencyCode) -> (r: Money)
        ensures
            r.amount() == amount,
            r.currency() == currency,
    {
        Money { amount, currency }
    }

    /// The exact numeric value.
    #[verifier::when_used_as_spec(spec_amount)]
    pub fn amount(&self) -> (r: Amount)
        ensures
            r == self.amount(),
    {
        self.amount
    }

    /// The currency of the value.
    #[verifier::when_used_as_spec(spec_currency)]
    pub fn currency(&self) -> (r: CurrencyCode)
        ensures
            r == self.currency(),
    {
        self.currency
    }

    /// Adds two values of one currency; values in different currencies give
    /// `Err(CurrencyMismatch)` naming both currencies. The sum is the one that
    /// `rust_decimal` computes, which exists unless it overflows.
    pub fn try_add(self, other: Money) -> (r: Result<Money, CurrencyMismatch>)
        requires
            self.currency()@ == other.currency()@ ==> decimal_sum(
                self.amount()@,
                other.amount()@,
            ) is Some,
        ensures
            r is Err <==> self.currency()@ != other.currency()@,
            r matches Err(e) ==> e.expected == self.currency() && e.found == other.currency(),
            r matches Ok(m) ==> m.currency() == self.currency() && decimal_sum(
                self.amount()@,
                other.amount()@,
            ) == Some(m.amount()@),
            r matches Ok(m) ==> (exact_sum_fits(self.amount()@, other.amount()@) ==> m.amount()@
                == (self.amount()@.0 + other.amount()@.0, self.amount()@.1)),
    {
        if self.currency != other.currency {
            return Err(CurrencyMismatch { expected: self.currency, found: other.currency });
        }
        let amount = self.amount.checked_add(other.amount).unwrap();
        Ok(Money { amount, currency: self.currency })
    }

    /// [`Money::try_add`] for any two values: `None` exactly when the
    /// currencies agree and the sum overflows, else what `try_add` returns.
    pub fn checked_try_add(self, other: Money) -> (r: Option<Result<Money, CurrencyMismatch>>)
        ensures
            r is None <==> (self.currency()@ == other.currency()@ && decimal_sum(
                self.amount()@,
                other.amount()@,
            ) is None),
            r matches Some(Err(e)) ==> self.currency()@ != other.currency()@ && e.expected
                == self.currency() && e.found == other.currency(),
            r matches Some(Ok(m)) ==> self.currency()@ == other.currency()@ && m.currency()
                == self.currency() && decimal_sum(self.amount()@, other.amount()@) == Some(
                m.amount()@,
            ),
            r matches Some(Ok(m)) ==> (exact_sum_fits(self.amount()@, other.amount()@) ==> m.amount()@
                == (self.amount()@.0 + other.amount()@.0, self.amount()@.1)),
            exact_sum_fits(self.amount()@, other.amount()@) ==> r is Some,
    {
        if self.currency == other.currency {
            if self.amount.checked_add(other.amount).is_none() {
                return None;
            }
        }
        Some(self.try_add(other))
    }
}


/// The first `n` values share the currency of the first one.
pub open spec fn same_currency_prefix(s: Seq<Money>, n: int) -> bool {
    forall|k: int| 0 <= k < n ==> #[trigger] s[k].currency()@ == s[0].currency()@
}

/// All values share one currency.
pub open spec fn homogeneous(s: Seq<Money>) -> bool {
    same_currency_prefix(s, s.len() as int)
}

/// `j` is the first position whose currency differs from the first value's.
pub open spec fn first_mismatch_at(s: Seq<Money>, j: int) -> bool {
    &&& 0 < j < s.len()
    &&& same_currency_prefix(s, j)
    &&& s[j].currency()@ != s[0].currency()@
}

/// The running sum of the amounts of the first `n` values (`n >= 1`), added
/// left to right as `rust_decimal` adds them; `None` once a step overflows.
pub open spec fn amounts_sum(s: Seq<Money>, n: int) -> Option<(int, int)>
    decreases n,
{
    if n <= 1 {
        Some(s[0].amount()@)
    } else {
        match amounts_sum(s, n - 1) {
            Some(acc) => decimal_sum(acc, s[n - 1].amount()@),
            None => None,
        }
    }
}

/// The additions that [`sum_homogeneous`] performs do not overflow: those up
/// to the end, or up to the first value in another currency.
pub open spec fn sum_defined(s: Seq<Money>) -> bool {
    &&& (s.len() > 0 && homogeneous(s)) ==> amounts_sum(s, s.len() as int) is Some
    &&& forall|j: int| first_mismatch_at(s, j) ==> (#[trigger] amounts_sum(s, j)) is Some
}

/// A running sum that exists at `m` exists at every earlier `n`.
proof fn lemma_amounts_sum_prefix(s: Seq<Money>, n: int, m: int)
    requires
        1 <= n <= m,
        amounts_sum(s, m) is Some,
    ensures
        amounts_sum(s, n) is Some,
    decreases m,
{
    if n < m {
        lemma_amounts_sum_prefix(s, n, m - 1);
    }
}

/// Where some value's currency differs from the first one's, there is a first
/// such position.
pub proof fn lemma_first_mismatch(s: Seq<Money>, k: int) -> (j: int)
    requires
        0 <= k < s.len(),
        s[k].currency()@ != s[0].currency()@,
    ensures
        first_mismatch_at(s, j),
        j <= k,
    decreases k,
{
    if same_currency_prefix(s, k) {
        k
    } else {
        let k2 = choose|k2: int| 0 <= k2 < k && (#[trigger] s[k2]).currency()@ != s[0].currency()@;
        lemma_first_mismatch(s, k2)
    }
}

/// Sums over the first `n` values read only those values: appending a value
/// leaves them unchanged.
proof fn lemma_amounts_sum_push_prefix(s: Seq<Money>, x: Money, n: int)
    requires
        1 <= n <= s.len(),
    ensures
        amounts_sum(s.push(x), n) == amounts_sum(s, n),
    decreases n,
{
    if n > 1 {
        lemma_amounts_sum_push_prefix(s, x, n - 1);
        assert(s.push(x)[n - 1] == s[n - 1]);
    } else {
        assert(s.push(x)[0] == s[0]);
    }
}

/// Summing one more value adds that value, itself, to the sum of the ones
/// before: the sum of `s` followed by `x` is what `rust_decimal` gives for
/// the sum of `s` plus the amount of `x` (so, for values of one currency,
/// `sum_homogeneous` of the longer list is `try_add` of `x` to the sum of
/// `s`), and it overflows exactly when one of those additions does. The sum
/// of a first value alone is that value.
pub proof fn lemma_sum_appends_value(s: Seq<Money>, x: Money)
    ensures
        amounts_sum(seq![x], 1) == Some(x.amount()@),
        s.len() >= 1 ==> amounts_sum(s, 1) == Some(s[0].amount()@),
        s.len() >= 1 ==> amounts_sum(s.push(x), s.len() + 1 as int) == (match amounts_sum(s, s.len() as int) {
            Some(acc) => decimal_sum(acc, x.amount()@),
            None => None,
        }),
{
    if s.len() >= 1 {
        lemma_amounts_sum_push_prefix(s, x, s.len() as int);
        assert(s.push(x)[s.len() as int] == x);
    }
}

/// The sum of the mantissas of the first `n` values.
pub open spec fn mantissa_sum(s: Seq<Money>, n: int) -> int
    decreases n,
{
    if n <= 0 {
        0
    } else {
        mantissa_sum(s, n - 1) + s[n - 1].amount()@.0
    }
}

/// All amounts have the scale of the first one, and every running sum of
/// their mantissas fits in 96 bits: then summing them is exact.
pub open spec fn exact_running_sums(s: Seq<Money>) -> bool {
    &&& forall|k: int| 0 <= k < s.len() ==> #[trigger] s[k].amount()@.1 == s[0].amount()@.1
    &&& forall|n: int|
        1 <= n <= s.len() ==> -MAX_MANTISSA <= #[trigger] mantissa_sum(s, n) <= MAX_MANTISSA
}

/// What summing `s` gives: `Ok(None)` for no values; `Err` naming the first
/// value's currency and that of the first value in another currency; else the
/// running sum, in the common currency.
pub open spec fn homogeneous_sum_result(
    s: Seq<Money>,
    r: Result<Option<Money>, CurrencyMismatch>,
) -> bool {
    &&& s.len() == 0 ==> (r matches Ok(None))
    &&& r is Err <==> exists|j: int| first_mismatch_at(s, j)
    &&& forall|j: int|
        first_mismatch_at(s, j) ==> r == Err::<Option<Money>, CurrencyMismatch>(
            CurrencyMismatch { expected: s[0].currency(), found: s[j].currency() },
        )
    &&& s.len() > 0 && homogeneous(s) ==> (r matches Ok(Some(m)) && m.currency() == s[0].currency()
        && amounts_sum(s, s.len() as int) == Some(m.amount()@))
    &&& r matches Ok(Some(m)) ==> forall|k: int|
        0 <= k < s.len() ==> #[trigger] s[k].currency()@ == m.currency()@
    &&& r matches Ok(Some(m)) ==> (exact_running_sums(s) ==> m.amount()@ == (
        mantissa_sum(s, s.len() as int),
        s[0].amount()@.1,
    ))
}

/// Sums values that must all share one currency: `Ok(None)` for no values,
/// `Err` naming the first value's currency and the first different one, else
/// the sum in that currency.
pub fn sum_homogeneous(values: Vec<Money>) -> (r: Result<Option<Money>, CurrencyMismatch>)
    requires
        sum_defined(values@),
    ensures
        homogeneous_sum_result(values@, r),
{
    let n = values.len();
    if n == 0 {
        return Ok(None);
    }
    let ghost s = values@;
    let mut acc = values[0];
    let mut i: usize = 1;
    assert(mantissa_sum(s, 1) == s[0].amount()@.0) by {
        reveal_with_fuel(mantissa_sum, 2);
    }
    while i < n
        invariant
            s == values@,
            n == s.len(),
            1 <= i <= n,
            sum_defined(s),
            same_currency_prefix(s, i as int),
            acc.currency() == s[0].currency(),
            amounts_sum(s, i as int) == Some(acc.amount()@),
            exact_running_sums(s) ==> acc.amount()@ == (mantissa_sum(s, i as int), s[0].amount()@.1),
        decreases n - i,
    {
        let next = values[i];
        if acc.currency != next.currency {
            assert(first_mismatch_at(s, i as int));
            assert forall|j: int| first_mismatch_at(s, j) implies j == i by {
                if j < i {
                    assert(s[j].currency()@ == s[0].currency()@);
                } else if j > i {
                    assert(s[i as int].currency()@ == s[0].currency()@);
                }
            }
            return Err(CurrencyMismatch { expected: acc.currency, found: next.currency });
        }
        proof {
            if homogeneous(s) {
                lemma_amounts_sum_prefix(s, i + 1, n as int);
            } else {
                let k = choose|k: int| 0 <= k < s.len() && (#[trigger] s[k]).currency()@ != s[0].currency()@;
                let j = lemma_first_mismatch(s, k);
                assert(j > i) by {
                    if j <= i {
                        assert(s[j].currency()@ == s[0].currency()@);
                    }
                }
                lemma_amounts_sum_prefix(s, i + 1, j);
            }
        }
        proof {
            if exact_running_sums(s) {
                assert(s[i as int].amount()@.1 == s[0].amount()@.1);
                assert(-MAX_MANTISSA <= mantissa_sum(s, i + 1) <= MAX_MANTISSA);
            }
        }
        acc = acc.try_add(next).unwrap();
        i = i + 1;
    }
    Ok(Some(acc))
}


/// [`sum_homogeneous`] for any values: `None` exactly when one of the
/// additions it makes would overflow, else what `sum_homogeneous` returns.
pub fn checked_sum_homogeneous(values: Vec<Money>) -> (r: Option<
    Result<Option<Money>, CurrencyMismatch>,
>)
    ensures
        r is None <==> !sum_defined(values@),
        r matches Some(x) ==> homogeneous_sum_result(values@, x),
{
    let n = values.len();
    if n == 0 {
        return Some(sum_homogeneous(values));
    }
    let ghost s = values@;
    let c0 = values[0].currency;
    let mut acc = values[0].amount;
    let mut i: usize = 1;
    while i < n
        invariant
            s == values@,
            n == s.len(),
            1 <= i <= n,
            c0 == s[0].currency(),
            same_currency_prefix(s, i as int),
            amounts_sum(s, i as int) == Some(acc@),
        decreases n - i,
    {
        let next = values[i];
        if next.currency != c0 {
            assert(first_mismatch_at(s, i as int));
            assert(!homogeneous(s));
            assert forall|j: int| first_mismatch_at(s, j) implies (#[trigger] amounts_sum(s, j)) is Some by {
                if j < i {
                    assert(s[j].currency()@ == s[0].currency()@);
                } else if j > i {
                    assert(s[i as int].currency()@ == s[0].currency()@);
                }
            }
            return Some(sum_homogeneous(values));
        }
        match acc.checked_add(next.amount) {
            Some(sum) => {
                acc = sum;
            },
            None => {
                proof {
                    assert(amounts_sum(s, i + 1) is None);
                    if homogeneous(s) {
                        if amounts_sum(s, n as int) is Some {
                            lemma_amounts_sum_prefix(s, i + 1, n as int);
                        }
                    } else {
                        let k = choose|k: int|
                            0 <= k < s.len() && (#[trigger] s[k]).currency()@ != s[0].currency()@;
                        let j = lemma_first_mismatch(s, k);
                        assert(j > i) by {
                            if j <= i {
                                assert(s[j].currency()@ == s[0].currency()@);
                            }
                        }
                        if amounts_sum(s, j) is Some {
                            lemma_amounts_sum_prefix(s, i + 1, j);
                        }
                    }
                }
                return None;
            },
        }
        i = i + 1;
    }
    assert(homogeneous(s));
    assert forall|j: int| first_mismatch_at(s, j) implies (#[trigger] amounts_sum(s, j)) is Some by {
        assert(s[j].currency()@ == s[0].currency()@);
    }
    Some(sum_homogeneous(values))
}


/// Summing two values of one currency gives what adding them with
/// [`Money::try_add`] gives: the `rust_decimal` sum, in that currency.
pub proof fn lemma_sum_of_two_is_their_sum(
    a: Money,
    b: Money,
    r: Result<Option<Money>, CurrencyMismatch>,
)
    requires
        homogeneous_sum_result(seq![a, b], r),
        a.currency()@ == b.currency()@,
    ensures
        r matches Ok(Some(m)) && m.currency() == a.currency() && Some(m.amount()@) == decimal_sum(
            a.amount()@,
            b.amount()@,
        ),
{
    let s = seq![a, b];
    assert(homogeneous(s)) by {
        assert forall|k: int| 0 <= k < 2 implies #[trigger] s[k].currency()@ == s[0].currency()@ by {
            if k == 1 {
                assert(s[1] == b);
            }
        }
    }
    assert(amounts_sum(s, 1) == Some(a.amount()@));
}

} // verus!
