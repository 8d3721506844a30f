//! Fixed-point decimal amounts with eight fractional digits.

use crate::decimal::{
    all_digits, decimal_text, digit_value, digits_value, is_digit, lemma_decimal_text_digits,
    lemma_decimal_text_value, lemma_digits_value_bound, lemma_digits_value_nonnegative,
    lemma_digits_value_prefix, lemma_padded_text_digits, lemma_padded_text_value, padded_text,
    point_index, pow10, push_decimal, push_padded,
};
use crate::text::{lemma_first_index_bounds, lemma_first_index_is};
use vstd::prelude::*;
use vstd::string::*;

verus! {

/// Number of fractional digits that an [`Amount`] keeps.
pub const PLACES: usize = 8;

/// Largest whole part whose units can still fit.
pub const WHOLE_LIMIT: i128 = 92_233_720_368;

/// Number of units in one whole coin or dollar.
pub const SCALE: i64 = 100_000_000;

/// A signed decimal quantity, counted in units of 10^-8.
#[derive(Clone, Copy, Debug, PartialEq, Eq, Structural)]
pub struct Amount {
    pub units: i64,
}

/// Whether `v` units can be held by an [`Amount`].
pub open spec fn representable(v: int) -> bool {
    i64::MIN <= v <= i64::MAX
}

/// The [`Amount`] of `v` units, if there is one.
pub open spec fn amount_of(v: int) -> Option<Amount> {
    if representable(v) {
        Some(Amount { units: v as i64 })
    } else {
        None
    }
}

/// A quantity without its sign; none for the one negative quantity whose
/// positive is too large to be held.
pub open spec fn magnitude_of(amount: Amount) -> Option<Amount> {
    if amount.value() < 0 {
        amount_of(-amount.value())
    } else {
        Some(amount)
    }
}

/// The product of two fixed-point quantities, in units, rounded toward zero.
pub open spec fn scaled_product(a: int, b: int) -> int {
    if a * b >= 0 {
        (a * b) / (SCALE as int)
    } else {
        -((-(a * b)) / (SCALE as int))
    }
}

/// Units written by the digits after the decimal point: the first eight
/// count, the rest are cut off.
pub open spec fn fraction_units(frac: Seq<char>) -> int {
    let kept = if frac.len() < 8 {
        frac.len() as int
    } else {
        8
    };
    digits_value(frac.take(kept)) * pow10((8 - kept) as nat)
}

/// Whether the text begins with a sign.
pub open spec fn has_sign(s: Seq<char>) -> bool {
    s.len() > 0 && (s[0] == '-' || s[0] == '+')
}

/// The text without its leading sign.
pub open spec fn unsigned_part(s: Seq<char>) -> Seq<char> {
    if has_sign(s) {
        s.drop_first()
    } else {
        s
    }
}

/// The digits before the decimal point.
pub open spec fn whole_part(s: Seq<char>) -> Seq<char> {
    unsigned_part(s).take(point_index(unsigned_part(s)))
}

/// The digits after the decimal point; empty when there is no point.
pub open spec fn fraction_part(s: Seq<char>) -> Seq<char> {
    let body = unsigned_part(s);
    if point_index(body) < body.len() {
        body.skip(point_index(body) + 1)
    } else {
        Seq::empty()
    }
}

/// Whether `s` is a decimal number: an optional sign, digits, and
/// optionally a point followed by digits, with a digit on at least one side
/// of the point.
pub open spec fn is_decimal(s: Seq<char>) -> bool {
    &&& all_digits(whole_part(s))
    &&& all_digits(fraction_part(s))
    &&& whole_part(s).len() + fraction_part(s).len() > 0
}

/// The units that the decimal number `s` denotes, digits past the eighth
/// fractional place cut off.
pub open spec fn decimal_units(s: Seq<char>) -> int {
    let magnitude = digits_value(whole_part(s)) * (SCALE as int) + fraction_units(
        fraction_part(s),
    );
    if s.len() > 0 && s[0] == '-' {
        -magnitude
    } else {
        magnitude
    }
}

/// What a text field holds as an amount: nothing unless it is a decimal
/// number whose units can be represented.
pub open spec fn parsed_amount(s: Seq<char>) -> Option<Amount> {
    if is_decimal(s) {
        amount_of(decimal_units(s))
    } else {
        None
    }
}

/// The quantity written out: a `-` if it is negative, the whole part, a
/// point, and all eight fractional digits.
pub open spec fn amount_text(amount: Amount) -> Seq<char> {
    let size = if amount.value() < 0 {
        -amount.value()
    } else {
        amount.value()
    };
    let sign = if amount.value() < 0 {
        seq!['-']
    } else {
        Seq::<char>::empty()
    };
    sign + decimal_text((size / (SCALE as int)) as nat) + seq!['.'] + padded_text(
        (size % (SCALE as int)) as nat,
        8,
    )
}

impl Amount {
    /// Writes the quantity out with eight fractional digits, as in
    /// `-0.00100000`.
    pub fn to_text(self) -> (res: String)
        ensures
            res@ == amount_text(self),
    {
        let mut out = String::new();
        let size: u64 = if self.units < 0 {
            proof {
                reveal_strlit("-");
            }
            out.append("-");
            (-(self.units as i128)) as u64
        } else {
            self.units as u64
        };
        let scale: u64 = SCALE as u64;
        push_decimal(&mut out, size / scale);
        proof {
            reveal_strlit(".");
        }
        out.append(".");
        push_padded(&mut out, size % scale, PLACES);
        assert(out@ =~= amount_text(self));
        out
    }

    /// The quantity in units of 10^-8.
    pub open spec fn value(self) -> int {
        self.units as int
    }

    /// Nothing at all.
    pub fn zero() -> (res: Amount)
        ensures
            res.value() == 0,
    {
        Amount { units: 0 }
    }

    /// Whether the quantity is below zero.
    pub fn is_negative(self) -> (res: bool)
        ensures
            res == (self.value() < 0),
    {
        self.units < 0
    }

    /// The quantity without its sign, unless it cannot be represented.
    pub fn magnitude(self) -> (res: Option<Amount>)
        ensures
            res == magnitude_of(self),
    {
        if self.units < 0 {
            Self::narrow(-(self.units as i128))
        } else {
            Some(self)
        }
    }

    /// The sum, unless it cannot be represented.
    pub fn checked_add(self, other: Amount) -> (res: Option<Amount>)
        ensures
            res == amount_of(self.value() + other.value()),
    {
        let wide: i128 = self.units as i128 + other.units as i128;
        Self::narrow(wide)
    }

    /// The difference, unless it cannot be represented.
    pub fn checked_sub(self, other: Amount) -> (res: Option<Amount>)
        ensures
            res == amount_of(self.value() - other.value()),
    {
        let wide: i128 = self.units as i128 - other.units as i128;
        Self::narrow(wide)
    }

    /// The fixed-point product rounded toward zero, unless it cannot be
    /// represented.
    pub fn checked_mul(self, other: Amount) -> (res: Option<Amount>)
        ensures
            res == amount_of(scaled_product(self.value(), other.value())),
    {
        let a: i128 = self.units as i128;
        let b: i128 = other.units as i128;
        assert(-0x8000_0000_0000_0000 * 0x8000_0000_0000_0000 <= a * b
            <= 0x8000_0000_0000_0000 * 0x8000_0000_0000_0000) by (nonlinear_arith)
            requires
                -0x8000_0000_0000_0000 <= a < 0x8000_0000_0000_0000,
                -0x8000_0000_0000_0000 <= b < 0x8000_0000_0000_0000,
        ;
        let wide: i128 = a * b;
        let scale: i128 = SCALE as i128;
        let quotient: i128 = if wide >= 0 {
            wide / scale
        } else {
            -((-wide) / scale)
        };
        Self::narrow(quotient)
    }

    /// The amount of `wide` units, unless they are too many.
    fn narrow(wide: i128) -> (res: Option<Amount>)
        ensures
            res == amount_of(wide as int),
    {
        if wide < i64::MIN as i128 || wide > i64::MAX as i128 {
            None
        } else {
            Some(Amount { units: wide as i64 })
        }
    }
}


/// The first nine powers of ten.
proof fn lemma_pow10_values()
    ensures
        pow10(0) == 1,
        pow10(1) == 10,
        pow10(2) == 100,
        pow10(3) == 1_000,
        pow10(4) == 10_000,
        pow10(5) == 100_000,
        pow10(6) == 1_000_000,
        pow10(7) == 10_000_000,
        pow10(8) == 100_000_000,
{
    reveal_with_fuel(pow10, 10);
}

/// Two powers of ten whose exponents add up to eight multiply to the
/// scale.
proof fn lemma_pow10_split(k: nat)
    requires
        k <= 8,
    ensures
        pow10(k) * pow10((8 - k) as nat) == 100_000_000,
        1 <= pow10(k) <= 100_000_000,
{
    lemma_pow10_values();
    if k == 0 {
    } else if k == 1 {
    } else if k == 2 {
    } else if k == 3 {
    } else if k == 4 {
    } else if k == 5 {
    } else if k == 6 {
    } else if k == 7 {
    } else {
    }
}

/// How many characters the sign takes.
spec fn sign_len(s: Seq<char>) -> int {
    if has_sign(s) {
        1
    } else {
        0
    }
}

/// Where the whole part ends, the text splits into its two parts.
proof fn lemma_parts(s: Seq<char>, p: int)
    requires
        sign_len(s) <= p <= s.len(),
        forall|j: int| sign_len(s) <= j < p ==> #[trigger] s[j] != '.',
        p < s.len() ==> s[p] == '.',
    ensures
        whole_part(s) == s.subrange(sign_len(s), p),
        fraction_part(s) == if p < s.len() {
            s.subrange(p + 1, s.len() as int)
        } else {
            Seq::<char>::empty()
        },
{
    let start = sign_len(s);
    let body = unsigned_part(s);
    assert(body =~= s.subrange(start, s.len() as int));
    lemma_first_index_is(body, '.', p - start);
    assert(whole_part(s) =~= s.subrange(start, p));
    if p < s.len() {
        assert(fraction_part(s) =~= s.subrange(p + 1, s.len() as int));
    }
}

/// A character that is neither digit nor point, after digits only, spoils
/// the number.
proof fn lemma_stray_in_whole(s: Seq<char>, p: int)
    requires
        sign_len(s) <= p < s.len(),
        forall|j: int| sign_len(s) <= j < p ==> is_digit(#[trigger] s[j]),
        !is_digit(s[p]),
        s[p] != '.',
    ensures
        !is_decimal(s),
{
    let start = sign_len(s);
    let body = unsigned_part(s);
    assert(body =~= s.subrange(start, s.len() as int));
    lemma_first_index_bounds(body, '.');
    let dot = point_index(body);
    if dot < p - start {
        assert(body[dot] == s[dot + start]);
        assert(is_digit(s[dot + start]));
    } else {
        assert(dot > p - start);
        assert(whole_part(s)[p - start] == s[p]);
    }
}

/// A text with a character outside ASCII is no decimal number.
proof fn lemma_decimal_is_ascii(s: Seq<char>)
    requires
        is_decimal(s),
    ensures
        vstd::utf8::is_ascii_chars(s),
{
    let body = unsigned_part(s);
    let dot = point_index(body);
    lemma_first_index_bounds(body, '.');
    assert forall|i: int| 0 <= i < s.len() implies '\0' <= #[trigger] s[i] <= '\u{7f}' by {
        if has_sign(s) && i == 0 {
        } else {
            let j = i - sign_len(s);
            assert(body[j] == s[i]);
            if j < dot {
                assert(whole_part(s)[j] == body[j]);
                assert(is_digit(whole_part(s)[j]));
            } else if j > dot {
                assert(fraction_part(s)[j - dot - 1] == body[j]);
                assert(is_digit(fraction_part(s)[j - dot - 1]));
            }
        }
    }
}

/// A whole part above the limit leaves no representable amount, whatever
/// the sign and the fraction.
proof fn lemma_unrepresentable(whole: int, frac_units: int)
    requires
        whole > WHOLE_LIMIT,
        0 <= frac_units,
    ensures
        !representable(whole * (SCALE as int) + frac_units),
        !representable(-(whole * (SCALE as int) + frac_units)),
{
}

/// Whether `bytes` holds the characters `s`, all of them ASCII.
spec fn spells(bytes: Seq<u8>, s: Seq<char>) -> bool {
    &&& bytes.len() == s.len()
    &&& forall|j: int|
        #![trigger s[j]]
        #![trigger bytes[j]]
        0 <= j < s.len() ==> '\0' <= s[j] <= '\u{7f}' && bytes[j] == (s[j] as u32) as u8
}

/// End of the run of digits that begins at `from`.
fn digit_run(bytes: &[u8], from: usize, Ghost(s): Ghost<Seq<char>>) -> (end: usize)
    requires
        spells(bytes@, s),
        from <= bytes@.len(),
    ensures
        from <= end <= bytes@.len(),
        forall|j: int| from <= j < end ==> is_digit(#[trigger] s[j]),
        end < bytes@.len() ==> !is_digit(s[end as int]),
{
    let mut end: usize = from;
    while end < bytes.len() && bytes[end] >= 48u8 && bytes[end] <= 57u8
        invariant
            spells(bytes@, s),
            from <= end <= bytes@.len(),
            forall|j: int| from <= j < end ==> is_digit(#[trigger] s[j]),
        decreases bytes@.len() - end,
    {
        assert(s[end as int] <= '\u{7f}');
        end = end + 1;
    }
    proof {
        if end < bytes@.len() {
            assert(s[end as int] <= '\u{7f}');
        }
    }
    end
}

/// The number that the digits from `from` up to `to` denote, if it is at
/// most `limit`.
fn digits_number(
    bytes: &[u8],
    from: usize,
    to: usize,
    limit: i128,
    Ghost(s): Ghost<Seq<char>>,
) -> (res: Option<i128>)
    requires
        spells(bytes@, s),
        from <= to <= bytes@.len(),
        forall|j: int| from <= j < to ==> is_digit(#[trigger] s[j]),
        0 <= limit <= 1_000_000_000_000_000_000,
    ensures
        res == if digits_value(s.subrange(from as int, to as int)) <= limit {
            Some(digits_value(s.subrange(from as int, to as int)) as i128)
        } else {
            None
        },
{
    let ghost all = s.subrange(from as int, to as int);
    let mut i: usize = from;
    let mut value: i128 = 0;
    proof {
        assert(all_digits(all));
        assert(all.take(0) =~= Seq::<char>::empty());
    }
    while i < to
        invariant
            spells(bytes@, s),
            from <= i <= to <= bytes@.len(),
            all == s.subrange(from as int, to as int),
            all_digits(all),
            value == digits_value(all.take(i - from)),
            0 <= value <= limit <= 1_000_000_000_000_000_000,
        decreases to - i,
    {
        let ghost k = i - from;
        assert(all[k] == s[i as int]);
        assert(is_digit(all[k]));
        assert(s[i as int] <= '\u{7f}');
        let digit: i128 = (bytes[i] - 48u8) as i128;
        proof {
            assert(all.take(k + 1).drop_last() =~= all.take(k));
            assert(all.take(k + 1).last() == all[k]);
            assert(digit == digit_value(all[k]));
        }
        let next: i128 = value * 10 + digit;
        if next > limit {
            proof {
                lemma_digits_value_prefix(all, k + 1);
            }
            return None;
        }
        value = next;
        i = i + 1;
    }
    proof {
        assert(all.take(to - from) =~= all);
    }
    Some(value)
}

/// Ten to the power `n`.
fn power_of_ten(n: usize) -> (res: i128)
    requires
        n <= 8,
    ensures
        res == pow10(n as nat),
{
    proof {
        lemma_pow10_values();
    }
    let mut res: i128 = 1;
    let mut i: usize = 0;
    while i < n
        invariant
            i <= n <= 8,
            res == pow10(i as nat),
            1 <= res <= 100_000_000,
        decreases n - i,
    {
        proof {
            lemma_pow10_values();
            assert(pow10((i + 1) as nat) == 10 * pow10(i as nat));
        }
        res = res * 10;
        i = i + 1;
    }
    res
}

/// The digits after the point, as units: the first eight, padded with
/// zeros on the right.
fn fraction_number(bytes: &[u8], from: usize, Ghost(s): Ghost<Seq<char>>) -> (res: i128)
    requires
        spells(bytes@, s),
        from <= bytes@.len(),
        forall|j: int| from <= j < bytes@.len() ==> is_digit(#[trigger] s[j]),
    ensures
        res == fraction_units(s.subrange(from as int, s.len() as int)),
        0 <= res < 100_000_000,
{
    let n = bytes.len();
    let kept: usize = if n - from < PLACES {
        n - from
    } else {
        PLACES
    };
    let ghost frac = s.subrange(from as int, s.len() as int);
    proof {
        assert(s.subrange(from as int, from + kept) =~= frac.take(kept as int));
        lemma_digits_value_bound(frac.take(kept as int));
        lemma_pow10_split(kept as nat);
        lemma_pow10_split((8 - kept) as nat);
    }
    let digits = digits_number(bytes, from, from + kept, 100_000_000, Ghost(s));
    let factor = power_of_ten(PLACES - kept);
    match digits {
        Some(d) => {
            assert(0 <= d * factor < 100_000_000) by (nonlinear_arith)
                requires
                    0 <= d < pow10(kept as nat),
                    factor == pow10((8 - kept) as nat),
                    pow10(kept as nat) * factor == 100_000_000,
                    factor >= 1,
            ;
            d * factor
        },
        None => 0,
    }
}

/// Reads the decimal number that `bytes` spells.
fn parse_ascii(bytes: &[u8], Ghost(s): Ghost<Seq<char>>) -> (res: Option<Amount>)
    requires
        spells(bytes@, s),
    ensures
        res == parsed_amount(s),
{
    let n = bytes.len();
    let negative = n > 0 && bytes[0] == 45u8;
    let start: usize = if n > 0 && (bytes[0] == 45u8 || bytes[0] == 43u8) {
        1
    } else {
        0
    };
    proof {
        if n > 0 {
            assert(s[0] <= '\u{7f}');
        }
        assert(start == sign_len(s));
        assert(negative == (s.len() > 0 && s[0] == '-'));
    }
    let point = digit_run(bytes, start, Ghost(s));
    if point < n && bytes[point] != 46u8 {
        proof {
            assert(s[point as int] <= '\u{7f}');
            lemma_stray_in_whole(s, point as int);
        }
        return None;
    }
    proof {
        if point < n {
            assert(s[point as int] <= '\u{7f}');
        }
        lemma_parts(s, point as int);
    }
    let frac_start: usize = if point < n {
        point + 1
    } else {
        n
    };
    let end = digit_run(bytes, frac_start, Ghost(s));
    if end < n {
        proof {
            assert(fraction_part(s)[end - frac_start] == s[end as int]);
        }
        return None;
    }
    if point == start && frac_start == n {
        return None;
    }
    proof {
        assert(fraction_part(s) =~= s.subrange(frac_start as int, n as int));
        assert(all_digits(whole_part(s)));
        assert(all_digits(fraction_part(s)));
        assert(is_decimal(s));
        lemma_digits_value_nonnegative(whole_part(s));
    }
    let frac = fraction_number(bytes, frac_start, Ghost(s));
    match digits_number(bytes, start, point, WHOLE_LIMIT, Ghost(s)) {
        Some(whole) => {
            let magnitude: i128 = whole * (SCALE as i128) + frac;
            let signed: i128 = if negative {
                -magnitude
            } else {
                magnitude
            };
            Amount::narrow(signed)
        },
        None => {
            proof {
                lemma_unrepresentable(digits_value(whole_part(s)), frac as int);
            }
            None
        },
    }
}

impl Amount {
    /// Reads a decimal number such as `-12.5`, `.25` or `3`.
    pub fn parse(text: &str) -> (res: Option<Amount>)
        ensures
            res == parsed_amount(text@),
    {
        if !text.is_ascii() {
            proof {
                if is_decimal(text@) {
                    lemma_decimal_is_ascii(text@);
                }
            }
            return None;
        }
        let bytes = text.as_bytes();
        proof {
            is_ascii_spec_bytes(text);
            assert(spells(bytes@, text@));
        }
        parse_ascii(bytes, Ghost(text@))
    }
}

/// What is written of an amount reads back as that amount.
pub proof fn lemma_text_reads_back(amount: Amount)
    ensures
        parsed_amount(amount_text(amount)) == Some(amount),
{
    let v = amount.value();
    let size = if v < 0 {
        -v
    } else {
        v
    };
    let whole = (size / (SCALE as int)) as nat;
    let frac = (size % (SCALE as int)) as nat;
    let whole_text = decimal_text(whole);
    let frac_text = padded_text(frac, 8);
    let body = whole_text + seq!['.'] + frac_text;
    let s = amount_text(amount);
    lemma_pow10_values();
    lemma_decimal_text_value(whole);
    lemma_padded_text_value(frac, 8);
    lemma_decimal_text_digits(whole);
    lemma_padded_text_digits(frac, 8);
    assert(is_digit(whole_text[0]));
    if v < 0 {
        assert(s =~= seq!['-'] + body);
        assert(s[0] == '-');
        assert(s.drop_first() =~= body);
    } else {
        assert(s =~= body);
        assert(s[0] == whole_text[0]);
    }
    assert(unsigned_part(s) == body);
    assert forall|j: int| 0 <= j < whole_text.len() implies #[trigger] body[j] != '.' by {
        assert(body[j] == whole_text[j]);
        assert(is_digit(whole_text[j]));
    }
    assert(body[whole_text.len() as int] == '.');
    lemma_first_index_is(body, '.', whole_text.len() as int);
    assert(whole_part(s) =~= whole_text);
    assert(fraction_part(s) =~= frac_text);
    assert(frac_text.take(8) =~= frac_text);
    assert(fraction_units(frac_text) == frac);
    assert(size == whole * (SCALE as int) + frac);
}

} // verus!
