//! Fixed-point decimal amounts for prices and quantities.
//!
//! An amount is held as an integer count of units of 10^-10. Every amount in
//! range converts exactly to `rust_decimal::Decimal` (a 96-bit mantissa with
//! scale 10), which parses and renders decimal text.

use vstd::prelude::*;

verus! {

/// Digits after the decimal point.
pub const FRACTION_DIGITS: u32 = 10;

/// Units in one whole.
pub const UNITS_PER_ONE: i128 = 10_000_000_000;

/// Largest magnitude in units: the largest 96-bit mantissa.
pub const MAX_UNITS: i128 = 79_228_162_514_264_337_593_543_950_335;

/// Largest scale that `rust_decimal` accepts.
pub const MAX_TEXT_SCALE: u32 = 28;

/// 10 to the power `n`.
pub open spec fn pow10(n: nat) -> int
    decreases n,
{
    if n == 0 {
        1
    } else {
        10 * pow10((n - 1) as nat)
    }
}

/// An exact decimal amount with ten fractional digits.
#[derive(Clone, Copy, Debug, PartialEq, Eq, Structural)]
pub struct Decimal {
    /// The amount in units of 10^-10.
    pub units: i128,
}

impl View for Decimal {
    type V = int;

    open spec fn view(&self) -> int {
        self.units as int
    }
}

/// The amount in units that `mantissa * 10^-scale` stands for, when it is a
/// whole number of units.
pub open spec fn units_of_parts(mantissa: int, scale: nat) -> Option<int> {
    let magnitude: int = if mantissa < 0 { -mantissa } else { mantissa };
    let p = pow10((scale - FRACTION_DIGITS) as nat);
    if scale <= FRACTION_DIGITS {
        Some(mantissa * pow10((FRACTION_DIGITS - scale) as nat))
    } else if magnitude % p == 0 {
        Some(if mantissa < 0 { -(magnitude / p) } else { magnitude / p })
    } else {
        None
    }
}

/// Drops trailing zero digits of a magnitude while a fractional digit is left.
pub open spec fn strip_zeros(magnitude: nat, scale: nat) -> (nat, nat)
    decreases scale,
{
    if scale > 0 && magnitude % 10 == 0 {
        strip_zeros(magnitude / 10, (scale - 1) as nat)
    } else {
        (magnitude, scale)
    }
}

/// The shortest (mantissa, scale) pair for an amount in units.
pub open spec fn normal_parts(units: int) -> (int, nat) {
    let magnitude: nat = if units < 0 { (-units) as nat } else { units as nat };
    let (m, s) = strip_zeros(magnitude, FRACTION_DIGITS as nat);
    (if units < 0 { -m } else { m as int }, s)
}

/// What `rust_decimal` reads from a text, as its mantissa and scale.
pub uninterp spec fn decimal_parts(text: Seq<char>) -> Option<(i128, u32)>;

/// How `rust_decimal` writes the decimal `mantissa * 10^-scale`.
pub uninterp spec fn decimal_text(mantissa: int, scale: int) -> Seq<char>;

/// Relies on `FromStr for rust_decimal::Decimal`: the result depends on the
/// text alone, and a parsed value has a mantissa of at most 96 bits and a
/// scale of at most 28 (the representation of `rust_decimal::Decimal`).
#[verifier::external_body]
fn parse_decimal_parts(text: &str) -> (r: Option<(i128, u32)>)
    ensures
        r == decimal_parts(text@),
        r matches Some((m, s)) ==> -MAX_UNITS <= m <= MAX_UNITS && s <= MAX_TEXT_SCALE,
{
    match <rust_decimal::Decimal as std::str::FromStr>::from_str(text) {
        Ok(d) => Some((d.mantissa(), d.scale())),
        Err(_) => None,
    }
}

/// Relies on `rust_decimal::Decimal::from_i128_with_scale` (which panics
/// beyond a 96-bit mantissa or a scale of 28) and its `Display`.
#[verifier::external_body]
fn format_decimal(mantissa: i128, scale: u32) -> (r: String)
    requires
        -MAX_UNITS <= mantissa <= MAX_UNITS,
        scale <= MAX_TEXT_SCALE,
    ensures
        r@ == decimal_text(mantissa as int, scale as int),
{
    rust_decimal::Decimal::from_i128_with_scale(mantissa, scale).to_string()
}

/// 10 to the power `n`, for `n` up to 28.
fn pow10_exec(n: u32) -> (r: i128)
    requires
        n <= MAX_TEXT_SCALE,
    ensures
        r == pow10(n as nat),
        0 < r <= pow10(MAX_TEXT_SCALE as nat),
{
    proof {
        lemma_pow10_le(n as nat, MAX_TEXT_SCALE as nat);
    }
    let mut r: i128 = 1;
    let mut i: u32 = 0;
    while i < n
        invariant
            i <= n <= MAX_TEXT_SCALE,
            r == pow10(i as nat),
            r > 0,
        decreases n - i,
    {
        proof {
            lemma_pow10_le(i as nat, 27);
            reveal_with_fuel(pow10, 28);
        }
        r = r * 10;
        i = i + 1;
    }
    r
}

/// Powers of ten grow with the exponent.
pub proof fn lemma_pow10_le(n: nat, k: nat)
    requires
        n <= k,
    ensures
        0 < pow10(n) <= pow10(k),
    decreases k,
{
    if k > n {
        lemma_pow10_le(n, (k - 1) as nat);
    } else if n > 0 {
        lemma_pow10_le((n - 1) as nat, (n - 1) as nat);
    }
}

impl Decimal {
    /// Whether the amount fits in a 96-bit mantissa at ten fractional digits.
    pub open spec fn in_range(self) -> bool {
        -MAX_UNITS <= self.units <= MAX_UNITS
    }

    /// The amount zero.
    pub fn zero() -> (r: Decimal)
        ensures
            r@ == 0,
    {
        Decimal { units: 0 }
    }

    /// The amount of `units` units of 10^-10.
    pub fn from_units(units: i128) -> (r: Decimal)
        ensures
            r@ == units,
    {
        Decimal { units }
    }

    /// The amount `num * 10^-scale`.
    pub fn new(num: i64, scale: u32) -> (r: Decimal)
        requires
            scale <= FRACTION_DIGITS,
        ensures
            r@ == num * pow10((FRACTION_DIGITS - scale) as nat),
    {
        let f = pow10_exec(FRACTION_DIGITS - scale);
        proof {
            lemma_pow10_le((FRACTION_DIGITS - scale) as nat, FRACTION_DIGITS as nat);
            reveal_with_fuel(pow10, 11);
            assert(-0x8000_0000_0000_0000 <= num < 0x8000_0000_0000_0000);
            assert(num * f <= 0x8000_0000_0000_0000 * 10_000_000_000) by (nonlinear_arith)
                requires
                    -0x8000_0000_0000_0000 <= num < 0x8000_0000_0000_0000,
                    0 < f <= 10_000_000_000,
            ;
            assert(num * f >= -0x8000_0000_0000_0000 * 10_000_000_000) by (nonlinear_arith)
                requires
                    -0x8000_0000_0000_0000 <= num < 0x8000_0000_0000_0000,
                    0 < f <= 10_000_000_000,
            ;
        }
        Decimal { units: num as i128 * f }
    }

    /// The amount that `mantissa * 10^-scale` stands for, when it is a whole
    /// number of units and in range.
    pub fn from_parts(mantissa: i128, scale: u32) -> (r: Option<Decimal>)
        requires
            -MAX_UNITS <= mantissa <= MAX_UNITS,
            scale <= MAX_TEXT_SCALE,
        ensures
            r == (match units_of_parts(mantissa as int, scale as nat) {
                Some(u) => if -MAX_UNITS <= u <= MAX_UNITS {
                    Some(Decimal { units: u as i128 })
                } else {
                    None::<Decimal>
                },
                None => None::<Decimal>,
            }),
    {
        if scale <= FRACTION_DIGITS {
            let f = pow10_exec(FRACTION_DIGITS - scale);
            match mantissa.checked_mul(f) {
                Some(u) => {
                    if -MAX_UNITS <= u && u <= MAX_UNITS {
                        Some(Decimal { units: u })
                    } else {
                        None
                    }
                },
                None => {
                    proof {
                        let p = mantissa * f;
                        assert(p < i128::MIN || p > i128::MAX);
                    }
                    None
                },
            }
        } else {
            let f = pow10_exec(scale - FRACTION_DIGITS);
            let magnitude: i128 = if mantissa < 0 { -mantissa } else { mantissa };
            if magnitude % f == 0 {
                let q = magnitude / f;
                proof {
                    assert(0 <= q <= magnitude) by (nonlinear_arith)
                        requires
                            0 <= magnitude,
                            f > 0,
                            q == magnitude / f,
                    ;
                }
                let u = if mantissa < 0 { -q } else { q };
                Some(Decimal { units: u })
            } else {
                None
            }
        }
    }

    /// Reads a decimal text through `rust_decimal`; `None` when the text is
    /// not a decimal, needs more than ten fractional digits, or is out of range.
    pub fn parse(text: &str) -> (r: Option<Decimal>)
        ensures
            r == (match decimal_parts(text@) {
                Some((m, s)) => match units_of_parts(m as int, s as nat) {
                    Some(u) => if -MAX_UNITS <= u <= MAX_UNITS {
                        Some(Decimal { units: u as i128 })
                    } else {
                        None::<Decimal>
                    },
                    None => None::<Decimal>,
                },
                None => None::<Decimal>,
            }),
    {
        match parse_decimal_parts(text) {
            Some((m, s)) => Decimal::from_parts(m, s),
            None => None,
        }
    }

    /// The shortest decimal text of the amount, written by `rust_decimal`.
    pub fn to_string(&self) -> (r: String)
        requires
            self.in_range(),
        ensures
            r@ == decimal_text(normal_parts(self@).0, normal_parts(self@).1 as int),
    {
        let negative = self.units < 0;
        let mut magnitude: u128 = if negative { (-self.units) as u128 } else { self.units as u128 };
        let mut scale: u32 = FRACTION_DIGITS;
        let ghost start: nat = magnitude as nat;
        while scale > 0 && magnitude % 10 == 0
            invariant
                scale <= FRACTION_DIGITS,
                magnitude <= MAX_UNITS,
                strip_zeros(magnitude as nat, scale as nat) == strip_zeros(start, FRACTION_DIGITS as nat),
            decreases scale,
        {
            magnitude = magnitude / 10;
            scale = scale - 1;
        }
        let m: i128 = if negative { -(magnitude as i128) } else { magnitude as i128 };
        format_decimal(m, scale)
    }
}

/// Dropping trailing zeros keeps the value: the stripped mantissa times ten
/// to the number of dropped digits is the magnitude.
pub proof fn lemma_strip_zeros(magnitude: nat, scale: nat)
    ensures
        strip_zeros(magnitude, scale).1 <= scale,
        strip_zeros(magnitude, scale).0 * pow10((scale - strip_zeros(magnitude, scale).1) as nat) == magnitude,
    decreases scale,
{
    if scale > 0 && magnitude % 10 == 0 {
        let q: nat = magnitude / 10;
        lemma_strip_zeros(q, (scale - 1) as nat);
        let (m, s) = strip_zeros(q, (scale - 1) as nat);
        let p = pow10((scale - 1 - s) as nat);
        assert(pow10((scale - s) as nat) == 10 * p);
        assert(m * (10 * p) == 10 * (m * p)) by (nonlinear_arith);
    } else {
        assert(pow10(0) == 1);
    }
}

/// The mantissa and scale that `to_string` hands to `rust_decimal` stand
/// for the amount itself: read back as units, they give the amount.
pub proof fn lemma_text_parts_exact(d: Decimal)
    ensures
        normal_parts(d@).1 <= FRACTION_DIGITS,
        units_of_parts(normal_parts(d@).0, normal_parts(d@).1) == Some(d@),
{
    let magnitude: nat = if d@ < 0 { (-d@) as nat } else { d@ as nat };
    lemma_strip_zeros(magnitude, FRACTION_DIGITS as nat);
    let (m, s) = strip_zeros(magnitude, FRACTION_DIGITS as nat);
    let p = pow10((FRACTION_DIGITS - s) as nat);
    assert(m * p == magnitude);
    if d@ < 0 {
        assert((-m) * p == -(m * p)) by (nonlinear_arith);
    }
}

/// The text that `Decimal::to_string` gives for an amount.
pub open spec fn text_of(d: Decimal) -> Seq<char> {
    decimal_text(normal_parts(d@).0, normal_parts(d@).1 as int)
}

/// The text of an optional amount.
pub open spec fn option_text(d: Option<Decimal>) -> Option<Seq<char>> {
    match d {
        Some(x) => Some(text_of(x)),
        None => None,
    }
}

/// The view of an optional string.
pub open spec fn option_view(s: Option<String>) -> Option<Seq<char>> {
    match s {
        Some(x) => Some(x@),
        None => None,
    }
}

/// Whether every amount in a sequence of (price, quantity) pairs is in range.
pub open spec fn pairs_in_range(pairs: Seq<(Decimal, Decimal)>) -> bool {
    forall|i: int| 0 <= i < pairs.len() ==> (#[trigger] pairs[i]).0.in_range() && pairs[i].1.in_range()
}

/// Whether the text pairs are the texts of the amount pairs, in order.
pub open spec fn pairs_text(texts: Seq<(String, String)>, pairs: Seq<(Decimal, Decimal)>) -> bool {
    &&& texts.len() == pairs.len()
    &&& forall|i: int|
        0 <= i < pairs.len() ==> (#[trigger] texts[i]).0@ == text_of(pairs[i].0) && texts[i].1@ == text_of(
            pairs[i].1,
        )
}

impl Decimal {
    /// Whether the amount fits in a 96-bit mantissa at ten fractional digits.
    pub fn is_in_range(&self) -> (r: bool)
        ensures
            r == self.in_range(),
    {
        -MAX_UNITS <= self.units && self.units <= MAX_UNITS
    }

    /// The text of an optional amount.
    pub fn option_to_string(d: Option<Decimal>) -> (r: Option<String>)
        requires
            d matches Some(x) ==> x.in_range(),
        ensures
            option_view(r) == option_text(d),
    {
        match d {
            Some(x) => Some(x.to_string()),
            None => None,
        }
    }

    /// The texts of (price, quantity) pairs, in order.
    pub fn pairs_to_strings(pairs: &Vec<(Decimal, Decimal)>) -> (r: Vec<(String, String)>)
        requires
            pairs_in_range(pairs@),
        ensures
            pairs_text(r@, pairs@),
    {
        let mut r: Vec<(String, String)> = Vec::new();
        let mut i: usize = 0;
        while i < pairs.len()
            invariant
                0 <= i <= pairs@.len(),
                pairs_in_range(pairs@),
                r@.len() == i,
                forall|j: int|
                    0 <= j < i ==> (#[trigger] r@[j]).0@ == text_of(pairs@[j].0) && r@[j].1@ == text_of(
                        pairs@[j].1,
                    ),
            decreases pairs@.len() - i,
        {
            let (p, q) = pairs[i];
            r.push((p.to_string(), q.to_string()));
            i = i + 1;
        }
        r
    }
}

} // verus!
