//! Exact monetary types: no floating point anywhere, all arithmetic checked.

use vstd::prelude::*;

use crate::error::ScoutError;
use crate::text::{decimal, decimal_padded, digit, push_char, push_decimal, push_decimal_padded};

verus! {

/// Fixed decimal places used by [`Money`].
pub const MONEY_SCALE: u32 = 8;

/// `10^MONEY_SCALE`: the number of scaled units in one whole unit of money.
pub open spec fn money_unit() -> int {
    100_000_000
}

/// Fixed-point ledger currency value, backed by `i128` scaled units.
#[derive(Debug, Clone, Copy, PartialEq, Eq, PartialOrd, Ord, Hash)]
pub struct Money(i128);

impl View for Money {
    type V = int;

    /// The scaled-unit value.
    closed spec fn view(&self) -> int {
        self.0 as int
    }
}

impl Money {
    /// The zero amount.
    pub fn zero() -> (m: Money)
        ensures
            m@ == 0,
    {
        Money(0)
    }

    /// Construct from an already-scaled integer.
    pub fn from_scaled_units(units: i128) -> (m: Money)
        ensures
            m@ == units,
    {
        Money(units)
    }

    pub fn scaled_units(&self) -> (units: i128)
        ensures
            units == self@,
    {
        self.0
    }

    /// Checked addition; a typed overflow error, never a wraparound.
    pub fn checked_add(&self, other: &Money) -> (r: Result<Money, ScoutError>)
        ensures
            (r is Ok) <==> i128::MIN <= self@ + other@ <= i128::MAX,
            r matches Ok(m) ==> m@ == self@ + other@,
            r matches Err(e) ==> e matches ScoutError::ArithmeticOverflow { context } && context@
                == "Money::checked_add"@,
    {
        match self.0.checked_add(other.0) {
            Some(v) => Ok(Money(v)),
            None => Err(ScoutError::ArithmeticOverflow { context: "Money::checked_add" }),
        }
    }

    /// Checked subtraction; a typed overflow error, never a wraparound.
    pub fn checked_sub(&self, other: &Money) -> (r: Result<Money, ScoutError>)
        ensures
            (r is Ok) <==> i128::MIN <= self@ - other@ <= i128::MAX,
            r matches Ok(m) ==> m@ == self@ - other@,
            r matches Err(e) ==> e matches ScoutError::ArithmeticOverflow { context } && context@
                == "Money::checked_sub"@,
    {
        match self.0.checked_sub(other.0) {
            Some(v) => Ok(Money(v)),
            None => Err(ScoutError::ArithmeticOverflow { context: "Money::checked_sub" }),
        }
    }

    pub fn is_negative(&self) -> (b: bool)
        ensures
            b == (self@ < 0),
    {
        self.0 < 0
    }

    pub fn is_positive(&self) -> (b: bool)
        ensures
            b == (self@ > 0),
    {
        self.0 > 0
    }

    pub fn is_zero(&self) -> (b: bool)
        ensures
            b == (self@ == 0),
    {
        self.0 == 0
    }

    /// Whether two amounts are equal.
    pub fn same_as(&self, other: &Money) -> (b: bool)
        ensures
            b == (self@ == other@),
    {
        self.0 == other.0
    }

    /// Integer-only rendering: optional `-`, whole units, `.`, and exactly
    /// `MONEY_SCALE` fractional digits. The sign is split from the
    /// magnitude first, so `-0.5` renders as `-0.50000000`.
    pub fn to_display_string(&self) -> (s: String)
        ensures
            s@ == money_text(self@),
    {
        let negative = self.0 < 0;
        let magnitude: u128 = if negative {
            ((-(self.0 + 1)) as u128) + 1
        } else {
            self.0 as u128
        };
        assert(magnitude == abs(self@));
        let whole = magnitude / 100_000_000;
        let frac = magnitude % 100_000_000;
        let mut s = String::new();
        if negative {
            push_char(&mut s, '-');
        }
        push_decimal(&mut s, whole);
        push_char(&mut s, '.');
        push_decimal_padded(&mut s, frac, 8);
        assert(s@ =~= money_text(self@));
        s
    }
}

/// Absolute value.
pub open spec fn abs(v: int) -> nat {
    if v < 0 {
        (-v) as nat
    } else {
        v as nat
    }
}

/// The text of a money amount given in scaled units.
pub open spec fn money_text(units: int) -> Seq<char> {
    let sign = if units < 0 {
        seq!['-']
    } else {
        Seq::empty()
    };
    sign + decimal(abs(units) / 100_000_000) + seq!['.'] + decimal_padded(
        abs(units) % 100_000_000,
        8,
    )
}

/// `2^128`.
pub open spec fn two_pow_128() -> int {
    0x1_0000_0000_0000_0000_0000_0000_0000_0000int
}

/// `2^256`: one more than the largest raw amount.
pub open spec fn two_pow_256() -> int {
    two_pow_128() * two_pow_128()
}

/// Every amount lies in the `i128` range, and an amount is fixed by its
/// value.
pub proof fn lemma_money_view(a: Money, b: Money)
    ensures
        i128::MIN <= a@ <= i128::MAX,
        a@ == b@ ==> a == b,
{
}

/// Adding an amount and subtracting it again gives back the first amount:
/// when `a + b` fits, the difference of the sum and `b` fits too, and
/// the only amount of that value is `a`.
pub proof fn law_add_then_sub_round_trip(a: Money, b: Money)
    requires
        i128::MIN <= a@ + b@ <= i128::MAX,
    ensures
        i128::MIN <= (a@ + b@) - b@ <= i128::MAX,
        forall|m: Money| m@ == (a@ + b@) - b@ ==> m == a,
{
    lemma_money_view(a, b);
    assert forall|m: Money| m@ == (a@ + b@) - b@ implies m == a by {
        lemma_money_view(m, a);
    }
}

/// Unsigned on-chain amount of up to 256 bits, in native precision (no
/// implicit decimals), held as two 128-bit halves.
#[derive(Debug, Clone, Copy, PartialEq, Eq, PartialOrd, Ord, Hash)]
pub struct RawAmount {
    hi: u128,
    lo: u128,
}

impl View for RawAmount {
    type V = nat;

    closed spec fn view(&self) -> nat {
        (self.hi * two_pow_128() + self.lo) as nat
    }
}

/// Every raw amount is below `2^256`.
pub proof fn lemma_raw_amount_bound(a: RawAmount)
    ensures
        a@ < two_pow_256(),
{
    let hi = a.hi as int;
    let lo = a.lo as int;
    assert(hi * two_pow_128() + lo < two_pow_128() * two_pow_128()) by (nonlinear_arith)
        requires
            0 <= hi < two_pow_128(),
            0 <= lo < two_pow_128(),
    ;
}

impl RawAmount {
    /// The zero amount.
    pub fn zero() -> (a: RawAmount)
        ensures
            a@ == 0,
    {
        RawAmount { hi: 0, lo: 0 }
    }

    /// The amount `hi * 2^128 + lo`.
    pub fn from_parts(hi: u128, lo: u128) -> (a: RawAmount)
        ensures
            a@ == hi * two_pow_128() + lo,
    {
        RawAmount { hi, lo }
    }

    /// The high and low 128-bit halves.
    pub fn parts(&self) -> (r: (u128, u128))
        ensures
            self@ == r.0 * two_pow_128() + r.1,
    {
        (self.hi, self.lo)
    }

    /// The amount `v`.
    pub fn from_u128(v: u128) -> (a: RawAmount)
        ensures
            a@ == v,
    {
        RawAmount { hi: 0, lo: v }
    }

    /// The amount as a `u128`, when it fits.
    pub fn to_u128(&self) -> (r: Option<u128>)
        ensures
            (r is Some) <==> self@ <= u128::MAX,
            r matches Some(v) ==> v == self@,
    {
        if self.hi == 0 {
            Some(self.lo)
        } else {
            None
        }
    }

    pub fn is_zero(&self) -> (b: bool)
        ensures
            b == (self@ == 0),
    {
        self.hi == 0 && self.lo == 0
    }

    /// Whether two amounts are equal.
    pub fn same_as(&self, other: &RawAmount) -> (b: bool)
        ensures
            b == (self@ == other@),
    {
        self.hi == other.hi && self.lo == other.lo
    }

    /// Whether `self <= other`.
    pub fn le(&self, other: &RawAmount) -> (b: bool)
        ensures
            b == (self@ <= other@),
    {
        self.hi < other.hi || (self.hi == other.hi && self.lo <= other.lo)
    }

    /// Checked addition; `None` on overflow past `2^256 - 1`, never wraps.
    pub fn checked_add(&self, other: &RawAmount) -> (r: Option<RawAmount>)
        ensures
            (r is Some) <==> self@ + other@ < two_pow_256(),
            r matches Some(s) ==> s@ == self@ + other@,
    {
        let (lo, carry): (u128, u128) = match self.lo.checked_add(other.lo) {
            Some(v) => (v, 0),
            None => (self.lo - (u128::MAX - other.lo) - 1, 1),
        };
        assert(self.lo + other.lo == lo + carry * two_pow_128());
        match self.hi.checked_add(other.hi) {
            Some(h) => match h.checked_add(carry) {
                Some(h2) => Some(RawAmount { hi: h2, lo }),
                None => None,
            },
            None => None,
        }
    }

    /// Checked subtraction; `None` if the result would be negative.
    pub fn checked_sub(&self, other: &RawAmount) -> (r: Option<RawAmount>)
        ensures
            (r is Some) <==> other@ <= self@,
            r matches Some(s) ==> s@ == self@ - other@,
    {
        let (lo, borrow): (u128, u128) = if self.lo >= other.lo {
            (self.lo - other.lo, 0)
        } else {
            (self.lo + (u128::MAX - other.lo) + 1, 1)
        };
        assert(self.lo - other.lo == lo - borrow * two_pow_128());
        if self.hi >= other.hi && self.hi - other.hi >= borrow {
            Some(RawAmount { hi: self.hi - other.hi - borrow, lo })
        } else {
            None
        }
    }
}

/// Divides `hi * 2^128 + lo` by ten: the quotient's halves and the
/// remainder, by long division over 64-bit pieces.
fn div10(hi: u128, lo: u128) -> (r: (u128, u128, u8))
    ensures
        hi * two_pow_128() + lo == 10 * (r.0 * two_pow_128() + r.1) + r.2,
        r.2 < 10,
{
    let q_hi = hi / 10;
    let r1 = hi % 10;
    let lo_hi = lo / 0x1_0000_0000_0000_0000;
    let lo_lo = lo % 0x1_0000_0000_0000_0000;
    let cur = r1 * 0x1_0000_0000_0000_0000 + lo_hi;
    let q_mid = cur / 10;
    let r2 = cur % 10;
    let cur2 = r2 * 0x1_0000_0000_0000_0000 + lo_lo;
    let q_low = cur2 / 10;
    let r3 = cur2 % 10;
    let q_lo = q_mid * 0x1_0000_0000_0000_0000 + q_low;
    (q_hi, q_lo, r3 as u8)
}

/// Appends the decimal text of `hi * 2^128 + lo`.
fn push_decimal_wide(s: &mut String, hi: u128, lo: u128)
    ensures
        final(s)@ == old(s)@ + decimal((hi * two_pow_128() + lo) as nat),
    decreases hi * two_pow_128() + lo,
{
    if hi == 0 {
        push_decimal(s, lo);
    } else {
        let (q_hi, q_lo, d) = div10(hi, lo);
        let ghost v = hi * two_pow_128() + lo;
        let ghost q = q_hi * two_pow_128() + q_lo;
        assert(v >= 10);
        assert(v / 10 == q && v % 10 == d);
        push_decimal_wide(s, q_hi, q_lo);
        push_char(s, digit(d));
        assert(decimal(v as nat) == decimal(q as nat).push(crate::text::digit_char(d as nat)));
    }
}

impl RawAmount {
    /// The decimal text: digits only, no leading zeros, `0` for zero.
    pub fn to_display_string(&self) -> (s: String)
        ensures
            s@ == decimal(self@),
    {
        let mut s = String::new();
        push_decimal_wide(&mut s, self.hi, self.lo);
        s
    }
}

/// Signed native-precision delta of up to 256 bits (two's-complement
/// range `[-2^255, 2^255)`), held as a signed high half and an unsigned
/// low half.
#[derive(Debug, Clone, Copy, PartialEq, Eq, PartialOrd, Ord, Hash)]
pub struct SignedAmount {
    hi: i128,
    lo: u128,
}

impl View for SignedAmount {
    type V = int;

    closed spec fn view(&self) -> int {
        self.hi * two_pow_128() + self.lo
    }
}

impl SignedAmount {
    /// The zero delta.
    pub fn zero() -> (a: SignedAmount)
        ensures
            a@ == 0,
    {
        SignedAmount { hi: 0, lo: 0 }
    }

    /// The delta `hi * 2^128 + lo`.
    pub fn from_parts(hi: i128, lo: u128) -> (a: SignedAmount)
        ensures
            a@ == hi * two_pow_128() + lo,
    {
        SignedAmount { hi, lo }
    }

    /// The signed high half and the unsigned low half.
    pub fn parts(&self) -> (r: (i128, u128))
        ensures
            self@ == r.0 * two_pow_128() + r.1,
    {
        (self.hi, self.lo)
    }

    pub fn is_negative(&self) -> (b: bool)
        ensures
            b == (self@ < 0),
    {
        self.hi < 0
    }

    pub fn is_zero(&self) -> (b: bool)
        ensures
            b == (self@ == 0),
    {
        self.hi == 0 && self.lo == 0
    }

    /// The decimal text: the magnitude's digits, after `-` for a negative
    /// delta.
    pub fn to_display_string(&self) -> (s: String)
        ensures
            s@ == if self@ < 0 {
                seq!['-'] + decimal((-self@) as nat)
            } else {
                decimal(self@ as nat)
            },
    {
        let mut s = String::new();
        if self.hi < 0 {
            push_char(&mut s, '-');
            if self.lo == 0 {
                let mh: u128 = (-(self.hi + 1)) as u128 + 1;
                push_decimal_wide(&mut s, mh, 0);
            } else {
                let mh: u128 = (-(self.hi + 1)) as u128;
                let ml: u128 = (u128::MAX - self.lo) + 1;
                push_decimal_wide(&mut s, mh, ml);
            }
        } else {
            push_decimal_wide(&mut s, self.hi as u128, self.lo);
        }
        s
    }

    /// Checked addition; `None` outside `[-2^255, 2^255)`.
    pub fn checked_add(&self, other: &SignedAmount) -> (r: Option<SignedAmount>)
        ensures
            (r is Some) <==> -two_pow_128() * 0x8000_0000_0000_0000_0000_0000_0000_0000int <= self@
                + other@ < two_pow_128() * 0x8000_0000_0000_0000_0000_0000_0000_0000int,
            r matches Some(s) ==> s@ == self@ + other@,
    {
        let (lo, carry): (u128, i128) = match self.lo.checked_add(other.lo) {
            Some(v) => (v, 0),
            None => (self.lo - (u128::MAX - other.lo) - 1, 1),
        };
        assert(self.lo + other.lo == lo + carry * two_pow_128());
        // Fold the carry into a negative high half first, so that a sum
        // that only overflows before the carry is added is not refused.
        let (other_hi, rest): (i128, i128) = if carry == 1 && other.hi < 0 {
            (other.hi + 1, 0)
        } else {
            (other.hi, carry)
        };
        match self.hi.checked_add(other_hi) {
            Some(h) => match h.checked_add(rest) {
                Some(h2) => Some(SignedAmount { hi: h2, lo }),
                None => None,
            },
            None => None,
        }
    }
}

} // verus!
