//! Fixed-precision decimal numbers: a signed mantissa of at most 96 bits and
//! a scale of at most 28 digits after the point.
//!
//! Texts are read, numbers subtracted and numbers written out by
//! `rust_decimal`. What reading and subtracting return is named here and not
//! defined; what writing returns is stated. The order of two numbers, the
//! absolute value and the shortest form are defined and proved here.

use vstd::arithmetic::div_mod::{lemma_fundamental_div_mod, lemma_fundamental_div_mod_converse};
use crate::text::{digit_text, number_text};
use vstd::prelude::*;

verus! {

/// The largest scale a decimal can have.
pub const MAX_SCALE: u32 = 28;

/// Two to the power of 96: every mantissa lies strictly between this and
/// its negative.
pub const MANTISSA_LIMIT: i128 = 79228162514264337593543950336;

/// Ten to the power of `n`.
pub open spec fn pow10(n: nat) -> nat
    decreases n,
{
    if n == 0 {
        1
    } else {
        10 * pow10((n - 1) as nat)
    }
}

/// The number of units in one: ten to the power of `MAX_SCALE`.
pub open spec fn unit() -> int {
    10000000000000000000000000000
}

/// A decimal number `mantissa / 10^scale`.
#[derive(Clone, Copy, Debug, PartialEq, Eq, Structural)]
pub struct Decimal {
    pub mantissa: i128,
    pub scale: u32,
}

/// What `rust_decimal` makes of a text: the mantissa and scale of the number
/// it reads, or nothing where it refuses the text.
pub uninterp spec fn decimal_from_text(text: Seq<char>) -> Option<(i128, u32)>;

/// What `rust_decimal` gives for `a - b`, each number given by mantissa and
/// scale: the mantissa and scale of the difference, or nothing where the
/// difference cannot be represented.
pub uninterp spec fn decimal_difference(a: i128, a_scale: u32, b: i128, b_scale: u32) -> Option<
    (i128, u32),
>;

/// The last `width` decimal digits of `n`, with leading zeros.
pub open spec fn fixed_digits(n: nat, width: nat) -> Seq<char>
    decreases width,
{
    if width == 0 {
        Seq::empty()
    } else {
        fixed_digits(n / 10, (width - 1) as nat) + digit_text(n % 10)
    }
}

/// The text of the number with this mantissa and scale: a minus sign where
/// it is negative, the digits of the integral part, and, for a scale above
/// zero, a point and the fraction in as many digits as the scale.
pub open spec fn decimal_text(mantissa: i128, scale: u32) -> Seq<char> {
    let size: nat = if mantissa < 0 {
        (-mantissa) as nat
    } else {
        mantissa as nat
    };
    let whole = number_text(size / pow10(scale as nat));
    let digits = if scale == 0 {
        whole
    } else {
        whole + "."@ + fixed_digits(size % pow10(scale as nat), scale as nat)
    };
    if mantissa < 0 {
        "-"@ + digits
    } else {
        digits
    }
}

/// Whether a text is not empty and does not begin with a minus sign.
pub open spec fn unsigned(text: Seq<char>) -> bool {
    text.len() > 0 && text[0] != '-'
}

/// Whether a mantissa and a scale are within the limits of a decimal.
pub open spec fn in_limits(mantissa: i128, scale: u32) -> bool {
    -MANTISSA_LIMIT < mantissa < MANTISSA_LIMIT && scale <= MAX_SCALE
}

/// `<rust_decimal::Decimal as FromStr>::from_str`, followed by `mantissa` and
/// `scale` on the number read. The contract claims that the outcome depends
/// on the text alone and that a number read is within the limits of the type.
#[verifier::external_body]
fn read_decimal(text: &str) -> (r: Option<(i128, u32)>)
    ensures
        r == decimal_from_text(text@),
        r matches Some(p) ==> in_limits(p.0, p.1),
{
    text.parse::<rust_decimal::Decimal>().ok().map(|d| (d.mantissa(), d.scale()))
}

/// `rust_decimal::Decimal::checked_sub` on the two numbers built by
/// `from_i128_with_scale`. The contract claims that the outcome depends on
/// the two numbers alone and that a difference is within the limits of the
/// type.
#[verifier::external_body]
fn subtract_decimal(a: Decimal, b: Decimal) -> (r: Option<(i128, u32)>)
    requires
        a.wf(),
        b.wf(),
    ensures
        r == decimal_difference(a.mantissa, a.scale, b.mantissa, b.scale),
        r matches Some(p) ==> in_limits(p.0, p.1),
{
    let x = rust_decimal::Decimal::from_i128_with_scale(a.mantissa, a.scale);
    let y = rust_decimal::Decimal::from_i128_with_scale(b.mantissa, b.scale);
    x.checked_sub(y).map(|d| (d.mantissa(), d.scale()))
}

/// `to_string` on the number built by
/// `rust_decimal::Decimal::from_i128_with_scale`. The contract claims that
/// the text is the one that `decimal_text` describes: sign, integral part,
/// and the fraction in as many digits as the scale.
#[verifier::external_body]
fn write_decimal(d: Decimal) -> (r: String)
    requires
        d.wf(),
    ensures
        r@ == decimal_text(d.mantissa, d.scale),
{
    rust_decimal::Decimal::from_i128_with_scale(d.mantissa, d.scale).to_string()
}

impl Decimal {
    /// Whether mantissa and scale are within the limits of the type.
    pub open spec fn wf(self) -> bool {
        in_limits(self.mantissa, self.scale)
    }

    /// The number in units of `10^-28`: the scale-free value by which
    /// decimals are compared.
    pub open spec fn units(self) -> int {
        self.mantissa * pow10((MAX_SCALE - self.scale) as nat)
    }

    /// The number made of a mantissa and a scale read by `rust_decimal`.
    pub open spec fn of_parts(parts: Option<(i128, u32)>) -> Option<Decimal> {
        match parts {
            Some(p) => Some(Decimal { mantissa: p.0, scale: p.1 }),
            None => None,
        }
    }

    /// The number that a text stands for, if it stands for one.
    pub open spec fn read(text: Seq<char>) -> Option<Decimal> {
        Decimal::of_parts(decimal_from_text(text))
    }

    /// `self - other` where it can be represented.
    pub open spec fn difference(self, other: Decimal) -> Option<Decimal> {
        Decimal::of_parts(
            decimal_difference(self.mantissa, self.scale, other.mantissa, other.scale),
        )
    }

    /// The number without its sign.
    pub open spec fn magnitude(self) -> Decimal {
        Decimal { mantissa: if self.mantissa < 0 { (-self.mantissa) as i128 } else { self.mantissa }, scale: self.scale }
    }

    /// The number with the opposite sign.
    pub open spec fn opposite(self) -> Decimal {
        Decimal { mantissa: (-self.mantissa) as i128, scale: self.scale }
    }

    /// The same number with the smallest scale that can hold it; zero has
    /// scale zero.
    pub open spec fn shortest(self) -> Decimal
        decreases self.scale,
    {
        if self.mantissa == 0 {
            Decimal { mantissa: 0, scale: 0 }
        } else if self.scale > 0 && self.mantissa % 10 == 0 {
            Decimal { mantissa: (self.mantissa / 10) as i128, scale: (self.scale - 1) as u32 }.shortest()
        } else {
            self
        }
    }

    /// The integral part, rounded down, and the fraction in units of
    /// `10^-28`. Pairs of this form, compared left to right, are ordered as
    /// the numbers are.
    pub open spec fn key_of(self) -> (i128, u128) {
        ((self.units() / unit()) as i128, (self.units() % unit()) as u128)
    }

    /// Zero.
    pub fn zero() -> (r: Decimal)
        ensures
            r == (Decimal { mantissa: 0, scale: 0 }),
            r.wf(),
    {
        Decimal { mantissa: 0, scale: 0 }
    }

    /// A decimal of the given mantissa and scale, where they are within the
    /// limits of the type.
    pub fn new(mantissa: i128, scale: u32) -> (r: Option<Decimal>)
        ensures
            in_limits(mantissa, scale) ==> r == Some(Decimal { mantissa, scale }),
            !in_limits(mantissa, scale) ==> r is None,
    {
        if -MANTISSA_LIMIT < mantissa && mantissa < MANTISSA_LIMIT && scale <= MAX_SCALE {
            Some(Decimal { mantissa, scale })
        } else {
            None
        }
    }

    /// Reads a decimal from a text.
    pub fn parse(text: &str) -> (r: Option<Decimal>)
        ensures
            r == Decimal::read(text@),
            r matches Some(d) ==> d.wf(),
    {
        match read_decimal(text) {
            Some(p) => Some(Decimal { mantissa: p.0, scale: p.1 }),
            None => None,
        }
    }

    /// `self - other`, or nothing where the difference cannot be represented.
    pub fn checked_sub(self, other: Decimal) -> (r: Option<Decimal>)
        requires
            self.wf(),
            other.wf(),
        ensures
            r == self.difference(other),
            r matches Some(d) ==> d.wf(),
    {
        match subtract_decimal(self, other) {
            Some(p) => Some(Decimal { mantissa: p.0, scale: p.1 }),
            None => None,
        }
    }

    /// The number as a text.
    pub fn to_text(self) -> (r: String)
        requires
            self.wf(),
        ensures
            r@ == decimal_text(self.mantissa, self.scale),
            self.mantissa >= 0 ==> unsigned(r@),
    {
        proof {
            lemma_text_unsigned(self.mantissa, self.scale);
        }
        write_decimal(self)
    }

    /// The number without its sign.
    pub fn abs(self) -> (r: Decimal)
        requires
            self.wf(),
        ensures
            r == self.magnitude(),
            r.wf(),
            r.mantissa >= 0,
    {
        if self.mantissa < 0 {
            Decimal { mantissa: -self.mantissa, scale: self.scale }
        } else {
            self
        }
    }

    /// The number with the opposite sign.
    pub fn neg(self) -> (r: Decimal)
        requires
            self.wf(),
        ensures
            r == self.opposite(),
            r.wf(),
            r.units() == -self.units(),
    {
        assert(-self.mantissa * pow10((MAX_SCALE - self.scale) as nat) == -(self.mantissa * pow10(
            (MAX_SCALE - self.scale) as nat,
        ))) by (nonlinear_arith);
        Decimal { mantissa: -self.mantissa, scale: self.scale }
    }

    /// The same number with trailing zeros after the point removed.
    pub fn normalize(self) -> (r: Decimal)
        requires
            self.wf(),
        ensures
            r == self.shortest(),
            r.wf(),
            r.units() == self.units(),
            self.mantissa >= 0 ==> r.mantissa >= 0,
    {
        if self.mantissa == 0 {
            assert(0 * pow10((MAX_SCALE - self.scale) as nat) == 0) by (nonlinear_arith);
            assert(0 * pow10(MAX_SCALE as nat) == 0) by (nonlinear_arith);
            return Decimal { mantissa: 0, scale: 0 };
        }
        let mut cur: Decimal = self;
        while cur.scale > 0 && cur.mantissa.checked_rem_euclid(10) == Some(0i128)
            invariant
                cur.wf(),
                cur.mantissa != 0,
                cur.shortest() == self.shortest(),
                cur.units() == self.units(),
                self.mantissa >= 0 ==> cur.mantissa >= 0,
            decreases cur.scale,
        {
            let m: i128 = cur.mantissa.checked_div_euclid(10).unwrap();
            let next: Decimal = Decimal { mantissa: m, scale: cur.scale - 1 };
            proof {
                lemma_fundamental_div_mod(cur.mantissa as int, 10);
                assert(cur.mantissa == 10 * m);
                assert(m != 0);
                let e: nat = (MAX_SCALE - cur.scale) as nat;
                assert(pow10(e + 1) == 10 * pow10(e));
                assert((10 * m) * pow10(e) == m * (10 * pow10(e))) by (nonlinear_arith);
            }
            cur = next;
        }
        cur
    }

    /// The key by which the number is ordered: see `key_of`.
    pub fn key(self) -> (r: (i128, u128))
        requires
            self.wf(),
        ensures
            r == self.key_of(),
            r.1 < unit(),
            self.units() == r.0 * unit() + r.1,
    {
        let p: u128 = power_of_ten(self.scale);
        let t: u128 = power_of_ten(MAX_SCALE - self.scale);
        proof {
            lemma_key_parts(self);
        }
        let whole: i128 = self.mantissa.checked_div_euclid(p as i128).unwrap();
        let rest: i128 = self.mantissa.checked_rem_euclid(p as i128).unwrap();
        let fraction: u128 = (rest as u128) * t;
        (whole, fraction)
    }
}

/// The first powers of ten, up to the unit.
pub proof fn lemma_pow10_values()
    ensures
        pow10(0) == 1,
        pow10(MAX_SCALE as nat) == unit(),
        forall|n: nat| n <= MAX_SCALE ==> 1 <= #[trigger] pow10(n) <= unit(),
        forall|n: nat| n <= MAX_SCALE ==> #[trigger] pow10(n) * pow10((MAX_SCALE - n) as nat) == unit(),
{
    assert(pow10(0) == 1);
    assert(pow10(1) == 10);
    assert(pow10(2) == 100);
    assert(pow10(3) == 1000);
    assert(pow10(4) == 10000);
    assert(pow10(5) == 100000);
    assert(pow10(6) == 1000000);
    assert(pow10(7) == 10000000);
    assert(pow10(8) == 100000000);
    assert(pow10(9) == 1000000000);
    assert(pow10(10) == 10000000000);
    assert(pow10(11) == 100000000000);
    assert(pow10(12) == 1000000000000);
    assert(pow10(13) == 10000000000000);
    assert(pow10(14) == 100000000000000);
    assert(pow10(15) == 1000000000000000);
    assert(pow10(16) == 10000000000000000);
    assert(pow10(17) == 100000000000000000);
    assert(pow10(18) == 1000000000000000000);
    assert(pow10(19) == 10000000000000000000);
    assert(pow10(20) == 100000000000000000000);
    assert(pow10(21) == 1000000000000000000000);
    assert(pow10(22) == 10000000000000000000000);
    assert(pow10(23) == 100000000000000000000000);
    assert(pow10(24) == 1000000000000000000000000);
    assert(pow10(25) == 10000000000000000000000000);
    assert(pow10(26) == 100000000000000000000000000);
    assert(pow10(27) == 1000000000000000000000000000);
    assert(pow10(28) == 10000000000000000000000000000);
    assert forall|n: nat| n <= MAX_SCALE implies 1 <= #[trigger] pow10(n) <= unit() by {
        lemma_pow10_split(n, (MAX_SCALE - n) as nat);
        lemma_pow10_positive(n);
        lemma_pow10_positive((MAX_SCALE - n) as nat);
        let a = pow10(n);
        let b = pow10((MAX_SCALE - n) as nat);
        assert(a >= 1 && b >= 1 ==> a <= a * b) by (nonlinear_arith);
    }
    assert forall|n: nat| n <= MAX_SCALE implies #[trigger] pow10(n) * pow10(
        (MAX_SCALE - n) as nat,
    ) == unit() by {
        lemma_pow10_split(n, (MAX_SCALE - n) as nat);
    }
}

/// A power of ten is at least one.
pub proof fn lemma_pow10_positive(n: nat)
    ensures
        pow10(n) >= 1,
    decreases n,
{
    if n > 0 {
        lemma_pow10_positive((n - 1) as nat);
    }
}

/// Powers of ten multiply as their exponents add.
pub proof fn lemma_pow10_split(a: nat, b: nat)
    ensures
        pow10(a + b) == pow10(a) * pow10(b),
    decreases a,
{
    if a == 0 {
        assert(pow10(0) * pow10(b) == pow10(b)) by (nonlinear_arith)
            requires
                pow10(0) == 1,
        ;
    } else {
        lemma_pow10_split((a - 1) as nat, b);
        assert(pow10(a + b) == 10 * pow10((a - 1 + b) as nat));
        assert(10 * (pow10((a - 1) as nat) * pow10(b)) == (10 * pow10((a - 1) as nat)) * pow10(b))
            by (nonlinear_arith);
    }
}

/// Ten to the power of `k`, for a scale `k`.
pub fn power_of_ten(k: u32) -> (r: u128)
    requires
        k <= MAX_SCALE,
    ensures
        r == pow10(k as nat),
        1 <= r <= unit(),
{
    let mut r: u128 = 1;
    let mut i: u32 = 0;
    proof {
        lemma_pow10_values();
    }
    while i < k
        invariant
            i <= k <= MAX_SCALE,
            r == pow10(i as nat),
            forall|n: nat| n <= MAX_SCALE ==> 1 <= #[trigger] pow10(n) <= unit(),
        decreases k - i,
    {
        assert(pow10((i + 1) as nat) == 10 * pow10(i as nat));
        assert(pow10((i + 1) as nat) <= unit());
        r = r * 10;
        i = i + 1;
    }
    r
}

/// How the key of a decimal comes from its mantissa: divide by `10^scale`
/// for the integral part, and scale the remainder up to 28 digits for the
/// fraction.
pub proof fn lemma_key_parts(d: Decimal)
    requires
        d.wf(),
    ensures
        1 <= pow10(d.scale as nat) <= unit(),
        1 <= pow10((MAX_SCALE - d.scale) as nat) <= unit(),
        d.units() / unit() == (d.mantissa as int) / (pow10(d.scale as nat) as int),
        d.units() % unit() == ((d.mantissa as int) % (pow10(d.scale as nat) as int)) * pow10(
            (MAX_SCALE - d.scale) as nat,
        ),
        -MANTISSA_LIMIT < d.units() / unit() < MANTISSA_LIMIT,
        0 <= d.units() % unit() < unit(),
        d.key_of().0 == d.units() / unit(),
        d.key_of().1 == d.units() % unit(),
        d.units() == d.key_of().0 * unit() + d.key_of().1,
{
    lemma_pow10_values();
    let p: int = pow10(d.scale as nat) as int;
    let t: int = pow10((MAX_SCALE - d.scale) as nat) as int;
    let m: int = d.mantissa as int;
    let q: int = m / p;
    let r: int = m % p;
    assert(p * t == unit());
    lemma_fundamental_div_mod(m, p);
    assert(m == p * q + r);
    assert(0 <= r < p);
    assert(m * t == q * (p * t) + r * t) by (nonlinear_arith)
        requires
            m == p * q + r,
    ;
    assert(0 <= r * t < p * t) by (nonlinear_arith)
        requires
            0 <= r < p,
            t >= 1,
    ;
    lemma_fundamental_div_mod_converse(m * t, unit(), q, r * t);
    assert(-MANTISSA_LIMIT < q < MANTISSA_LIMIT) by (nonlinear_arith)
        requires
            m == p * q + r,
            0 <= r < p,
            p >= 1,
            -MANTISSA_LIMIT < m < MANTISSA_LIMIT,
    ;
}

/// Keys compared left to right order decimals as their values do.
pub proof fn lemma_key_order(a: Decimal, b: Decimal)
    requires
        a.wf(),
        b.wf(),
    ensures
        a.units() < b.units() <==> (a.key_of().0 < b.key_of().0 || (a.key_of().0 == b.key_of().0
            && a.key_of().1 < b.key_of().1)),
        a.units() == b.units() <==> a.key_of() == b.key_of(),
{
    lemma_key_parts(a);
    lemma_key_parts(b);
    let u: int = unit();
    let (qa, ra) = (a.key_of().0 as int, a.key_of().1 as int);
    let (qb, rb) = (b.key_of().0 as int, b.key_of().1 as int);
    assert(qa < qb ==> qa * u + ra < qb * u + rb) by (nonlinear_arith)
        requires
            0 <= ra < u,
            0 <= rb < u,
    ;
    assert(qb < qa ==> qb * u + rb < qa * u + ra) by (nonlinear_arith)
        requires
            0 <= ra < u,
            0 <= rb < u,
    ;
}

/// The shortest form of a decimal has the same value, and keeps the sign.
pub proof fn lemma_shortest_keeps_value(d: Decimal)
    requires
        d.wf(),
    ensures
        d.shortest().wf(),
        d.shortest().units() == d.units(),
        d.mantissa >= 0 ==> d.shortest().mantissa >= 0,
    decreases d.scale,
{
    if d.mantissa == 0 {
        assert(0 * pow10((MAX_SCALE - d.scale) as nat) == 0) by (nonlinear_arith);
        assert(0 * pow10(MAX_SCALE as nat) == 0) by (nonlinear_arith);
    } else if d.scale > 0 && d.mantissa % 10 == 0 {
        let m: int = d.mantissa / 10;
        lemma_fundamental_div_mod(d.mantissa as int, 10);
        let next = Decimal { mantissa: m as i128, scale: (d.scale - 1) as u32 };
        let e: nat = (MAX_SCALE - d.scale) as nat;
        assert(pow10(e + 1) == 10 * pow10(e));
        assert((10 * m) * pow10(e) == m * (10 * pow10(e))) by (nonlinear_arith);
        lemma_shortest_keeps_value(next);
    }
}

/// The digits of a number begin with a digit, not with a minus sign.
pub proof fn lemma_number_text_unsigned(n: nat)
    ensures
        unsigned(number_text(n)),
    decreases n,
{
    reveal_strlit("0");
    reveal_strlit("1");
    reveal_strlit("2");
    reveal_strlit("3");
    reveal_strlit("4");
    reveal_strlit("5");
    reveal_strlit("6");
    reveal_strlit("7");
    reveal_strlit("8");
    reveal_strlit("9");
    if n >= 10 {
        lemma_number_text_unsigned(n / 10);
        assert(number_text(n)[0] == number_text(n / 10)[0]);
    }
}

/// The text of a number that is not negative has no minus sign in front.
pub proof fn lemma_text_unsigned(mantissa: i128, scale: u32)
    ensures
        mantissa >= 0 ==> unsigned(decimal_text(mantissa, scale)),
{
    if mantissa >= 0 {
        let whole = number_text((mantissa as nat) / pow10(scale as nat));
        lemma_number_text_unsigned((mantissa as nat) / pow10(scale as nat));
        assert(decimal_text(mantissa, scale)[0] == whole[0]);
    }
}

} // verus!
