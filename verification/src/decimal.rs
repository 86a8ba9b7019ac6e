//! Exact decimal numbers: a 96-bit mantissa and a power-of-ten scale.
use vstd::arithmetic::power::pow;
use vstd::prelude::*;

verus! {

/// The largest mantissa magnitude, `2^96 - 1`.
pub const MAX_MANTISSA: i128 = 79228162514264337593543950335;

/// The largest scale.
pub const MAX_SCALE: u32 = 28;

/// Whether a mantissa and a scale make a decimal.
pub open spec fn in_range(mantissa: int, scale: int) -> bool {
    -MAX_MANTISSA <= mantissa <= MAX_MANTISSA && 0 <= scale <= MAX_SCALE
}

/// `m1 / 10^s1` and `m2 / 10^s2` are the same number.
pub open spec fn same_number(m1: int, s1: int, m2: int, s2: int) -> bool {
    m1 * pow(10, s2 as nat) == m2 * pow(10, s1 as nat)
}

/// What `rust_decimal::Decimal`'s `FromStr` reads: mantissa and scale.
pub uninterp spec fn parsed_decimal(s: Seq<char>) -> Option<(i128, u32)>;

/// `rust_decimal::Decimal`'s `FromStr`, with the number handed back as mantissa
/// and scale; the accepted syntax is not spelled out here, the result only gets
/// a name.
#[verifier::external_body]
fn parse_parts(s: &str) -> (r: Option<(i128, u32)>)
    ensures
        r == parsed_decimal(s@),
{
    match s.parse::<rust_decimal::Decimal>() {
        Ok(d) => Some((d.mantissa(), d.scale())),
        Err(_) => None,
    }
}

/// `rust_decimal::Decimal`'s `==`: two decimals are equal when they are the
/// same number, whatever their scales.
#[verifier::external_body]
fn equal_parts(m1: i128, s1: u32, m2: i128, s2: u32) -> (r: bool)
    requires
        in_range(m1 as int, s1 as int),
        in_range(m2 as int, s2 as int),
    ensures
        r == same_number(m1 as int, s1 as int, m2 as int, s2 as int),
{
    rust_decimal::Decimal::from_i128_with_scale(m1, s1)
        == rust_decimal::Decimal::from_i128_with_scale(m2, s2)
}

/// A decimal number, `mantissa / 10^scale`.
#[derive(Debug, Clone, Copy)]
pub struct Decimal {
    mantissa: i128,
    scale: u32,
}

impl Decimal {
    #[verifier::type_invariant]
    spec fn in_bounds(self) -> bool {
        in_range(self.mantissa as int, self.scale as int)
    }

    pub closed spec fn spec_mantissa(self) -> int {
        self.mantissa as int
    }

    pub closed spec fn spec_scale(self) -> int {
        self.scale as int
    }

    /// The two decimals are the same number.
    pub open spec fn same_as(self, other: Decimal) -> bool {
        same_number(
            self.spec_mantissa(),
            self.spec_scale(),
            other.spec_mantissa(),
            other.spec_scale(),
        )
    }

    /// A decimal from its parts, if they are in range.
    pub fn new(mantissa: i128, scale: u32) -> (r: Option<Decimal>)
        ensures
            match r {
                Some(d) => in_range(mantissa as int, scale as int) && d.spec_mantissa() == mantissa
                    && d.spec_scale() == scale,
                None => !in_range(mantissa as int, scale as int),
            },
    {
        if -MAX_MANTISSA <= mantissa && mantissa <= MAX_MANTISSA && scale <= MAX_SCALE {
            Some(Decimal { mantissa, scale })
        } else {
            None
        }
    }

    pub fn mantissa(&self) -> (r: i128)
        ensures
            r == self.spec_mantissa(),
    {
        self.mantissa
    }

    pub fn scale(&self) -> (r: u32)
        ensures
            r == self.spec_scale(),
    {
        self.scale
    }

    /// Parse a decimal numeral.
    pub fn parse(s: &str) -> (r: Option<Decimal>)
        ensures
            decimal_read(s@, r),
    {
        match parse_parts(s) {
            Some((m, k)) => Decimal::new(m, k),
            None => None,
        }
    }

    /// Numeric equality.
    pub fn same_value(&self, other: &Decimal) -> (r: bool)
        ensures
            r == self.same_as(*other),
    {
        proof {
            use_type_invariant(*self);
            use_type_invariant(*other);
        }
        equal_parts(self.mantissa, self.scale, other.mantissa, other.scale)
    }
}

/// `r` is what reading `s` as a decimal gives: the parsed mantissa and scale
/// when there are any and they are in range, nothing otherwise.
pub open spec fn decimal_read(s: Seq<char>, r: Option<Decimal>) -> bool {
    match parsed_decimal(s) {
        Some((m, k)) if in_range(m as int, k as int) => match r {
            Some(d) => d.spec_mantissa() == m && d.spec_scale() == k,
            None => false,
        },
        _ => r.is_none(),
    }
}

/// Both absent, or both present and the same number.
pub open spec fn same_optional(a: Option<Decimal>, b: Option<Decimal>) -> bool {
    match (a, b) {
        (Some(x), Some(y)) => x.same_as(y),
        (None, None) => true,
        _ => false,
    }
}

/// Numeric equality of optional decimals.
pub fn optional_same(a: &Option<Decimal>, b: &Option<Decimal>) -> (r: bool)
    ensures
        r == same_optional(*a, *b),
{
    match (a, b) {
        (Some(x), Some(y)) => x.same_value(y),
        (None, None) => true,
        _ => false,
    }
}

/// A zero at the end does not change the number; at one scale only the same digits
/// are the same number.
pub proof fn law_trailing_zeros_do_not_count(m: int, s: nat, n: int)
    ensures
        same_number(m, s as int, 10 * m, s as int + 1),
        same_number(m, s as int, n, s as int) <==> m == n,
{
    vstd::arithmetic::power::lemma_pow_positive(10, s);
    assert(pow(10, s + 1) == 10 * pow(10, s)) by {
        vstd::arithmetic::power::lemma_pow_adds(10, 1, s);
        vstd::arithmetic::power::lemma_pow1(10);
    }
    let p = pow(10, s);
    assert(m * (10 * p) == (10 * m) * p) by (nonlinear_arith);
    assert(m * p == n * p <==> m == n) by (nonlinear_arith)
        requires
            p > 0,
    ;
}

} // verus!
