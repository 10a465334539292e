//! Fixed-point decimal arithmetic for exchange quantities.
//!
//! A [`Dec`] holds an exact count of 10^-9 units in an `i128`, so every price,
//! size and notional amount is represented without binary floating point and
//! sums of notionals lose no precision.

use vstd::prelude::*;
use vstd::string::StringExecFns;

verus! {

/// Number of 10^-9 units in one whole unit.
pub const UNITS_PER_ONE: i128 = 1_000_000_000;

/// Largest magnitude (in 10^-9 units) a well-formed `Dec` may hold: 10^18,
/// i.e. values up to one billion whole units. The bound keeps products of two
/// well-formed decimals, and their target scaling, inside `i128`.
pub const MAX_UNITS: i128 = 1_000_000_000_000_000_000;

/// 10^n as a mathematical integer.
pub open spec fn pow10(n: nat) -> int
    decreases n,
{
    if n == 0 {
        1
    } else {
        10 * pow10((n - 1) as nat)
    }
}

pub proof fn lemma_pow10_positive(n: nat)
    ensures
        pow10(n) >= 1,
    decreases n,
{
    if n > 0 {
        lemma_pow10_positive((n - 1) as nat);
    }
}

pub proof fn lemma_pow10_increases(m: nat, n: nat)
    requires
        m <= n,
    ensures
        pow10(m) <= pow10(n),
    decreases n,
{
    if m < n {
        lemma_pow10_increases(m, (n - 1) as nat);
        lemma_pow10_positive((n - 1) as nat);
    }
}

/// An exact decimal value: `units` counts 10^-9 units, so the value denoted is
/// `units / 10^9`.
#[derive(Clone, Copy, PartialEq, Eq, Structural, Debug)]
pub struct Dec {
    pub units: i128,
}

impl Dec {
    /// A decimal is well formed when its magnitude stays within `MAX_UNITS`.
    pub open spec fn wf(self) -> bool {
        -MAX_UNITS <= self.units <= MAX_UNITS
    }

    /// Build a decimal from a raw count of 10^-9 units.
    pub fn from_units(units: i128) -> (r: Dec)
        requires
            -MAX_UNITS <= units <= MAX_UNITS,
        ensures
            r.units == units,
            r.wf(),
    {
        Dec { units }
    }

    /// Build the decimal `mantissa * 10^-scale`, as an exchange quotes it.
    pub fn new(mantissa: i64, scale: u32) -> (r: Dec)
        requires
            scale <= 9,
            -MAX_UNITS <= mantissa * pow10((9 - scale) as nat) <= MAX_UNITS,
        ensures
            r.units == mantissa * pow10((9 - scale) as nat),
            r.wf(),
    {
        let factor: i128 = pow10_i128(9 - scale);
        Dec { units: (mantissa as i128) * factor }
    }
}

/// 10^e as an `i128`, for exponents up to 18.
pub fn pow10_i128(e: u32) -> (r: i128)
    requires
        e <= 18,
    ensures
        r == pow10(e as nat),
        1 <= r <= MAX_UNITS,
{
    proof {
        lemma_pow10_values();
    }
    let mut r: i128 = 1;
    let mut i: u32 = 0;
    while i < e
        invariant
            i <= e <= 18,
            r == pow10(i as nat),
        decreases e - i,
    {
        proof {
            lemma_pow10_values();
            lemma_pow10_positive(i as nat);
            lemma_pow10_increases((i + 1) as nat, 18);
            assert(pow10((i + 1) as nat) == 10 * pow10(i as nat));
        }
        r = r * 10;
        i = i + 1;
    }
    proof {
        lemma_pow10_increases(e as nat, 18);
        lemma_pow10_positive(e as nat);
    }
    r
}

pub proof fn lemma_pow10_values()
    ensures
        pow10(18) == 1_000_000_000_000_000_000,
        pow10(9) == 1_000_000_000,
        pow10(8) == 100_000_000,
{
    assert(pow10(0) == 1);
    assert(pow10(1) == 10);
    assert(pow10(2) == 100);
    assert(pow10(3) == 1000);
    assert(pow10(4) == 10000);
    assert(pow10(5) == 100000);
    assert(pow10(6) == 1000000);
    assert(pow10(7) == 10000000);
    assert(pow10(8) == 100000000);
    assert(pow10(9) == 1000000000);
    assert(pow10(10) == 10000000000);
    assert(pow10(11) == 100000000000);
    assert(pow10(12) == 1000000000000);
    assert(pow10(13) == 10000000000000);
    assert(pow10(14) == 100000000000000);
    assert(pow10(15) == 1000000000000000);
    assert(pow10(16) == 10000000000000000);
    assert(pow10(17) == 100000000000000000);
    assert(pow10(18) == 1000000000000000000);
}

/// The character for one decimal digit.
pub open spec fn digit_char(d: int) -> char {
    if d == 0 {
        '0'
    } else if d == 1 {
        '1'
    } else if d == 2 {
        '2'
    } else if d == 3 {
        '3'
    } else if d == 4 {
        '4'
    } else if d == 5 {
        '5'
    } else if d == 6 {
        '6'
    } else if d == 7 {
        '7'
    } else if d == 8 {
        '8'
    } else {
        '9'
    }
}

/// The usual base-10 rendering of a natural number, most significant digit
/// first, with no leading zeros (a lone `0` for zero).
pub open spec fn spec_digits(n: nat) -> Seq<char>
    decreases n,
{
    if n < 10 {
        seq![digit_char(n as int)]
    } else {
        spec_digits(n / 10) + seq![digit_char((n % 10) as int)]
    }
}

/// The nine fractional digits of `f` (which is below 10^9), most significant
/// first, zero padded.
pub open spec fn spec_frac_digits(f: nat) -> Seq<char> {
    Seq::new(9, |i: int| digit_char(((f as int) / pow10((8 - i) as nat)) % 10))
}

/// Rendering of a non-negative count of 10^-9 units: integer part, a point,
/// then all nine fractional digits.
pub open spec fn spec_unsigned_dec_str(u: nat) -> Seq<char> {
    spec_digits(u / 1_000_000_000) + seq!['.'] + spec_frac_digits(u % 1_000_000_000)
}

/// Rendering of a count of 10^-9 units, with a leading minus sign when
/// negative.
pub open spec fn spec_dec_str(units: int) -> Seq<char> {
    if units < 0 {
        seq!['-'] + spec_unsigned_dec_str((-units) as nat)
    } else {
        spec_unsigned_dec_str(units as nat)
    }
}

/// The one-character string for a digit below ten.
fn digit_str(d: u64) -> (r: &'static str)
    requires
        d < 10,
    ensures
        r@ == seq![digit_char(d as int)],
{
    if d == 0 {
        proof {
            reveal_strlit("0");
            assert("0"@ =~= seq![digit_char(0)]);
        }
        "0"
    } else if d == 1 {
        proof {
            reveal_strlit("1");
            assert("1"@ =~= seq![digit_char(1)]);
        }
        "1"
    } else if d == 2 {
        proof {
            reveal_strlit("2");
            assert("2"@ =~= seq![digit_char(2)]);
        }
        "2"
    } else if d == 3 {
        proof {
            reveal_strlit("3");
            assert("3"@ =~= seq![digit_char(3)]);
        }
        "3"
    } else if d == 4 {
        proof {
            reveal_strlit("4");
            assert("4"@ =~= seq![digit_char(4)]);
        }
        "4"
    } else if d == 5 {
        proof {
            reveal_strlit("5");
            assert("5"@ =~= seq![digit_char(5)]);
        }
        "5"
    } else if d == 6 {
        proof {
            reveal_strlit("6");
            assert("6"@ =~= seq![digit_char(6)]);
        }
        "6"
    } else if d == 7 {
        proof {
            reveal_strlit("7");
            assert("7"@ =~= seq![digit_char(7)]);
        }
        "7"
    } else if d == 8 {
        proof {
            reveal_strlit("8");
            assert("8"@ =~= seq![digit_char(8)]);
        }
        "8"
    } else {
        proof {
            reveal_strlit("9");
            assert("9"@ =~= seq![digit_char(9)]);
        }
        "9"
    }
}

/// The base-10 digits of `n` as a string.
pub fn u64_to_digits(n: u64) -> (s: String)
    ensures
        s@ == spec_digits(n as nat),
    decreases n,
{
    if n < 10 {
        String::from_str(digit_str(n))
    } else {
        let mut s = u64_to_digits(n / 10);
        s.append(digit_str(n % 10));
        s
    }
}

/// Append one digit character to a string under construction.
fn append_digit(s: &mut String, d: u64)
    requires
        d < 10,
    ensures
        final(s)@ == old(s)@ + seq![digit_char(d as int)],
{
    s.append(digit_str(d));
}

/// The nine zero-padded fractional digits of `f` as a string.
fn frac_digits_string(f: u64) -> (s: String)
    requires
        f < 1_000_000_000,
    ensures
        s@ == spec_frac_digits(f as nat),
{
    let mut s = String::new();
    append_digit(&mut s, (f / 100_000_000) % 10);
    append_digit(&mut s, (f / 10_000_000) % 10);
    append_digit(&mut s, (f / 1_000_000) % 10);
    append_digit(&mut s, (f / 100_000) % 10);
    append_digit(&mut s, (f / 10_000) % 10);
    append_digit(&mut s, (f / 1_000) % 10);
    append_digit(&mut s, (f / 100) % 10);
    append_digit(&mut s, (f / 10) % 10);
    append_digit(&mut s, f % 10);
    proof {
        lemma_pow10_values();
        assert(pow10(0) == 1);
        assert(pow10(1) == 10);
        assert(pow10(2) == 100);
        assert(pow10(3) == 1000);
        assert(pow10(4) == 10000);
        assert(pow10(5) == 100000);
        assert(pow10(6) == 1000000);
        assert(pow10(7) == 10000000);
        assert(s@ =~= spec_frac_digits(f as nat));
    }
    s
}

impl Dec {
    /// Render the exact decimal value: optional minus sign, integer part, a
    /// point, and all nine fractional digits.
    pub fn to_display_string(&self) -> (s: String)
        requires
            self.wf(),
        ensures
            s@ == spec_dec_str(self.units as int),
    {
        let neg = self.units < 0;
        let abs: i128 = if neg {
            -self.units
        } else {
            self.units
        };
        let int_part: u64 = (abs / 1_000_000_000) as u64;
        let frac_part: u64 = (abs % 1_000_000_000) as u64;
        let digits = u64_to_digits(int_part);
        let frac = frac_digits_string(frac_part);
        let mut s = if neg {
            String::from_str("-")
        } else {
            String::new()
        };
        s.append(digits.as_str());
        s.append(".");
        s.append(frac.as_str());
        proof {
            reveal_strlit("-");
            reveal_strlit(".");
            assert("-"@ =~= seq!['-']);
            assert("."@ =~= seq!['.']);
            assert(s@ =~= spec_dec_str(self.units as int));
        }
        s
    }
}

} // verus!
