use vstd::arithmetic::power2::{
    lemma2_to64, lemma_pow2_adds, lemma_pow2_pos, lemma_pow2_strictly_increases, lemma_pow2_unfold,
    pow2,
};
use vstd::prelude::*;

verus! {

/// A number as `mantissa * 2^exponent`, kept in its one canonical form:
/// the mantissa is odd, or the number is zero and written `0 * 2^0`.
///
/// Every integer up to 128 bits and every finite binary floating-point value
/// has exactly one such form, so an integer-valued float and the integer of
/// the same value are one and the same `Number`.
#[derive(Clone, Copy, Debug, PartialEq, Eq, Structural)]
pub struct Number {
    mantissa: i128,
    exponent: i64,
}

impl Number {
    pub closed spec fn mantissa_spec(self) -> int {
        self.mantissa as int
    }

    pub closed spec fn exponent_spec(self) -> int {
        self.exponent as int
    }

    /// The canonical form: an odd mantissa, or zero written with exponent zero.
    pub open spec fn canonical(self) -> bool {
        self.mantissa_spec() % 2 != 0 || (self.mantissa_spec() == 0 && self.exponent_spec() == 0)
    }

    #[verifier::type_invariant]
    closed spec fn inv(self) -> bool {
        self.canonical()
    }

    /// The number `mantissa * 2^exponent`, brought to its canonical form by
    /// moving the factors of two out of the mantissa into the exponent.
    pub fn new(mantissa: i128, exponent: i32) -> (r: Number)
        ensures
            r.canonical(),
            mantissa == 0 ==> r.mantissa_spec() == 0 && r.exponent_spec() == 0,
            mantissa != 0 ==> exists|k: nat|
                mantissa == r.mantissa_spec() * pow2(k) && r.exponent_spec() == exponent + k,
    {
        if mantissa == 0 {
            return Number { mantissa: 0, exponent: 0 };
        }
        let mut m: i128 = mantissa;
        let mut e: i64 = exponent as i64;
        let ghost mut k: nat = 0;
        proof {
            lemma_pow2_128();
            lemma2_to64();
        }
        while m % 2 == 0
            invariant
                m != 0,
                mantissa == m * pow2(k),
                e == exponent + k,
                k < 128,
                pow2(128) == 0x1_0000_0000_0000_0000_0000_0000_0000_0000int,
            decreases
                abs(m as int),
        {
            proof {
                lemma_pow2_unfold(k + 1);
                lemma_pow2_pos(k + 1);
                let h = m / 2;
                assert(m == 2 * h);
                assert(mantissa == h * pow2(k + 1)) by (nonlinear_arith)
                    requires
                        mantissa == m * pow2(k),
                        m == 2 * h,
                        pow2(k + 1) == 2 * pow2(k),
                ;
                assert(abs(mantissa as int) >= pow2(k + 1)) by (nonlinear_arith)
                    requires
                        mantissa == h * pow2(k + 1),
                        h != 0,
                        pow2(k + 1) > 0,
                ;
                if k + 1 >= 128 {
                    if k + 1 > 128 {
                        lemma_pow2_strictly_increases(128, k + 1);
                    }
                    assert(false);
                }
            }
            m = m / 2;
            e = e + 1;
            proof {
                k = k + 1;
            }
        }
        Number { mantissa: m, exponent: e }
    }

    /// The number of the integer `n`.
    pub fn from_i128(n: i128) -> (r: Number)
        ensures
            r.canonical(),
            n == 0 ==> r.mantissa_spec() == 0 && r.exponent_spec() == 0,
            n != 0 ==> exists|k: nat| n == r.mantissa_spec() * pow2(k) && r.exponent_spec() == k,
    {
        Number::new(n, 0)
    }

    pub fn mantissa(&self) -> (r: i128)
        ensures
            r == self.mantissa_spec(),
    {
        self.mantissa
    }

    pub fn exponent(&self) -> (r: i64)
        ensures
            r == self.exponent_spec(),
    {
        self.exponent
    }
}

/// Two canonical numbers of the same value are the same `Number`: where
/// `a.mantissa * 2^a.exponent == b.mantissa * 2^b.exponent` (`a` taken as the
/// one with the smaller exponent), `a == b`. So an integer and a float of one
/// value compare equal.
pub proof fn lemma_same_value_same_number(a: Number, b: Number)
    requires
        a.canonical(),
        b.canonical(),
        a.exponent_spec() <= b.exponent_spec(),
        a.mantissa_spec() == b.mantissa_spec() * pow2((b.exponent_spec() - a.exponent_spec()) as nat),
    ensures
        a == b,
{
    let d = (b.exponent_spec() - a.exponent_spec()) as nat;
    lemma_pow2_pos(d);
    if d > 0 {
        lemma_pow2_unfold(d);
        let h = pow2((d - 1) as nat);
        let m = a.mantissa_spec();
        let mb = b.mantissa_spec();
        assert(m == 2 * (mb * h)) by (nonlinear_arith)
            requires
                m == mb * pow2(d),
                pow2(d) == 2 * h,
        ;
        if mb == 0 {
            assert(m == 0);
        } else {
            assert(m % 2 == 0);
            assert(m != 0) by (nonlinear_arith)
                requires
                    m == 2 * (mb * h),
                    mb != 0,
                    h > 0,
            ;
        }
        assert(false);
    }
    assert(d == 0);
    assert(pow2(d) == 1) by {
        lemma2_to64();
    }
    assert(a.mantissa_spec() == b.mantissa_spec());
    assert(a.mantissa == b.mantissa && a.exponent == b.exponent);
}

spec fn abs(x: int) -> int {
    if x < 0 {
        -x
    } else {
        x
    }
}

proof fn lemma_pow2_128()
    ensures
        pow2(128) == 0x1_0000_0000_0000_0000_0000_0000_0000_0000int,
{
    lemma2_to64();
    lemma_pow2_adds(64, 64);
}

} // verus!
