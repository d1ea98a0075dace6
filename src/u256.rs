//! Unsigned 256-bit integers, as needed by the proof-of-work target.
use vstd::prelude::*;

verus! {

/// 2^64.
pub open spec fn w1() -> nat {
    0x1_0000_0000_0000_0000nat
}

/// 2^128.
pub open spec fn w2() -> nat {
    0x1_0000_0000_0000_0000_0000_0000_0000_0000nat
}

/// 2^192.
pub open spec fn w3() -> nat {
    0x1_0000_0000_0000_0000_0000_0000_0000_0000_0000_0000_0000_0000nat
}

/// 2^256.
pub open spec fn w4() -> nat {
    0x1_0000_0000_0000_0000_0000_0000_0000_0000_0000_0000_0000_0000_0000_0000_0000_0000nat
}

/// A 256-bit unsigned integer as four 64-bit words, least significant first.
#[derive(Debug, Clone, Copy, PartialEq, Eq)]
pub struct U256(pub [u64; 4]);

/// The numeric value of the largest permitted target, 2^240 - 1.
pub open spec fn minimum_target_value() -> nat {
    0xFFFF_FFFF_FFFF_FFFF_FFFF_FFFF_FFFF_FFFF_FFFF_FFFF_FFFF_FFFF_FFFF_FFFF_FFFFnat
}

/// The value held by four words, least significant first.
pub open spec fn words_value(a: u64, b: u64, c: u64, d: u64) -> nat {
    (a as nat) + (b as nat) * w1() + (c as nat) * w2() + (d as nat) * w3()
}

impl U256 {
    /// The numeric value of this integer.
    pub open spec fn value(self) -> nat {
        words_value(self.0[0], self.0[1], self.0[2], self.0[3])
    }

    /// Builds the integer equal to `x`.
    pub fn from_u64(x: u64) -> (r: U256)
        ensures
            r.value() == x as nat,
    {
        U256([x, 0, 0, 0])
    }

    /// The largest permitted target: the top 16 bits are zero, the other 240 are one.
    pub fn minimum_target() -> (r: U256)
        ensures
            r.value() == minimum_target_value(),
    {
        U256([0xFFFF_FFFF_FFFF_FFFF, 0xFFFF_FFFF_FFFF_FFFF, 0xFFFF_FFFF_FFFF_FFFF, 0x0000_FFFF_FFFF_FFFF])
    }

    /// Zero.
    pub fn zero() -> (r: U256)
        ensures
            r.value() == 0,
    {
        U256([0, 0, 0, 0])
    }

    /// Compares two integers by value: `self <= other`.
    pub fn le(&self, other: &U256) -> (r: bool)
        ensures
            r == (self.value() <= other.value()),
    {
        let a = self.0;
        let b = other.0;
        proof {
            lemma_words_order(a[0], a[1], a[2], a[3], b[0], b[1], b[2], b[3]);
        }
        if a[3] != b[3] {
            a[3] < b[3]
        } else if a[2] != b[2] {
            a[2] < b[2]
        } else if a[1] != b[1] {
            a[1] < b[1]
        } else {
            a[0] <= b[0]
        }
    }

    /// Compares two integers by value: `self < other`.
    pub fn lt(&self, other: &U256) -> (r: bool)
        ensures
            r == (self.value() < other.value()),
    {
        !other.le(self)
    }

    /// The smaller of two integers.
    pub fn min(&self, other: &U256) -> (r: U256)
        ensures
            r.value() == if self.value() <= other.value() { self.value() } else { other.value() },
    {
        if self.le(other) {
            *self
        } else {
            *other
        }
    }

    /// Integer division by a nonzero 64-bit divisor, rounding down.
    pub fn div_small(&self, d: u64) -> (r: U256)
        requires
            d > 0,
        ensures
            r.value() == self.value() / (d as nat),
    {
        let a = self.0;
        let q3 = a[3] / d;
        let r3 = a[3] % d;
        let t2: u128 = (r3 as u128) * 0x1_0000_0000_0000_0000u128 + (a[2] as u128);
        proof {
            lemma_step_div_fits(r3 as nat, a[2] as nat, d as nat);
        }
        let q2 = (t2 / (d as u128)) as u64;
        let r2 = (t2 % (d as u128)) as u64;
        let t1: u128 = (r2 as u128) * 0x1_0000_0000_0000_0000u128 + (a[1] as u128);
        proof {
            lemma_step_div_fits(r2 as nat, a[1] as nat, d as nat);
        }
        let q1 = (t1 / (d as u128)) as u64;
        let r1 = (t1 % (d as u128)) as u64;
        let t0: u128 = (r1 as u128) * 0x1_0000_0000_0000_0000u128 + (a[0] as u128);
        proof {
            lemma_step_div_fits(r1 as nat, a[0] as nat, d as nat);
        }
        let q0 = (t0 / (d as u128)) as u64;
        let r0 = (t0 % (d as u128)) as u64;
        proof {
            vstd::arithmetic::div_mod::lemma_fundamental_div_mod(a[3] as int, d as int);
            vstd::arithmetic::div_mod::lemma_fundamental_div_mod(t2 as int, d as int);
            vstd::arithmetic::div_mod::lemma_fundamental_div_mod(t1 as int, d as int);
            vstd::arithmetic::div_mod::lemma_fundamental_div_mod(t0 as int, d as int);
            assert(t2 as int == r3 as int * w1() + a[2] as int);
            assert(q2 as int == t2 as int / d as int);
            assert(r2 as int == t2 as int % d as int);
            assert(t1 as int == r2 as int * w1() + a[1] as int);
            assert(q1 as int == t1 as int / d as int);
            assert(r1 as int == t1 as int % d as int);
            assert(t0 as int == r1 as int * w1() + a[0] as int);
            assert(q0 as int == t0 as int / d as int);
            assert(r0 as int == t0 as int % d as int);
            lemma_div_words(
                a[0] as int, a[1] as int, a[2] as int, a[3] as int,
                q0 as int, q1 as int, q2 as int, q3 as int,
                r0 as int, r1 as int, r2 as int, r3 as int, d as int,
            );
        }
        U256([q0, q1, q2, q3])
    }

    /// Multiplication by a 64-bit factor, when the product fits in 256 bits.
    pub fn mul_small(&self, k: u64) -> (r: U256)
        requires
            self.value() * (k as nat) < w4(),
        ensures
            r.value() == self.value() * (k as nat),
    {
        let a = self.0;
        proof {
            lemma_step_mul_fits(a[0] as nat, k as nat, 0);
        }
        let t0: u128 = (a[0] as u128) * (k as u128);
        let o0 = (t0 % 0x1_0000_0000_0000_0000u128) as u64;
        let c0 = (t0 / 0x1_0000_0000_0000_0000u128) as u64;
        proof {
            lemma_step_mul_fits(a[1] as nat, k as nat, c0 as nat);
        }
        let t1: u128 = (a[1] as u128) * (k as u128) + (c0 as u128);
        let o1 = (t1 % 0x1_0000_0000_0000_0000u128) as u64;
        let c1 = (t1 / 0x1_0000_0000_0000_0000u128) as u64;
        proof {
            lemma_step_mul_fits(a[2] as nat, k as nat, c1 as nat);
        }
        let t2: u128 = (a[2] as u128) * (k as u128) + (c1 as u128);
        let o2 = (t2 % 0x1_0000_0000_0000_0000u128) as u64;
        let c2 = (t2 / 0x1_0000_0000_0000_0000u128) as u64;
        proof {
            lemma_step_mul_fits(a[3] as nat, k as nat, c2 as nat);
        }
        let t3: u128 = (a[3] as u128) * (k as u128) + (c2 as u128);
        let o3 = (t3 % 0x1_0000_0000_0000_0000u128) as u64;
        let c3 = t3 / 0x1_0000_0000_0000_0000u128;
        proof {
            vstd::arithmetic::div_mod::lemma_fundamental_div_mod(t0 as int, w1() as int);
            vstd::arithmetic::div_mod::lemma_fundamental_div_mod(t1 as int, w1() as int);
            vstd::arithmetic::div_mod::lemma_fundamental_div_mod(t2 as int, w1() as int);
            vstd::arithmetic::div_mod::lemma_fundamental_div_mod(t3 as int, w1() as int);
            lemma_mul_words(
                a[0] as int, a[1] as int, a[2] as int, a[3] as int, k as int,
                o0 as int, o1 as int, o2 as int, o3 as int,
                c0 as int, c1 as int, c2 as int, c3 as int,
            );
        }
        U256([o0, o1, o2, o3])
    }
}

proof fn lemma_words_order(a0: u64, a1: u64, a2: u64, a3: u64, b0: u64, b1: u64, b2: u64, b3: u64)
    ensures
        a3 < b3 ==> words_value(a0, a1, a2, a3) < words_value(b0, b1, b2, b3),
        a3 == b3 && a2 < b2 ==> words_value(a0, a1, a2, a3) < words_value(b0, b1, b2, b3),
        a3 == b3 && a2 == b2 && a1 < b1 ==> words_value(a0, a1, a2, a3) < words_value(b0, b1, b2, b3),
        a3 == b3 && a2 == b2 && a1 == b1 ==> (words_value(a0, a1, a2, a3) <= words_value(b0, b1, b2, b3) <==> a0 <= b0),
        a3 > b3 ==> words_value(a0, a1, a2, a3) > words_value(b0, b1, b2, b3),
        a3 == b3 && a2 > b2 ==> words_value(a0, a1, a2, a3) > words_value(b0, b1, b2, b3),
        a3 == b3 && a2 == b2 && a1 > b1 ==> words_value(a0, a1, a2, a3) > words_value(b0, b1, b2, b3),
{
    let lo_a = (a0 as nat) + (a1 as nat) * w1() + (a2 as nat) * w2();
    let lo_b = (b0 as nat) + (b1 as nat) * w1() + (b2 as nat) * w2();
    assert(lo_a < w3());
    assert(lo_b < w3());
    assert((a0 as nat) + (a1 as nat) * w1() < w2());
    assert((b0 as nat) + (b1 as nat) * w1() < w2());
    if a3 < b3 {
        assert((a3 as nat) * w3() + w3() <= (b3 as nat) * w3()) by (nonlinear_arith)
            requires a3 < b3;
    }
    if a3 > b3 {
        assert((b3 as nat) * w3() + w3() <= (a3 as nat) * w3()) by (nonlinear_arith)
            requires b3 < a3;
    }
    if a2 < b2 {
        assert((a2 as nat) * w2() + w2() <= (b2 as nat) * w2()) by (nonlinear_arith)
            requires a2 < b2;
    }
    if a2 > b2 {
        assert((b2 as nat) * w2() + w2() <= (a2 as nat) * w2()) by (nonlinear_arith)
            requires b2 < a2;
    }
    if a1 < b1 {
        assert((a1 as nat) * w1() + w1() <= (b1 as nat) * w1()) by (nonlinear_arith)
            requires a1 < b1;
    }
    if a1 > b1 {
        assert((b1 as nat) * w1() + w1() <= (a1 as nat) * w1()) by (nonlinear_arith)
            requires b1 < a1;
    }
}

proof fn lemma_step_div_fits(r: nat, x: nat, d: nat)
    requires
        r < d,
        x < w1(),
        d < w1(),
    ensures
        r * w1() + x < w2(),
        (r * w1() + x) / d < w1(),
{
    assert(r * w1() + x < d * w1()) by (nonlinear_arith)
        requires r < d, x < w1();
    assert(d * w1() <= w2()) by (nonlinear_arith)
        requires d < w1();
    let t = r * w1() + x;
    assert(t / d < w1()) by (nonlinear_arith)
        requires t < d * w1(), d > 0;
}

proof fn lemma_step_mul_fits(a: nat, k: nat, c: nat)
    requires
        a < w1(),
        k < w1(),
        c < w1(),
    ensures
        a * k + c < w2(),
        (a * k + c) / w1() < w1(),
{
    assert(a * k <= (w1() - 1) * (w1() - 1)) by (nonlinear_arith)
        requires a < w1(), k < w1();
    assert(w2() == w1() * w1());
    assert((w1() - 1) * (w1() - 1) + w1() - 1 < w2()) by (nonlinear_arith)
        requires w2() == w1() * w1();
    let t = a * k + c;
    assert(t / w1() < w1()) by (nonlinear_arith)
        requires t < w2(), w2() == w1() * w1(), t >= 0;
}

proof fn lemma_div_words(
    a0: int, a1: int, a2: int, a3: int,
    q0: int, q1: int, q2: int, q3: int,
    r0: int, r1: int, r2: int, r3: int,
    d: int,
)
    requires
        d > 0,
        0 <= r0 < d,
        a3 == q3 * d + r3,
        r3 * w1() + a2 == q2 * d + r2,
        r2 * w1() + a1 == q1 * d + r1,
        r1 * w1() + a0 == q0 * d + r0,
        0 <= q0, 0 <= q1, 0 <= q2, 0 <= q3,
    ensures
        (a0 + a1 * w1() + a2 * w2() + a3 * w3()) / d == q0 + q1 * w1() + q2 * w2() + q3 * w3(),
{
    let v = a0 + a1 * w1() + a2 * w2() + a3 * w3();
    let q = q0 + q1 * w1() + q2 * w2() + q3 * w3();
    assert(w2() == w1() * w1());
    assert(w3() == w2() * w1());
    assert(v == q * d + r0) by (nonlinear_arith)
        requires
            a3 == q3 * d + r3,
            r3 * w1() + a2 == q2 * d + r2,
            r2 * w1() + a1 == q1 * d + r1,
            r1 * w1() + a0 == q0 * d + r0,
            v == a0 + a1 * w1() + a2 * w2() + a3 * w3(),
            q == q0 + q1 * w1() + q2 * w2() + q3 * w3(),
            w2() == w1() * w1(),
            w3() == w2() * w1();
    vstd::arithmetic::div_mod::lemma_fundamental_div_mod_converse(v, d, q, r0);
}

proof fn lemma_mul_words(
    a0: int, a1: int, a2: int, a3: int, k: int,
    o0: int, o1: int, o2: int, o3: int,
    c0: int, c1: int, c2: int, c3: int,
)
    requires
        0 <= o0 < w1(), 0 <= o1 < w1(), 0 <= o2 < w1(), 0 <= o3 < w1(),
        0 <= c3,
        a0 * k == c0 * w1() + o0,
        a1 * k + c0 == c1 * w1() + o1,
        a2 * k + c1 == c2 * w1() + o2,
        a3 * k + c2 == c3 * w1() + o3,
        (a0 + a1 * w1() + a2 * w2() + a3 * w3()) * k < w4(),
    ensures
        (a0 + a1 * w1() + a2 * w2() + a3 * w3()) * k == o0 + o1 * w1() + o2 * w2() + o3 * w3(),
{
    let v = a0 + a1 * w1() + a2 * w2() + a3 * w3();
    let o = o0 + o1 * w1() + o2 * w2() + o3 * w3();
    assert(w2() == w1() * w1());
    assert(w3() == w2() * w1());
    assert(w4() == w3() * w1());
    assert(v * k == o + c3 * w4()) by (nonlinear_arith)
        requires
            a0 * k == c0 * w1() + o0,
            a1 * k + c0 == c1 * w1() + o1,
            a2 * k + c1 == c2 * w1() + o2,
            a3 * k + c2 == c3 * w1() + o3,
            v == a0 + a1 * w1() + a2 * w2() + a3 * w3(),
            o == o0 + o1 * w1() + o2 * w2() + o3 * w3(),
            w2() == w1() * w1(),
            w3() == w2() * w1(),
            w4() == w3() * w1();
    assert(o >= 0);
    if c3 > 0 {
        assert(c3 * w4() >= w4()) by (nonlinear_arith)
            requires c3 > 0;
    }
}

} // verus!
