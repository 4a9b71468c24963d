use vstd::prelude::*;

verus! {

/// An exact rational: the quotient `num / den`, with `den` kept
/// positive. Values are not reduced; every operation checks that both
/// components still fit their machine words and reports failure
/// otherwise.
#[derive(Clone, Copy, PartialEq, Eq, Structural, Debug)]
pub struct Rat {
    pub num: i64,
    pub den: i64,
}

impl Rat {
    /// A rational is well formed when its denominator is positive.
    pub open spec fn wf(self) -> bool {
        self.den >= 1
    }

    /// Builds the rational with the given integer value.
    pub fn from_int(v: i64) -> (r: Rat)
        ensures
            r.wf(),
            r.num == v,
            r.den == 1,
    {
        Rat { num: v, den: 1 }
    }
}

pub open spec fn fits_i64(x: int) -> bool {
    i64::MIN <= x <= i64::MAX
}

pub open spec fn sabs(x: int) -> int {
    if x < 0 {
        -x
    } else {
        x
    }
}

/// The sum `a + b`, or `None` when a component leaves the 64-bit range.
pub open spec fn srat_add(a: Rat, b: Rat) -> Option<Rat> {
    let n = a.num * b.den + b.num * a.den;
    let d = a.den * b.den;
    if fits_i64(n) && fits_i64(d) {
        Some(Rat { num: n as i64, den: d as i64 })
    } else {
        None
    }
}

/// The difference `a - b`, or `None` out of range.
pub open spec fn srat_sub(a: Rat, b: Rat) -> Option<Rat> {
    let n = a.num * b.den - b.num * a.den;
    let d = a.den * b.den;
    if fits_i64(n) && fits_i64(d) {
        Some(Rat { num: n as i64, den: d as i64 })
    } else {
        None
    }
}

/// The product `a * b`, or `None` out of range.
pub open spec fn srat_mul(a: Rat, b: Rat) -> Option<Rat> {
    let n = a.num * b.num;
    let d = a.den * b.den;
    if fits_i64(n) && fits_i64(d) {
        Some(Rat { num: n as i64, den: d as i64 })
    } else {
        None
    }
}

/// The quotient `a / b`: `None` when `b` is zero or a component leaves
/// the range; the sign moves to the numerator.
pub open spec fn srat_div(a: Rat, b: Rat) -> Option<Rat> {
    if b.num == 0 {
        None
    } else {
        let n0 = a.num * b.den;
        let d0 = a.den * b.num;
        let n = if d0 < 0 {
            -n0
        } else {
            n0
        };
        let d = if d0 < 0 {
            -d0
        } else {
            d0
        };
        if fits_i64(n) && fits_i64(d) {
            Some(Rat { num: n as i64, den: d as i64 })
        } else {
            None
        }
    }
}

/// The reciprocal of `a`: `None` when `a` is zero or out of range.
pub open spec fn srat_inv(a: Rat) -> Option<Rat> {
    if a.num == 0 {
        None
    } else {
        let n = if a.num < 0 {
            -(a.den as int)
        } else {
            a.den as int
        };
        let d = sabs(a.num as int);
        if fits_i64(n) && fits_i64(d) {
            Some(Rat { num: n as i64, den: d as i64 })
        } else {
            None
        }
    }
}

/// `a` raised to the nonnegative integer power `e` by repeated
/// multiplication.
pub open spec fn spow(a: Rat, e: nat) -> Option<Rat>
    decreases e,
{
    if e == 0 {
        Some(Rat { num: 1, den: 1 })
    } else {
        match spow(a, (e - 1) as nat) {
            Some(r) => srat_mul(r, a),
            None => None,
        }
    }
}

/// Whether the rational holds an integer value.
pub open spec fn rat_is_int(b: Rat) -> bool {
    sabs(b.num as int) % (b.den as int) == 0
}

/// The integer value of a rational that holds one (magnitude divided,
/// sign restored).
pub open spec fn rat_int_val(b: Rat) -> int {
    if b.num >= 0 {
        (b.num as int) / (b.den as int)
    } else {
        -(sabs(b.num as int) / (b.den as int))
    }
}

/// The power `a ^ b`. The exponent must hold an integer value; zero,
/// one and minus one as bases are resolved directly, any other base by
/// repeated multiplication (a negative exponent inverts first). `None`
/// on a fractional exponent, on zero to a negative power, and when a
/// component leaves the range.
pub open spec fn srat_pow(a: Rat, b: Rat) -> Option<Rat> {
    if !rat_is_int(b) {
        None
    } else {
        let e = rat_int_val(b);
        if a.num == 0 {
            if e > 0 {
                Some(Rat { num: 0, den: 1 })
            } else if e == 0 {
                Some(Rat { num: 1, den: 1 })
            } else {
                None
            }
        } else if a.num == a.den {
            Some(Rat { num: 1, den: 1 })
        } else if a.num == -a.den {
            if e % 2 == 0 {
                Some(Rat { num: 1, den: 1 })
            } else {
                Some(Rat { num: -1i64, den: 1 })
            }
        } else if e >= 0 {
            spow(a, e as nat)
        } else {
            match srat_inv(a) {
                Some(ai) => spow(ai, (-e) as nat),
                None => None,
            }
        }
    }
}

/// The value truncated toward zero.
pub open spec fn strunc(a: Rat) -> int {
    if a.num >= 0 {
        (a.num as int) / (a.den as int)
    } else {
        -(((-a.num) as int) / (a.den as int))
    }
}

/// The product of a 64-bit factor and a positive-64-bit factor leaves
/// room for one more such product in the 128-bit range.
proof fn lemma_prod_half(x: int, y: int)
    requires
        sabs(x) <= 0x8000_0000_0000_0000,
        sabs(y) <= 0x7fff_ffff_ffff_ffff,
    ensures
        sabs(x * y) <= 0x3fff_ffff_ffff_ffff_8000_0000_0000_0000,
        x >= 1 && y >= 1 ==> x * y >= 1,
{
    assert(sabs(x * y) <= 0x3fff_ffff_ffff_ffff_8000_0000_0000_0000 && (x >= 1 && y >= 1 ==> x * y
        >= 1)) by (nonlinear_arith)
        requires
            sabs(x) <= 0x8000_0000_0000_0000,
            sabs(y) <= 0x7fff_ffff_ffff_ffff,
    ;
}

/// Products of 64-bit factors stay within the 128-bit range.
proof fn lemma_prod_full(x: int, y: int)
    requires
        sabs(x) <= 0x8000_0000_0000_0000,
        sabs(y) <= 0x8000_0000_0000_0000,
    ensures
        sabs(x * y) <= 0x4000_0000_0000_0000_0000_0000_0000_0000,
        x >= 1 && y >= 1 ==> x * y >= 1,
{
    assert(sabs(x * y) <= 0x4000_0000_0000_0000_0000_0000_0000_0000 && (x >= 1 && y >= 1 ==> x * y
        >= 1)) by (nonlinear_arith)
        requires
            sabs(x) <= 0x8000_0000_0000_0000,
            sabs(y) <= 0x8000_0000_0000_0000,
    ;
}

/// Adds two rationals.
pub fn rat_add(a: Rat, b: Rat) -> (r: Option<Rat>)
    requires
        a.wf(),
        b.wf(),
    ensures
        r == srat_add(a, b),
        r is Some ==> (r -> 0).wf(),
{
    proof {
        lemma_prod_half(a.num as int, b.den as int);
        lemma_prod_half(b.num as int, a.den as int);
        lemma_prod_half(a.den as int, b.den as int);
    }
    let n: i128 = (a.num as i128) * (b.den as i128) + (b.num as i128) * (a.den as i128);
    let d: i128 = (a.den as i128) * (b.den as i128);
    if n > (i64::MAX as i128) || n < (i64::MIN as i128) || d > (i64::MAX as i128) {
        return None;
    }
    Some(Rat { num: n as i64, den: d as i64 })
}

/// Subtracts `b` from `a`.
pub fn rat_sub(a: Rat, b: Rat) -> (r: Option<Rat>)
    requires
        a.wf(),
        b.wf(),
    ensures
        r == srat_sub(a, b),
        r is Some ==> (r -> 0).wf(),
{
    proof {
        lemma_prod_half(a.num as int, b.den as int);
        lemma_prod_half(b.num as int, a.den as int);
        lemma_prod_half(a.den as int, b.den as int);
    }
    let n: i128 = (a.num as i128) * (b.den as i128) - (b.num as i128) * (a.den as i128);
    let d: i128 = (a.den as i128) * (b.den as i128);
    if n > (i64::MAX as i128) || n < (i64::MIN as i128) || d > (i64::MAX as i128) {
        return None;
    }
    Some(Rat { num: n as i64, den: d as i64 })
}

/// Multiplies two rationals.
pub fn rat_mul(a: Rat, b: Rat) -> (r: Option<Rat>)
    requires
        a.wf(),
        b.wf(),
    ensures
        r == srat_mul(a, b),
        r is Some ==> (r -> 0).wf(),
{
    proof {
        lemma_prod_full(a.num as int, b.num as int);
        lemma_prod_full(a.den as int, b.den as int);
    }
    let n: i128 = (a.num as i128) * (b.num as i128);
    let d: i128 = (a.den as i128) * (b.den as i128);
    if n > (i64::MAX as i128) || n < (i64::MIN as i128) || d > (i64::MAX as i128) {
        return None;
    }
    Some(Rat { num: n as i64, den: d as i64 })
}

/// Divides `a` by `b`; fails when `b` is zero.
pub fn rat_div(a: Rat, b: Rat) -> (r: Option<Rat>)
    requires
        a.wf(),
        b.wf(),
    ensures
        r == srat_div(a, b),
        r is Some ==> (r -> 0).wf(),
{
    if b.num == 0 {
        return None;
    }
    proof {
        lemma_prod_full(a.num as int, b.den as int);
        lemma_prod_full(a.den as int, b.num as int);
    }
    let n0: i128 = (a.num as i128) * (b.den as i128);
    let d0: i128 = (a.den as i128) * (b.num as i128);
    let n: i128 = if d0 < 0 {
        -n0
    } else {
        n0
    };
    let d: i128 = if d0 < 0 {
        -d0
    } else {
        d0
    };
    if n > (i64::MAX as i128) || n < (i64::MIN as i128) || d > (i64::MAX as i128) {
        return None;
    }
    proof {
        assert((a.den as int) * (b.num as int) != 0) by (nonlinear_arith)
            requires
                a.den >= 1,
                b.num != 0,
        ;
    }
    Some(Rat { num: n as i64, den: d as i64 })
}

/// The reciprocal of `a`; fails when `a` is zero.
pub fn rat_inv(a: Rat) -> (r: Option<Rat>)
    requires
        a.wf(),
    ensures
        r == srat_inv(a),
        r is Some ==> (r -> 0).wf(),
{
    if a.num == 0 {
        return None;
    }
    let n: i128 = if a.num < 0 {
        -(a.den as i128)
    } else {
        a.den as i128
    };
    let d: i128 = if a.num < 0 {
        -(a.num as i128)
    } else {
        a.num as i128
    };
    if d > (i64::MAX as i128) {
        return None;
    }
    Some(Rat { num: n as i64, den: d as i64 })
}

/// Raises `a` to the nonnegative power `e` by repeated multiplication.
pub fn rat_pow_nat(a: Rat, e: u64) -> (r: Option<Rat>)
    requires
        a.wf(),
    ensures
        r == spow(a, e as nat),
        r is Some ==> (r -> 0).wf(),
{
    let mut acc: Rat = Rat { num: 1, den: 1 };
    let mut i: u64 = 0;
    while i < e
        invariant
            a.wf(),
            0 <= i <= e,
            Some(acc) == spow(a, i as nat),
            acc.wf(),
        decreases e - i,
    {
        match rat_mul(acc, a) {
            Some(next) => {
                acc = next;
                i = i + 1;
            },
            None => {
                // Once a step fails, every longer power fails as well.
                proof {
                    lemma_spow_none(a, (i + 1) as nat, e as nat);
                }
                return None;
            },
        }
    }
    Some(acc)
}

/// Once a power is out of range, so is every higher power.
proof fn lemma_spow_none(a: Rat, k: nat, e: nat)
    requires
        k <= e,
        spow(a, k) is None,
    ensures
        spow(a, e) is None,
    decreases e - k,
{
    if k < e {
        lemma_spow_none(a, (k + 1) as nat, e);
    }
}

/// The power `a ^ b`, the exponent required to hold an integer value.
pub fn rat_pow(a: Rat, b: Rat) -> (r: Option<Rat>)
    requires
        a.wf(),
        b.wf(),
    ensures
        r == srat_pow(a, b),
        r is Some ==> (r -> 0).wf(),
{
    let mag: u64 = if b.num < 0 {
        (-(b.num as i128)) as u64
    } else {
        b.num as u64
    };
    let den_u: u64 = b.den as u64;
    proof {
        assert(mag as int == sabs(b.num as int));
        assert(den_u as int == b.den as int);
    }
    if mag % den_u != 0 {
        return None;
    }
    let e_mag: u64 = mag / den_u;
    proof {
        assert(rat_is_int(b));
        assert(e_mag as int == sabs(b.num as int) / (b.den as int));
        if mag > 0 {
            // An exactly divisible positive magnitude has a positive
            // quotient.
            vstd::arithmetic::div_mod::lemma_fundamental_div_mod(mag as int, den_u as int);
            assert(mag as int == (den_u as int) * (e_mag as int));
            assert(e_mag as int > 0) by (nonlinear_arith)
                requires
                    mag as int == (den_u as int) * (e_mag as int),
                    mag > 0,
                    den_u >= 1,
                    e_mag >= 0,
            ;
        }
        if mag == 0 {
            vstd::arithmetic::div_mod::lemma_fundamental_div_mod(mag as int, den_u as int);
            assert(0int == (den_u as int) * (e_mag as int) + (mag as int) % (den_u as int));
            assert(e_mag as int == 0) by (nonlinear_arith)
                requires
                    0int == (den_u as int) * (e_mag as int),
                    den_u >= 1,
                    e_mag >= 0,
            ;
        }
        if b.num >= 0 {
            assert(rat_int_val(b) == e_mag as int);
        } else {
            assert(rat_int_val(b) == -(e_mag as int));
            assert(mag > 0);
        }
    }
    if a.num == 0 {
        if b.num > 0 {
            return Some(Rat { num: 0, den: 1 });
        }
        if b.num == 0 {
            return Some(Rat { num: 1, den: 1 });
        }
        return None;
    }
    if a.num == a.den {
        return Some(Rat { num: 1, den: 1 });
    }
    if a.num == -a.den {
        proof {
            lemma_parity_neg(e_mag as int, b.num >= 0);
        }
        if e_mag % 2 == 0 {
            return Some(Rat { num: 1, den: 1 });
        }
        return Some(Rat { num: -1i64, den: 1 });
    }
    if b.num >= 0 {
        rat_pow_nat(a, e_mag)
    } else {
        match rat_inv(a) {
            Some(ai) => rat_pow_nat(ai, e_mag),
            None => None,
        }
    }
}

/// Magnitude parity matches signed parity.
proof fn lemma_parity_neg(m: int, nonneg: bool)
    requires
        m >= 0,
    ensures
        (-m) % 2 == 0 <==> m % 2 == 0,
{
    assert((-m) % 2 == 0 <==> m % 2 == 0) by (nonlinear_arith)
        requires
            m >= 0,
    ;
}

/// Truncates the value toward zero.
pub fn rat_trunc(a: Rat) -> (r: i64)
    requires
        a.wf(),
    ensures
        r == strunc(a),
{
    if a.num >= 0 {
        let q: u64 = (a.num as u64) / (a.den as u64);
        proof {
            assert((a.num as u64) as int == a.num as int);
            assert(q as int == (a.num as int) / (a.den as int)) by (nonlinear_arith)
                requires
                    a.num >= 0,
                    a.den >= 1,
                    q == (a.num as u64) / (a.den as u64),
                    (a.num as u64) as int == a.num as int,
                    (a.den as u64) as int == a.den as int,
            ;
        }
        q as i64
    } else {
        let mag: u64 = (-(a.num as i128)) as u64;
        let q: u64 = mag / (a.den as u64);
        proof {
            assert(mag as int == -(a.num as int));
            assert(q as int == ((-a.num) as int) / (a.den as int)) by (nonlinear_arith)
                requires
                    a.num < 0,
                    a.den >= 1,
                    q == mag / (a.den as u64),
                    mag as int == -(a.num as int),
                    (a.den as u64) as int == a.den as int,
            ;
            assert(q as int <= mag as int) by (nonlinear_arith)
                requires
                    q as int == (mag as int) / (a.den as int),
                    a.den >= 1,
                    mag >= 0,
            ;
        }
        (-(q as i128)) as i64
    }
}

/// Clamps a 64-bit value into the 32-bit range, the way a lossy numeric
/// cast saturates.
pub fn sat_i32(t: i64) -> (r: i32)
    ensures
        t > i32::MAX ==> r == i32::MAX,
        t < i32::MIN ==> r == i32::MIN,
        i32::MIN <= t <= i32::MAX ==> r == t,
{
    if t > i32::MAX as i64 {
        i32::MAX
    } else if t < i32::MIN as i64 {
        i32::MIN
    } else {
        t as i32
    }
}

} // verus!
