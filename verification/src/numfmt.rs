use vstd::prelude::*;

verus! {

/// The decimal representation of a nonnegative integer, as ASCII bytes.
pub open spec fn dec_u(n: nat) -> Seq<u8>
    decreases n,
{
    if n < 10 {
        seq![(48 + n) as u8]
    } else {
        dec_u(n / 10).push((48 + n % 10) as u8)
    }
}

/// The decimal representation of an integer, with a leading `-` when it
/// is negative.
pub open spec fn dec_i(v: int) -> Seq<u8> {
    if v < 0 {
        seq![45u8] + dec_u((-v) as nat)
    } else {
        dec_u(v as nat)
    }
}

/// Renders a nonnegative integer in decimal.
pub fn u64_to_dec(n: u64) -> (r: Vec<u8>)
    ensures
        r@ == dec_u(n as nat),
    decreases n,
{
    if n < 10 {
        let mut v: Vec<u8> = Vec::new();
        v.push(48 + (n as u8));
        proof {
            assert(Seq::<u8>::empty().push((48 + n) as u8) =~= dec_u(n as nat));
        }
        v
    } else {
        let mut v: Vec<u8> = u64_to_dec(n / 10);
        v.push(48 + ((n % 10) as u8));
        v
    }
}

/// Renders an integer in decimal, with a leading `-` when negative.
pub fn i64_to_dec(v: i64) -> (r: Vec<u8>)
    ensures
        r@ == dec_i(v as int),
{
    if v >= 0 {
        u64_to_dec(v as u64)
    } else {
        let mag: u64 = ((-(v as i128)) as u64);
        let digits: Vec<u8> = u64_to_dec(mag);
        let mut r: Vec<u8> = Vec::new();
        r.push(45);
        let mut i: usize = 0;
        let n: usize = digits.len();
        while i < n
            invariant
                n == digits@.len(),
                0 <= i <= n,
                r@ == seq![45u8] + digits@.subrange(0, i as int),
            decreases n - i,
        {
            let b: u8 = digits[i];
            r.push(b);
            i = i + 1;
            proof {
                assert(seq![45u8] + digits@.subrange(0, i as int) =~= (seq![45u8]
                    + digits@.subrange(0, i - 1)).push(digits@[i - 1]));
            }
        }
        proof {
            assert(digits@.subrange(0, n as int) =~= digits@);
            assert(r@ =~= dec_i(v as int));
        }
        r
    }
}

/// Whether every byte of the sequence is an ASCII digit.
pub open spec fn all_digits(s: Seq<u8>) -> bool {
    forall|i: int| 0 <= i < s.len() ==> 48 <= #[trigger] s[i] <= 57
}

/// The numeric value of a digit sequence, most significant digit first.
pub open spec fn digits_val(s: Seq<u8>) -> int
    decreases s.len(),
{
    if s.len() == 0 {
        0
    } else {
        digits_val(s.drop_last()) * 10 + (s.last() - 48)
    }
}

pub proof fn lemma_digits_val_nonneg(s: Seq<u8>)
    requires
        all_digits(s),
    ensures
        digits_val(s) >= 0,
    decreases s.len(),
{
    if s.len() > 0 {
        assert(all_digits(s.drop_last()));
        lemma_digits_val_nonneg(s.drop_last());
    }
}

/// Dropping trailing digits never increases the value.
pub proof fn lemma_digits_val_prefix_le(s: Seq<u8>, j: int)
    requires
        all_digits(s),
        0 <= j <= s.len(),
    ensures
        digits_val(s.subrange(0, j)) <= digits_val(s),
    decreases s.len() - j,
{
    if j == s.len() {
        assert(s.subrange(0, j) =~= s);
    } else {
        lemma_digits_val_prefix_le(s, j + 1);
        let t = s.subrange(0, j + 1);
        assert(t.drop_last() =~= s.subrange(0, j));
        assert(all_digits(t.drop_last()));
        lemma_digits_val_nonneg(t.drop_last());
        assert(digits_val(t) == digits_val(s.subrange(0, j)) * 10 + (s[j] - 48));
        assert(digits_val(s.subrange(0, j)) <= digits_val(t));
    }
}

/// Parses a run of ASCII digits into a signed 64-bit value; `None` when
/// the run is empty, holds a non-digit, or exceeds the representable
/// range.
pub fn parse_digits_i64(v: &Vec<u8>) -> (r: Option<i64>)
    ensures
        r is Some <==> v@.len() > 0 && all_digits(v@) && digits_val(v@) <= i64::MAX,
        r is Some ==> r -> 0 == digits_val(v@),
{
    let n: usize = v.len();
    if n == 0 {
        return None;
    }
    let mut acc: i64 = 0;
    let mut i: usize = 0;
    while i < n
        invariant
            n == v@.len(),
            0 <= i <= n,
            all_digits(v@.subrange(0, i as int)),
            acc == digits_val(v@.subrange(0, i as int)),
            0 <= acc,
        decreases n - i,
    {
        let b: u8 = v[i];
        if !(48 <= b && b <= 57) {
            return None;
        }
        let d: i64 = (b - 48) as i64;
        if acc > (i64::MAX - d) / 10 {
            // The value no longer fits; by monotonicity neither does the
            // whole run.
            proof {
                let t = v@.subrange(0, i + 1);
                assert(t.drop_last() =~= v@.subrange(0, i as int));
                assert(digits_val(t) == acc * 10 + d);
                assert(acc * 10 + d > i64::MAX) by (nonlinear_arith)
                    requires
                        acc > (i64::MAX - d) / 10,
                        0 <= d <= 9,
                        0 <= acc,
                ;
                if all_digits(v@) {
                    lemma_digits_val_prefix_le(v@, i + 1);
                }
            }
            return None;
        }
        proof {
            let t = v@.subrange(0, i + 1);
            assert(t.drop_last() =~= v@.subrange(0, i as int));
            assert(acc * 10 + d <= i64::MAX) by (nonlinear_arith)
                requires
                    acc <= (i64::MAX - d) / 10,
                    0 <= d <= 9,
                    0 <= acc,
            ;
        }
        acc = acc * 10 + d;
        i = i + 1;
    }
    proof {
        assert(v@.subrange(0, n as int) =~= v@);
    }
    Some(acc)
}

} // verus!
