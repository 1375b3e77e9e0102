//! In-place fixed-point radix-2 FFT.
//!
//! The buffer length is a power of two; a precomputed quarter-offset
//! sine table (three quarters of a full cycle, amplitude `i16::MAX`)
//! supplies the twiddle factors.  The transform first applies the
//! bit-reversal permutation, then runs one butterfly stage per bit of
//! the length.  Every butterfly halves its inputs (so the whole run
//! scales by one over the length, spread across stages for precision),
//! multiplies in 32-bit precision with round-to-nearest, and clamps
//! back to 16 bits.

use vstd::prelude::*;

use vstd::arithmetic::div_mod::{
    lemma_fundamental_div_mod, lemma_fundamental_div_mod_converse, lemma_hoist_over_denominator,
    lemma_mod_multiples_vanish,
};
use vstd::arithmetic::power2::{lemma_pow2_adds, lemma_pow2_pos, pow2};

use crate::complex::Complex;

verus! {

/// How many butterfly stages a buffer of length `n` takes: the base-two
/// logarithm, rounded down.
pub open spec fn fft_log2(n: nat) -> nat
    decreases n,
{
    if n <= 1 {
        0
    } else {
        1 + fft_log2(n / 2)
    }
}

/// The reversal of the low `k` bits of `x`: the least significant bit
/// becomes the most significant of the result.
pub open spec fn bit_rev(x: nat, k: nat) -> nat
    decreases k,
{
    if k == 0 {
        0
    } else {
        (x % 2) * pow2((k - 1) as nat) + bit_rev(x / 2, (k - 1) as nat)
    }
}

pub proof fn lemma_bit_rev_bound(x: nat, k: nat)
    ensures
        bit_rev(x, k) < pow2(k),
    decreases k,
{
    lemma_pow2_pos(k);
    if k > 0 {
        lemma_bit_rev_bound(x / 2, (k - 1) as nat);
        lemma_pow2_pos((k - 1) as nat);
        lemma_pow2_adds(1, (k - 1) as nat);
        assert(pow2(1) == 2) by {
            vstd::arithmetic::power2::lemma2_to64();
        }
        assert((x % 2) * pow2((k - 1) as nat) <= 1 * pow2((k - 1) as nat)) by (nonlinear_arith)
            requires
                x % 2 <= 1,
                pow2((k - 1) as nat) > 0,
        ;
    }
}

/// The zero index is a fixed point of the reversal.
proof fn lemma_bit_rev_zero(k: nat)
    ensures
        bit_rev(0, k) == 0,
    decreases k,
{
    if k > 0 {
        lemma_bit_rev_zero((k - 1) as nat);
        assert((0nat % 2) * pow2((k - 1) as nat) == 0) by (nonlinear_arith);
    }
}

/// Prepending a bit to a `k-1`-bit value appends it to the reversal.
proof fn lemma_bit_rev_shift(b: nat, y: nat, k: nat)
    requires
        1 <= k,
        b <= 1,
        y < pow2((k - 1) as nat),
    ensures
        bit_rev(b * pow2((k - 1) as nat) + y, k) == 2 * bit_rev(y, (k - 1) as nat) + b,
    decreases k,
{
    lemma_pow2_pos((k - 1) as nat);
    let z = b * pow2((k - 1) as nat) + y;
    if k == 1 {
        assert(pow2(0) == 1) by {
            vstd::arithmetic::power2::lemma2_to64();
        }
        assert(y == 0);
        assert(z == b) by (nonlinear_arith)
            requires
                z == b * pow2((k - 1) as nat) + y,
                pow2((k - 1) as nat) == 1,
                y == 0,
        ;
        assert(bit_rev(b, 1) == (b % 2) * pow2(0) + bit_rev(b / 2, 0));
        assert(b % 2 == b && b / 2 == 0);
    } else {
        lemma_pow2_pos((k - 2) as nat);
        lemma_pow2_adds(1, (k - 2) as nat);
        assert(pow2(1) == 2) by {
            vstd::arithmetic::power2::lemma2_to64();
        }
        let pk2 = pow2((k - 2) as nat) as int;
        // z == 2 * (b * pow2(k-2)) + y, so bit and shift distribute.
        assert(b * (2 * pk2) == 2 * (b * pk2)) by (nonlinear_arith);
        lemma_mod_multiples_vanish(b * pk2, y as int, 2);
        assert(z % 2 == y % 2);
        lemma_hoist_over_denominator(y as int, b * pk2, 2);
        assert(z == y + (b * pk2) * 2) by (nonlinear_arith)
            requires
                z == b * (2 * pk2) + y,
        ;
        assert(z / 2 == b * pk2 + y / 2);
        assert(y / 2 < pk2) by {
            if y / 2 >= pk2 {
                lemma_fundamental_div_mod(y as int, 2);
                assert(y >= 2 * pk2);
            }
        }
        lemma_bit_rev_shift(b, (y / 2) as nat, (k - 1) as nat);
        assert(bit_rev(z, k) == (y % 2) * pow2((k - 1) as nat) + 2 * bit_rev(
            (y / 2) as nat,
            (k - 2) as nat,
        ) + b);
        assert(bit_rev(y, (k - 1) as nat) == (y % 2) * pow2((k - 2) as nat) + bit_rev(
            (y / 2) as nat,
            (k - 2) as nat,
        ));
        assert((y % 2) * (2 * pk2) == 2 * ((y % 2) * pk2)) by (nonlinear_arith);
    }
}

/// Reversing the low bits twice gives the index back.
pub proof fn lemma_bit_rev_involution(x: nat, k: nat)
    requires
        x < pow2(k),
    ensures
        bit_rev(bit_rev(x, k), k) == x,
    decreases k,
{
    if k == 0 {
        assert(pow2(0) == 1) by {
            vstd::arithmetic::power2::lemma2_to64();
        }
    } else {
        lemma_pow2_pos((k - 1) as nat);
        lemma_pow2_adds(1, (k - 1) as nat);
        assert(pow2(1) == 2) by {
            vstd::arithmetic::power2::lemma2_to64();
        }
        let b = x % 2;
        let y = bit_rev(x / 2, (k - 1) as nat);
        lemma_bit_rev_bound(x / 2, (k - 1) as nat);
        assert(bit_rev(x, k) == b * pow2((k - 1) as nat) + y);
        lemma_bit_rev_shift(b, y, k);
        assert(x / 2 < pow2((k - 1) as nat)) by {
            lemma_fundamental_div_mod(x as int, 2);
        }
        lemma_bit_rev_involution((x / 2) as nat, (k - 1) as nat);
        lemma_fundamental_div_mod(x as int, 2);
    }
}

/// Two to the `e`, as an executable value.
pub fn pow2_exec(e: usize) -> (r: usize)
    requires
        e <= 16,
    ensures
        r == pow2(e as nat),
        r >= 1,
{
    let mut r: usize = 1;
    let mut i: usize = 0;
    proof {
        vstd::arithmetic::power2::lemma2_to64();
    }
    while i < e
        invariant
            i <= e <= 16,
            r == pow2(i as nat),
            r <= 0x10000,
        decreases e - i,
    {
        proof {
            lemma_pow2_adds(i as nat, 1);
            assert(pow2(1) == 2) by {
                vstd::arithmetic::power2::lemma2_to64();
            }
            if i + 1 < 16 {
                vstd::arithmetic::power2::lemma_pow2_strictly_increases((i + 1) as nat, 16);
            }
            assert(pow2(16) == 0x10000) by {
                vstd::arithmetic::power2::lemma2_to64();
            }
        }
        r = r * 2;
        i = i + 1;
    }
    r
}

/// The reversal of the low `k` bits of an index.
pub fn bit_reverse(x: usize, k: usize) -> (r: usize)
    requires
        k <= 16,
    ensures
        r == bit_rev(x as nat, k as nat),
        r < pow2(k as nat),
    decreases k,
{
    proof {
        lemma_bit_rev_bound(x as nat, k as nat);
        vstd::arithmetic::power2::lemma_pow2_strictly_increases(k as nat, 17);
        assert(pow2(17) == 0x20000) by {
            vstd::arithmetic::power2::lemma2_to64();
        }
    }
    if k == 0 {
        0
    } else {
        let low = x % 2;
        let rest = bit_reverse(x / 2, k - 1);
        low * pow2_exec(k - 1) + rest
    }
}

/// A value forced into the signed 16-bit range.  Butterfly sums that
/// leave the range saturate instead of faulting, so the transform stays
/// total over every input.
pub open spec fn clamp_i16(x: int) -> int {
    if x < -0x8000 {
        -0x8000
    } else if x > 0x7fff {
        0x7fff
    } else {
        x
    }
}

/// The real part of the twiddle factor for table index `iw`: the cosine
/// read a quarter cycle into the sine table, halved.
pub open spec fn tw_re(sin: Seq<i16>, n: int, iw: int) -> int {
    sin[iw + n / 4] as int / 2
}

/// The imaginary part of the twiddle factor: the negated sine, halved.
pub open spec fn tw_im(sin: Seq<i16>, iw: int) -> int {
    (-(sin[iw] as int)) / 2
}

/// Real part of the twiddled lower pair value: a 32-bit complex product
/// with round-to-nearest on the final 15-bit scale-down.
pub open spec fn bf_t_re(wr: int, wi: int, y: Complex) -> int {
    clamp_i16((wr * y.re - wi * y.im + 0x4000) / 0x8000)
}

/// Imaginary part of the twiddled lower pair value.
pub open spec fn bf_t_im(wr: int, wi: int, y: Complex) -> int {
    clamp_i16((wr * y.im + wi * y.re + 0x4000) / 0x8000)
}

/// The upper output of one butterfly: the halved upper input plus the
/// twiddled lower input.
pub open spec fn bf_top(x: Complex, y: Complex, wr: int, wi: int) -> Complex {
    Complex {
        re: clamp_i16(x.re as int / 2 + bf_t_re(wr, wi, y)) as i16,
        im: clamp_i16(x.im as int / 2 + bf_t_im(wr, wi, y)) as i16,
    }
}

/// The lower output of one butterfly: the halved upper input minus the
/// twiddled lower input.
pub open spec fn bf_bot(x: Complex, y: Complex, wr: int, wi: int) -> Complex {
    Complex {
        re: clamp_i16(x.re as int / 2 - bf_t_re(wr, wi, y)) as i16,
        im: clamp_i16(x.im as int / 2 - bf_t_im(wr, wi, y)) as i16,
    }
}

/// One butterfly stage over the whole buffer.  At stage `s` the buffer
/// splits into pairs `stride == 2^s` apart; each pair is replaced by
/// the butterfly of its two values under the twiddle of its position
/// within the stride.
pub open spec fn stage_spec(f: Seq<Complex>, sin: Seq<i16>, l: nat, stage: nat) -> Seq<Complex> {
    let n = f.len() as int;
    let stride = pow2(stage) as int;
    Seq::new(
        f.len(),
        |idx: int|
            {
                let iw = (idx % stride) * pow2((l - 1 - stage) as nat) as int;
                let wr = tw_re(sin, n, iw);
                let wi = tw_im(sin, iw);
                if (idx / stride) % 2 == 0 {
                    bf_top(f[idx], f[idx + stride], wr, wi)
                } else {
                    bf_bot(f[idx - stride], f[idx], wr, wi)
                }
            },
    )
}

/// The buffer after the first `s` butterfly stages.
pub open spec fn fft_run(f: Seq<Complex>, sin: Seq<i16>, l: nat, s: nat) -> Seq<Complex>
    decreases s,
{
    if s == 0 {
        f
    } else {
        stage_spec(fft_run(f, sin, l, (s - 1) as nat), sin, l, (s - 1) as nat)
    }
}

/// The buffer reordered by bit-reversed index.
pub open spec fn bit_rev_perm(f: Seq<Complex>, l: nat) -> Seq<Complex> {
    Seq::new(f.len(), |i: int| f[bit_rev(i as nat, l) as int])
}

/// What the whole transform computes: the bit-reversal permutation
/// followed by every butterfly stage.
pub open spec fn fft_spec(f: Seq<Complex>, sin: Seq<i16>, l: nat) -> Seq<Complex> {
    fft_run(bit_rev_perm(f, l), sin, l, l)
}

/// A usable sine table for a buffer of length `n`: three quarters of a
/// full cycle (so the cosine can be read a quarter cycle in), with no
/// entry at the minimum (the table comes from `sin` scaled by
/// `i16::MAX`, so negating an entry stays in range).
pub open spec fn sin_table_wf(sin: Seq<i16>, n: int) -> bool {
    &&& sin.len() == n * 3 / 4
    &&& forall|i: int| 0 <= i < sin.len() ==> (#[trigger] sin[i]) as int > i16::MIN
}

/// Base-two logarithm, rounded down.
pub fn log2_exec(n: usize) -> (r: usize)
    ensures
        r == fft_log2(n as nat),
    decreases n,
{
    if n <= 1 {
        0
    } else {
        proof {
            assert(fft_log2(n as nat) == 1 + fft_log2((n / 2) as nat));
            assert(fft_log2((n / 2) as nat) < usize::MAX) by {
                lemma_fft_log2_le(n as nat);
            }
        }
        1 + log2_exec(n / 2)
    }
}

/// The logarithm never exceeds its argument.
proof fn lemma_fft_log2_le(n: nat)
    ensures
        fft_log2(n) <= n,
    decreases n,
{
    if n > 1 {
        lemma_fft_log2_le(n / 2);
    }
}

/// Force a wide butterfly value into the 16-bit range.
fn clamp_to_i16(x: i64) -> (r: i16)
    ensures
        r as int == clamp_i16(x as int),
{
    if x < -0x8000 {
        -0x8000
    } else if x > 0x7fff {
        0x7fff
    } else {
        x as i16
    }
}

/// Floor division of `-m` by `d`, expressed over nonnegative operands.
proof fn lemma_neg_div(m: int, d: int)
    requires
        m >= 0,
        d >= 1,
    ensures
        (-m) / d == -((m + d - 1) / d),
{
    let q = m / d;
    let r = m % d;
    lemma_fundamental_div_mod(m, d);
    assert(m == d * q + r);
    if r == 0 {
        assert(-m == (-q) * d + 0) by (nonlinear_arith)
            requires
                m == d * q + r,
                r == 0,
        ;
        lemma_fundamental_div_mod_converse(-m, d, -q, 0);
        assert(m + d - 1 == q * d + (d - 1)) by (nonlinear_arith)
            requires
                m == d * q + r,
                r == 0,
        ;
        lemma_fundamental_div_mod_converse(m + d - 1, d, q, d - 1);
    } else {
        assert(-m == (-q - 1) * d + (d - r)) by (nonlinear_arith)
            requires
                m == d * q + r,
        ;
        lemma_fundamental_div_mod_converse(-m, d, -q - 1, d - r);
        assert(m + d - 1 == (q + 1) * d + (r - 1)) by (nonlinear_arith)
            requires
                m == d * q + r,
        ;
        lemma_fundamental_div_mod_converse(m + d - 1, d, q + 1, r - 1);
    }
}

/// Floor division (rounding toward minus infinity) by a positive
/// divisor; this is what an arithmetic right shift computes.
fn floor_div(x: i64, d: i64) -> (r: i64)
    requires
        1 <= d <= 0x10000,
        -0x7fff_ffff_ffff <= x <= 0x7fff_ffff_ffff,
    ensures
        r == x as int / d as int,
{
    if x >= 0 {
        x / d
    } else {
        let m = -x;
        let q = -((m + (d - 1)) / d);
        proof {
            lemma_neg_div(m as int, d as int);
        }
        q
    }
}

/// The top index of the butterfly pair an index belongs to.
pub open spec fn pair_base(q: int, stride: int) -> int {
    if (q / stride) % 2 == 0 {
        q
    } else {
        q - stride
    }
}

/// The partner of a top index is one stride later, stays inside the
/// buffer, and shares its position within the stride.
proof fn lemma_pair_top(q: int, stride: int, n: int)
    requires
        stride >= 1,
        n >= 1,
        n % (2 * stride) == 0,
        0 <= q < n,
        (q / stride) % 2 == 0,
    ensures
        q + stride < n,
        ((q + stride) / stride) % 2 == 1,
        (q + stride) % stride == q % stride,
{
    let d = q / stride;
    let r = q % stride;
    lemma_fundamental_div_mod(q, stride);
    vstd::arithmetic::div_mod::lemma_mod_division_less_than_divisor(q, stride);
    vstd::arithmetic::div_mod::lemma_div_pos_is_pos(q, stride);
    assert(q + stride == (d + 1) * stride + r) by (nonlinear_arith)
        requires
            q == stride * d + r,
    ;
    lemma_fundamental_div_mod_converse(q + stride, stride, d + 1, r);
    let e = d / 2;
    lemma_fundamental_div_mod(d, 2);
    assert(d == 2 * e);
    lemma_fundamental_div_mod_converse(d + 1, 2, e, 1);
    let t = n / (2 * stride);
    lemma_fundamental_div_mod(n, 2 * stride);
    assert(n == (2 * stride) * t);
    assert(stride * d <= q) by (nonlinear_arith)
        requires
            q == stride * d + r,
            r >= 0,
    ;
    assert(d < 2 * t) by (nonlinear_arith)
        requires
            stride * d <= q,
            q < n,
            n == (2 * stride) * t,
            stride >= 1,
    ;
    assert(d + 1 < 2 * t);
    assert((d + 1) * stride + r < n) by (nonlinear_arith)
        requires
            d + 1 < 2 * t,
            0 <= r < stride,
            n == (2 * stride) * t,
            stride >= 1,
    ;
}

/// The partner of a bottom index is one stride earlier and is a top
/// index with the same position within the stride.
proof fn lemma_pair_bot(q: int, stride: int)
    requires
        stride >= 1,
        q >= 0,
        (q / stride) % 2 == 1,
    ensures
        q - stride >= 0,
        ((q - stride) / stride) % 2 == 0,
        (q - stride) % stride == q % stride,
{
    let d = q / stride;
    let r = q % stride;
    lemma_fundamental_div_mod(q, stride);
    vstd::arithmetic::div_mod::lemma_mod_division_less_than_divisor(q, stride);
    vstd::arithmetic::div_mod::lemma_div_pos_is_pos(q, stride);
    assert(d >= 1);
    assert(q - stride == (d - 1) * stride + r) by (nonlinear_arith)
        requires
            q == stride * d + r,
    ;
    assert((d - 1) * stride >= 0) by (nonlinear_arith)
        requires
            d >= 1,
            stride >= 1,
    ;
    lemma_fundamental_div_mod_converse(q - stride, stride, d - 1, r);
    let e = (d - 1) / 2;
    lemma_fundamental_div_mod(d, 2);
    assert(d == 2 * (d / 2) + 1);
    assert(d - 1 == (d / 2) * 2 + 0) by (nonlinear_arith)
        requires
            d == 2 * (d / 2) + 1,
    ;
    lemma_fundamental_div_mod_converse(d - 1, 2, d / 2, 0);
}

/// Run the in-place radix-2 FFT over the buffer: the bit-reversal
/// permutation, then one butterfly stage per bit of the length.
#[verifier::rlimit(60)]
pub fn radix2(f: &mut Vec<Complex>, sin: &Vec<i16>)
    requires
        2 <= old(f)@.len(),
        old(f)@.len() == pow2(fft_log2(old(f)@.len() as nat)),
        fft_log2(old(f)@.len() as nat) <= 16,
        sin_table_wf(sin@, old(f)@.len() as int),
    ensures
        final(f)@.len() == old(f)@.len(),
        final(f)@ == fft_spec(old(f)@, sin@, fft_log2(old(f)@.len() as nat)),
{
    let n: usize = f.len();
    let l: usize = log2_exec(n);
    let ghost input = f@;

    // Phase 1: bit-reversal permutation, swapping each pair once.
    proof {
        assert forall|idx: int| 0 <= idx < n implies #[trigger] bit_rev(
            bit_rev(idx as nat, l as nat),
            l as nat,
        ) == idx as nat by {
            lemma_bit_rev_involution(idx as nat, l as nat);
        }
        lemma_bit_rev_zero(l as nat);
    }
    let mut m: usize = 1;
    while m < n
        invariant
            f@.len() == n,
            input.len() == n,
            n == pow2(l as nat),
            l <= 16,
            1 <= m <= n,
            forall|idx: int|
                0 <= idx < n ==> (#[trigger] f@[idx]) == (
                if idx < m || bit_rev(idx as nat, l as nat) < m as nat {
                    input[bit_rev(idx as nat, l as nat) as int]
                } else {
                    input[idx]
                }),
        decreases n - m,
    {
        let r = bit_reverse(m, l);
        proof {
            lemma_bit_rev_involution(m as nat, l as nat);
            assert forall|idx: int| 0 <= idx < n implies #[trigger] bit_rev(
                bit_rev(idx as nat, l as nat),
                l as nat,
            ) == idx as nat by {
                lemma_bit_rev_involution(idx as nat, l as nat);
            }
        }
        if r > m {
            let a = f[m];
            let b = f[r];
            f.set(m, b);
            f.set(r, a);
        }
        m = m + 1;
    }
    proof {
        assert(f@ =~= bit_rev_perm(input, l as nat));
    }

    // Phase 2: butterfly stages.
    let ghost perm = bit_rev_perm(input, l as nat);
    let mut stage: usize = 0;
    while stage < l
        invariant
            f@.len() == n,
            input.len() == n,
            n == pow2(l as nat),
            2 <= n,
            l <= 16,
            sin_table_wf(sin@, n as int),
            stage <= l,
            perm == bit_rev_perm(input, l as nat),
            f@ == fft_run(perm, sin@, l as nat, stage as nat),
        decreases l - stage,
    {
        let stride: usize = pow2_exec(stage);
        let ghost cur = f@;
        let ghost g = stage_spec(cur, sin@, l as nat, stage as nat);
        proof {
            lemma_pow2_adds(1, stage as nat);
            assert(pow2(1) == 2) by {
                vstd::arithmetic::power2::lemma2_to64();
            }
            lemma_pow2_adds((stage + 1) as nat, (l - stage - 1) as nat);
            vstd::arithmetic::div_mod::lemma_mod_multiples_basic(
                pow2((l - stage - 1) as nat) as int,
                pow2((stage + 1) as nat) as int,
            );
            lemma_pow2_pos((stage + 1) as nat);
            lemma_pow2_pos((l - stage - 1) as nat);
            assert(pow2((l - stage - 1) as nat) as int * pow2((stage + 1) as nat) as int == pow2(
                (stage + 1) as nat,
            ) as int * pow2((l - stage - 1) as nat) as int) by (nonlinear_arith);
            assert(n as int % (2 * stride as int) == 0);
            vstd::arithmetic::power2::lemma_pow2_strictly_increases(stage as nat, l as nat);
        }
        proof {
            assert forall|q: int| 0 <= q < n implies 0 <= pair_base(q, stride as int) by {
                if (q / stride as int) % 2 == 1 {
                    lemma_pair_bot(q, stride as int);
                }
            }
        }
        let mut idx: usize = 0;
        while idx < n
            invariant
                f@.len() == n,
                n == pow2(l as nat),
                2 <= n,
                l <= 16,
                stage < l,
                stride == pow2(stage as nat),
                1 <= stride <= n,
                n as int % (2 * stride as int) == 0,
                sin_table_wf(sin@, n as int),
                cur.len() == n,
                g == stage_spec(cur, sin@, l as nat, stage as nat),
                idx <= n,
                forall|q: int|
                    0 <= q < n ==> (#[trigger] f@[q]) == (
                    if pair_base(q, stride as int) < idx {
                        g[q]
                    } else {
                        cur[q]
                    }),
            decreases n - idx,
        {
            if (idx / stride) % 2 == 0 {
                proof {
                    lemma_pair_top(idx as int, stride as int, n as int);
                }
                let j = idx + stride;
                let mpos = idx % stride;
                let shift = l - 1 - stage;
                proof {
                    lemma_pow2_adds(stage as nat, shift as nat);
                    lemma_pow2_pos(shift as nat);
                    lemma_pow2_pos(stage as nat);
                    assert(mpos as int * pow2(shift as nat) as int <= (stride as int - 1) * pow2(
                        shift as nat,
                    ) as int) by (nonlinear_arith)
                        requires
                            mpos < stride,
                            pow2(shift as nat) > 0,
                    ;
                    assert((stride as int - 1) * pow2(shift as nat) as int == stride as int * pow2(
                        shift as nat,
                    ) as int - pow2(shift as nat) as int) by (nonlinear_arith);
                    assert(stride as int * pow2(shift as nat) as int == pow2((l - 1) as nat) as int);
                    lemma_pow2_adds(1, (l - 1) as nat);
                    assert(pow2(1) == 2) by {
                        vstd::arithmetic::power2::lemma2_to64();
                    }
                    // pow2(l - 1) == n / 2 exactly
                    vstd::arithmetic::div_mod::lemma_div_multiples_vanish(
                        pow2((l - 1) as nat) as int,
                        2,
                    );
                    assert(n as int / 2 == pow2((l - 1) as nat) as int);
                    if n % 4 == 0 {
                        assert(n as int / 2 + n as int / 4 <= n as int * 3 / 4)
                            by (nonlinear_arith)
                            requires
                                n % 4 == 0,
                                n >= 4,
                        ;
                    } else {
                        // the only power of two not divisible by four is two
                        if l as nat >= 2 {
                            lemma_pow2_adds(2, (l - 2) as nat);
                            assert(pow2(2) == 4) by {
                                vstd::arithmetic::power2::lemma2_to64();
                            }
                            vstd::arithmetic::div_mod::lemma_mod_multiples_basic(
                                pow2((l - 2) as nat) as int,
                                4,
                            );
                            assert(pow2((l - 2) as nat) as int * 4 == 4 * pow2(
                                (l - 2) as nat,
                            ) as int) by (nonlinear_arith);
                            assert(false);
                        }
                        assert(pow2(1) == 2) by {
                            vstd::arithmetic::power2::lemma2_to64();
                        }
                        assert(n == 2);
                    }
                    vstd::arithmetic::power2::lemma_pow2_strictly_increases((l - 1) as nat, 17);
                    assert(pow2(17) == 0x20000) by {
                        vstd::arithmetic::power2::lemma2_to64();
                    }
                    assert(mpos as int * pow2(shift as nat) as int <= pow2((l - 1) as nat) as int
                        - 1);
                }
                let iw = mpos * pow2_exec(shift);
                proof {
                    assert(iw as int <= n as int / 2 - 1);
                    assert(iw as int + n as int / 4 < sin@.len());
                }
                let wr: i64 = floor_div(sin[iw + n / 4] as i64, 2);
                let wi: i64 = {
                    let s = sin[iw];
                    floor_div(-(s as i64), 2)
                };
                proof {
                    assert(-16384 <= wr <= 16383 && -16384 <= wi <= 16383) by (nonlinear_arith)
                        requires
                            wr == sin@[iw as int + n as int / 4] as int / 2,
                            wi == (-(sin@[iw as int] as int)) / 2,
                            -32767 <= sin@[iw as int + n as int / 4] <= 32767,
                            -32767 <= sin@[iw as int] <= 32767,
                    ;
                }
                let x = f[idx];
                let y = f[j];
                proof {
                    assert(-0x2000_0000 <= wr * (y.re as int) <= 0x2000_0000 && -0x2000_0000 <= wi
                        * (y.im as int) <= 0x2000_0000 && -0x2000_0000 <= wr * (y.im as int)
                        <= 0x2000_0000 && -0x2000_0000 <= wi * (y.re as int) <= 0x2000_0000)
                        by (nonlinear_arith)
                        requires
                            -16384 <= wr <= 16383,
                            -16384 <= wi <= 16383,
                            -32768 <= y.re <= 32767,
                            -32768 <= y.im <= 32767,
                    ;
                }
                let tre: i64 = floor_div(
                    wr * (y.re as i64) - wi * (y.im as i64) + 0x4000,
                    0x8000,
                );
                let tim: i64 = floor_div(
                    wr * (y.im as i64) + wi * (y.re as i64) + 0x4000,
                    0x8000,
                );
                let tre16 = clamp_to_i16(tre);
                let tim16 = clamp_to_i16(tim);
                let qre: i64 = floor_div(x.re as i64, 2);
                let qim: i64 = floor_div(x.im as i64, 2);
                let top = Complex {
                    re: clamp_to_i16(qre + tre16 as i64),
                    im: clamp_to_i16(qim + tim16 as i64),
                };
                let bot = Complex {
                    re: clamp_to_i16(qre - tre16 as i64),
                    im: clamp_to_i16(qim - tim16 as i64),
                };
                f.set(idx, top);
                f.set(j, bot);
                proof {
                    assert(f@[idx as int] == g[idx as int]);
                    assert(f@[j as int] == g[j as int]);
                }
            } else {
                proof {
                    assert forall|q: int| 0 <= q < n implies pair_base(q, stride as int)
                        != idx as int by {
                        if (q / stride as int) % 2 == 1 {
                            lemma_pair_bot(q, stride as int);
                        }
                    }
                }
            }
            idx = idx + 1;
        }
        proof {
            assert forall|q: int| 0 <= q < n implies pair_base(q, stride as int) < n by {
                if (q / stride as int) % 2 == 1 {
                    lemma_pair_bot(q, stride as int);
                }
            }
            assert(f@ =~= g);
            assert(g == fft_run(perm, sin@, l as nat, (stage + 1) as nat));
        }
        stage = stage + 1;
    }
}

/// Complex bins built from adjacent time-domain values: each pair of
/// neighbouring samples becomes the real and imaginary part of one bin.
pub fn complex_from_adjacent_values(samples: &Vec<i16>) -> (r: Vec<Complex>)
    requires
        samples@.len() % 2 == 0,
    ensures
        r@.len() == samples@.len() / 2,
        forall|i: int|
            0 <= i < r@.len() ==> (#[trigger] r@[i]) == (Complex {
                re: samples@[2 * i],
                im: samples@[2 * i + 1],
            }),
{
    let mut out: Vec<Complex> = Vec::new();
    let mut i: usize = 0;
    let half: usize = samples.len() / 2;
    proof {
        lemma_fundamental_div_mod(samples@.len() as int, 2);
    }
    while i < half
        invariant
            samples@.len() == 2 * half,
            samples@.len() <= usize::MAX,
            i <= half,
            out@.len() == i,
            forall|k: int|
                0 <= k < i ==> (#[trigger] out@[k]) == (Complex {
                    re: samples@[2 * k],
                    im: samples@[2 * k + 1],
                }),
        decreases half - i,
    {
        let re = samples[2 * i];
        let im = samples[2 * i + 1];
        out.push(Complex { re, im });
        i = i + 1;
    }
    out
}

/// Run the in-place FFT and hand back the non-negative-frequency bins:
/// the first half of the transformed buffer, with the zero-frequency
/// component at index zero and the half-rate component at the end.  The
/// upper half of the buffer (the negative frequencies) is left in place
/// and conventionally ignored.
pub fn run(buf: &mut Vec<Complex>, sin: &Vec<i16>) -> (bins: Vec<Complex>)
    requires
        2 <= old(buf)@.len(),
        old(buf)@.len() == pow2(fft_log2(old(buf)@.len() as nat)),
        fft_log2(old(buf)@.len() as nat) <= 16,
        sin_table_wf(sin@, old(buf)@.len() as int),
    ensures
        final(buf)@ == fft_spec(old(buf)@, sin@, fft_log2(old(buf)@.len() as nat)),
        final(buf)@.len() == old(buf)@.len(),
        bins@ == fft_spec(old(buf)@, sin@, fft_log2(old(buf)@.len() as nat)).take(
            old(buf)@.len() as int / 2,
        ),
        bins@.len() == old(buf)@.len() / 2,
{
    radix2(buf, sin);
    let half: usize = buf.len() / 2;
    let mut bins: Vec<Complex> = Vec::new();
    let mut i: usize = 0;
    while i < half
        invariant
            half <= buf@.len(),
            i <= half,
            bins@.len() == i,
            forall|k: int| 0 <= k < i ==> (#[trigger] bins@[k]) == buf@[k],
        decreases half - i,
    {
        bins.push(buf[i]);
        i = i + 1;
    }
    proof {
        assert(bins@ =~= buf@.take(half as int));
    }
    bins
}

/// A buffer of silent bins.
pub open spec fn all_zero(f: Seq<Complex>) -> bool {
    forall|i: int| 0 <= i < f.len() ==> (#[trigger] f[i]) == (Complex { re: 0i16, im: 0i16 })
}

/// One butterfly stage maps a silent buffer to a silent buffer: with
/// both pair values zero the twiddled product rounds to zero and the
/// halved values stay zero.
proof fn lemma_stage_zero(f: Seq<Complex>, sin: Seq<i16>, l: nat, stage: nat)
    requires
        f.len() == pow2(l),
        stage < l,
        all_zero(f),
    ensures
        all_zero(stage_spec(f, sin, l, stage)),
{
    let n = f.len() as int;
    let stride = pow2(stage) as int;
    lemma_pow2_pos(stage);
    lemma_pow2_adds(1, stage);
    assert(pow2(1) == 2) by {
        vstd::arithmetic::power2::lemma2_to64();
    }
    lemma_pow2_adds((stage + 1) as nat, (l - stage - 1) as nat);
    vstd::arithmetic::div_mod::lemma_mod_multiples_basic(
        pow2((l - stage - 1) as nat) as int,
        pow2((stage + 1) as nat) as int,
    );
    lemma_pow2_pos((stage + 1) as nat);
    lemma_pow2_pos((l - stage - 1) as nat);
    assert(pow2((l - stage - 1) as nat) as int * pow2((stage + 1) as nat) as int == pow2(
        (stage + 1) as nat,
    ) as int * pow2((l - stage - 1) as nat) as int) by (nonlinear_arith);
    assert(n % (2 * stride) == 0);
    let g = stage_spec(f, sin, l, stage);
    assert forall|idx: int| 0 <= idx < g.len() implies (#[trigger] g[idx]) == Complex {
        re: 0i16,
        im: 0i16,
    } by {
        let iw = (idx % stride) * pow2((l - 1 - stage) as nat) as int;
        let wr = tw_re(sin, n, iw);
        let wi = tw_im(sin, iw);
        vstd::arithmetic::mul::lemma_mul_basics(wr);
        vstd::arithmetic::mul::lemma_mul_basics(wi);
        if (idx / stride) % 2 == 0 {
            lemma_pair_top(idx, stride, n);
            assert(f[idx + stride] == Complex { re: 0i16, im: 0i16 });
            assert(bf_t_re(wr, wi, f[idx + stride]) == 0);
            assert(bf_t_im(wr, wi, f[idx + stride]) == 0);
        } else {
            lemma_pair_bot(idx, stride);
            assert(f[idx - stride] == Complex { re: 0i16, im: 0i16 });
            assert(bf_t_re(wr, wi, f[idx]) == 0);
            assert(bf_t_im(wr, wi, f[idx]) == 0);
        }
    }
}

/// The stages of the transform keep a silent buffer silent.
proof fn lemma_run_zero(f: Seq<Complex>, sin: Seq<i16>, l: nat, s: nat)
    requires
        f.len() == pow2(l),
        s <= l,
        all_zero(f),
    ensures
        all_zero(fft_run(f, sin, l, s)),
        fft_run(f, sin, l, s).len() == f.len(),
    decreases s,
{
    if s > 0 {
        lemma_run_zero(f, sin, l, (s - 1) as nat);
        lemma_stage_zero(fft_run(f, sin, l, (s - 1) as nat), sin, l, (s - 1) as nat);
    }
}

/// Law: the transform of silence is silence.  An all-zero input buffer
/// yields an all-zero output buffer, whatever the sine table holds.
pub proof fn lemma_fft_zero(f: Seq<Complex>, sin: Seq<i16>, l: nat)
    requires
        f.len() == pow2(l),
        all_zero(f),
    ensures
        all_zero(fft_spec(f, sin, l)),
{
    assert forall|i: int| 0 <= i < bit_rev_perm(f, l).len() implies (#[trigger] bit_rev_perm(
        f,
        l,
    )[i]) == Complex { re: 0i16, im: 0i16 } by {
        lemma_bit_rev_bound(i as nat, l);
    }
    lemma_run_zero(bit_rev_perm(f, l), sin, l, l);
}

/// Law: the transform is a function of the buffer and table alone, so
/// running it twice on identical input yields bit-identical output.
pub proof fn lemma_fft_deterministic(a: Seq<Complex>, b: Seq<Complex>, sin: Seq<i16>, l: nat)
    requires
        a == b,
    ensures
        fft_spec(a, sin, l) == fft_spec(b, sin, l),
{
}

} // verus!
