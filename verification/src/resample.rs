//! Linear-interpolation resampling, modelled exactly: how many output samples
//! a conversion yields and, for each output sample, which two input samples it
//! interpolates between and with what fraction. The floating-point blend of
//! the two samples is the caller's, and is fully determined by these taps.

use vstd::arithmetic::div_mod::lemma_fundamental_div_mod;
use vstd::prelude::*;

verus! {

/// Inputs longer than this are rejected up front, so that every product of a
/// length and a sample rate fits in 64 bits.
pub const MAX_RESAMPLE_INPUT: usize = 0x4000_0000;

/// How many samples linear resampling emits: none for empty input or a zero
/// rate, a plain copy for equal rates, else the ceiling of
/// `input_len * to_sr / from_sr`, and at least one.
pub open spec fn linear_out_len(input_len: int, from_sr: int, to_sr: int) -> int {
    if from_sr == 0 || to_sr == 0 || input_len == 0 {
        0
    } else if from_sr == to_sr {
        input_len
    } else {
        let c = (input_len * to_sr + from_sr - 1) / from_sr;
        if c < 1 {
            1
        } else {
            c
        }
    }
}

/// Index of the input sample just at or before output position `i`.
pub open spec fn src_base(i: int, from_sr: int, to_sr: int) -> int {
    (i * from_sr) / to_sr
}

/// Numerator of the interpolation fraction at output position `i`; the
/// denominator is `to_sr`.
pub open spec fn src_frac_num(i: int, from_sr: int, to_sr: int) -> int {
    (i * from_sr) % to_sr
}

/// One output sample's recipe: blend `input[base]` and `input[next]` with
/// fraction `frac_num / to_sr`.
#[derive(Clone, Copy, Debug, PartialEq, Eq, Structural)]
pub struct ResampleTap {
    pub base: usize,
    pub next: usize,
    pub frac_num: u32,
}

/// What the tap at output position `i` must be, for `input_len` samples.
pub open spec fn tap_spec(i: int, input_len: int, from_sr: int, to_sr: int) -> ResampleTap {
    if from_sr == to_sr {
        ResampleTap { base: i as usize, next: i as usize, frac_num: 0 }
    } else {
        let b = src_base(i, from_sr, to_sr);
        ResampleTap {
            base: (if b < input_len - 1 {
                b
            } else {
                input_len - 1
            }) as usize,
            next: (if b + 1 < input_len - 1 {
                b + 1
            } else {
                input_len - 1
            }) as usize,
            frac_num: src_frac_num(i, from_sr, to_sr) as u32,
        }
    }
}

/// The output length is exactly the ceiling of `input_len * to_sr / from_sr`
/// whenever the input is non-empty and both rates are non-zero.
pub proof fn lemma_out_len_is_ceil(input_len: int, from_sr: int, to_sr: int)
    requires
        input_len > 0,
        from_sr > 0,
        to_sr > 0,
    ensures
        linear_out_len(input_len, from_sr, to_sr) * from_sr >= input_len * to_sr,
        (linear_out_len(input_len, from_sr, to_sr) - 1) * from_sr < input_len * to_sr,
        linear_out_len(input_len, from_sr, to_sr) >= 1,
{
    if from_sr == to_sr {
        assert(input_len * from_sr >= input_len * to_sr);
        assert((input_len - 1) * from_sr < input_len * to_sr) by (nonlinear_arith)
            requires
                input_len > 0,
                from_sr > 0,
                from_sr == to_sr,
        ;
    } else {
        let a = input_len * to_sr;
        assert(input_len * to_sr >= 1) by (nonlinear_arith)
            requires
                input_len > 0,
                to_sr > 0,
        ;
        let c = (a + from_sr - 1) / from_sr;
        lemma_fundamental_div_mod(a + from_sr - 1, from_sr);
        assert(a + from_sr - 1 == from_sr * c + ((a + from_sr - 1) % from_sr));
        assert(from_sr * c <= a + from_sr - 1);
        assert(from_sr * c > a - 1);
        assert(from_sr * c >= 1);
        assert(c >= 1) by (nonlinear_arith)
            requires
                from_sr > 0,
                from_sr * c >= 1,
        ;
        assert(linear_out_len(input_len, from_sr, to_sr) == c);
        assert(c * from_sr == from_sr * c) by (nonlinear_arith);
        assert((c - 1) * from_sr == from_sr * c - from_sr) by (nonlinear_arith);
    }
}

/// A one-sample input resamples to that one sample, copied exactly, whenever
/// the conversion does not upsample.
pub proof fn lemma_single_sample_identity(from_sr: int, to_sr: int)
    requires
        0 < to_sr <= from_sr,
    ensures
        linear_out_len(1, from_sr, to_sr) == 1,
        tap_spec(0, 1, from_sr, to_sr) == (ResampleTap { base: 0, next: 0, frac_num: 0 }),
{
    if from_sr != to_sr {
        let c = (to_sr + from_sr - 1) / from_sr;
        lemma_fundamental_div_mod(to_sr + from_sr - 1, from_sr);
        assert(to_sr + from_sr - 1 == from_sr * c + ((to_sr + from_sr - 1) % from_sr));
        assert(from_sr * c >= to_sr >= 1);
        assert(from_sr * c <= to_sr + from_sr - 1 <= 2 * from_sr - 1);
        assert(c == 1) by (nonlinear_arith)
            requires
                from_sr > 0,
                from_sr * c >= 1,
                from_sr * c <= 2 * from_sr - 1,
        ;
        vstd::arithmetic::div_mod::lemma_small_div_converse(0, to_sr);
        vstd::arithmetic::div_mod::lemma_small_mod(0, to_sr as nat);
    }
}

/// Equal rates give the identity plan: every tap copies its own sample.
pub proof fn lemma_equal_rates_identity(input_len: int, rate: int)
    requires
        rate > 0,
    ensures
        linear_out_len(input_len, rate, rate) == if input_len == 0 {
            0int
        } else {
            input_len
        },
        forall|i: int|
            0 <= i < input_len ==> tap_spec(i, input_len, rate, rate) == (ResampleTap {
                base: i as usize,
                next: i as usize,
                frac_num: 0,
            }),
{
}

/// The full interpolation plan for one conversion. Empty input or a zero rate
/// yields an empty plan; equal rates yield the identity copy; otherwise each
/// output position `i` reads from input position `i * from_sr / to_sr`, with
/// both tap indices clamped to the last input sample.
pub fn resample_plan(input_len: usize, from_sr: u32, to_sr: u32) -> (r: Vec<ResampleTap>)
    requires
        input_len <= MAX_RESAMPLE_INPUT,
        linear_out_len(input_len as int, from_sr as int, to_sr as int) <= usize::MAX,
    ensures
        r@.len() == linear_out_len(input_len as int, from_sr as int, to_sr as int),
        forall|i: int|
            0 <= i < r@.len() ==> r@[i] == tap_spec(
                i,
                input_len as int,
                from_sr as int,
                to_sr as int,
            ),
        forall|i: int| 0 <= i < r@.len() ==> (#[trigger] r@[i]).base < input_len && r@[i].next
            < input_len,
{
    let mut r: Vec<ResampleTap> = Vec::new();
    if from_sr == 0 || to_sr == 0 || input_len == 0 {
        return r;
    }
    if from_sr == to_sr {
        let mut i: usize = 0;
        while i < input_len
            invariant
                0 <= i <= input_len,
                from_sr == to_sr,
                0 < from_sr,
                0 < input_len,
                r@.len() == i,
                forall|j: int|
                    0 <= j < i ==> r@[j] == tap_spec(
                        j,
                        input_len as int,
                        from_sr as int,
                        to_sr as int,
                    ),
                forall|j: int| 0 <= j < i ==> (#[trigger] r@[j]).base < input_len && r@[j].next
                    < input_len,
            decreases input_len - i,
        {
            r.push(ResampleTap { base: i, next: i, frac_num: 0 });
            i = i + 1;
        }
        return r;
    }
    let len64 = input_len as u64;
    let from64 = from_sr as u64;
    let to64 = to_sr as u64;
    proof {
        assert((len64 as int) * (to64 as int) <= 0x4000_0000 * 0xFFFF_FFFFint)
            by (nonlinear_arith)
            requires
                0 < len64 <= 0x4000_0000,
                0 < to64 <= 0xFFFF_FFFF,
        ;
    }
    let numer = len64 * to64 + from64 - 1;
    let c = numer / from64;
    let out64 = if c < 1 {
        1
    } else {
        c
    };
    proof {
        assert(out64 as int == linear_out_len(input_len as int, from_sr as int, to_sr as int));
        lemma_out_len_is_ceil(input_len as int, from_sr as int, to_sr as int);
    }
    let out_len = out64 as usize;
    let mut i: usize = 0;
    while i < out_len
        invariant
            0 <= i <= out_len,
            out_len as int == linear_out_len(input_len as int, from_sr as int, to_sr as int),
            0 < from_sr,
            0 < to_sr,
            from_sr != to_sr,
            0 < input_len <= MAX_RESAMPLE_INPUT,
            (out_len - 1) * from_sr < input_len * to_sr,
            r@.len() == i,
            forall|j: int|
                0 <= j < i ==> r@[j] == tap_spec(j, input_len as int, from_sr as int, to_sr as int),
            forall|j: int| 0 <= j < i ==> (#[trigger] r@[j]).base < input_len && r@[j].next
                < input_len,
        decreases out_len - i,
    {
        proof {
            assert((i as int) * (from_sr as int) <= (out_len - 1) * (from_sr as int))
                by (nonlinear_arith)
                requires
                    0 <= i as int <= out_len - 1,
                    from_sr > 0,
            ;
            assert((input_len as int) * (to_sr as int) <= MAX_RESAMPLE_INPUT as int
                * 0xFFFF_FFFFint) by (nonlinear_arith)
                requires
                    0 < input_len <= MAX_RESAMPLE_INPUT,
                    0 < to_sr <= 0xFFFF_FFFF,
            ;
        }
        let pos_num = (i as u64) * (from_sr as u64);
        let base64 = pos_num / (to_sr as u64);
        let rem = pos_num % (to_sr as u64);
        proof {
            assert(base64 as int == src_base(i as int, from_sr as int, to_sr as int));
            assert(rem as int == src_frac_num(i as int, from_sr as int, to_sr as int));
            assert(rem < to_sr as u64);
            lemma_fundamental_div_mod(pos_num as int, to_sr as int);
            assert((to_sr as int) * (base64 as int) <= pos_num as int);
            assert((input_len as int) * (to_sr as int) > pos_num as int);
            assert((input_len as int) > base64 as int) by (nonlinear_arith)
                requires
                    to_sr >= 1,
                    (to_sr as int) * (base64 as int) <= pos_num as int,
                    (input_len as int) * (to_sr as int) > pos_num as int,
                    base64 >= 0,
            ;
        }
        let base_u = base64 as usize;
        let base = if base_u < input_len - 1 {
            base_u
        } else {
            input_len - 1
        };
        let next = if base_u + 1 < input_len - 1 {
            base_u + 1
        } else {
            input_len - 1
        };
        r.push(ResampleTap { base, next, frac_num: rem as u32 });
        proof {
            assert(r@[i as int] == tap_spec(
                i as int,
                input_len as int,
                from_sr as int,
                to_sr as int,
            ));
        }
        i = i + 1;
    }
    r
}

} // verus!
