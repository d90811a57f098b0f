//! Format normalisation: interleaved multi-channel PCM at any rate to mono
//! PCM at the target rate, by channel averaging and linear interpolation.
use vstd::prelude::*;

verus! {

/// The sample rate of every normalised frame, in Hz.
pub const TARGET_SAMPLE_RATE: u32 = 16000;

/// Sum of the samples of a sequence.
pub open spec fn seq_sum(s: Seq<i16>) -> int
    decreases s.len(),
{
    if s.len() == 0 {
        0
    } else {
        seq_sum(s.drop_last()) + s.last() as int
    }
}

/// Division rounded toward zero, as a float-to-integer cast rounds.
pub open spec fn trunc_div(a: int, b: int) -> int {
    if a >= 0 {
        a / b
    } else {
        -((-a) / b)
    }
}

/// Mono signal: each whole group of `c` interleaved samples becomes their
/// mean; a trailing partial group is dropped.
pub open spec fn downmix(input: Seq<i16>, c: int) -> Seq<i16> {
    Seq::new(
        (input.len() as int / c) as nat,
        |k: int| trunc_div(seq_sum(input.subrange(k * c, k * c + c)), c) as i16,
    )
}

/// Output sample `i` of resampling `m` from `rate` to the target rate: the
/// source position is `i * rate / 16000`; its floor and the next sample
/// (clamped to the last) are mixed by the fractional part.
pub open spec fn interpolate(m: Seq<i16>, rate: int, i: int) -> i16 {
    let p = i * rate;
    let i0 = p / 16000;
    let f = p % 16000;
    let i1 = if i0 + 1 < m.len() {
        i0 + 1
    } else {
        m.len() - 1
    };
    trunc_div(m[i0] * (16000 - f) + m[i1] * f, 16000) as i16
}

/// Number of output samples when `len` mono samples are resampled from `rate`.
pub open spec fn resampled_len(len: int, rate: int) -> int {
    len * 16000 / rate
}

/// Mono samples resampled from `rate` to the target rate.
pub open spec fn resample(m: Seq<i16>, rate: int) -> Seq<i16> {
    Seq::new(resampled_len(m.len() as int, rate) as nat, |i: int| interpolate(m, rate, i))
}

/// The normalised frame: downmixed, then resampled unless already at the
/// target rate.
pub open spec fn normalized(input: Seq<i16>, channels: int, rate: int) -> Seq<i16> {
    if rate == 16000 {
        downmix(input, channels)
    } else {
        resample(downmix(input, channels), rate)
    }
}

proof fn lemma_trunc_div_range(a: int, c: int)
    requires
        c > 0,
        -32768 * c <= a <= 32767 * c,
    ensures
        -32768 <= trunc_div(a, c) <= 32767,
{
    if a >= 0 {
        assert(a / c <= 32767) by (nonlinear_arith)
            requires
                c > 0,
                0 <= a <= 32767 * c,
        ;
        assert(a / c >= 0) by (nonlinear_arith)
            requires
                c > 0,
                0 <= a,
        ;
    } else {
        assert((-a) / c <= 32768) by (nonlinear_arith)
            requires
                c > 0,
                0 < -a <= 32768 * c,
        ;
        assert((-a) / c >= 0) by (nonlinear_arith)
            requires
                c > 0,
                0 < -a,
        ;
    }
}

proof fn lemma_downmix_mono(input: Seq<i16>)
    ensures
        downmix(input, 1) == input,
{
    assert forall|k: int| 0 <= k < input.len() implies #[trigger] downmix(input, 1)[k]
        == input[k] by {
        let g = input.subrange(k, k + 1);
        assert(g.drop_last() =~= Seq::<i16>::empty());
        assert(seq_sum(g.drop_last()) == 0);
        assert(g.last() == input[k]);
        assert(seq_sum(g) == input[k] as int);
    }
    assert(downmix(input, 1) =~= input);
}

/// Converts interleaved frames of `channels` samples at `input_rate` Hz to mono
/// at the target rate.
pub fn to_mono_16k(input: &[i16], channels: u16, input_rate: u32) -> (r: Vec<i16>)
    requires
        channels > 0,
        input_rate > 0,
        input_rate == TARGET_SAMPLE_RATE || resampled_len(
            input@.len() as int / (channels as int),
            input_rate as int,
        ) <= usize::MAX,
    ensures
        r@ == normalized(input@, channels as int, input_rate as int),
        channels == 1 && input_rate == TARGET_SAMPLE_RATE ==> r@ == input@,
        input_rate != TARGET_SAMPLE_RATE ==> r@.len() == (input@.len() as int / (channels as int)) * 16000
            / (input_rate as int),
{
    let mono = downmix_frames(input, channels);
    proof {
        if channels == 1 {
            lemma_downmix_mono(input@);
        }
    }
    if input_rate == TARGET_SAMPLE_RATE {
        return mono;
    }
    resample_mono(&mono, input_rate)
}

/// Averages each whole group of `channels` interleaved samples.
fn downmix_frames(input: &[i16], channels: u16) -> (r: Vec<i16>)
    requires
        channels > 0,
    ensures
        r@ == downmix(input@, channels as int),
{
    let c: usize = channels as usize;
    let len: usize = input.len();
    let n: usize = len / c;
    proof {
        assert(n * c <= len) by (nonlinear_arith)
            requires
                n == len / c,
                c > 0,
        ;
    }
    let mut out: Vec<i16> = Vec::with_capacity(n);
    let mut k: usize = 0;
    let mut base: usize = 0;
    while k < n
        invariant
            c == channels as usize,
            c > 0,
            len == input@.len(),
            n == len / c,
            n * c <= len,
            k <= n,
            base == k * c,
            out@.len() == k,
            forall|j: int| 0 <= j < k ==> #[trigger] out@[j] == downmix(input@, c as int)[j],
        decreases n - k,
    {
        proof {
            assert(base + c <= len) by (nonlinear_arith)
                requires
                    base == k * c,
                    k < n,
                    n * c <= len,
            ;
        }
        let mut acc: i64 = 0;
        let mut j: usize = 0;
        while j < c
            invariant
                c == channels as usize,
                base + c <= len,
                len == input@.len(),
                j <= c,
                acc == seq_sum(input@.subrange(base as int, base + j)),
                -32768 * j <= acc <= 32767 * j,
            decreases c - j,
        {
            proof {
                let s = input@.subrange(base as int, base + j + 1);
                assert(s.drop_last() =~= input@.subrange(base as int, base + j));
            }
            acc = acc + input[base + j] as i64;
            j = j + 1;
        }
        proof {
            lemma_trunc_div_range(acc as int, c as int);
        }
        let avg: i64 = if acc >= 0 {
            acc / (c as i64)
        } else {
            -((-acc) / (c as i64))
        };
        out.push(avg as i16);
        proof {
            assert((k + 1) * c == base + c) by (nonlinear_arith)
                requires
                    base == k * c,
            ;
        }
        k = k + 1;
        base = base + c;
    }
    assert(out@ =~= downmix(input@, c as int));
    out
}

/// Resamples mono samples from `rate` to the target rate.
fn resample_mono(m: &Vec<i16>, rate: u32) -> (r: Vec<i16>)
    requires
        rate > 0,
        resampled_len(m@.len() as int, rate as int) <= usize::MAX,
    ensures
        r@ == resample(m@, rate as int),
{
    let mlen: usize = m.len();
    let out_len: usize = ((mlen as u128) * 16000u128 / (rate as u128)) as usize;
    let mut out: Vec<i16> = Vec::with_capacity(out_len);
    let mut i: usize = 0;
    while i < out_len
        invariant
            mlen == m@.len(),
            rate > 0,
            out_len == resampled_len(mlen as int, rate as int),
            i <= out_len,
            out@.len() == i,
            forall|j: int| 0 <= j < i ==> #[trigger] out@[j] == interpolate(m@, rate as int, j),
        decreases out_len - i,
    {
        proof {
            assert((i as int) * (rate as int) <= 0x1_0000_0000_0000_0000 * 0x1_0000_0000)
                by (nonlinear_arith)
                requires
                    0 <= i <= 0xffff_ffff_ffff_ffff,
                    0 <= rate <= 0xffff_ffff,
            ;
        }
        let p: u128 = (i as u128) * (rate as u128);
        proof {
            assert(p < mlen * 16000) by (nonlinear_arith)
                requires
                    p == i * rate,
                    i < out_len,
                    out_len == mlen * 16000 / (rate as int),
                    rate > 0,
            ;
            assert(p / 16000 < mlen) by (nonlinear_arith)
                requires
                    p < mlen * 16000,
            ;
        }
        let i0: usize = (p / 16000) as usize;
        let f: i64 = (p % 16000) as i64;
        let i1: usize = if i0 + 1 < mlen {
            i0 + 1
        } else {
            mlen - 1
        };
        let a: i64 = m[i0] as i64;
        let b: i64 = m[i1] as i64;
        proof {
            assert(-32768 * 16000 <= a * (16000 - f) <= 32767 * 16000) by (nonlinear_arith)
                requires
                    -32768 <= a <= 32767,
                    0 <= f < 16000,
            ;
            assert(-32768 * 16000 <= b * f <= 32767 * 16000) by (nonlinear_arith)
                requires
                    -32768 <= b <= 32767,
                    0 <= f < 16000,
            ;
            assert(-32768 * 16000 <= a * (16000 - f) + b * f <= 32767 * 16000) by (nonlinear_arith)
                requires
                    -32768 <= a <= 32767,
                    -32768 <= b <= 32767,
                    0 <= f < 16000,
            ;
        }
        let num: i64 = a * (16000 - f) + b * f;
        proof {
            lemma_trunc_div_range(num as int, 16000);
        }
        let v: i64 = if num >= 0 {
            num / 16000
        } else {
            -((-num) / 16000)
        };
        out.push(v as i16);
        i = i + 1;
    }
    assert(out@ =~= resample(m@, rate as int));
    out
}

} // verus!
