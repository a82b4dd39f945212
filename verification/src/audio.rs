//! Spectral front end: windowing, a recursive radix-2 FFT with a direct-DFT
//! fallback for odd sizes, power-spectrum folding, mel projection and
//! log-compression, and the final dynamic-range normalization.

use vstd::prelude::*;
use vstd::arithmetic::div_mod::*;

use crate::logic::{Config, WhisperError};
use crate::FRAME_PAD;
use crate::HOP_LENGTH;
use crate::N_FFT;

verus! {

/// Scalar arithmetic used by the spectral front end and the decoding engine.
///
/// The pipeline is verified for an arbitrary implementation of this trait;
/// nothing is assumed about the values the operations return.  A caller
/// outside the verified crate implements it with a machine float type
/// (`cos`, `sin`, `exp`, `ln` and `log10` are the usual transcendentals,
/// `of_u64` / `of_i64` the usual integer conversions).
pub trait Float: Sized + Copy {
    fn zero() -> Self;

    fn one() -> Self;

    fn pi() -> Self;

    fn nan() -> Self;

    fn neg_infinity() -> Self;

    fn of_u64(n: u64) -> Self;

    fn of_i64(n: i64) -> Self;

    fn plus(self, other: Self) -> Self;

    fn minus(self, other: Self) -> Self;

    fn times(self, other: Self) -> Self;

    fn divided_by(self, other: Self) -> Self;

    fn neg(self) -> Self;

    fn cos(self) -> Self;

    fn sin(self) -> Self;

    fn exp(self) -> Self;

    fn ln(self) -> Self;

    fn log10(self) -> Self;

    fn max_with(self, other: Self) -> Self;

    fn gt(self, other: Self) -> bool;

    fn lt(self, other: Self) -> bool;
}

/// Direct (brute-force) discrete Fourier transform.
///
/// Returns `2 * inp.len()` scalars: the real and imaginary part of each
/// output bin, interleaved.  This is the fallback used whenever an odd
/// length appears during the recursive FFT split.
pub fn dft<T: Float>(inp: &[T]) -> (out: Vec<T>)
    requires
        inp@.len() * 2 <= usize::MAX,
    ensures
        out@.len() == 2 * inp@.len(),
{
    let zero = T::zero();
    let n = inp.len();
    let two_pi = T::pi().plus(T::pi());

    let mut out: Vec<T> = Vec::with_capacity(2 * n);
    let n_t = T::of_u64(n as u64);
    for k in 0..n
        invariant
            out@.len() == 2 * k,
            n == inp@.len(),
            n * 2 <= usize::MAX,
    {
        let k_t = T::of_u64(k as u64);
        let mut re = zero;
        let mut im = zero;

        for j in 0..n
            invariant
                out@.len() == 2 * k,
                n == inp@.len(),
        {
            let j_t = T::of_u64(j as u64);
            let angle = two_pi.times(k_t).times(j_t).divided_by(n_t);
            re = re.plus(inp[j].times(angle.cos()));
            im = im.minus(inp[j].times(angle.sin()));
        }

        out.push(re);
        out.push(im);
    }
    out
}

/// Recursive radix-2 Cooley-Tukey FFT over an owned scalar sequence.
///
/// A length-1 input is its own transform (zero imaginary part); an odd
/// length falls back to [`dft`], which keeps the recursion correct whenever
/// an odd factor appears during splitting.  Returns `2 * inp.len()` scalars,
/// real and imaginary parts interleaved.
pub fn fft<T: Float>(inp: &[T]) -> (out: Vec<T>)
    requires
        inp@.len() >= 1,
        inp@.len() * 2 <= usize::MAX,
    ensures
        out@.len() == 2 * inp@.len(),
        inp@.len() == 1 ==> out@[0] == inp@[0],
    decreases inp@.len(),
{
    let n = inp.len();
    let zero = T::zero();
    if n == 1 {
        let mut out: Vec<T> = Vec::new();
        out.push(inp[0]);
        out.push(zero);
        return out;
    }
    if n % 2 == 1 {
        return dft(inp);
    }
    let mut out: Vec<T> = Vec::new();
    let mut filled: usize = 0;
    while filled < n * 2
        invariant
            n * 2 <= usize::MAX,
            out@.len() == filled,
            filled <= n * 2,
        decreases n * 2 - filled,
    {
        out.push(zero);
        filled = filled + 1;
    }

    let mut even: Vec<T> = Vec::with_capacity(n / 2);
    let mut odd: Vec<T> = Vec::with_capacity(n / 2);

    for i in 0..n
        invariant
            n == inp@.len(),
            even@.len() == (i + 1) / 2,
            odd@.len() == i / 2,
    {
        if i % 2 == 0 {
            even.push(inp[i]);
        } else {
            odd.push(inp[i]);
        }
    }

    let even_fft = fft(even.as_slice());
    let odd_fft = fft(odd.as_slice());

    let two_pi = T::pi().plus(T::pi());
    let n_t = T::of_u64(n as u64);
    for k in 0..n / 2
        invariant
            n == inp@.len(),
            n % 2 == 0,
            2 <= n,
            n * 2 <= usize::MAX,
            out@.len() == n * 2,
            even_fft@.len() == n,
            odd_fft@.len() == n,
    {
        let k_t = T::of_u64(k as u64);
        let theta = two_pi.times(k_t).divided_by(n_t);
        let re = theta.cos();
        let im = theta.sin().neg();

        let re_odd = odd_fft[2 * k];
        let im_odd = odd_fft[2 * k + 1];

        out.set(2 * k, even_fft[2 * k].plus(re.times(re_odd)).minus(im.times(im_odd)));
        out.set(2 * k + 1, even_fft[2 * k + 1].plus(re.times(im_odd)).plus(im.times(re_odd)));

        out.set(2 * (k + n / 2), even_fft[2 * k].minus(re.times(re_odd)).plus(im.times(im_odd)));
        out.set(
            2 * (k + n / 2) + 1,
            even_fft[2 * k + 1].minus(re.times(im_odd)).minus(im.times(re_odd)),
        );
    }
    out
}

/// Number of power-spectrum bins the mel projection reads: half the FFT
/// size in normal mode, a quarter in speed-up mode, plus one.
pub open spec fn spec_n_fft_bins(speed_up: bool, fft_size: nat) -> nat {
    if speed_up {
        1 + fft_size / 4
    } else {
        1 + fft_size / 2
    }
}

/// Frame count after padding: the sample-derived frame count rounded up to
/// a multiple of [`FRAME_PAD`](crate::FRAME_PAD), plus one extra pad unit.
pub open spec fn padded_frame_count(samples_len: nat, fft_step: nat) -> nat
    recommends
        fft_step >= 1,
{
    let n0 = samples_len / fft_step;
    let n1 = if n0 % (FRAME_PAD as nat) != 0 {
        (n0 / (FRAME_PAD as nat) + 1) * (FRAME_PAD as nat)
    } else {
        n0
    };
    n1 + (FRAME_PAD as nat)
}

/// For every sample buffer length and every positive hop, the padded frame
/// count is a whole number of pad units plus one extra unit, and the padded
/// frames cover the whole sample buffer (the zero-pad amount
/// `padded_frame_count * fft_step - samples_len` is non-negative).
pub proof fn lemma_padded_frame_count(samples_len: nat, fft_step: nat)
    requires
        fft_step >= 1,
    ensures
        padded_frame_count(samples_len, fft_step) % (FRAME_PAD as nat) == 0,
        padded_frame_count(samples_len, fft_step) >= FRAME_PAD,
        padded_frame_count(samples_len, fft_step) * fft_step >= samples_len,
{
    let pad = FRAME_PAD as nat;
    let n0 = samples_len / fft_step;
    let n1 = if n0 % pad != 0 {
        (n0 / pad + 1) * pad
    } else {
        n0
    };
    lemma_fundamental_div_mod(samples_len as int, fft_step as int);
    lemma_mod_bound(samples_len as int, fft_step as int);
    lemma_fundamental_div_mod(n0 as int, pad as int);
    lemma_mod_bound(n0 as int, pad as int);
    if n0 % pad != 0 {
        assert((n0 / pad + 1) * pad == pad * (n0 / pad) + pad) by (nonlinear_arith);
        assert(n1 >= n0);
        lemma_mod_multiples_basic((n0 / pad + 1) as int, pad as int);
    }
    assert(n1 >= n0);
    lemma_add_mod_noop(n1 as int, pad as int, pad as int);
    lemma_mod_self_0(pad as int);
    lemma_mod_twice(n1 as int, pad as int);
    assert((n1 + pad) % pad == n1 % pad) by {
        assert((n1 % pad + pad % pad) % pad == (n1 + pad) % pad);
        assert(pad % pad == 0);
        assert((n1 % pad) % pad == n1 % pad);
    }
    assert(padded_frame_count(samples_len, fft_step) >= n0 + 1);
    assert((n0 + 1) * fft_step >= samples_len + 1) by {
        assert(samples_len == fft_step * n0 + samples_len % fft_step);
        assert(samples_len % fft_step < fft_step);
        assert((n0 + 1) * fft_step == n0 * fft_step + fft_step) by (nonlinear_arith);
        assert(fft_step * n0 == n0 * fft_step) by (nonlinear_arith);
    }
    assert(padded_frame_count(samples_len, fft_step) * fft_step >= (n0 + 1) * fft_step) by (nonlinear_arith)
        requires
            padded_frame_count(samples_len, fft_step) >= n0 + 1,
            fft_step >= 1,
    ;
}

/// Projects one folded power spectrum through the mel filterbank and
/// log-compresses each band: entry `j` of the result is
/// `log10(max(sum_k power[k] * filters[j * n_fft + k], 1e-10))`.
pub fn mel_project<T: Float>(power: &[T], filters: &[T], n_mel: usize, n_fft: usize) -> (out: Vec<
    T,
>)
    requires
        power@.len() >= n_fft,
        filters@.len() >= n_mel * n_fft,
        n_mel * n_fft <= usize::MAX,
    ensures
        out@.len() == n_mel,
{
    let zero = T::zero();
    let floor = T::one().divided_by(T::of_u64(10_000_000_000));
    let mut out: Vec<T> = Vec::with_capacity(n_mel);
    for j in 0..n_mel
        invariant
            out@.len() == j,
            power@.len() >= n_fft,
            filters@.len() >= n_mel * n_fft,
            n_mel * n_fft <= usize::MAX,
    {
        let mut sum = zero;
        assert(j * n_fft + n_fft <= n_mel * n_fft) by (nonlinear_arith)
            requires
                j < n_mel,
        ;
        for k in 0..n_fft
            invariant
                power@.len() >= n_fft,
                filters@.len() >= n_mel * n_fft,
                n_mel * n_fft <= usize::MAX,
                j * n_fft + n_fft <= n_mel * n_fft,
        {
            sum = sum.plus(power[k].times(filters[j * n_fft + k]));
        }
        out.push(sum.max_with(floor).log10());
    }
    out
}

/// One worker's share of the log-mel computation: frames `ith`,
/// `ith + n_threads`, `ith + 2 * n_threads`, ... of the windowed,
/// zero-padded sample buffer are transformed, folded, projected and written
/// into their columns of a `[n_mel, n_len]` matrix (all other entries stay
/// zero).
#[allow(clippy::too_many_arguments)]
pub fn log_mel_spectrogram_w<T: Float>(
    ith: usize,
    hann: &[T],
    samples: &[T],
    filters: &[T],
    fft_size: usize,
    fft_step: usize,
    speed_up: bool,
    n_len: usize,
    n_mel: usize,
    n_threads: usize,
) -> (mel: Vec<T>)
    requires
        n_threads >= 1,
        fft_size >= 1,
        fft_size * 2 <= usize::MAX,
        hann@.len() >= fft_size,
        filters@.len() >= n_mel * spec_n_fft_bins(speed_up, fft_size as nat),
        n_mel * spec_n_fft_bins(speed_up, fft_size as nat) <= usize::MAX,
        n_len * n_mel <= usize::MAX,
        n_len * fft_step + fft_size <= usize::MAX,
    ensures
        mel@.len() == n_len * n_mel,
{
    let n_fft = if speed_up {
        1 + fft_size / 4
    } else {
        1 + fft_size / 2
    };

    let zero = T::zero();
    let half = T::one().divided_by(T::of_u64(2));
    let mut fft_in: Vec<T> = Vec::with_capacity(fft_size);
    let mut filled: usize = 0;
    while filled < fft_size
        invariant
            fft_in@.len() == filled,
            filled <= fft_size,
        decreases fft_size - filled,
    {
        fft_in.push(zero);
        filled = filled + 1;
    }
    let mut mel: Vec<T> = Vec::with_capacity(n_len * n_mel);
    let mut mfilled: usize = 0;
    while mfilled < n_len * n_mel
        invariant
            n_len * n_mel <= usize::MAX,
            mel@.len() == mfilled,
            mfilled <= n_len * n_mel,
        decreases n_len * n_mel - mfilled,
    {
        mel.push(zero);
        mfilled = mfilled + 1;
    }

    let mut i = ith;
    while i < n_len
        invariant
            n_threads >= 1,
            fft_size >= 1,
            fft_size * 2 <= usize::MAX,
            hann@.len() >= fft_size,
            filters@.len() >= n_mel * spec_n_fft_bins(speed_up, fft_size as nat),
            n_mel * spec_n_fft_bins(speed_up, fft_size as nat) <= usize::MAX,
            n_len * n_mel <= usize::MAX,
            n_len * fft_step + fft_size <= usize::MAX,
            n_fft == spec_n_fft_bins(speed_up, fft_size as nat),
            fft_in@.len() == fft_size,
            mel@.len() == n_len * n_mel,
        decreases n_len - i,
    {
        assert(i * fft_step + fft_size <= n_len * fft_step + fft_size) by (nonlinear_arith)
            requires
                i < n_len,
        ;
        let offset = i * fft_step;

        for j in 0..fft_size
            invariant
                offset == i * fft_step,
                offset + fft_size <= usize::MAX,
                hann@.len() >= fft_size,
                fft_in@.len() == fft_size,
        {
            if offset + j < samples.len() {
                fft_in.set(j, hann[j].times(samples[offset + j]));
            } else {
                fft_in.set(j, zero);
            }
        }

        let mut fft_out: Vec<T> = fft(fft_in.as_slice());

        for j in 0..fft_size
            invariant
                fft_size * 2 <= usize::MAX,
                fft_out@.len() == 2 * fft_size,
        {
            fft_out.set(
                j,
                fft_out[2 * j].times(fft_out[2 * j]).plus(
                    fft_out[2 * j + 1].times(fft_out[2 * j + 1]),
                ),
            );
        }
        let mut j: usize = 1;
        while j < fft_size / 2
            invariant
                fft_size * 2 <= usize::MAX,
                fft_out@.len() == 2 * fft_size,
                1 <= j,
            decreases fft_size / 2 - j,
        {
            let v = fft_out[fft_size - j];
            fft_out.set(j, fft_out[j].plus(v));
            j = j + 1;
        }

        if speed_up {
            for j in 0..n_fft
                invariant
                    speed_up,
                    fft_size >= 1,
                    fft_size * 2 <= usize::MAX,
                    n_fft == 1 + fft_size / 4,
                    fft_out@.len() == 2 * fft_size,
            {
                fft_out.set(j, half.times(fft_out[2 * j].plus(fft_out[2 * j + 1])));
            }
        }

        let row = mel_project(fft_out.as_slice(), filters, n_mel, n_fft);
        for j in 0..n_mel
            invariant
                i < n_len,
                n_len * n_mel <= usize::MAX,
                mel@.len() == n_len * n_mel,
                row@.len() == n_mel,
        {
            assert(j * n_len + i < n_len * n_mel) by (nonlinear_arith)
                requires
                    j < n_mel,
                    i < n_len,
            ;
            mel.set(j * n_len + i, row[j]);
        }

        if n_len - i <= n_threads {
            i = n_len;
        } else {
            i = i + n_threads;
        }
    }
    mel
}

/// Compresses the dynamic range of a log-mel matrix into the range the
/// sequence model expects: every value is clipped from below to the global
/// maximum minus 8, divided by 4 and shifted up by 1.
pub fn normalize<T: Float>(mel: &mut Vec<T>)
    ensures
        final(mel)@.len() == old(mel)@.len(),
{
    let zero = T::zero();
    let one = T::one();
    let four = T::of_u64(4);
    let eight = T::of_u64(8);

    let n = mel.len();
    let mut best = zero;
    let mut i: usize = 0;
    while i < n
        invariant
            mel@.len() == old(mel)@.len(),
            n == old(mel)@.len(),
        decreases n - i,
    {
        if i == 0 || !best.gt(mel[i]) {
            best = mel[i];
        }
        i = i + 1;
    }
    let mmax = best.minus(eight);
    let mut i: usize = 0;
    while i < n
        invariant
            mel@.len() == old(mel)@.len(),
            n == old(mel)@.len(),
        decreases n - i,
    {
        let v = mel[i].max_with(mmax);
        mel.set(i, v.divided_by(four).plus(one));
        i = i + 1;
    }
}

/// Whole spectral front end over a sample buffer: Hann window
/// construction, zero-padding of the buffer to the padded frame count, the
/// framed FFT / mel projection over every frame, and the final
/// normalization.
pub fn log_mel_spectrogram_<T: Float>(
    samples: &[T],
    filters: &[T],
    fft_size: usize,
    fft_step: usize,
    n_mel: usize,
    speed_up: bool,
) -> (mel: Vec<T>)
    requires
        fft_step >= 1,
        fft_size >= 1,
        fft_size * 2 <= usize::MAX,
        filters@.len() >= n_mel * spec_n_fft_bins(speed_up, fft_size as nat),
        n_mel * spec_n_fft_bins(speed_up, fft_size as nat) <= usize::MAX,
        padded_frame_count(samples@.len(), fft_step as nat) * fft_step + fft_size <= usize::MAX,
        padded_frame_count(samples@.len(), fft_step as nat) * n_mel <= usize::MAX,
    ensures
        mel@.len() == padded_frame_count(samples@.len(), fft_step as nat) * n_mel,
{
    let zero = T::zero();
    let one = T::one();
    let two_pi = T::pi().plus(T::pi());
    let half = one.divided_by(T::of_u64(2));
    let fft_size_t = T::of_u64(fft_size as u64);

    let mut hann: Vec<T> = Vec::with_capacity(fft_size);
    for i in 0..fft_size
        invariant
            hann@.len() == i,
    {
        let i_t = T::of_u64(i as u64);
        hann.push(half.times(one.minus(two_pi.times(i_t).divided_by(fft_size_t).cos())));
    }

    proof {
        lemma_padded_frame_count(samples@.len(), fft_step as nat);
        assert(padded_frame_count(samples@.len(), fft_step as nat) <= padded_frame_count(
            samples@.len(),
            fft_step as nat,
        ) * fft_step) by (nonlinear_arith)
            requires
                fft_step >= 1,
        ;
    }
    let n_len0 = samples.len() / fft_step;
    let n_len1 = if n_len0 % FRAME_PAD != 0 {
        (n_len0 / FRAME_PAD + 1) * FRAME_PAD
    } else {
        n_len0
    };
    let n_len = n_len1 + FRAME_PAD;
    assert(n_len == padded_frame_count(samples@.len(), fft_step as nat));

    let to_add = n_len * fft_step - samples.len();
    let mut samples_padded: Vec<T> = Vec::with_capacity(n_len * fft_step);
    for idx in 0..samples.len()
        invariant
            samples_padded@.len() == idx,
    {
        samples_padded.push(samples[idx]);
    }
    let mut added: usize = 0;
    while added < to_add
        invariant
            to_add <= usize::MAX - samples@.len(),
            samples_padded@.len() == samples@.len() + added,
            added <= to_add,
        decreases to_add - added,
    {
        samples_padded.push(zero);
        added = added + 1;
    }

    let mut mel = log_mel_spectrogram_w(
        0,
        hann.as_slice(),
        samples_padded.as_slice(),
        filters,
        fft_size,
        fft_step,
        speed_up,
        n_len,
        n_mel,
        1,
    );
    normalize(&mut mel);
    mel
}

/// Spectral front end with the model's fixed analysis parameters: turns a
/// PCM sample buffer and a `[num_mel_bins, 1 + N_FFT / 2]` filterbank into
/// a normalized log-mel matrix of `num_mel_bins` rows and
/// `padded_frame_count(samples.len(), HOP_LENGTH)` columns, stored row-major.
pub fn pcm_to_mel<T: Float>(cfg: &Config, samples: &[T], filters: &[T]) -> (r: Result<
    Vec<T>,
    WhisperError,
>)
    requires
        filters@.len() >= cfg.num_mel_bins * spec_n_fft_bins(false, N_FFT as nat),
        cfg.num_mel_bins * spec_n_fft_bins(false, N_FFT as nat) <= usize::MAX,
        padded_frame_count(samples@.len(), HOP_LENGTH as nat) * HOP_LENGTH + N_FFT <= usize::MAX,
        padded_frame_count(samples@.len(), HOP_LENGTH as nat) * cfg.num_mel_bins <= usize::MAX,
    ensures
        r matches Ok(mel) && mel@.len() == padded_frame_count(samples@.len(), HOP_LENGTH as nat)
            * cfg.num_mel_bins,
{
    let mel = log_mel_spectrogram_(samples, filters, N_FFT, HOP_LENGTH, cfg.num_mel_bins, false);
    Ok(mel)
}

/// The computing half of the audio-input edge: converts 16-bit integer PCM
/// samples to scalar amplitudes in `[-1, 1]` by dividing by 32768.
pub fn pcm_i16_to_float<T: Float>(data: &[i16]) -> (out: Vec<T>)
    ensures
        out@.len() == data@.len(),
{
    let scale = T::of_u64(32768);
    let mut out: Vec<T> = Vec::with_capacity(data.len());
    for idx in 0..data.len()
        invariant
            out@.len() == idx,
    {
        out.push(T::of_i64(data[idx] as i64).divided_by(scale));
    }
    out
}

/// Validates an audio container's sample rate against the rate the model
/// was trained on; a mismatch is a hard input error, never resampled.
pub fn check_sample_rate(rate: u32) -> (r: Result<(), WhisperError>)
    ensures
        r is Ok <==> rate == crate::SAMPLE_RATE as u32,
        r matches Err(e) ==> e == WhisperError::InputFormat,
{
    if rate == crate::SAMPLE_RATE as u32 {
        Ok(())
    } else {
        Err(WhisperError::InputFormat)
    }
}

} // verus!
