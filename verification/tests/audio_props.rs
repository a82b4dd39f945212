use whisper::audio::{
    check_sample_rate, dft, fft, log_mel_spectrogram_, mel_project, normalize, pcm_i16_to_float,
    pcm_to_mel,
};
use whisper::logic::{Config, WhisperError};

#[derive(Clone, Copy, Debug, PartialEq)]
struct F(f32);

impl whisper::audio::Float for F {
    fn zero() -> F {
        F(0.0)
    }
    fn one() -> F {
        F(1.0)
    }
    fn pi() -> F {
        F(std::f32::consts::PI)
    }
    fn nan() -> F {
        F(f32::NAN)
    }
    fn neg_infinity() -> F {
        F(f32::NEG_INFINITY)
    }
    fn of_u64(n: u64) -> F {
        F(n as f32)
    }
    fn of_i64(n: i64) -> F {
        F(n as f32)
    }
    fn plus(self, o: F) -> F {
        F(self.0 + o.0)
    }
    fn minus(self, o: F) -> F {
        F(self.0 - o.0)
    }
    fn times(self, o: F) -> F {
        F(self.0 * o.0)
    }
    fn divided_by(self, o: F) -> F {
        F(self.0 / o.0)
    }
    fn neg(self) -> F {
        F(-self.0)
    }
    fn cos(self) -> F {
        F(self.0.cos())
    }
    fn sin(self) -> F {
        F(self.0.sin())
    }
    fn exp(self) -> F {
        F(self.0.exp())
    }
    fn ln(self) -> F {
        F(self.0.ln())
    }
    fn log10(self) -> F {
        F(self.0.log10())
    }
    fn max_with(self, o: F) -> F {
        F(self.0.max(o.0))
    }
    fn gt(self, o: F) -> bool {
        self.0 > o.0
    }
    fn lt(self, o: F) -> bool {
        self.0 < o.0
    }
}

fn wrap(xs: &[f32]) -> Vec<F> {
    xs.iter().map(|&x| F(x)).collect()
}

fn test_signal(n: usize) -> Vec<F> {
    let mut out: Vec<F> = Vec::with_capacity(n);
    for i in 0..n {
        let x = ((i * 37 + 11) % 97) as f32 / 97.0 - 0.5;
        out.push(F(x));
    }
    out
}

fn assert_close(a: f32, b: f32, tol: f32) {
    assert!((a - b).abs() <= tol, "{} vs {} (tol {})", a, b, tol);
}

#[test]
fn fft_matches_dft_for_power_of_two_sizes() {
    for &n in &[1usize, 2, 4, 8, 16, 32, 64] {
        let inp = test_signal(n);
        let a = fft(&inp);
        let b = dft(&inp);
        assert_eq!(a.len(), 2 * n);
        assert_eq!(b.len(), 2 * n);
        for k in 0..2 * n {
            assert_close(a[k].0, b[k].0, 1e-3);
        }
    }
}

#[test]
fn fft_odd_sub_split_falls_back_to_dft() {
    // 6 = 2 * 3 and 12 = 4 * 3 force odd-size sub-splits of the recursion.
    for &n in &[3usize, 6, 12, 20] {
        let inp = test_signal(n);
        let a = fft(&inp);
        let b = dft(&inp);
        assert_eq!(a.len(), 2 * n);
        for k in 0..2 * n {
            assert_close(a[k].0, b[k].0, 1e-3);
        }
    }
}

#[test]
fn fft_alternating_input_concentrates_energy_at_nyquist() {
    let inp = wrap(&[1.0, 0.0, 1.0, 0.0, 1.0, 0.0, 1.0, 0.0]);
    let out = fft(&inp);
    for k in 0..8 {
        let energy = out[2 * k].0 * out[2 * k].0 + out[2 * k + 1].0 * out[2 * k + 1].0;
        if k == 4 {
            assert_close(energy.sqrt(), 4.0, 1e-4);
        } else if k == 0 {
            assert_close(energy.sqrt(), 4.0, 1e-4); // DC carries the mean
        } else {
            assert!(energy < 1e-6, "bin {} energy {}", k, energy);
        }
    }
}

#[test]
fn mel_project_all_ones_row_on_flat_unit_power() {
    for &n_fft in &[4usize, 16, 201] {
        let power = wrap(&vec![1.0; n_fft]);
        let filters = wrap(&vec![1.0; n_fft]);
        let out = mel_project(&power, &filters, 1, n_fft);
        assert_eq!(out.len(), 1);
        assert_close(out[0].0, (n_fft as f32).log10(), 1e-4);
    }
}

#[test]
fn padded_frame_count_is_pad_multiple_and_covers_buffer() {
    // 1500-frame pad unit, 160-sample hop: frame counts and zero-pad amounts.
    for &l in &[0usize, 1, 159, 160, 16000, 240000, 240001] {
        let n0 = l / 160;
        let n1 = if n0 % 1500 != 0 { (n0 / 1500 + 1) * 1500 } else { n0 };
        let n_len = n1 + 1500;
        assert_eq!(n_len % 1500, 0);
        assert!(n_len >= 1500);
        assert!(n_len * 160 >= l, "zero-pad amount must be non-negative");
        let samples = test_signal(l);
        let filters = wrap(&vec![0.5; 201]);
        let mel = log_mel_spectrogram_(&samples, &filters, 400, 160, 1, false);
        assert_eq!(mel.len(), n_len);
    }
}

#[test]
fn pcm_to_mel_has_padded_shape() {
    let cfg = Config {
        num_mel_bins: 2,
        vocab_size: 10,
        max_source_positions: 1500,
        max_target_positions: 448,
        suppress_tokens: vec![],
    };
    let samples = test_signal(16000); // one second: 100 frames, padded to 3000
    let filters = wrap(&vec![0.1; 2 * 201]);
    let mel = pcm_to_mel(&cfg, &samples, &filters).unwrap();
    assert_eq!(mel.len(), 2 * 3000);
}

#[test]
fn normalize_bounds_values_around_quarter_max() {
    let mut mel = wrap(&[5.0, 2.0, -100.0, 3.25]);
    normalize(&mut mel);
    // every value lies in [max/4 - 1, max/4 + 1]
    for v in &mel {
        assert!(v.0 >= 5.0 / 4.0 - 1.0 - 1e-6);
        assert!(v.0 <= 5.0 / 4.0 + 1.0 + 1e-6);
    }
    assert_close(mel[0].0, 5.0 / 4.0 + 1.0, 1e-6);
    assert_close(mel[2].0, 5.0 / 4.0 - 1.0, 1e-6); // clipped to max - 8
}

#[test]
fn normalize_zero_max_lands_in_unit_interval() {
    let mut mel = wrap(&[0.0, -3.0, -20.0, -7.9]);
    normalize(&mut mel);
    for v in &mel {
        assert!(v.0 >= -1.0 - 1e-6 && v.0 <= 1.0 + 1e-6, "{}", v.0);
    }
    assert_close(mel[0].0, 1.0, 1e-6);
    assert_close(mel[2].0, -1.0, 1e-6);
}

#[test]
fn pcm_i16_conversion_scales_by_32768() {
    let out: Vec<F> = pcm_i16_to_float(&[-32768, 0, 16384, 32767]);
    assert_eq!(out.len(), 4);
    assert_close(out[0].0, -1.0, 1e-6);
    assert_close(out[1].0, 0.0, 1e-6);
    assert_close(out[2].0, 0.5, 1e-6);
    assert_close(out[3].0, 32767.0 / 32768.0, 1e-6);
}

#[test]
fn sample_rate_mismatch_is_input_format_error() {
    assert!(check_sample_rate(16000).is_ok());
    assert_eq!(check_sample_rate(44100), Err(WhisperError::InputFormat));
    assert_eq!(check_sample_rate(8000), Err(WhisperError::InputFormat));
}
