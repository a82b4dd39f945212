use whisper::logic::{
    detect, temperature_at, token_id, weighted_sample, Config, Decoder, DecodingResult, Generator,
    Mel, Model, Task, Tokenizer, WhisperError,
};

#[derive(Clone, Copy, Debug, PartialEq)]
struct F(f32);

impl whisper::audio::Float for F {
    fn zero() -> F {
        F(0.0)
    }
    fn one() -> F {
        F(1.0)
    }
    fn pi() -> F {
        F(std::f32::consts::PI)
    }
    fn nan() -> F {
        F(f32::NAN)
    }
    fn neg_infinity() -> F {
        F(f32::NEG_INFINITY)
    }
    fn of_u64(n: u64) -> F {
        F(n as f32)
    }
    fn of_i64(n: i64) -> F {
        F(n as f32)
    }
    fn plus(self, o: F) -> F {
        F(self.0 + o.0)
    }
    fn minus(self, o: F) -> F {
        F(self.0 - o.0)
    }
    fn times(self, o: F) -> F {
        F(self.0 * o.0)
    }
    fn divided_by(self, o: F) -> F {
        F(self.0 / o.0)
    }
    fn neg(self) -> F {
        F(-self.0)
    }
    fn cos(self) -> F {
        F(self.0.cos())
    }
    fn sin(self) -> F {
        F(self.0.sin())
    }
    fn exp(self) -> F {
        F(self.0.exp())
    }
    fn ln(self) -> F {
        F(self.0.ln())
    }
    fn log10(self) -> F {
        F(self.0.log10())
    }
    fn max_with(self, o: F) -> F {
        F(self.0.max(o.0))
    }
    fn gt(self, o: F) -> bool {
        self.0 > o.0
    }
    fn lt(self, o: F) -> bool {
        self.0 < o.0
    }
}

const SOT: u32 = 1;
const EOT: u32 = 2;
const TRANSCRIBE: u32 = 3;
const NO_TIMESTAMPS: u32 = 6;
const NO_SPEECH: u32 = 7;
const LANG_EN: u32 = 8;

/// A stub model: logits favor `favored` at every position, except that
/// position 0 favors `favored_at_zero` (which drives `no_speech_prob`).
struct StubModel {
    cfg: Config,
    favored: Option<usize>,
    favored_at_zero: Option<usize>,
}

impl Model<F> for StubModel {
    type Hidden = usize;

    fn config(&self) -> &Config {
        &self.cfg
    }
    fn encoder_forward(&mut self, _x: &Mel<F>, _flush: bool) -> Result<usize, WhisperError> {
        Ok(0)
    }
    fn decoder_forward(
        &mut self,
        tokens: &Vec<u32>,
        _xa: &usize,
        _flush: bool,
    ) -> Result<usize, WhisperError> {
        Ok(tokens.len())
    }
    fn decoder_final_linear(&self, _x: &usize, pos: usize) -> Result<Vec<F>, WhisperError> {
        let mut v = vec![F(0.0); self.cfg.vocab_size];
        let favored = if pos == 0 { self.favored_at_zero } else { self.favored };
        if let Some(id) = favored {
            v[id] = F(8.0);
        }
        Ok(v)
    }
}

struct StubTok {
    with_no_speech: bool,
}

impl Tokenizer for StubTok {
    fn token_to_id(&self, token: &str) -> Option<u32> {
        match token {
            "<|startoftranscript|>" => Some(SOT),
            "<|endoftext|>" => Some(EOT),
            "<|transcribe|>" => Some(TRANSCRIBE),
            "<|translate|>" => Some(4),
            "<|notimestamps|>" => Some(NO_TIMESTAMPS),
            "<|nocaptions|>" => {
                if self.with_no_speech {
                    Some(NO_SPEECH)
                } else {
                    None
                }
            }
            "<|en|>" => Some(LANG_EN),
            _ => None,
        }
    }
    fn decode(&self, tokens: &Vec<u32>, _skip_special_tokens: bool) -> Result<String, String> {
        Ok(format!("{} tokens", tokens.len()))
    }
}

/// Deterministic xorshift generator; the same seed yields the same draws.
struct StubGen {
    state: u64,
}

impl Generator<F> for StubGen {
    fn next_unit(&mut self) -> F {
        let mut x = self.state;
        x ^= x << 13;
        x ^= x >> 7;
        x ^= x << 17;
        self.state = x;
        F((x >> 11) as f32 / (1u64 << 53) as f32)
    }
}

fn stub_config() -> Config {
    Config {
        num_mel_bins: 1,
        vocab_size: 10,
        max_source_positions: 3000,
        max_target_positions: 12,
        suppress_tokens: vec![],
    }
}

fn flat_mel(n_len: usize) -> Mel<F> {
    Mel::new(vec![F(0.0); n_len], 1, n_len).unwrap()
}

fn make_decoder(
    favored: Option<usize>,
    favored_at_zero: Option<usize>,
    language: Option<String>,
    is_multilingual: bool,
    seed: u64,
) -> Decoder<F, StubModel, StubTok, StubGen> {
    let model = StubModel {
        cfg: stub_config(),
        favored,
        favored_at_zero,
    };
    Decoder::new(
        model,
        StubTok {
            with_no_speech: true,
        },
        vec![],
        stub_config(),
        Some(Task::Transcribe),
        language,
        is_multilingual,
        false,
        vec![LANG_EN],
        StubGen { state: seed },
    )
    .unwrap()
}

#[test]
fn greedy_decode_emits_favored_token_until_cap() {
    let mut d = make_decoder(Some(5), Some(5), None, false, 1);
    let mel = flat_mel(8);
    let dr: DecodingResult<F> = d.decode(&mel, F(0.0)).unwrap();
    // prompt [sot, transcribe, no-timestamps], then 6 greedy steps of id 5
    assert_eq!(
        dr.tokens,
        vec![SOT, TRANSCRIBE, NO_TIMESTAMPS, 5, 5, 5, 5, 5, 5]
    );
    assert_eq!(dr.temperature, F(0.0));
    // position-0 softmax favors id 5, so the no-speech id gets almost nothing
    assert!(dr.no_speech_prob.0 < 0.1);
}

#[test]
fn greedy_decode_stops_at_end_of_transcript() {
    let mut d = make_decoder(Some(EOT as usize), Some(EOT as usize), None, false, 1);
    let mel = flat_mel(8);
    let dr = d.decode(&mel, F(0.0)).unwrap();
    assert_eq!(dr.tokens, vec![SOT, TRANSCRIBE, NO_TIMESTAMPS, EOT]);
}

#[test]
fn sampled_decode_is_deterministic_for_a_fixed_seed() {
    let mut d1 = make_decoder(None, None, None, false, 42);
    let mut d2 = make_decoder(None, None, None, false, 42);
    let mut d3 = make_decoder(None, None, None, false, 43);
    let mel = flat_mel(8);
    let a = d1.decode(&mel, F(0.8)).unwrap();
    let b = d2.decode(&mel, F(0.8)).unwrap();
    let c = d3.decode(&mel, F(0.8)).unwrap();
    assert_eq!(a.tokens, b.tokens);
    // a different seed is allowed to differ; with 6 flat draws over 10 ids it
    // practically always does
    assert!(a.tokens != c.tokens || a.tokens.len() == 4);
    assert_eq!(a.temperature, F(0.8));
}

#[test]
fn fallback_returns_last_temperature_when_every_attempt_fails_thresholds() {
    // flat logits with the end-of-transcript id suppressed: every generated
    // token has probability 1/9, so avg_logprob is about ln(1/9) < -1 and
    // no_speech_prob is 0.1 < 0.6: every attempt fails both accept conditions
    // and the final temperature's result is returned.
    let mut cfg = stub_config();
    cfg.suppress_tokens = vec![EOT];
    let model = StubModel {
        cfg: cfg.clone(),
        favored: None,
        favored_at_zero: None,
    };
    let mut d = Decoder::new(
        model,
        StubTok {
            with_no_speech: true,
        },
        Vec::<F>::new(),
        cfg,
        Some(Task::Transcribe),
        None,
        false,
        false,
        vec![LANG_EN],
        StubGen { state: 7 },
    )
    .unwrap();
    let mel = flat_mel(8);
    let dr = d.decode_with_fallback(&mel).unwrap();
    assert_eq!(dr.temperature, F(1.0));
    assert_eq!(dr.tokens[0], SOT);
    assert!(dr.tokens[1..].iter().all(|&t| t != EOT));
}

#[test]
fn fallback_accepts_a_confident_first_attempt() {
    let mut d = make_decoder(Some(5), Some(5), None, false, 7);
    let mel = flat_mel(8);
    let dr = d.decode_with_fallback(&mel).unwrap();
    assert_eq!(dr.temperature, F(0.0));
    assert_eq!(
        dr.tokens,
        vec![SOT, TRANSCRIBE, NO_TIMESTAMPS, 5, 5, 5, 5, 5, 5]
    );
}

#[test]
fn run_emits_strictly_ordered_windows_covering_content() {
    let mut d = make_decoder(Some(5), Some(5), None, false, 7);
    let mel = flat_mel(4500);
    let segments = d.run(&mel).unwrap();
    assert_eq!(segments.len(), 2);
    assert_eq!(segments[0].start_frames, 0);
    assert_eq!(segments[0].duration_frames, 3000);
    assert_eq!(segments[1].start_frames, 3000);
    assert_eq!(segments[1].duration_frames, 1500);
    let total: usize = segments.iter().map(|s| s.duration_frames).sum();
    assert_eq!(total, 4500);
    assert!((segments[0].start.0 - 0.0).abs() < 1e-6);
    assert!((segments[0].duration.0 - 30.0).abs() < 1e-6);
    assert!((segments[1].start.0 - 30.0).abs() < 1e-6);
    assert!((segments[1].duration.0 - 15.0).abs() < 1e-6);
    for s in &segments {
        assert_eq!(s.dr.tokens[0], SOT);
    }
}

#[test]
fn run_advances_past_silent_windows_without_emitting() {
    // position-0 logits favor the no-speech token (no_speech_prob > 0.6) and
    // later positions are flat (avg_logprob < -1): every window is treated as
    // silence, skipped, and the cursor still advances to the end.
    let mut d = make_decoder(None, Some(NO_SPEECH as usize), None, false, 7);
    let mel = flat_mel(4500);
    let segments = d.run(&mel).unwrap();
    assert!(segments.is_empty());
}

#[test]
fn language_on_monolingual_model_is_a_configuration_error() {
    let mut d = make_decoder(Some(5), Some(5), Some(String::from("en")), false, 1);
    let mel = flat_mel(8);
    assert!(matches!(
        d.decode(&mel, F(0.0)),
        Err(WhisperError::Configuration)
    ));
}

#[test]
fn unknown_language_on_multilingual_model_is_unsupported() {
    let mut d = make_decoder(Some(5), Some(5), Some(String::from("zz")), true, 1);
    let mel = flat_mel(8);
    match d.decode(&mel, F(0.0)) {
        Err(WhisperError::UnsupportedLanguage(lang)) => assert_eq!(lang, "zz"),
        other => panic!("expected UnsupportedLanguage, got {:?}", other),
    }
}

#[test]
fn known_language_token_enters_the_prompt() {
    let mut d = make_decoder(Some(5), Some(5), Some(String::from("en")), true, 1);
    let mel = flat_mel(8);
    let dr = d.decode(&mel, F(0.0)).unwrap();
    assert_eq!(dr.tokens[0], SOT);
    assert_eq!(dr.tokens[1], LANG_EN);
    assert_eq!(dr.tokens[2], TRANSCRIBE);
}

#[test]
fn missing_no_speech_token_aborts_construction() {
    let model = StubModel {
        cfg: stub_config(),
        favored: Some(5),
        favored_at_zero: Some(5),
    };
    let r = Decoder::new(
        model,
        StubTok {
            with_no_speech: false,
        },
        Vec::<F>::new(),
        stub_config(),
        Some(Task::Transcribe),
        None,
        false,
        false,
        vec![LANG_EN],
        StubGen { state: 1 },
    );
    assert!(matches!(r, Err(WhisperError::Initialization)));
}

#[test]
fn detect_picks_the_favored_language_token() {
    let mut model = StubModel {
        cfg: stub_config(),
        favored: Some(LANG_EN as usize),
        favored_at_zero: Some(LANG_EN as usize),
    };
    let mel = flat_mel(8);
    let r = detect(&mut model, &mel, &vec![3, LANG_EN, 5], SOT);
    assert_eq!(r, Ok(LANG_EN));
}

#[test]
fn auto_detection_feeds_the_prompt_on_multilingual_models() {
    let mut d = make_decoder(Some(LANG_EN as usize), Some(LANG_EN as usize), None, true, 1);
    let mel = flat_mel(8);
    let dr = d.decode(&mel, F(0.0)).unwrap();
    assert_eq!(dr.tokens[0], SOT);
    assert_eq!(dr.tokens[1], LANG_EN);
}

#[test]
fn degenerate_weights_are_a_sampling_error() {
    let mut rng = StubGen { state: 9 };
    let empty: Vec<F> = vec![];
    assert_eq!(
        weighted_sample(&empty, &mut rng),
        Err(WhisperError::NumericDegenerate)
    );
    let zeros = vec![F(0.0), F(0.0)];
    assert_eq!(
        weighted_sample(&zeros, &mut rng),
        Err(WhisperError::NumericDegenerate)
    );
    let negative = vec![F(0.5), F(-0.1)];
    assert_eq!(
        weighted_sample(&negative, &mut rng),
        Err(WhisperError::NumericDegenerate)
    );
    let ok = vec![F(0.25), F(0.75)];
    let picked = weighted_sample(&ok, &mut rng).unwrap();
    assert!(picked < 2);
}

#[test]
fn mel_shape_mismatch_is_an_input_format_error() {
    let r = Mel::new(vec![F(0.0); 7], 2, 4);
    assert!(matches!(r, Err(WhisperError::InputFormat)));
    let ok = Mel::new(vec![F(0.0); 8], 2, 4);
    assert!(ok.is_ok());
}

#[test]
fn token_lookup_failure_is_an_initialization_error() {
    let tok = StubTok {
        with_no_speech: true,
    };
    assert_eq!(token_id(&tok, "<|startoftranscript|>"), Ok(SOT));
    assert_eq!(
        token_id(&tok, "<|nosuchtoken|>"),
        Err(WhisperError::Initialization)
    );
}

#[test]
fn temperature_list_is_ascending_from_zero_to_one() {
    let expected = [0.0f32, 0.2, 0.4, 0.6, 0.8, 1.0];
    for (k, &e) in expected.iter().enumerate() {
        let t: F = temperature_at(k);
        assert!((t.0 - e).abs() < 1e-6);
    }
}

#[test]
fn softmax_is_a_distribution_over_the_logits() {
    let xs = vec![F(1.0), F(3.0), F(-2.0), F(0.5)];
    let p = whisper::logic::softmax(&xs);
    assert_eq!(p.len(), 4);
    let total: f32 = p.iter().map(|v| v.0).sum();
    assert!((total - 1.0).abs() < 1e-5);
    // the largest logit gets the largest probability
    assert!(p[1].0 > p[0].0 && p[1].0 > p[2].0 && p[1].0 > p[3].0);
    let empty: Vec<F> = vec![];
    assert!(whisper::logic::softmax(&empty).is_empty());
}

#[test]
fn narrow_selects_the_requested_frame_columns() {
    // two bands, four frames, values 10 * band + frame
    let mut data: Vec<F> = Vec::new();
    for j in 0..2u32 {
        for i in 0..4u32 {
            data.push(F((10 * j + i) as f32));
        }
    }
    let mel = Mel::new(data, 2, 4).unwrap();
    let window = mel.narrow(1, 2);
    assert_eq!(window.n_mel, 2);
    assert_eq!(window.n_len, 2);
    let got: Vec<f32> = window.data.iter().map(|v| v.0).collect();
    assert_eq!(got, vec![1.0, 2.0, 11.0, 12.0]);
}

#[test]
fn run_on_empty_features_returns_no_segments() {
    let mut d = make_decoder(Some(5), Some(5), None, false, 7);
    let mel = flat_mel(0);
    let segments = d.run(&mel).unwrap();
    assert!(segments.is_empty());
}
