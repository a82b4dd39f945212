//! Decoding engine and segment scheduler.
//!
//! The sequence model, the subword tokenizer and the random generator are
//! external collaborators reached through the [`Model`], [`Tokenizer`] and
//! [`Generator`] capability interfaces; the decoding search, the
//! temperature-fallback policy and the window scheduling are verified for
//! every implementation of them.

use vstd::prelude::*;
use vstd::arithmetic::div_mod::*;
use vstd::arithmetic::mul::lemma_mul_is_commutative;
use vstd::math::min;
use vstd::string::*;

use crate::audio::Float;
use crate::HOP_LENGTH;
use crate::N_FRAMES;
use crate::SAMPLE_RATE;

verus! {

/// Error taxonomy of the pipeline.
///
/// Construction-time errors are fatal; a `ModelInference` failure inside the
/// temperature-fallback loop is retried at the next temperature, except at
/// the final one, where it propagates.
#[derive(Clone, Debug, PartialEq, Eq)]
pub enum WhisperError {
    /// Invalid language / task / multilingual-flag combination.
    Configuration,
    /// A required special vocabulary id is absent at construction time.
    Initialization,
    /// Malformed audio input, e.g. a sample-rate mismatch.
    InputFormat,
    /// Opaque failure surfaced from the model collaborator.
    ModelInference,
    /// A probability distribution with no valid entries during sampling.
    NumericDegenerate,
    /// The requested language is not in the model's vocabulary.
    UnsupportedLanguage(String),
}

/// Model configuration values the decoding engine reads.
#[derive(Clone, Debug)]
pub struct Config {
    /// Number of mel bands in the feature matrix.
    pub num_mel_bins: usize,
    /// Vocabulary size: logits vectors have this many entries.
    pub vocab_size: usize,
    /// Maximum number of feature frames the encoder accepts.
    pub max_source_positions: usize,
    /// Hard cap on the generated token sequence length.
    pub max_target_positions: usize,
    /// Vocabulary ids that are never generated (masked to negative infinity).
    pub suppress_tokens: Vec<u32>,
}

/// Raw material for building a decoder: serialized weights, tokenizer,
/// filterbank and configuration, plus the decoding options.
pub struct ModelData {
    pub weights: Vec<u8>,
    pub tokenizer: Vec<u8>,
    pub mel_filters: Vec<u8>,
    pub config: Vec<u8>,
    pub quantized: bool,
    pub timestamps: bool,
    pub is_multilingual: bool,
    pub language: Option<String>,
    pub task: Option<String>,
}

/// The decoding task requested of the model.
#[derive(Clone, Copy, Debug, PartialEq, Eq, Structural)]
pub enum Task {
    Transcribe,
    Translate,
}

/// A log-mel feature matrix: `n_mel` rows of `n_len` frame columns, stored
/// row-major in `data`.
#[derive(Clone, Debug)]
pub struct Mel<T> {
    pub data: Vec<T>,
    pub n_mel: usize,
    pub n_len: usize,
}

impl<T: Float> Mel<T> {
    /// Shape invariant: the backing vector holds exactly one scalar per
    /// (band, frame) pair.
    pub open spec fn wf(self) -> bool {
        self.data@.len() == self.n_mel * self.n_len
    }

    /// Wraps a row-major buffer as a feature matrix, rejecting a buffer
    /// whose length does not match the announced shape.
    pub fn new(data: Vec<T>, n_mel: usize, n_len: usize) -> (r: Result<Self, WhisperError>)
        ensures
            data@.len() == n_mel * n_len <==> r is Ok,
            r matches Ok(m) ==> m.wf() && m.n_mel == n_mel && m.n_len == n_len && m.data@
                == data@,
            r matches Err(e) ==> e == WhisperError::InputFormat,
    {
        if n_mel == 0 || n_len == 0 {
            assert(n_mel * n_len == 0) by (nonlinear_arith)
                requires
                    n_mel == 0 || n_len == 0,
            ;
            if data.len() == 0 {
                return Ok(Mel { data, n_mel, n_len });
            }
            return Err(WhisperError::InputFormat);
        }
        if data.len() / n_len == n_mel && data.len() % n_len == 0 {
            proof {
                lemma_fundamental_div_mod(data@.len() as int, n_len as int);
                assert((n_len as int) * (n_mel as int) == (n_mel as int) * (n_len as int))
                    by (nonlinear_arith);
            }
            Ok(Mel { data, n_mel, n_len })
        } else {
            proof {
                if data@.len() == n_mel * n_len {
                    lemma_div_by_multiple(n_mel as int, n_len as int);
                    lemma_mod_multiples_basic(n_mel as int, n_len as int);
                    assert((n_mel as int) * (n_len as int) == (n_len as int) * (n_mel as int))
                        by (nonlinear_arith);
                }
            }
            Err(WhisperError::InputFormat)
        }
    }

    /// Matrix entry: row `j`, column `i` of the row-major backing vector.
    pub open spec fn at(self, j: int, i: int) -> T {
        self.data@[j * (self.n_len as int) + i]
    }

    /// A window of `len` frame columns starting at column `start`, with the
    /// same bands: entry `(j, i)` of the window is entry `(j, start + i)`
    /// of `self`.
    pub fn narrow(&self, start: usize, len: usize) -> (out: Mel<T>)
        requires
            self.wf(),
            start + len <= self.n_len,
        ensures
            out.wf(),
            out.n_mel == self.n_mel,
            out.n_len == len,
            forall|j: int, i: int|
                0 <= j < self.n_mel && 0 <= i < len ==> #[trigger] out.at(j, i) == self.at(
                    j,
                    start + i,
                ),
    {
        let total = self.data.len();
        assert(self.n_mel * len <= self.n_mel * self.n_len) by (nonlinear_arith)
            requires
                len <= self.n_len,
        ;
        assert(0 * (len as int) == 0) by (nonlinear_arith);
        let mut data: Vec<T> = Vec::with_capacity(self.n_mel * len);
        for j in 0..self.n_mel
            invariant
                self.wf(),
                self.data@.len() <= usize::MAX,
                start + len <= self.n_len,
                data@.len() == j * len,
                forall|j2: int, i2: int|
                    0 <= j2 < j && 0 <= i2 < len ==> #[trigger] data@[j2 * len + i2] == self.at(
                        j2,
                        start + i2,
                    ),
        {
            for i in 0..len
                invariant
                    self.wf(),
                    self.data@.len() <= usize::MAX,
                    start + len <= self.n_len,
                    j < self.n_mel,
                    data@.len() == j * len + i,
                    forall|j2: int, i2: int|
                        0 <= j2 < j && 0 <= i2 < len ==> #[trigger] data@[j2 * len + i2]
                            == self.at(j2, start + i2),
                    forall|i2: int|
                        0 <= i2 < i ==> #[trigger] data@[j * len + i2] == self.at(
                            j as int,
                            start + i2,
                        ),
            {
                assert(j * self.n_len + start + i < self.n_mel * self.n_len) by (nonlinear_arith)
                    requires
                        j < self.n_mel,
                        start + i < self.n_len,
                ;
                assert(j * len + i < (j + 1) * len <= self.n_mel * len) by (nonlinear_arith)
                    requires
                        j < self.n_mel,
                        i < len,
                ;
                data.push(self.data[j * self.n_len + start + i]);
                assert forall|j2: int, i2: int| 0 <= j2 < j && 0 <= i2 < len implies #[trigger] data@[j2
                    * len + i2] == self.at(j2, start + i2) by {
                    assert(j2 * len + i2 < (j2 + 1) * len <= j * len) by (nonlinear_arith)
                        requires
                            0 <= j2 < j,
                            0 <= i2 < len,
                    ;
                }
            }
            assert(j * len + len == (j + 1) * len) by (nonlinear_arith);
        }
        let out = Mel { data, n_mel: self.n_mel, n_len: len };
        proof {
            assert forall|j: int, i: int| 0 <= j < self.n_mel && 0 <= i < len implies #[trigger] out.at(
                j,
                i,
            ) == self.at(j, start + i) by {
                assert(out.at(j, i) == out.data@[j * len + i]);
            }
        }
        out
    }
}

/// Sequence-model collaborator: an encoder over feature windows, an
/// autoregressive decoder, and a final projection from hidden states to
/// vocabulary logits.  Implementations live outside the verified crate
/// (e.g. a full-precision and a quantized backend); nothing is assumed
/// about the values they return.
pub trait Model<T: Float> {
    /// Opaque hidden state passed between forward passes.
    type Hidden;

    /// The configuration the model was built with.
    fn config(&self) -> &Config;

    /// Runs the encoder over a feature window.
    fn encoder_forward(&mut self, x: &Mel<T>, flush: bool) -> Result<Self::Hidden, WhisperError>;

    /// Runs one decoder pass over the token prefix and the encoded audio.
    fn decoder_forward(&mut self, tokens: &Vec<u32>, xa: &Self::Hidden, flush: bool) -> Result<
        Self::Hidden,
        WhisperError,
    >;

    /// Projects the hidden state at sequence position `pos` to one logit
    /// per vocabulary entry.
    fn decoder_final_linear(&self, x: &Self::Hidden, pos: usize) -> Result<Vec<T>, WhisperError>;
}

/// Subword tokenizer collaborator: vocabulary lookup and token-sequence
/// decoding.
pub trait Tokenizer {
    /// The vocabulary id of a token string, if the vocabulary has it.
    fn token_to_id(&self, token: &str) -> Option<u32>;

    /// Renders a token id sequence as text.
    fn decode(&self, tokens: &Vec<u32>, skip_special_tokens: bool) -> Result<String, String>;
}

/// Random-draw collaborator for sampling at positive temperatures: each
/// call yields one scalar, nominally uniform in `[0, 1)`.  The decoder owns
/// exactly one generator and threads it through every decode call, so a
/// seeded implementation makes decoding deterministic.
pub trait Generator<T: Float> {
    fn next_unit(&mut self) -> T;
}

/// Number of entries in the ascending temperature-fallback list.
pub const N_TEMPERATURES: usize = 6;

/// Temperature `k` of the fallback list `0.0, 0.2, 0.4, 0.6, 0.8, 1.0`.
pub fn temperature_at<T: Float>(k: usize) -> T
    requires
        k < N_TEMPERATURES,
{
    T::of_u64(2 * (k as u64)).divided_by(T::of_u64(10))
}

/// Compression ratios above 2.4 flag a degenerate, repetitive decode.
pub fn compression_ratio_threshold<T: Float>() -> T {
    T::of_u64(24).divided_by(T::of_u64(10))
}

/// Average log-probabilities below -1 flag a low-confidence decode.
pub fn logprob_threshold<T: Float>() -> T {
    T::one().neg()
}

/// No-speech probabilities above 0.6 flag a silent window.
pub fn no_speech_threshold<T: Float>() -> T {
    T::of_u64(6).divided_by(T::of_u64(10))
}

/// Softmax of a logits vector: exponentials (shifted by the maximum entry
/// for numeric range) divided by their sum.
pub fn softmax<T: Float>(xs: &Vec<T>) -> (out: Vec<T>)
    ensures
        out@.len() == xs@.len(),
{
    let n = xs.len();
    if n == 0 {
        let out: Vec<T> = Vec::new();
        return out;
    }
    let mut m = xs[0];
    for i in 1..n
        invariant
            n == xs@.len(),
    {
        if xs[i].gt(m) {
            m = xs[i];
        }
    }
    let mut exps: Vec<T> = Vec::with_capacity(n);
    let mut total = T::zero();
    for i in 0..n
        invariant
            n == xs@.len(),
            exps@.len() == i,
    {
        let e = xs[i].minus(m).exp();
        exps.push(e);
        total = total.plus(e);
    }
    let mut out: Vec<T> = Vec::with_capacity(n);
    for i in 0..n
        invariant
            exps@.len() == n,
            out@.len() == i,
    {
        out.push(exps[i].divided_by(total));
    }
    out
}

/// Weighted random draw: one uniform draw from the generator is scaled by
/// the total weight and the first index whose cumulative weight exceeds it
/// is returned.  An empty, negative or zero-total weight vector is a
/// degenerate distribution.
pub fn weighted_sample<T: Float, G: Generator<T>>(weights: &Vec<T>, rng: &mut G) -> (r: Result<
    usize,
    WhisperError,
>)
    ensures
        weights@.len() == 0 ==> r is Err,
        r matches Ok(i) ==> i < weights@.len(),
        r matches Err(e) ==> e == WhisperError::NumericDegenerate,
{
    let n = weights.len();
    if n == 0 {
        return Err(WhisperError::NumericDegenerate);
    }
    let zero = T::zero();
    let mut total = zero;
    for i in 0..n
        invariant
            n == weights@.len(),
    {
        if weights[i].lt(zero) {
            return Err(WhisperError::NumericDegenerate);
        }
        total = total.plus(weights[i]);
    }
    if !total.gt(zero) {
        return Err(WhisperError::NumericDegenerate);
    }
    let u = rng.next_unit().times(total);
    let mut cum = zero;
    for i in 0..n - 1
        invariant
            n == weights@.len(),
            n >= 1,
    {
        cum = cum.plus(weights[i]);
        if cum.gt(u) {
            return Ok(i);
        }
    }
    Ok(n - 1)
}

/// Whether a vocabulary id is in the configured suppression list.
fn is_suppressed(list: &Vec<u32>, id: u32) -> (r: bool)
    ensures
        r == list@.contains(id),
{
    let n = list.len();
    for i in 0..n
        invariant
            n == list@.len(),
            forall|k: int| 0 <= k < i ==> list@[k] != id,
    {
        if list[i] == id {
            return true;
        }
    }
    assert(!list@.contains(id));
    false
}

/// Index of the greatest entry, later entries winning ties, as a
/// descending comparison sort would order them.
fn argmax<T: Float>(xs: &Vec<T>) -> (idx: usize)
    requires
        xs@.len() >= 1,
    ensures
        idx < xs@.len(),
{
    let n = xs.len();
    let mut best: usize = 0;
    for i in 1..n
        invariant
            n == xs@.len(),
            best < n,
    {
        if !xs[best].gt(xs[i]) {
            best = i;
        }
    }
    best
}

/// Vocabulary lookup whose failure is fatal: every special token must be
/// present at construction time.
pub fn token_id<Tk: Tokenizer>(tokenizer: &Tk, token: &str) -> (r: Result<u32, WhisperError>)
    ensures
        r matches Err(e) ==> e == WhisperError::Initialization,
{
    match tokenizer.token_to_id(token) {
        None => Err(WhisperError::Initialization),
        Some(id) => Ok(id),
    }
}

/// One decoding attempt's outcome: the generated token id sequence
/// (beginning with the start-of-transcript token), its rendered text, and
/// the quality measures the fallback policy reads.
#[derive(Clone, Debug)]
pub struct DecodingResult<T> {
    pub tokens: Vec<u32>,
    pub text: String,
    pub avg_logprob: T,
    pub no_speech_prob: T,
    pub temperature: T,
    pub compression_ratio: T,
}

/// A time-stamped span of the transcript: `start` and `duration` are in
/// seconds, `start_frames` and `duration_frames` the same span in feature
/// frames (the integer source those seconds are derived from).
#[derive(Clone, Debug)]
pub struct Segment<T> {
    pub start: T,
    pub duration: T,
    pub start_frames: usize,
    pub duration_frames: usize,
    pub dr: DecodingResult<T>,
}

/// Length of decoding window `k` over `content` total frames: the fixed
/// window frame count, or whatever remains at the tail.
pub open spec fn window_len(content: int, k: int) -> int {
    min(N_FRAMES as int, content - k * (N_FRAMES as int))
}

/// Number of fixed-size windows that cover `content` frames.
pub open spec fn num_windows(content: int) -> int {
    (content + N_FRAMES - 1) / (N_FRAMES as int)
}

/// Sum of the lengths of the first `n` decoding windows.
pub open spec fn sum_window_len(content: int, n: nat) -> int
    decreases n,
{
    if n == 0 {
        0
    } else {
        sum_window_len(content, (n - 1) as nat) + window_len(content, n - 1)
    }
}

proof fn lemma_sum_window_prefix(content: int, n: nat)
    requires
        content >= 0,
        n <= num_windows(content),
    ensures
        sum_window_len(content, n) == min(n * (N_FRAMES as int), content),
    decreases n,
{
    let f = N_FRAMES as int;
    let nw = num_windows(content);
    lemma_fundamental_div_mod(content + f - 1, f);
    lemma_mod_bound(content + f - 1, f);
    if n == 0 {
        assert(n * f == 0) by (nonlinear_arith)
            requires
                n == 0,
        ;
    } else {
        lemma_sum_window_prefix(content, (n - 1) as nat);
        assert(n * f == (n - 1) * f + f) by (nonlinear_arith);
        assert((n - 1) * f <= (nw - 1) * f) by (nonlinear_arith)
            requires
                n <= nw,
                f >= 1,
        ;
        assert((nw - 1) * f == f * nw - f) by (nonlinear_arith);
        assert((n - 1) * f < content);
        assert(window_len(content, n - 1) == min(f, content - (n - 1) * f));
        if content - (n - 1) * f >= f {
            assert(sum_window_len(content, n) == (n - 1) * f + f);
        } else {
            assert(sum_window_len(content, n) == content);
        }
    }
}

/// The fixed window schedule partitions the feature matrix: every window
/// begins where the previous one ended, the last window ends at the total
/// content frame count, and the window lengths — including windows whose
/// decode is later skipped as silence — sum to the total content duration.
pub proof fn lemma_windows_cover(content: int)
    requires
        content >= 0,
    ensures
        sum_window_len(content, num_windows(content) as nat) == content,
        forall|k: int|
            0 <= k < num_windows(content) ==> k * (N_FRAMES as int) + #[trigger] window_len(
                content,
                k,
            ) == if k + 1 < num_windows(content) {
                (k + 1) * (N_FRAMES as int)
            } else {
                content
            },
{
    let f = N_FRAMES as int;
    let nw = num_windows(content);
    lemma_fundamental_div_mod(content + f - 1, f);
    lemma_mod_bound(content + f - 1, f);
    assert(nw >= 0);
    assert(f * nw >= content);
    assert(f * nw <= content + f - 1);
    lemma_sum_window_prefix(content, nw as nat);
    assert(nw * f == f * nw) by (nonlinear_arith);
    assert(sum_window_len(content, nw as nat) == content);
    assert forall|k: int| 0 <= k < nw implies k * f + #[trigger] window_len(content, k) == if k + 1
        < nw {
        (k + 1) * f
    } else {
        content
    } by {
        if k + 1 < nw {
            assert((k + 2) * f <= nw * f && nw * f <= content + f - 1 ==> (k + 1) * f <= content
                - 1) by (nonlinear_arith);
            assert((k + 2) * f <= nw * f) by (nonlinear_arith)
                requires
                    k + 2 <= nw,
                    f >= 1,
            ;
            assert((k + 1) * f <= content - 1);
            assert((k + 1) * f == k * f + f) by (nonlinear_arith);
            assert(window_len(content, k) == f);
        } else {
            assert(k == nw - 1);
            assert((nw - 1) * f == f * nw - f) by (nonlinear_arith);
            assert(k * f <= content - 1);
            assert(content - k * f <= f);
            assert(window_len(content, k) == content - k * f);
        }
    }
}

/// Whether a segment occupies exactly one window of the fixed schedule
/// over `content` frames.
pub open spec fn segment_in_schedule<T>(content: int, seg: Segment<T>) -> bool {
    &&& 0 <= (seg.start_frames as int) < content
    &&& (seg.start_frames as int) % (N_FRAMES as int) == 0
    &&& seg.duration_frames as int == window_len(content, (seg.start_frames as int) / (
    N_FRAMES as int))
}

/// Whether a segment's token sequence is well-formed: non-trivial and
/// beginning with the start-of-transcript token.
pub open spec fn segment_tokens_wf<T>(seg: Segment<T>, sot_token: u32) -> bool {
    &&& seg.dr.tokens@.len() >= 2
    &&& seg.dr.tokens@[0] == sot_token
}

/// Language detection: runs the encoder over the feature window truncated
/// to the model's maximum source length, seeds a single decoder step with
/// the start-of-transcript token, and returns the candidate language token
/// whose probability wins (earlier candidates winning ties, as a stable
/// descending sort would order them).
pub fn detect<T: Float, M: Model<T>>(
    model: &mut M,
    mel: &Mel<T>,
    language_tokens: &Vec<u32>,
    sot_token: u32,
) -> (r: Result<u32, WhisperError>)
    requires
        mel.wf(),
        language_tokens@.len() >= 1,
    ensures
        r matches Ok(id) ==> language_tokens@.contains(id),
{
    let seq_len = mel.n_len;
    let msp = model.config().max_source_positions;
    let take = if seq_len < msp {
        seq_len
    } else {
        msp
    };
    let window = mel.narrow(0, take);
    let audio_features = model.encoder_forward(&window, true)?;
    let mut tokens: Vec<u32> = Vec::new();
    tokens.push(sot_token);
    let ys = model.decoder_forward(&tokens, &audio_features, true)?;
    let logits = model.decoder_final_linear(&ys, 0)?;
    let n = language_tokens.len();
    let mut selected: Vec<T> = Vec::with_capacity(n);
    for k in 0..n
        invariant
            n == language_tokens@.len(),
            selected@.len() == k,
    {
        let id = language_tokens[k] as usize;
        if id >= logits.len() {
            return Err(WhisperError::ModelInference);
        }
        selected.push(logits[id]);
    }
    let probs = softmax(&selected);
    let mut best: usize = 0;
    for k in 1..n
        invariant
            n == language_tokens@.len(),
            probs@.len() == n,
            best < n,
    {
        if probs[k].gt(probs[best]) {
            best = k;
        }
    }
    Ok(language_tokens[best])
}

/// The decoding engine: owns the model, the tokenizer and the random
/// generator, plus the construction-time token ids and the suppression
/// mask, and turns feature windows into transcript segments.
pub struct Decoder<T: Float, M: Model<T>, Tk: Tokenizer, G: Generator<T>> {
    pub model: M,
    pub rng: G,
    pub tokenizer: Tk,
    pub task: Option<Task>,
    pub language: Option<String>,
    pub is_multilingual: bool,
    pub mel_filters: Vec<T>,
    pub timestamps: bool,
    pub suppress_tokens: Vec<T>,
    pub cfg: Config,
    pub language_tokens: Vec<u32>,
    pub sot_token: u32,
    pub transcribe_token: u32,
    pub translate_token: u32,
    pub eot_token: u32,
    pub no_speech_token: u32,
    pub no_timestamps_token: u32,
}

impl<T: Float, M: Model<T>, Tk: Tokenizer, G: Generator<T>> Decoder<T, M, Tk, G> {
    /// Construction-time invariant: one additive mask entry per vocabulary
    /// entry, vocabulary ids fit the token type, and a multilingual engine
    /// has at least one language candidate to detect among.
    pub open spec fn wf(self) -> bool {
        &&& self.suppress_tokens@.len() == self.cfg.vocab_size
        &&& self.cfg.vocab_size <= u32::MAX
        &&& (self.is_multilingual ==> self.language_tokens@.len() >= 1)
    }

    /// Everything established at construction time; decoding only advances
    /// the model and generator state.
    pub open spec fn same_setup(self, other: Self) -> bool {
        &&& self.task == other.task
        &&& self.language == other.language
        &&& self.is_multilingual == other.is_multilingual
        &&& self.mel_filters == other.mel_filters
        &&& self.timestamps == other.timestamps
        &&& self.suppress_tokens == other.suppress_tokens
        &&& self.cfg == other.cfg
        &&& self.language_tokens == other.language_tokens
        &&& self.sot_token == other.sot_token
        &&& self.transcribe_token == other.transcribe_token
        &&& self.translate_token == other.translate_token
        &&& self.eot_token == other.eot_token
        &&& self.no_speech_token == other.no_speech_token
        &&& self.no_timestamps_token == other.no_timestamps_token
    }

    /// The task token the prompt carries: translate when asked, otherwise
    /// transcribe (also when no task is set).
    pub open spec fn spec_task_token(self) -> u32 {
        if self.task == Some(Task::Translate) {
            self.translate_token
        } else {
            self.transcribe_token
        }
    }

    /// Length of the generation prompt: start-of-transcript, a language
    /// token on a multilingual engine, the task token, and the
    /// no-timestamps token unless timestamps are requested.
    pub open spec fn spec_prompt_len(self) -> int {
        2 + (if self.is_multilingual {
            1int
        } else {
            0int
        }) + (if self.timestamps {
            0int
        } else {
            1int
        })
    }

    /// Whether a token sequence begins with this engine's generation
    /// prompt `[start-of-transcript, language?, task, no-timestamps?]`.
    /// On a multilingual engine without a pinned language the language
    /// slot holds one of the detection candidates.
    pub open spec fn prompt_wf(self, tokens: Seq<u32>) -> bool {
        &&& tokens.len() >= self.spec_prompt_len()
        &&& tokens[0] == self.sot_token
        &&& if self.is_multilingual {
            &&& (self.language is None ==> self.language_tokens@.contains(tokens[1]))
            &&& tokens[2] == self.spec_task_token()
            &&& (!self.timestamps ==> tokens[3] == self.no_timestamps_token)
        } else {
            &&& tokens[1] == self.spec_task_token()
            &&& (!self.timestamps ==> tokens[2] == self.no_timestamps_token)
        }
    }

    /// Builds a decoding engine: resolves every required special token in
    /// the vocabulary (an absent one aborts construction), builds the
    /// additive suppression mask (negative infinity at suppressed ids,
    /// zero elsewhere), and takes ownership of the generator.
    #[allow(clippy::too_many_arguments)]
    pub fn new(
        model: M,
        tokenizer: Tk,
        mel_filters: Vec<T>,
        cfg: Config,
        task: Option<Task>,
        language: Option<String>,
        is_multilingual: bool,
        timestamps: bool,
        language_tokens: Vec<u32>,
        rng: G,
    ) -> (r: Result<Self, WhisperError>)
        ensures
            r matches Ok(d) ==> {
                &&& d.wf()
                &&& d.cfg == cfg
                &&& d.task == task
                &&& d.language == language
                &&& d.is_multilingual == is_multilingual
                &&& d.timestamps == timestamps
                &&& d.language_tokens == language_tokens
            },
            (r matches Err(e) && e == WhisperError::Configuration) <==> (cfg.vocab_size
                > u32::MAX || (cfg.vocab_size <= u32::MAX && is_multilingual
                && language_tokens@.len() == 0)),
            r matches Err(e) ==> e == WhisperError::Configuration || e
                == WhisperError::Initialization,
    {
        if cfg.vocab_size > u32::MAX as usize {
            return Err(WhisperError::Configuration);
        }
        if is_multilingual && language_tokens.len() == 0 {
            return Err(WhisperError::Configuration);
        }
        let mut suppress: Vec<T> = Vec::with_capacity(cfg.vocab_size);
        for i in 0..cfg.vocab_size
            invariant
                suppress@.len() == i,
                cfg.vocab_size <= u32::MAX,
        {
            if is_suppressed(&cfg.suppress_tokens, i as u32) {
                suppress.push(T::neg_infinity());
            } else {
                suppress.push(T::zero());
            }
        }
        let no_timestamps_token = token_id(&tokenizer, "<|notimestamps|>")?;
        let sot_token = token_id(&tokenizer, "<|startoftranscript|>")?;
        let transcribe_token = token_id(&tokenizer, "<|transcribe|>")?;
        let translate_token = token_id(&tokenizer, "<|translate|>")?;
        let eot_token = token_id(&tokenizer, "<|endoftext|>")?;
        let no_speech_token = match tokenizer.token_to_id("<|nocaptions|>") {
            Some(id) => id,
            None => match tokenizer.token_to_id("<|nospeech|>") {
                Some(id) => id,
                None => {
                    return Err(WhisperError::Initialization);
                },
            },
        };
        Ok(
            Decoder {
                model,
                rng,
                tokenizer,
                mel_filters,
                task,
                timestamps,
                language,
                is_multilingual,
                suppress_tokens: suppress,
                cfg,
                language_tokens,
                sot_token,
                transcribe_token,
                translate_token,
                eot_token,
                no_speech_token,
                no_timestamps_token,
            },
        )
    }

    /// One decoding attempt at temperature `t`: resolves or detects the
    /// language, builds the prompt
    /// `[start-of-transcript, language?, task, no-timestamps?]`, then
    /// generates tokens autoregressively — sampling from the temperature-
    /// scaled softmax when `t > 0`, taking the argmax of the masked logits
    /// when `t == 0` — until the end-of-transcript token appears, the
    /// sequence exceeds the model's cap, or half the maximum target
    /// positions have been generated.
    pub fn decode(&mut self, mel: &Mel<T>, t: T) -> (r: Result<DecodingResult<T>, WhisperError>)
        requires
            old(self).wf(),
            mel.wf(),
        ensures
            final(self).wf(),
            old(self).same_setup(*final(self)),
            !old(self).is_multilingual && old(self).language is Some ==> (r matches Err(e)
                && e == WhisperError::Configuration),
            r matches Ok(dr) ==> {
                &&& dr.tokens@.len() >= 2
                &&& old(self).prompt_wf(dr.tokens@)
                &&& dr.tokens@.len() <= 4 + old(self).cfg.max_target_positions / 2
                &&& (old(self).cfg.max_target_positions >= 8 ==> dr.tokens@.len() <= old(
                    self,
                ).cfg.max_target_positions)
                &&& dr.temperature == t
            },
    {
        let language_token: Option<u32> = if self.is_multilingual {
            if self.language.is_some() {
                let tok = {
                    let language = self.language.as_ref().unwrap();
                    String::from_str("<|").concat(language.as_str()).concat("|>")
                };
                match self.tokenizer.token_to_id(tok.as_str()) {
                    Some(id) => Some(id),
                    None => {
                        let language = self.language.as_ref().unwrap().clone();
                        return Err(WhisperError::UnsupportedLanguage(language));
                    },
                }
            } else {
                Some(detect(&mut self.model, mel, &self.language_tokens, self.sot_token)?)
            }
        } else {
            if self.language.is_some() {
                return Err(WhisperError::Configuration);
            }
            None
        };

        let audio_features = self.model.encoder_forward(mel, true)?;
        let sample_len = self.cfg.max_target_positions / 2;
        let mut sum_logprob = T::zero();
        let mut no_speech_prob = T::nan();
        let mut tokens: Vec<u32> = Vec::new();
        tokens.push(self.sot_token);
        if let Some(lt) = language_token {
            tokens.push(lt);
        }
        match self.task {
            None | Some(Task::Transcribe) => tokens.push(self.transcribe_token),
            Some(Task::Translate) => tokens.push(self.translate_token),
        }
        if !self.timestamps {
            tokens.push(self.no_timestamps_token);
        }
        let ghost prompt_len = tokens@.len();
        assert(2 <= prompt_len <= 4);
        assert(prompt_len == self.spec_prompt_len());
        assert(self.prompt_wf(tokens@));
        assert(old(self).prompt_wf(tokens@));

        let mut i: usize = 0;
        let mut done = false;
        while i < sample_len && !done
            invariant
                self.wf(),
                old(self).same_setup(*self),
                old(self).is_multilingual || old(self).language is None,
                i <= sample_len,
                sample_len == self.cfg.max_target_positions / 2,
                2 <= prompt_len <= 4,
                tokens@.len() >= 2,
                old(self).prompt_wf(tokens@),
                tokens@.len() <= prompt_len + i,
            decreases sample_len - i,
        {
            let ys = self.model.decoder_forward(&tokens, &audio_features, i == 0)?;

            if i == 0 {
                let logits0 = self.model.decoder_final_linear(&ys, 0)?;
                if (self.no_speech_token as usize) >= logits0.len() {
                    return Err(WhisperError::ModelInference);
                }
                let sm = softmax(&logits0);
                no_speech_prob = sm[self.no_speech_token as usize];
            }

            let pos = tokens.len() - 1;
            let logits_raw = self.model.decoder_final_linear(&ys, pos)?;
            if logits_raw.len() != self.suppress_tokens.len() {
                return Err(WhisperError::ModelInference);
            }
            let vocab = logits_raw.len();
            if vocab == 0 {
                return Err(WhisperError::ModelInference);
            }
            let mut logits: Vec<T> = Vec::with_capacity(vocab);
            for idx in 0..vocab
                invariant
                    logits@.len() == idx,
                    vocab == logits_raw@.len(),
                    vocab == self.suppress_tokens@.len(),
            {
                logits.push(logits_raw[idx].plus(self.suppress_tokens[idx]));
            }

            let next_token: u32 = if t.gt(T::zero()) {
                let mut scaled: Vec<T> = Vec::with_capacity(vocab);
                for idx in 0..vocab
                    invariant
                        scaled@.len() == idx,
                        vocab == logits@.len(),
                {
                    scaled.push(logits[idx].divided_by(t));
                }
                let prs = softmax(&scaled);
                let picked = weighted_sample(&prs, &mut self.rng)?;
                picked as u32
            } else {
                argmax(&logits) as u32
            };
            tokens.push(next_token);
            let prs2 = softmax(&logits);
            let prob = prs2[next_token as usize];
            if next_token == self.eot_token || tokens.len() > self.cfg.max_target_positions {
                done = true;
            } else {
                sum_logprob = sum_logprob.plus(prob.ln());
            }
            i = i + 1;
        }
        let text = match self.tokenizer.decode(&tokens, true) {
            Ok(text) => text,
            Err(_) => {
                return Err(WhisperError::ModelInference);
            },
        };
        let avg_logprob = sum_logprob.divided_by(T::of_u64(tokens.len() as u64));

        Ok(
            DecodingResult {
                tokens,
                text,
                avg_logprob,
                no_speech_prob,
                temperature: t,
                compression_ratio: T::nan(),
            },
        )
    }

    /// Temperature fallback: attempts [`Self::decode`] at each temperature
    /// of the ascending list in order, accepting a result whose
    /// compression ratio and average log-probability are within their
    /// thresholds, or whose no-speech probability marks the window as
    /// likely silence.  The final temperature's result — success or
    /// failure — is always returned unconditionally; an error at an
    /// earlier temperature only moves to the next one.
    pub fn decode_with_fallback(&mut self, segment: &Mel<T>) -> (r: Result<
        DecodingResult<T>,
        WhisperError,
    >)
        requires
            old(self).wf(),
            segment.wf(),
        ensures
            final(self).wf(),
            old(self).same_setup(*final(self)),
            !old(self).is_multilingual && old(self).language is Some ==> (r matches Err(e)
                && e == WhisperError::Configuration),
            r matches Ok(dr) ==> {
                &&& dr.tokens@.len() >= 2
                &&& old(self).prompt_wf(dr.tokens@)
                &&& dr.tokens@.len() <= 4 + old(self).cfg.max_target_positions / 2
                &&& (old(self).cfg.max_target_positions >= 8 ==> dr.tokens@.len() <= old(
                    self,
                ).cfg.max_target_positions)
            },
    {
        let mut k: usize = 0;
        while k + 1 < N_TEMPERATURES
            invariant
                self.wf(),
                old(self).same_setup(*self),
                segment.wf(),
                k < N_TEMPERATURES,
            decreases N_TEMPERATURES - k,
        {
            let t = temperature_at::<T>(k);
            let dr = self.decode(segment, t);
            match dr {
                Ok(dr) => {
                    let needs_fallback = dr.compression_ratio.gt(
                        compression_ratio_threshold::<T>(),
                    ) || dr.avg_logprob.lt(logprob_threshold::<T>());
                    if !needs_fallback || dr.no_speech_prob.gt(no_speech_threshold::<T>()) {
                        return Ok(dr);
                    }
                },
                Err(_) => {},
            }
            k = k + 1;
        }
        let t = temperature_at::<T>(N_TEMPERATURES - 1);
        self.decode(segment, t)
    }

    /// Long-form scheduling: slices the feature matrix into consecutive
    /// fixed-size windows, decodes each with temperature fallback, advances
    /// the cursor unconditionally — windows judged silent (high no-speech
    /// probability and low average log-probability) are skipped without
    /// emitting a segment — and assembles the ordered transcript.  Emitted
    /// segments occupy disjoint windows of the fixed schedule in strictly
    /// increasing start order.
    pub fn run(&mut self, mel: &Mel<T>) -> (r: Result<Vec<Segment<T>>, WhisperError>)
        requires
            old(self).wf(),
            mel.wf(),
            (mel.n_len as int) * (HOP_LENGTH as int) <= u64::MAX as int,
        ensures
            final(self).wf(),
            old(self).same_setup(*final(self)),
            mel.n_len == 0 ==> (r matches Ok(segments) && segments@.len() == 0),
            r matches Ok(segments) ==> {
                &&& forall|idx: int|
                    0 <= idx < segments@.len() ==> segment_in_schedule(
                        mel.n_len as int,
                        #[trigger] segments@[idx],
                    )
                &&& forall|idx: int|
                    0 <= idx < segments@.len() ==> segment_tokens_wf(
                        #[trigger] segments@[idx],
                        old(self).sot_token,
                    )
                &&& forall|idx: int|
                    0 <= idx < segments@.len() ==> old(self).prompt_wf(
                        (#[trigger] segments@[idx]).dr.tokens@,
                    )
                &&& forall|a: int, b: int|
                    0 <= a < b < segments@.len() ==> (#[trigger] segments@[a]).start_frames + segments@[a].duration_frames
                        <= (#[trigger] segments@[b]).start_frames
            },
    {
        let content_frames = mel.n_len;
        let mut seek: usize = 0;
        let mut segments: Vec<Segment<T>> = Vec::new();
        while seek < content_frames
            invariant
                self.wf(),
                old(self).same_setup(*self),
                mel.wf(),
                content_frames == mel.n_len,
                (content_frames as int) * (HOP_LENGTH as int) <= u64::MAX as int,
                seek <= content_frames,
                seek % N_FRAMES == 0 || seek == content_frames,
                content_frames == 0 ==> segments@.len() == 0,
                forall|idx: int|
                    0 <= idx < segments@.len() ==> segment_in_schedule(
                        content_frames as int,
                        #[trigger] segments@[idx],
                    ),
                forall|idx: int|
                    0 <= idx < segments@.len() ==> segment_tokens_wf(
                        #[trigger] segments@[idx],
                        old(self).sot_token,
                    ),
                forall|idx: int|
                    0 <= idx < segments@.len() ==> old(self).prompt_wf(
                        (#[trigger] segments@[idx]).dr.tokens@,
                    ),
                forall|idx: int|
                    0 <= idx < segments@.len() ==> (#[trigger] segments@[idx]).start_frames
                        + segments@[idx].duration_frames <= seek,
                forall|a: int, b: int|
                    0 <= a < b < segments@.len() ==> (#[trigger] segments@[a]).start_frames + segments@[a].duration_frames
                        <= (#[trigger] segments@[b]).start_frames,
            decreases content_frames - seek,
        {
            assert((seek as int) * (HOP_LENGTH as int) <= (content_frames as int) * (
            HOP_LENGTH as int)) by (nonlinear_arith)
                requires
                    seek <= content_frames,
            ;
            let time_offset = T::of_u64((seek as u64) * (HOP_LENGTH as u64)).divided_by(
                T::of_u64(SAMPLE_RATE as u64),
            );
            let segment_size = if content_frames - seek < N_FRAMES {
                content_frames - seek
            } else {
                N_FRAMES
            };
            assert((segment_size as int) * (HOP_LENGTH as int) <= (content_frames as int) * (
            HOP_LENGTH as int)) by (nonlinear_arith)
                requires
                    segment_size <= content_frames,
            ;
            let segment_duration = T::of_u64((segment_size as u64) * (HOP_LENGTH as u64)).divided_by(
                T::of_u64(SAMPLE_RATE as u64),
            );
            let mel_segment = mel.narrow(seek, segment_size);
            let dr = self.decode_with_fallback(&mel_segment)?;
            let ghost prev_seek = seek as int;
            seek = seek + segment_size;

            let skip = dr.no_speech_prob.gt(no_speech_threshold::<T>()) && dr.avg_logprob.lt(
                logprob_threshold::<T>(),
            );
            if !skip {
                let segment = Segment {
                    start: time_offset,
                    duration: segment_duration,
                    start_frames: seek - segment_size,
                    duration_frames: segment_size,
                    dr,
                };
                proof {
                    lemma_fundamental_div_mod(prev_seek, N_FRAMES as int);
                    assert(prev_seek % (N_FRAMES as int) == 0);
                    assert((N_FRAMES as int) * (prev_seek / (N_FRAMES as int)) == prev_seek);
                    let q = prev_seek / (N_FRAMES as int);
                    assert(q * (N_FRAMES as int) == (N_FRAMES as int) * q) by (nonlinear_arith);
                    assert(window_len(content_frames as int, q) == min(
                        N_FRAMES as int,
                        content_frames - prev_seek,
                    ));
                    assert(segment_in_schedule(content_frames as int, segment));
                }
                segments.push(segment);
            }
            proof {
                if content_frames - prev_seek >= N_FRAMES {
                    assert(seek == prev_seek + N_FRAMES);
                    lemma_add_mod_noop(prev_seek, N_FRAMES as int, N_FRAMES as int);
                    lemma_mod_self_0(N_FRAMES as int);
                    lemma_mod_twice(prev_seek, N_FRAMES as int);
                    assert(seek % N_FRAMES == 0);
                } else {
                    assert(seek == content_frames);
                }
            }
        }
        Ok(segments)
    }
}

} // verus!
