//! The streaming transcription loop: sample buffering, voice-activity frame
//! selection, prompt memory and line segmentation.

use vstd::prelude::*;
use crate::asr::le_bytes_of;
use crate::text::{trim_to_string, trimmed};

verus! {

/// The sample rate, in Hz, that the recognizer consumes.
pub const WHISPER_SAMPLE_RATE: usize = 16000;

/// The number of samples in one voice-activity frame: 30 ms of audio.
pub const VAD_FRAME_SAMPLES: usize = WHISPER_SAMPLE_RATE / 100 * 3;

/// The number of samples in `ms` milliseconds of audio.
pub open spec fn samples_for_ms(ms: nat) -> nat {
    ms * 16000 / 1000
}

/// The streaming settings of the recognizer.
pub struct WhisperConfig {
    /// How often, in milliseconds, new audio is handed to the recognizer.
    pub step_ms: usize,
    /// The length, in milliseconds, of one transcript line.
    pub length_ms: usize,
    /// How much audio, in milliseconds, a new line keeps from the last one.
    pub keep_ms: usize,
    /// The path of the model file.
    pub model: String,
    /// The most prompt tokens carried from line to line.
    pub max_prompt_tokens: usize,
}

impl WhisperConfig {
    /// The sample counts of the configuration fit in a `usize`.
    pub open spec fn fits(&self) -> bool {
        &&& self.keep_ms * 16000 <= usize::MAX
        &&& self.step_ms * 16000 <= usize::MAX
        &&& self.length_ms * 16000 <= usize::MAX
    }
}

/// A recognized piece of speech, as shown to listeners.
pub struct SegmentView {
    pub start_timestamp: i64,
    pub end_timestamp: i64,
    pub text: Seq<char>,
    pub tokens: Seq<i32>,
}

/// A recognized piece of speech: its span in milliseconds since the stream
/// began, its text, and the ids of the tokens it was decoded from.
#[derive(Clone, Debug)]
pub struct Segment {
    pub start_timestamp: i64,
    pub end_timestamp: i64,
    pub text: String,
    pub tokens: Vec<i32>,
}

impl View for Segment {
    type V = SegmentView;

    open spec fn view(&self) -> SegmentView {
        SegmentView {
            start_timestamp: self.start_timestamp,
            end_timestamp: self.end_timestamp,
            text: self.text@,
            tokens: self.tokens@,
        }
    }
}

/// Copies a sequence of token ids.
fn copy_tokens(tokens: &Vec<i32>) -> (out: Vec<i32>)
    ensures
        out@ == tokens@,
{
    let mut out: Vec<i32> = Vec::with_capacity(tokens.len());
    let mut i: usize = 0;
    while i < tokens.len()
        invariant
            i <= tokens@.len(),
            out@ == tokens@.subrange(0, i as int),
        decreases tokens@.len() - i,
    {
        out.push(tokens[i]);
        i = i + 1;
        assert(out@ =~= tokens@.subrange(0, i as int));
    }
    assert(tokens@.subrange(0, tokens@.len() as int) =~= tokens@);
    out
}

impl Segment {
    /// A copy of the segment.
    pub fn snapshot(&self) -> (s: Segment)
        ensures
            s@ == self@,
    {
        Segment {
            start_timestamp: self.start_timestamp,
            end_timestamp: self.end_timestamp,
            text: self.text.clone(),
            tokens: copy_tokens(&self.tokens),
        }
    }
}

/// What the recognizer reports of one segment: its span in centiseconds
/// relative to the buffered audio, its raw text, and its token ids.
pub struct RawSegment {
    pub t0: i64,
    pub t1: i64,
    pub text: String,
    pub tokens: Vec<i32>,
}

/// A transcription result: a line still being revised, or a finished one.
#[derive(Clone, Debug)]
pub enum Output {
    Unstable(Segment),
    Stable(Segment),
}

/// The samples that voice-activity selection keeps: the audio is cut into
/// frames of `frame` samples; a full frame stays when its flag in `voiced`
/// (one flag per full frame, in order) is set, and a shorter last frame
/// always stays.
pub open spec fn voiced_samples(data: Seq<i16>, frame: nat, voiced: Seq<bool>) -> Seq<i16>
    decreases data.len(),
{
    if frame == 0 || data.len() < frame {
        data
    } else {
        let head: Seq<i16> = if voiced[0] {
            data.subrange(0, frame as int)
        } else {
            Seq::empty()
        };
        head + voiced_samples(data.subrange(frame as int, data.len() as int), frame, voiced.drop_first())
    }
}

proof fn lemma_voiced_samples_len(data: Seq<i16>, frame: nat, voiced: Seq<bool>)
    ensures
        voiced_samples(data, frame, voiced).len() <= data.len(),
    decreases data.len(),
{
    if frame == 0 || data.len() < frame {
    } else {
        lemma_voiced_samples_len(data.subrange(frame as int, data.len() as int), frame, voiced.drop_first());
    }
}

/// The number of full frames of `frame` samples in `len` samples.
pub open spec fn full_frames(len: nat, frame: nat) -> nat {
    len / frame
}

proof fn lemma_next_frame_flag(k: nat, frame: nat, n: nat)
    requires
        frame > 0,
        k * frame + frame <= n,
    ensures
        k + 1 <= n / frame,
{
    assert((k + 1) * frame == k * frame + frame) by (nonlinear_arith);
    assert((k + 1) * frame <= n ==> k + 1 <= n / frame) by (nonlinear_arith)
        requires frame > 0;
}

/// How many flags are set.
pub open spec fn count_set(flags: Seq<bool>) -> nat
    decreases flags.len(),
{
    if flags.len() == 0 {
        0
    } else {
        (if flags[0] { 1nat } else { 0nat }) + count_set(flags.drop_first())
    }
}

/// Voice-activity selection keeps whole frames and never cuts the end of the
/// audio: with one verdict per full frame, the result holds `frame` samples
/// for every voiced frame plus the samples after the last full frame, and
/// it always ends with those samples, whatever the verdicts.
pub proof fn law_voiced_selection_keeps_the_tail(data: Seq<i16>, frame: nat, voiced: Seq<bool>)
    requires
        frame > 0,
        voiced.len() == data.len() / frame,
    ensures
        voiced_samples(data, frame, voiced).len() == count_set(voiced) * frame + data.len()
            % frame,
        voiced_samples(data, frame, voiced).subrange(
            voiced_samples(data, frame, voiced).len() - data.len() % frame,
            voiced_samples(data, frame, voiced).len() as int,
        ) == data.subrange((frame * (data.len() / frame)) as int, data.len() as int),
    decreases data.len(),
{
    let len = data.len() as int;
    let f = frame as int;
    vstd::arithmetic::div_mod::lemma_fundamental_div_mod(len, f);
    vstd::arithmetic::div_mod::lemma_mod_pos_bound(len, f);
    let q = len / f;
    let r = len % f;
    let out = voiced_samples(data, frame, voiced);
    if len < f {
        vstd::arithmetic::div_mod::lemma_fundamental_div_mod_converse(len, f, 0, len);
        assert(voiced.len() == 0);
        assert(out.subrange(0, len) =~= data.subrange(0, len));
    } else {
        let rest = data.subrange(f, len);
        let flags = voiced.drop_first();
        assert(len - f == (q - 1) * f + r) by (nonlinear_arith)
            requires len == f * q + r;
        vstd::arithmetic::div_mod::lemma_fundamental_div_mod_converse(len - f, f, q - 1, r);
        assert(rest.len() == len - f);
        assert(flags.len() == rest.len() / frame);
        law_voiced_selection_keeps_the_tail(rest, frame, flags);
        let inner = voiced_samples(rest, frame, flags);
        let head: Seq<i16> = if voiced[0] {
            data.subrange(0, f)
        } else {
            Seq::empty()
        };
        assert(out == head + inner);
        let c = count_set(flags);
        assert((if voiced[0] { 1nat } else { 0nat }) * f + c * f == ((if voiced[0] { 1nat } else { 0nat }) + c) * f)
            by (nonlinear_arith);
        assert(out.subrange(out.len() - r, out.len() as int) =~= inner.subrange(
            inner.len() - r,
            inner.len() as int,
        ));
        assert(f * (q - 1) + f == f * q) by (nonlinear_arith);
        assert(rest.subrange(f * (q - 1), rest.len() as int) =~= data.subrange(f * q, len));
    }
}

/// Keeps the audio of the frames that voice-activity detection marked as
/// speech (`voiced` holds one verdict per full frame of `frame` samples),
/// together with any shorter last frame.
pub fn select_voiced_frames(data: &Vec<i16>, frame: usize, voiced: &Vec<bool>) -> (kept: Vec<i16>)
    requires
        frame > 0,
        voiced@.len() == full_frames(data@.len(), frame as nat),
    ensures
        kept@ == voiced_samples(data@, frame as nat, voiced@),
{
    let n: usize = data.len();
    let mut kept: Vec<i16> = Vec::new();
    let mut start: usize = 0;
    let mut k: usize = 0;
    assert(data@.subrange(0, n as int) =~= data@);
    assert(voiced@.subrange(0, voiced@.len() as int) =~= voiced@);
    assert(kept@ + voiced_samples(data@, frame as nat, voiced@) =~= voiced_samples(
        data@,
        frame as nat,
        voiced@,
    ));
    while n - start >= frame
        invariant
            n == data@.len(),
            k <= voiced@.len(),
            frame > 0,
            voiced@.len() == (n as nat) / (frame as nat),
            start == k * frame,
            start <= n,
            voiced_samples(data@, frame as nat, voiced@) == kept@ + voiced_samples(
                data@.subrange(start as int, n as int),
                frame as nat,
                voiced@.subrange(k as int, voiced@.len() as int),
            ),
        decreases n - start,
    {
        proof {
            lemma_next_frame_flag(k as nat, frame as nat, n as nat);
        }
        let ghost rest = data@.subrange(start as int, n as int);
        let ghost flags = voiced@.subrange(k as int, voiced@.len() as int);
        assert(rest.subrange(frame as int, rest.len() as int) =~= data@.subrange(
            start + frame,
            n as int,
        ));
        assert(flags.drop_first() =~= voiced@.subrange(k + 1, voiced@.len() as int));
        assert(rest.subrange(0, frame as int) =~= data@.subrange(start as int, start + frame));
        assert(flags[0] == voiced@[k as int]);
        let ghost before = kept@;
        if voiced[k] {
            let mut j: usize = start;
            while j < start + frame
                invariant
                    start <= j <= start + frame,
                    start + frame <= n,
                    n == data@.len(),
                    kept@ == before + data@.subrange(start as int, j as int),
                decreases start + frame - j,
            {
                kept.push(data[j]);
                j = j + 1;
                assert(kept@ =~= before + data@.subrange(start as int, j as int));
            }
        } else {
            assert(kept@ =~= before + Seq::<i16>::empty());
        }
        start = start + frame;
        k = k + 1;
        assert(start == k * frame) by (nonlinear_arith)
            requires start == (k - 1) * frame + frame, k >= 1;
    }
    let ghost before = kept@;
    let mut j: usize = start;
    while j < n
        invariant
            start <= j <= n,
            n == data@.len(),
            kept@ == before + data@.subrange(start as int, j as int),
        decreases n - j,
    {
        kept.push(data[j]);
        j = j + 1;
        assert(kept@ =~= before + data@.subrange(start as int, j as int));
    }
    kept
}

/// The transcription results that announce segments still being revised.
pub fn unstable_outputs(segments: &Vec<Segment>) -> (outputs: Vec<Output>)
    ensures
        outputs@.len() == segments@.len(),
        forall|i: int|
            0 <= i < segments@.len() ==> (#[trigger] outputs@[i] matches Output::Unstable(s) && s@
                == segments@[i]@),
{
    let mut outputs: Vec<Output> = Vec::with_capacity(segments.len());
    let mut i: usize = 0;
    while i < segments.len()
        invariant
            i <= segments@.len(),
            outputs@.len() == i,
            forall|j: int|
                0 <= j < i ==> (#[trigger] outputs@[j] matches Output::Unstable(s) && s@
                    == segments@[j]@),
        decreases segments@.len() - i,
    {
        outputs.push(Output::Unstable(segments[i].snapshot()));
        i = i + 1;
    }
    outputs
}

/// The millisecond timestamp of the first buffered sample, given how many
/// samples have been dropped from the front of the stream.
pub open spec fn timestamp_offset_ms(offset: nat) -> int {
    (offset * 1000 / 16000) as int
}

/// A centisecond time `t` of the recognizer, shifted by `offset_ms`, fits in an
/// `i64`.
pub open spec fn timestamp_fits(offset_ms: int, t: i64) -> bool {
    &&& i64::MIN <= 10 * t <= i64::MAX
    &&& i64::MIN <= offset_ms + 10 * t <= i64::MAX
}

/// Both times of a raw segment, shifted by `offset_ms`, fit in an `i64`.
pub open spec fn segment_times_fit(offset_ms: int, raw: RawSegment) -> bool {
    timestamp_fits(offset_ms, raw.t0) && timestamp_fits(offset_ms, raw.t1)
}

/// The segment that a raw recognizer segment becomes when the buffered audio
/// starts at `offset_ms`.
pub open spec fn segment_of(raw_t0: i64, raw_t1: i64, raw_text: Seq<char>, raw_tokens: Seq<
    i32,
>, offset_ms: int) -> SegmentView {
    SegmentView {
        start_timestamp: (offset_ms + 10 * raw_t0) as i64,
        end_timestamp: (offset_ms + 10 * raw_t1) as i64,
        text: trimmed(raw_text),
        tokens: raw_tokens,
    }
}

/// What the buffer keeps when a line is finished: its latest `keep`
/// samples, or nothing when it holds no more than `keep`.
pub open spec fn kept_after_line(pcm: Seq<i16>, keep: nat) -> Seq<i16> {
    if pcm.len() > keep {
        pcm.subrange(pcm.len() - keep, pcm.len() as int)
    } else {
        Seq::empty()
    }
}

/// The last `max` items of `s`, or all of `s` if it is not longer.
pub open spec fn keep_last<T>(s: Seq<T>, max: nat) -> Seq<T> {
    if s.len() > max {
        s.subrange(s.len() - max, s.len() as int)
    } else {
        s
    }
}

/// The prompt after remembering the tokens of the current segment, if any.
pub open spec fn remembered_prompt(prompt: Seq<i32>, segment: Option<Segment>, max: nat) -> Seq<
    i32,
> {
    match segment {
        Some(s) => keep_last(prompt + s.tokens@, max),
        None => prompt,
    }
}

/// The recognizer's clock runs on samples: at 16 kHz a millisecond is 16
/// samples, so dropping the samples of `ms` milliseconds moves the
/// timestamp of the buffer's start by exactly `ms`.
pub proof fn law_samples_measure_time(ms: nat)
    ensures
        samples_for_ms(ms) == 16 * ms,
        timestamp_offset_ms(samples_for_ms(ms)) == ms,
{
    assert(ms * 16000 / 1000 == 16 * ms) by (nonlinear_arith);
    assert((16 * ms) * 1000 / 16000 == ms) by (nonlinear_arith);
}

/// Finishing a line keeps the latest audio: what stays is the end of the
/// buffer, `keep` samples long when the buffer held more, and nothing
/// otherwise.
pub proof fn law_line_keeps_latest_audio(pcm: Seq<i16>, keep: nat)
    ensures
        kept_after_line(pcm, keep).len() == if pcm.len() > keep { keep } else { 0 },
        kept_after_line(pcm, keep).len() <= pcm.len(),
        pcm.subrange(pcm.len() - kept_after_line(pcm, keep).len(), pcm.len() as int)
            == kept_after_line(pcm, keep),
{
    if pcm.len() <= keep {
        assert(pcm.subrange(pcm.len() as int, pcm.len() as int) =~= Seq::<i16>::empty());
    }
}

/// Remembering a segment appends its tokens to the prompt and then keeps
/// only the latest `max` tokens: the new prompt is the end of the old prompt
/// followed by the tokens, as long as both together or `max`, whichever is
/// less. Without a segment the prompt stays as it is.
pub proof fn law_prompt_keeps_latest_tokens(prompt: Seq<i32>, segment: Option<Segment>, max: nat)
    ensures
        segment is None ==> remembered_prompt(prompt, segment, max) == prompt,
        segment matches Some(s) ==> ({
            let all = prompt + s.tokens@;
            let kept = remembered_prompt(prompt, segment, max);
            &&& kept.len() == if all.len() > max { max } else { all.len() }
            &&& all.subrange(all.len() - kept.len(), all.len() as int) == kept
        }),
{
    if let Some(s) = segment {
        let all = prompt + s.tokens@;
        if all.len() <= max {
            assert(all.subrange(0, all.len() as int) =~= all);
        }
    }
}

/// Whether the time for a new line has come `elapsed_ms` after the stream
/// began, for lines of `line_ms` milliseconds of which `lines` are finished.
pub open spec fn crosses(elapsed_ms: u128, line_ms: nat, lines: nat) -> bool {
    ((elapsed_ms as int) / (line_ms as int)) as usize > lines
}

/// A line is finished as soon as it is due, and only then: once `lines`
/// lines are finished, the time for a new one has come exactly when more
/// than `lines` whole line lengths have elapsed (so a late tick still
/// finishes a line, however many windows it skipped). Counts of elapsed
/// lines past `usize::MAX` are left out: the line count cannot reach them.
pub proof fn law_line_due_exactly_when_elapsed(elapsed_ms: u128, line_ms: nat, lines: nat)
    requires
        line_ms > 0,
        (elapsed_ms as int) / (line_ms as int) <= usize::MAX,
    ensures
        crosses(elapsed_ms, line_ms, lines) <==> (elapsed_ms as int) / (line_ms as int) > lines,
{
    let q = (elapsed_ms as int) / (line_ms as int);
    assert(0 <= q);
    assert((q as usize) as int == q);
}

/// The settings of a detector stay as they were.
pub open spec fn settings_kept(before: Detector, after: Detector) -> bool {
    &&& after.keep_samples() == before.keep_samples()
    &&& after.step_samples() == before.step_samples()
    &&& after.len_samples() == before.len_samples()
    &&& after.line_ms() == before.line_ms()
    &&& after.max_prompt() == before.max_prompt()
    &&& after.preset_prompt() == before.preset_prompt()
}

/// What finishing a line does to a detector: the buffer keeps only its
/// latest `keep` samples (none if it holds no more than that), the samples
/// given up are counted as dropped, the current segment's tokens join the
/// prompt (which keeps its latest `max` tokens), the line count goes up by
/// one and no segment is current.
pub open spec fn line_finished(before: Detector, after: Detector) -> bool {
    &&& after.current() is None
    &&& after.lines() == before.lines() + 1
    &&& after.prompt() == remembered_prompt(before.prompt(), before.current(), before.max_prompt())
    &&& after.buffered() == kept_after_line(before.buffered(), before.keep_samples())
    &&& after.samples_fed() == before.samples_fed()
    &&& settings_kept(before, after)
}

/// The audio of the stream that has not been given up, and how much has.
struct AudioBuffer {
    pcm: Vec<i16>,
    offset: usize,
    fed: Ghost<nat>,
}

impl AudioBuffer {
    fn empty() -> (b: AudioBuffer)
        ensures
            b.pcm@ == Seq::<i16>::empty(),
            b.offset == 0,
            b.fed@ == 0,
    {
        AudioBuffer { pcm: Vec::new(), offset: 0, fed: Ghost(0) }
    }
}

/// The buffer state of the streaming recognizer: the audio not yet given up,
/// the prompt carried between lines, and the latest first segment.
pub struct Detector {
    config: WhisperConfig,
    segment: Option<Segment>,
    line_num: usize,
    preset_prompt_tokens: Vec<i32>,
    n_samples_keep: usize,
    n_samples_step: usize,
    n_samples_len: usize,
    prompt_tokens: Vec<i32>,
    audio: AudioBuffer,
}

impl Detector {
    /// The detector's invariant: the sample counts follow from the
    /// configuration, every sample fed is either buffered or dropped, and the
    /// prompt never exceeds its limit.
    #[verifier::type_invariant]
    spec fn wf(&self) -> bool {
        &&& self.n_samples_keep == samples_for_ms(self.config.keep_ms as nat)
        &&& self.n_samples_step == samples_for_ms(self.config.step_ms as nat)
        &&& self.n_samples_len == samples_for_ms(self.config.length_ms as nat)
        &&& self.prompt_tokens@.len() <= self.config.max_prompt_tokens
        &&& self.audio.offset + self.audio.pcm@.len() == self.audio.fed@
    }

    /// The buffered audio, oldest sample first.
    pub closed spec fn buffered(&self) -> Seq<i16> {
        self.audio.pcm@
    }

    /// How many samples have been dropped from the front of the stream.
    pub closed spec fn dropped(&self) -> nat {
        self.audio.offset as nat
    }

    /// How many samples have been fed in since the stream began.
    pub closed spec fn samples_fed(&self) -> nat {
        self.audio.fed@
    }

    /// How many lines have been finished.
    pub closed spec fn lines(&self) -> nat {
        self.line_num as nat
    }

    /// The tokens given to the recognizer as context.
    pub closed spec fn prompt(&self) -> Seq<i32> {
        self.prompt_tokens@
    }

    /// The first segment of the latest recognition, not yet finished.
    pub closed spec fn current(&self) -> Option<Segment> {
        self.segment
    }

    /// Samples kept when a line is finished.
    pub closed spec fn keep_samples(&self) -> nat {
        self.n_samples_keep as nat
    }

    /// Samples in one step of audio.
    pub closed spec fn step_samples(&self) -> nat {
        self.n_samples_step as nat
    }

    /// Samples in one line of audio.
    pub closed spec fn len_samples(&self) -> nat {
        self.n_samples_len as nat
    }

    /// The line length in milliseconds.
    pub closed spec fn line_ms(&self) -> nat {
        self.config.length_ms as nat
    }

    /// The most prompt tokens kept.
    pub closed spec fn max_prompt(&self) -> nat {
        self.config.max_prompt_tokens as nat
    }

    /// The prompt tokens the detector was created with.
    pub closed spec fn preset_prompt(&self) -> Seq<i32> {
        self.preset_prompt_tokens@
    }

    /// What holds of every detector between calls: every sample fed is
    /// either still buffered or counted as dropped, and the prompt holds no
    /// more than `max_prompt` tokens. Every call that reads a detector
    /// ensures it, whatever calls the detector went through before.
    pub open spec fn sound(&self) -> bool {
        &&& self.dropped() + self.buffered().len() == self.samples_fed()
        &&& self.prompt().len() <= self.max_prompt()
    }

    /// A detector for a new stream, with nothing buffered and an empty prompt.
    pub fn new(config: WhisperConfig, preset_prompt_tokens: Vec<i32>) -> (d: Detector)
        requires
            config.fits(),
        ensures
            d.sound(),
            d.buffered() == Seq::<i16>::empty(),
            d.dropped() == 0,
            d.samples_fed() == 0,
            d.lines() == 0,
            d.prompt() == Seq::<i32>::empty(),
            d.current() is None,
            d.keep_samples() == samples_for_ms(config.keep_ms as nat),
            d.step_samples() == samples_for_ms(config.step_ms as nat),
            d.len_samples() == samples_for_ms(config.length_ms as nat),
            d.line_ms() == config.length_ms,
            d.max_prompt() == config.max_prompt_tokens,
            d.preset_prompt() == preset_prompt_tokens@,
    {
        let n_samples_keep: usize = config.keep_ms * WHISPER_SAMPLE_RATE / 1000;
        let n_samples_step: usize = config.step_ms * WHISPER_SAMPLE_RATE / 1000;
        let n_samples_len: usize = config.length_ms * WHISPER_SAMPLE_RATE / 1000;
        Detector {
            config,
            segment: None,
            line_num: 0,
            preset_prompt_tokens,
            n_samples_keep,
            n_samples_step,
            n_samples_len,
            prompt_tokens: Vec::new(),
            audio: AudioBuffer {
                pcm: Vec::with_capacity(n_samples_len),
                offset: 0,
                fed: Ghost(0),
            },
        }
    }

    /// The number of samples in one step of audio.
    pub fn n_samples_step(&self) -> (n: usize)
        ensures
            n == self.step_samples(),
            self.sound(),
    {
        proof {
            use_type_invariant(self);
        }
        self.n_samples_step
    }

    /// The buffered audio, for recognition.
    pub fn pcm(&self) -> (pcm: &Vec<i16>)
        ensures
            pcm@ == self.buffered(),
            self.sound(),
    {
        proof {
            use_type_invariant(self);
        }
        &self.audio.pcm
    }

    /// The prompt tokens, for recognition.
    pub fn prompt_tokens(&self) -> (tokens: &Vec<i32>)
        ensures
            tokens@ == self.prompt(),
            self.sound(),
    {
        proof {
            use_type_invariant(self);
        }
        &self.prompt_tokens
    }

    /// How many samples have been dropped from the front of the stream.
    pub fn dropped_samples(&self) -> (n: usize)
        ensures
            n == self.dropped(),
            self.sound(),
    {
        proof {
            use_type_invariant(self);
        }
        self.audio.offset
    }

    /// How many lines have been finished.
    pub fn lines_finished(&self) -> (n: usize)
        ensures
            n == self.lines(),
            self.sound(),
    {
        proof {
            use_type_invariant(self);
        }
        self.line_num
    }

    /// Appends new audio to the buffer.
    pub fn feed(&mut self, new_pcm: Vec<i16>)
        requires
            old(self).buffered().len() + new_pcm@.len() <= usize::MAX,
        ensures
            final(self).sound(),
            final(self).buffered() == old(self).buffered() + new_pcm@,
            final(self).samples_fed() == old(self).samples_fed() + new_pcm@.len(),
            final(self).dropped() == old(self).dropped(),
            final(self).lines() == old(self).lines(),
            final(self).prompt() == old(self).prompt(),
            final(self).current() == old(self).current(),
            settings_kept(*old(self), *final(self)),
    {
        proof {
            use_type_invariant(&*self);
        }
        let mut audio = AudioBuffer::empty();
        std::mem::swap(&mut audio, &mut self.audio);
        let ghost fed: nat = audio.fed@ + new_pcm@.len();
        let mut incoming = new_pcm;
        audio.pcm.append(&mut incoming);
        audio.fed = Ghost(fed);
        self.audio = audio;
        proof {
            use_type_invariant(&*self);
        }
    }

    /// Whether, `elapsed_ms` milliseconds after the stream began, the time for
    /// a new line has come.
    pub fn has_crossed_next_line(&self, elapsed_ms: u128) -> (crossed: bool)
        requires
            self.line_ms() > 0,
        ensures
            crossed == crosses(elapsed_ms, self.line_ms(), self.lines()),
            self.sound(),
    {
        proof {
            use_type_invariant(self);
        }
        let line_number: usize = #[verifier::truncate] ((elapsed_ms / (self.config.length_ms as u128)) as usize);
        line_number > self.line_num
    }

    /// Records the segments of a recognition of the buffered audio: their
    /// times are shifted by the start of the buffer and their text trimmed.
    /// The first becomes the current segment.
    pub fn record_inference(&mut self, raw: Vec<RawSegment>) -> (segments: Vec<Segment>)
        requires
            old(self).dropped() * 1000 <= usize::MAX,
            forall|i: int|
                0 <= i < raw@.len() ==> #[trigger] segment_times_fit(
                    timestamp_offset_ms(old(self).dropped()),
                    raw@[i],
                ),
        ensures
            final(self).sound(),
            segments@.len() == raw@.len(),
            forall|i: int|
                0 <= i < raw@.len() ==> (#[trigger] segments@[i])@ == segment_of(
                    raw@[i].t0,
                    raw@[i].t1,
                    raw@[i].text@,
                    raw@[i].tokens@,
                    timestamp_offset_ms(old(self).dropped()),
                ),
            match final(self).current() {
                Some(s) => raw@.len() > 0 && s@ == segments@[0]@,
                None => raw@.len() == 0,
            },
            final(self).buffered() == old(self).buffered(),
            final(self).dropped() == old(self).dropped(),
            final(self).samples_fed() == old(self).samples_fed(),
            final(self).lines() == old(self).lines(),
            final(self).prompt() == old(self).prompt(),
            settings_kept(*old(self), *final(self)),
    {
        proof {
            use_type_invariant(&*self);
        }
        let offset_ms: i64 = (self.audio.offset * 1000 / WHISPER_SAMPLE_RATE) as i64;
        let mut segments: Vec<Segment> = Vec::with_capacity(raw.len());
        let mut i: usize = 0;
        while i < raw.len()
            invariant
                i <= raw@.len(),
                offset_ms == timestamp_offset_ms(self.dropped()),
                forall|j: int|
                    0 <= j < raw@.len() ==> #[trigger] segment_times_fit(offset_ms as int, raw@[j]),
                segments@.len() == i,
                forall|j: int|
                    0 <= j < i ==> (#[trigger] segments@[j])@ == segment_of(
                        raw@[j].t0,
                        raw@[j].t1,
                        raw@[j].text@,
                        raw@[j].tokens@,
                        offset_ms as int,
                    ),
            decreases raw@.len() - i,
        {
            let r = &raw[i];
            assert(segment_times_fit(offset_ms as int, raw@[i as int]));
            let start_timestamp: i64 = offset_ms + 10 * r.t0;
            let end_timestamp: i64 = offset_ms + 10 * r.t1;
            let segment = Segment {
                start_timestamp,
                end_timestamp,
                text: trim_to_string(r.text.as_str()),
                tokens: copy_tokens(&r.tokens),
            };
            segments.push(segment);
            i = i + 1;
        }
        if segments.len() > 0 {
            self.segment = Some(segments[0].snapshot());
        } else {
            self.segment = None;
        }
        proof {
            use_type_invariant(&*self);
        }
        segments
    }

    /// Adds the current segment's tokens to the prompt, keeping only the
    /// latest `max_prompt_tokens` of them.
    fn remember_prompt(&mut self)
        ensures
            final(self).sound(),
            final(self).prompt() == remembered_prompt(
                old(self).prompt(),
                old(self).current(),
                old(self).max_prompt(),
            ),
            final(self).buffered() == old(self).buffered(),
            final(self).dropped() == old(self).dropped(),
            final(self).samples_fed() == old(self).samples_fed(),
            final(self).lines() == old(self).lines(),
            final(self).current() == old(self).current(),
            settings_kept(*old(self), *final(self)),
    {
        proof {
            use_type_invariant(&*self);
        }
        let tokens: Vec<i32> = match &self.segment {
            None => {
                return;
            },
            Some(segment) => copy_tokens(&segment.tokens),
        };
        let mut tokens = tokens;
        let mut prompt: Vec<i32> = Vec::new();
        std::mem::swap(&mut prompt, &mut self.prompt_tokens);
        prompt.append(&mut tokens);
        let max: usize = self.config.max_prompt_tokens;
        if prompt.len() > max {
            let cut: usize = prompt.len() - max;
            prompt = prompt.split_off(cut);
        }
        self.prompt_tokens = prompt;
        proof {
            use_type_invariant(&*self);
        }
    }

    /// Finishes the current line and hands out the current segment.
    pub fn next_line(&mut self) -> (segment: Option<Segment>)
        requires
            old(self).dropped() + old(self).buffered().len() <= usize::MAX,
            old(self).lines() < usize::MAX,
        ensures
            final(self).sound(),
            segment == old(self).current(),
            line_finished(*old(self), *final(self)),
    {
        proof {
            use_type_invariant(&*self);
        }
        let mut audio = AudioBuffer::empty();
        std::mem::swap(&mut audio, &mut self.audio);
        let len: usize = audio.pcm.len();
        if len > self.n_samples_keep {
            let drain_size: usize = len - self.n_samples_keep;
            audio.pcm = audio.pcm.split_off(drain_size);
            audio.offset = audio.offset + drain_size;
        } else {
            audio.pcm = Vec::new();
            audio.offset = audio.offset + len;
        }
        self.audio = audio;
        self.line_num = self.line_num + 1;
        self.remember_prompt();
        proof {
            use_type_invariant(&*self);
        }
        let mut segment: Option<Segment> = None;
        std::mem::swap(&mut segment, &mut self.segment);
        proof {
            use_type_invariant(&*self);
        }
        segment
    }

    /// Whether the times of these raw segments, shifted by the start of the
    /// buffer, fit in an `i64` (and the shift itself can be computed).
    pub fn timestamps_fit(&self, raw: &Vec<RawSegment>) -> (fit: bool)
        ensures
            fit == (self.dropped() * 1000 <= usize::MAX && forall|i: int|
                0 <= i < raw@.len() ==> #[trigger] segment_times_fit(
                    timestamp_offset_ms(self.dropped()),
                    raw@[i],
                )),
            self.sound(),
    {
        proof {
            use_type_invariant(self);
        }
        let scaled: usize = match self.audio.offset.checked_mul(1000) {
            Some(v) => v,
            None => {
                return false;
            },
        };
        let offset_ms: i64 = (scaled / WHISPER_SAMPLE_RATE) as i64;
        let mut i: usize = 0;
        while i < raw.len()
            invariant
                i <= raw@.len(),
                self.sound(),
                self.dropped() * 1000 <= usize::MAX,
                offset_ms == timestamp_offset_ms(self.dropped()),
                forall|j: int|
                    0 <= j < i ==> #[trigger] segment_times_fit(offset_ms as int, raw@[j]),
            decreases raw@.len() - i,
        {
            let fits0 = match raw[i].t0.checked_mul(10) {
                Some(v) => offset_ms.checked_add(v).is_some(),
                None => false,
            };
            let fits1 = match raw[i].t1.checked_mul(10) {
                Some(v) => offset_ms.checked_add(v).is_some(),
                None => false,
            };
            if !(fits0 && fits1) {
                assert(!segment_times_fit(timestamp_offset_ms(self.dropped()), raw@[i as int]));
                return false;
            }
            assert(segment_times_fit(offset_ms as int, raw@[i as int]));
            i = i + 1;
        }
        true
    }

    /// One clock tick of the streaming loop, `elapsed_ms` after the stream
    /// began: when the time for a new line has come, the line is finished and
    /// its segment, if any, is announced as stable. At most one stable
    /// output leaves per tick, and only when the line count goes up.
    pub fn tick(&mut self, elapsed_ms: u128) -> (outputs: Option<Vec<Output>>)
        requires
            old(self).line_ms() > 0,
            old(self).dropped() + old(self).buffered().len() <= usize::MAX,
            old(self).lines() < usize::MAX,
        ensures
            final(self).sound(),
            if crosses(elapsed_ms, old(self).line_ms(), old(self).lines()) {
                &&& line_finished(*old(self), *final(self))
                &&& match old(self).current() {
                    Some(s) => outputs matches Some(v) && v@.len() == 1 && v@[0] == Output::Stable(s),
                    None => outputs is None,
                }
            } else {
                &&& outputs is None
                &&& *final(self) == *old(self)
            },
    {
        proof {
            use_type_invariant(&*self);
        }
        if self.has_crossed_next_line(elapsed_ms) {
            match self.next_line() {
                Some(segment) => {
                    let mut v: Vec<Output> = Vec::new();
                    v.push(Output::Stable(segment));
                    Some(v)
                },
                None => None,
            }
        } else {
            None
        }
    }

    /// Takes in a step of audio: the frames that voice-activity detection
    /// marked as speech (one verdict per full frame of `VAD_FRAME_SAMPLES`)
    /// join the buffer, with any shorter last frame.
    pub fn accept_audio(&mut self, data: &Vec<i16>, voiced: &Vec<bool>)
        requires
            voiced@.len() == full_frames(data@.len(), VAD_FRAME_SAMPLES as nat),
            old(self).buffered().len() + data@.len() <= usize::MAX,
        ensures
            final(self).sound(),
            final(self).buffered() == old(self).buffered() + voiced_samples(
                data@,
                VAD_FRAME_SAMPLES as nat,
                voiced@,
            ),
            final(self).samples_fed() == old(self).samples_fed() + voiced_samples(
                data@,
                VAD_FRAME_SAMPLES as nat,
                voiced@,
            ).len(),
            final(self).dropped() == old(self).dropped(),
            final(self).lines() == old(self).lines(),
            final(self).prompt() == old(self).prompt(),
            final(self).current() == old(self).current(),
            settings_kept(*old(self), *final(self)),
    {
        let kept = select_voiced_frames(data, VAD_FRAME_SAMPLES, voiced);
        proof {
            lemma_voiced_samples_len(data@, VAD_FRAME_SAMPLES as nat, voiced@);
        }
        self.feed(kept);
    }

    /// Records a recognition of the buffered audio and announces its
    /// segments as unstable; nothing is announced when it found none.
    pub fn inference_outputs(&mut self, raw: Vec<RawSegment>) -> (outputs: Option<Vec<Output>>)
        requires
            old(self).dropped() * 1000 <= usize::MAX,
            forall|i: int|
                0 <= i < raw@.len() ==> #[trigger] segment_times_fit(
                    timestamp_offset_ms(old(self).dropped()),
                    raw@[i],
                ),
        ensures
            final(self).sound(),
            match outputs {
                None => raw@.len() == 0,
                Some(v) => {
                    &&& raw@.len() > 0
                    &&& v@.len() == raw@.len()
                    &&& forall|i: int|
                        0 <= i < raw@.len() ==> (#[trigger] v@[i] matches Output::Unstable(s) && s@
                            == segment_of(
                            raw@[i].t0,
                            raw@[i].t1,
                            raw@[i].text@,
                            raw@[i].tokens@,
                            timestamp_offset_ms(old(self).dropped()),
                        ))
                },
            },
            match final(self).current() {
                Some(s) => raw@.len() > 0 && s@ == segment_of(
                    raw@[0].t0,
                    raw@[0].t1,
                    raw@[0].text@,
                    raw@[0].tokens@,
                    timestamp_offset_ms(old(self).dropped()),
                ),
                None => raw@.len() == 0,
            },
            final(self).buffered() == old(self).buffered(),
            final(self).dropped() == old(self).dropped(),
            final(self).samples_fed() == old(self).samples_fed(),
            final(self).lines() == old(self).lines(),
            final(self).prompt() == old(self).prompt(),
            settings_kept(*old(self), *final(self)),
    {
        let ghost raws = raw@;
        let segments = self.record_inference(raw);
        if segments.len() == 0 {
            None
        } else {
            let outputs = unstable_outputs(&segments);
            assert forall|i: int| 0 <= i < raws.len() implies (#[trigger] outputs@[i] matches Output::Unstable(
                s,
            ) && s@ == segment_of(
                raws[i].t0,
                raws[i].t1,
                raws[i].text@,
                raws[i].tokens@,
                timestamp_offset_ms(old(self).dropped()),
            )) by {
                assert(segments@[i]@ == segment_of(
                    raws[i].t0,
                    raws[i].t1,
                    raws[i].text@,
                    raws[i].tokens@,
                    timestamp_offset_ms(old(self).dropped()),
                ));
            }
            Some(outputs)
        }
    }
}

/// The number of lines finished after a run of clock ticks at the readings
/// `times`, starting from `lines` finished lines of `line_ms` milliseconds.
pub open spec fn lines_after_ticks(lines: nat, times: Seq<u128>, line_ms: nat) -> nat
    decreases times.len(),
{
    if times.len() == 0 {
        lines
    } else {
        let next = if crosses(times[0], line_ms, lines) {
            lines + 1
        } else {
            lines
        };
        lines_after_ticks(next, times.drop_first(), line_ms)
    }
}

/// At most one line (and so at most one stable output) per elapsed line
/// length: after ticks at a clock that never goes back, the finished lines
/// number at most the elapsed time divided by the line length, when they did
/// so at the first reading.
pub proof fn law_one_line_per_window(lines: nat, times: Seq<u128>, line_ms: nat)
    requires
        line_ms > 0,
        times.len() > 0,
        forall|i: int, j: int| 0 <= i <= j < times.len() ==> times[i] <= times[j],
        forall|i: int|
            0 <= i < times.len() ==> (#[trigger] times[i] as int) / (line_ms as int) <= usize::MAX,
        lines <= (times[0] as int) / (line_ms as int),
    ensures
        lines_after_ticks(lines, times, line_ms) <= (times.last() as int) / (line_ms as int),
    decreases times.len(),
{
    let q = (times[0] as int) / (line_ms as int);
    assert(q <= usize::MAX);
    assert(0 <= q);
    assert((q as usize) as int == q);
    let next = if crosses(times[0], line_ms, lines) {
        lines + 1
    } else {
        lines
    };
    assert(next <= q);
    if times.len() == 1 {
        assert(lines_after_ticks(next, times.drop_first(), line_ms) == next);
    } else {
        let rest = times.drop_first();
        assert(rest[0] == times[1]);
        assert(times[0] <= times[1]);
        vstd::arithmetic::div_mod::lemma_div_is_ordered(
            times[0] as int,
            times[1] as int,
            line_ms as int,
        );
        assert forall|i: int, j: int| 0 <= i <= j < rest.len() implies rest[i] <= rest[j] by {
            assert(rest[i] == times[i + 1] && rest[j] == times[j + 1]);
        }
        assert forall|i: int| 0 <= i < rest.len() implies (#[trigger] rest[i] as int) / (
        line_ms as int) <= usize::MAX by {
            assert(rest[i] == times[i + 1]);
        }
        law_one_line_per_window(next, rest, line_ms);
        assert(rest.last() == times.last());
    }
}

/// The sample that a little-endian pair of bytes encodes.
pub open spec fn i16_from_le(lo: u8, hi: u8) -> i16 {
    (((hi as u16) << 8u16) | (lo as u16)) as i16
}

/// The samples that a little-endian byte sequence encodes; an odd trailing
/// byte encodes nothing.
pub open spec fn samples_of_le(bytes: Seq<u8>) -> Seq<i16> {
    Seq::new(bytes.len() / 2, |i: int| i16_from_le(bytes[2 * i], bytes[2 * i + 1]))
}

/// Decodes little-endian bytes into PCM samples, two bytes per sample; an
/// odd trailing byte is dropped.
pub fn u8_to_i16(input: &[u8]) -> (samples: Vec<i16>)
    ensures
        samples@ == samples_of_le(input@),
{
    let len: usize = input.len();
    let n: usize = len / 2;
    let mut samples: Vec<i16> = Vec::with_capacity(n);
    assert(2 * n <= input@.len());
    let mut i: usize = 0;
    while i < n
        invariant
            len == input@.len(),
            n == len / 2,
            2 * n <= len,
            i <= n,
            samples@.len() == i,
            forall|k: int| 0 <= k < i ==> #[trigger] samples@[k] == samples_of_le(input@)[k],
        decreases n - i,
    {
        let lo: u8 = input[2 * i];
        let hi: u8 = input[2 * i + 1];
        let word: u16 = ((hi as u16) << 8u16) | (lo as u16);
        samples.push(#[verifier::truncate] (word as i16));
        i = i + 1;
    }
    assert(samples@ =~= samples_of_le(input@));
    samples
}

proof fn lemma_sample_bytes_round_trip(x: i16)
    ensures
        i16_from_le(x as u8, (x >> 8u32) as u8) == x,
{
    assert((((((x >> 8u32) as u8) as u16) << 8u16) | ((x as u8) as u16)) as i16 == x)
        by (bit_vector);
}

proof fn lemma_bytes_sample_round_trip(lo: u8, hi: u8)
    ensures
        i16_from_le(lo, hi) as u8 == lo,
        (i16_from_le(lo, hi) >> 8u32) as u8 == hi,
{
    assert(((((hi as u16) << 8u16) | (lo as u16)) as i16) as u8 == lo) by (bit_vector);
    assert((((((hi as u16) << 8u16) | (lo as u16)) as i16) >> 8u32) as u8 == hi)
        by (bit_vector);
}

/// Decoding the little-endian bytes of any samples gives the samples back.
pub proof fn law_decode_after_encode(samples: Seq<i16>)
    ensures
        samples_of_le(le_bytes_of(samples)) == samples,
{
    let bytes = le_bytes_of(samples);
    assert forall|i: int| 0 <= i < samples.len() implies #[trigger] samples_of_le(bytes)[i]
        == samples[i] by {
        lemma_sample_bytes_round_trip(samples[i]);
        assert((2 * i) % 2 == 0);
        assert((2 * i + 1) % 2 == 1);
        assert((2 * i) / 2 == i);
        assert((2 * i + 1) / 2 == i);
    }
    assert(samples_of_le(bytes) =~= samples);
}

/// Encoding the samples decoded from an even number of bytes gives the
/// bytes back.
pub proof fn law_encode_after_decode(bytes: Seq<u8>)
    requires
        bytes.len() % 2 == 0,
    ensures
        le_bytes_of(samples_of_le(bytes)) == bytes,
{
    let samples = samples_of_le(bytes);
    assert forall|k: int| 0 <= k < bytes.len() implies #[trigger] le_bytes_of(samples)[k]
        == bytes[k] by {
        let i = k / 2;
        lemma_bytes_sample_round_trip(bytes[2 * i], bytes[2 * i + 1]);
        if k % 2 == 0 {
            assert(k == 2 * i);
        } else {
            assert(k == 2 * i + 1);
        }
    }
    assert(le_bytes_of(samples) =~= bytes);

}

} // verus!
