use vstd::prelude::*;
use vstd::slice::slice_to_vec;
use vstd::string::StringExecFns;

use crate::audio::BLOCK;
use crate::text::{
    chars_of, contains_chars, contains_text, first_word, first_word_of, is_white_space,
    line_pieces, skip_ws, split_lines, string_from_chars,
};

verus! {

/// Silent chunks tolerated inside an utterance before it is closed.
pub const HANGOVER_FRAMES: usize = 40;

/// Longest utterance kept in one piece: 30 s at 16 kHz.
pub const MAX_SEGMENT_SAMPLES: usize = 480000;

/// Shortest stretch of audio worth transcribing: 25 ms at 16 kHz.
pub const MIN_SEGMENT_SAMPLES: usize = 400;

// ---------------------------------------------------------------------------
// Events sent to the user interface
// ---------------------------------------------------------------------------

/// A transcribed utterance of the meeting.
pub struct SegmentEvent {
    pub id: u32,
    pub text: String,
    pub ts: String,
}

/// An utterance waiting for transcription.
pub struct QueuedEvent {
    pub id: u32,
}

/// The recorder was switched on or off.
pub struct StateEvent {
    pub state: &'static str,
}

/// Something went wrong.
pub struct ErrorEvent {
    pub message: String,
}

/// The text of a push-to-talk prompt.
pub struct TtResultEvent {
    pub text: String,
}

/// An utterance cut from the meeting audio, numbered in order.
pub struct Segment {
    pub id: u32,
    pub pcm: Vec<i16>,
    pub ts: String,
}

// ---------------------------------------------------------------------------
// Mixing the microphone with the monitored output
// ---------------------------------------------------------------------------

/// `a + b` clamped to the 16-bit range.
pub open spec fn clamp_sample(v: int) -> i16 {
    (if v < -32768 {
        -32768
    } else if v > 32767 {
        32767
    } else {
        v
    }) as i16
}

/// Sample `i` of `s`, or silence past its end.
pub open spec fn sample_or_silence(s: Seq<i16>, i: int) -> int {
    if i < s.len() {
        s[i] as int
    } else {
        0
    }
}

/// The microphone chunk mixed with the monitor samples waiting, as long as the longer one.
pub open spec fn mixed(input: Seq<i16>, pending: Seq<i16>) -> Seq<i16> {
    let n = if input.len() >= pending.len() {
        input.len()
    } else {
        pending.len()
    };
    Seq::new(
        n,
        |i: int| clamp_sample(sample_or_silence(input, i) + sample_or_silence(pending, i)),
    )
}

/// The monitor samples still waiting once a chunk of `consumed` samples was mixed.
pub open spec fn pending_after_mix(consumed: int, pending: Seq<i16>) -> Seq<i16> {
    if pending.len() > consumed {
        pending.skip(consumed)
    } else {
        Seq::empty()
    }
}

/// Law: with no monitor audio waiting, mixing gives back the microphone chunk and leaves
/// nothing waiting.
pub proof fn law_mix_without_monitor(input: Seq<i16>)
    ensures
        mixed(input, Seq::empty()) == input,
        pending_after_mix(input.len() as int, Seq::<i16>::empty()) == Seq::<i16>::empty(),
{
    assert(mixed(input, Seq::empty()) =~= input);
}

/// Law: monitor audio is neither lost nor reordered: what mixing uses up, followed by what
/// keeps waiting, is what was waiting.
pub proof fn law_mix_consumes_in_order(input: Seq<i16>, pending: Seq<i16>)
    ensures
        pending.len() > input.len() ==> pending.take(input.len() as int) + pending_after_mix(
            input.len() as int,
            pending,
        ) == pending,
        pending.len() <= input.len() ==> pending_after_mix(input.len() as int, pending).len() == 0,
        mixed(input, pending).len() == (if input.len() >= pending.len() {
            input.len()
        } else {
            pending.len()
        }),
{
    if pending.len() > input.len() {
        assert(pending.take(input.len() as int) + pending.skip(input.len() as int) =~= pending);
    }
}

/// Law: mixing is as long as the longer of the two sources, and each mixed sample is the sum
/// of the two samples at that position (a source that has ended counts as silence), clamped
/// to the 16-bit range.
pub proof fn law_mix_is_clamped_sum(input: Seq<i16>, pending: Seq<i16>)
    ensures
        mixed(input, pending).len() == if input.len() >= pending.len() {
            input.len()
        } else {
            pending.len()
        },
        forall|i: int|
            0 <= i < mixed(input, pending).len() ==> {
                let a: int = if i < input.len() {
                    input[i] as int
                } else {
                    0
                };
                let b: int = if i < pending.len() {
                    pending[i] as int
                } else {
                    0
                };
                let v = a + b;
                #[trigger] mixed(input, pending)[i] as int == if v < -32768 {
                    -32768
                } else if v > 32767 {
                    32767
                } else {
                    v
                }
            },
{
}

/// Mixes a microphone chunk with the monitor samples waiting; the monitor samples under the
/// chunk are used up, those past its end keep waiting.
pub fn mix_with_pending(input: &[i16], pending: &mut Vec<i16>) -> (out: Vec<i16>)
    ensures
        out@ == mixed(input@, old(pending)@),
        final(pending)@ == pending_after_mix(input@.len() as int, old(pending)@),
{
    let n = if input.len() >= pending.len() {
        input.len()
    } else {
        pending.len()
    };
    let mut out: Vec<i16> = Vec::with_capacity(n);
    for i in 0..n
        invariant
            n == (if input@.len() >= pending@.len() {
                input@.len()
            } else {
                pending@.len()
            }),
            out@ == mixed(input@, pending@).take(i as int),
    {
        let a: i32 = if i < input.len() {
            input[i] as i32
        } else {
            0
        };
        let b: i32 = if i < pending.len() {
            pending[i] as i32
        } else {
            0
        };
        let v = a + b;
        let c: i32 = if v < -32768 {
            -32768
        } else if v > 32767 {
            32767
        } else {
            v
        };
        out.push(c as i16);
        assert(mixed(input@, pending@).take(i + 1) =~= mixed(input@, pending@).take(i as int).push(
            c as i16,
        ));
    }
    assert(mixed(input@, pending@).take(n as int) =~= mixed(input@, pending@));
    if pending.len() > input.len() {
        let rest = slice_to_vec(&pending.as_slice()[input.len()..pending.len()]);
        *pending = rest;
    } else {
        pending.clear();
    }
    out
}

// ---------------------------------------------------------------------------
// Cutting the meeting into utterances
// ---------------------------------------------------------------------------

/// What a [`Segmenter`] holds: the utterance being recorded, whether speech is going on,
/// and how many silent chunks followed the last speech.
pub struct SegmenterView {
    pub buffer: Seq<i16>,
    pub speaking: bool,
    pub hangover: nat,
}

pub open spec fn idle_view() -> SegmenterView {
    SegmenterView { buffer: Seq::empty(), speaking: false, hangover: 0 }
}

/// A closed utterance is handed on when it is long enough, dropped otherwise.
pub open spec fn kept(buffer: Seq<i16>) -> Option<Seq<i16>> {
    if buffer.len() >= MIN_SEGMENT_SAMPLES {
        Some(buffer)
    } else {
        None
    }
}

/// One chunk of audio, judged speech or not: the next state, whether an utterance started,
/// and the utterance closed by this chunk, if one was kept.
pub open spec fn chunk_step(s: SegmenterView, chunk: Seq<i16>, speech: bool) -> (
    SegmenterView,
    bool,
    Option<Seq<i16>>,
) {
    let started = speech && !s.speaking;
    let (s1, out1) = if speech {
        let base = if s.speaking {
            s.buffer
        } else {
            Seq::<i16>::empty()
        };
        (SegmenterView { buffer: base + chunk, speaking: true, hangover: 0 }, None)
    } else if s.speaking {
        let b = s.buffer + chunk;
        if s.hangover + 1 >= HANGOVER_FRAMES {
            (idle_view(), kept(b))
        } else {
            (SegmenterView { buffer: b, speaking: true, hangover: s.hangover + 1 }, None)
        }
    } else {
        (s, None)
    };
    if s1.speaking && s1.buffer.len() >= MAX_SEGMENT_SAMPLES {
        (idle_view(), started, kept(s1.buffer))
    } else {
        (s1, started, out1)
    }
}

/// The utterance closed when the audio stops (silence timeout or shutdown).
pub open spec fn closing(s: SegmenterView) -> Option<Seq<i16>> {
    if s.speaking && s.buffer.len() > 0 {
        kept(s.buffer)
    } else {
        None
    }
}

pub open spec fn opt_samples(o: Option<Vec<i16>>) -> Option<Seq<i16>> {
    match o {
        Some(v) => Some(v@),
        None => None,
    }
}

/// What one chunk did to the segmenter.
pub struct SpeechStep {
    /// An utterance started with this chunk (its timestamp is now).
    pub started: bool,
    /// The utterance this chunk closed, when it was long enough to keep.
    pub segment: Option<Vec<i16>>,
}

/// Speech detection state of the meeting recorder.
pub struct Segmenter {
    buffer: Vec<i16>,
    speaking: bool,
    hangover: usize,
}

impl View for Segmenter {
    type V = SegmenterView;

    closed spec fn view(&self) -> SegmenterView {
        SegmenterView {
            buffer: self.buffer@,
            speaking: self.speaking,
            hangover: self.hangover as nat,
        }
    }
}

/// Appends `src` to `dst`.
fn append_samples(dst: &mut Vec<i16>, src: &[i16])
    ensures
        final(dst)@ == old(dst)@ + src@,
{
    let n = src.len();
    for i in 0..n
        invariant
            n == src@.len(),
            dst@ == old(dst)@ + src@.take(i as int),
    {
        dst.push(src[i]);
        assert(src@.take(i + 1) =~= src@.take(i as int).push(src@[i as int]));
    }
    assert(src@.take(n as int) =~= src@);
}

fn keep_if_long(buffer: Vec<i16>) -> (r: Option<Vec<i16>>)
    ensures
        opt_samples(r) == kept(buffer@),
{
    if buffer.len() >= MIN_SEGMENT_SAMPLES {
        Some(buffer)
    } else {
        None
    }
}

/// The invariant kept by every segmenter: an idle one holds nothing, and an utterance in
/// progress is shorter than [`MAX_SEGMENT_SAMPLES`] with fewer than [`HANGOVER_FRAMES`]
/// silent chunks.
pub open spec fn segmenter_inv(s: SegmenterView) -> bool {
    &&& !s.speaking ==> s.buffer.len() == 0 && s.hangover == 0
    &&& s.hangover < HANGOVER_FRAMES
    &&& s.speaking ==> s.buffer.len() < MAX_SEGMENT_SAMPLES
}

impl Segmenter {
    #[verifier::type_invariant]
    closed spec fn well_formed(&self) -> bool {
        segmenter_inv(self@)
    }

    pub fn new() -> (s: Self)
        ensures
            s@ == idle_view(),
    {
        Segmenter { buffer: Vec::new(), speaking: false, hangover: 0 }
    }

    pub fn is_speaking(&self) -> (r: bool)
        ensures
            r == self@.speaking,
    {
        self.speaking
    }

    /// Feeds one chunk of audio, judged speech or not.
    pub fn on_chunk(&mut self, chunk: &[i16], speech: bool) -> (r: SpeechStep)
        ensures
            (final(self)@, r.started, opt_samples(r.segment)) == chunk_step(
                old(self)@,
                chunk@,
                speech,
            ),
            segmenter_inv(old(self)@),
            segmenter_inv(final(self)@),
    {
        proof {
            use_type_invariant(&*self);
        }
        let ghost s = self@;
        let mut buffer: Vec<i16> = Vec::new();
        std::mem::swap(&mut buffer, &mut self.buffer);
        let was_speaking = self.speaking;
        let old_hangover = self.hangover;
        let mut speaking = was_speaking;
        let mut hangover = old_hangover;
        let mut segment: Option<Vec<i16>> = None;
        if speech {
            if !was_speaking {
                buffer.clear();
            }
            append_samples(&mut buffer, chunk);
            speaking = true;
            hangover = 0;
        } else if was_speaking {
            append_samples(&mut buffer, chunk);
            hangover = old_hangover + 1;
            if hangover >= HANGOVER_FRAMES {
                segment = keep_if_long(buffer);
                buffer = Vec::new();
                speaking = false;
                hangover = 0;
            }
        }
        if speaking && buffer.len() >= MAX_SEGMENT_SAMPLES {
            segment = keep_if_long(buffer);
            buffer = Vec::new();
            speaking = false;
            hangover = 0;
        }
        *self = Segmenter { buffer, speaking, hangover };
        SpeechStep { started: speech && !was_speaking, segment }
    }

    /// The audio stopped: closes the utterance in progress and becomes idle.
    pub fn on_silence(&mut self) -> (r: Option<Vec<i16>>)
        ensures
            opt_samples(r) == closing(old(self)@),
            final(self)@ == idle_view(),
    {
        proof {
            use_type_invariant(&*self);
        }
        let mut buffer: Vec<i16> = Vec::new();
        std::mem::swap(&mut buffer, &mut self.buffer);
        let segment = if self.speaking && buffer.len() > 0 {
            keep_if_long(buffer)
        } else {
            None
        };
        *self = Segmenter { buffer: Vec::new(), speaking: false, hangover: 0 };
        segment
    }
}

/// Law: every utterance handed on is long enough to transcribe, and shorter than the longest
/// utterance plus the chunk that closed it.
pub proof fn law_segment_length(s: SegmenterView, chunk: Seq<i16>, speech: bool)
    requires
        segmenter_inv(s),
    ensures
        chunk_step(s, chunk, speech).2 matches Some(seg) ==> MIN_SEGMENT_SAMPLES <= seg.len()
            < MAX_SEGMENT_SAMPLES + chunk.len(),
        closing(s) matches Some(seg) ==> MIN_SEGMENT_SAMPLES <= seg.len() < MAX_SEGMENT_SAMPLES,
{
}

/// Law: the samples of an utterance handed on are exactly the chunks fed since the speech
/// began, in order: the buffer only ever grows by whole chunks until it is handed on.
pub proof fn law_segment_is_recorded_audio(s: SegmenterView, chunk: Seq<i16>, speech: bool)
    requires
        segmenter_inv(s),
    ensures
        ({
            let (t, started, out) = chunk_step(s, chunk, speech);
            &&& t.speaking ==> t.buffer == (if started {
                chunk
            } else {
                s.buffer + chunk
            })
            &&& out matches Some(seg) ==> seg == (if started {
                chunk
            } else {
                s.buffer + chunk
            })
        }),
{
}

/// Law: a speech chunk resets the count of silent chunks, and speech closes an utterance only
/// by its length; a silent chunk during speech adds one to the count, and closes the utterance
/// only once the silent chunks in a row reach [`HANGOVER_FRAMES`] or the utterance is too long.
pub proof fn law_hangover_counts_silence_in_a_row(s: SegmenterView, chunk: Seq<i16>)
    requires
        segmenter_inv(s),
    ensures
        chunk_step(s, chunk, true).0.hangover == 0,
        chunk_step(s, chunk, true).2 is Some ==> (if s.speaking {
            s.buffer.len()
        } else {
            0
        }) + chunk.len() >= MAX_SEGMENT_SAMPLES,
        !(chunk_step(s, chunk, true).2 is Some) ==> chunk_step(s, chunk, true).0.speaking,
        s.speaking && s.hangover + 1 < HANGOVER_FRAMES && s.buffer.len() + chunk.len()
            < MAX_SEGMENT_SAMPLES ==> {
            &&& chunk_step(s, chunk, false).0.speaking
            &&& chunk_step(s, chunk, false).0.hangover == s.hangover + 1
            &&& chunk_step(s, chunk, false).0.buffer == s.buffer + chunk
            &&& chunk_step(s, chunk, false).2 is None
        },
        s.speaking && s.hangover + 1 >= HANGOVER_FRAMES ==> !chunk_step(s, chunk, false).0.speaking,
{
}

/// Law: when the audio stops (a silence timeout or the end of the recording), an utterance in
/// progress is handed on whole if it has at least [`MIN_SEGMENT_SAMPLES`] samples, however many
/// silent chunks followed its last speech; nothing is handed on otherwise.
pub proof fn law_stop_flushes_utterance(s: SegmenterView)
    ensures
        s.speaking && s.buffer.len() >= MIN_SEGMENT_SAMPLES ==> closing(s) == Some(s.buffer),
        s.speaking && s.buffer.len() < MIN_SEGMENT_SAMPLES ==> closing(s) is None,
        !s.speaking ==> closing(s) is None,
{
}

/// Law: silence never starts an utterance, and an idle segmenter stays idle on silence.
pub proof fn law_silence_starts_nothing(s: SegmenterView, chunk: Seq<i16>)
    requires
        segmenter_inv(s),
        !s.speaking,
    ensures
        chunk_step(s, chunk, false) == (s, false, None::<Seq<i16>>),
{
}

/// Law: the segmenter invariant holds after every step.
pub proof fn law_invariant_kept(s: SegmenterView, chunk: Seq<i16>, speech: bool)
    requires
        segmenter_inv(s),
    ensures
        segmenter_inv(chunk_step(s, chunk, speech).0),
        segmenter_inv(idle_view()),
{
}

// ---------------------------------------------------------------------------
// Voice activity detection (webrtc-vad)
// ---------------------------------------------------------------------------

#[verifier::external_type_specification]
#[verifier::external_body]
pub struct ExVad(webrtc_vad::Vad);

/// The detector was made at 16 kHz in the very aggressive mode, and only frames have been
/// fed to it since.
pub uninterp spec fn is_speech_detector(vad: webrtc_vad::Vad) -> bool;

/// The frames the detector has processed since it was made, in order.
pub uninterp spec fn frames_seen(vad: webrtc_vad::Vad) -> Seq<Seq<i16>>;

/// Whether a speech detector that has processed `seen` judges `frame` to be speech. The
/// detector's state is a function of the frames it has processed, so its verdict is too.
pub uninterp spec fn vad_decision(seen: Seq<Seq<i16>>, frame: Seq<i16>) -> bool;

/// The frame lengths the detector accepts at 16 kHz: 10, 20 and 30 ms.
pub open spec fn valid_frame_len(n: nat) -> bool {
    n == 160 || n == 320 || n == 480
}

/// `webrtc_vad::Vad::new_with_rate_and_mode`, at 16 kHz in the very aggressive mode: a
/// fresh detector that has processed no frame.
#[verifier::external_body]
fn new_speech_detector() -> (d: webrtc_vad::Vad)
    ensures
        is_speech_detector(d),
        frames_seen(d) == Seq::<Seq<i16>>::empty(),
{
    webrtc_vad::Vad::new_with_rate_and_mode(
        webrtc_vad::SampleRate::Rate16kHz,
        webrtc_vad::VadMode::VeryAggressive,
    )
}

/// `webrtc_vad::Vad::is_voice_segment`: at 16 kHz a frame of 10, 20 or 30 ms is processed
/// and judged as `vad_decision` of the frames seen before; any other length is refused with
/// `Err` and leaves the detector as it was. What the decision is, is not stated: it comes
/// from the detector's adaptive model. The frame must not be empty, since the call reads its
/// first sample.
#[verifier::external_body]
fn vad_verdict(vad: &mut webrtc_vad::Vad, frame: &[i16]) -> (r: Result<bool, ()>)
    requires
        is_speech_detector(*old(vad)),
        frame@.len() > 0,
    ensures
        is_speech_detector(*final(vad)),
        valid_frame_len(frame@.len()) ==> r == Ok::<bool, ()>(
            vad_decision(frames_seen(*old(vad)), frame@),
        ),
        valid_frame_len(frame@.len()) ==> frames_seen(*final(vad)) == frames_seen(*old(vad)).push(
            frame@,
        ),
        !valid_frame_len(frame@.len()) ==> r is Err,
        !valid_frame_len(frame@.len()) ==> frames_seen(*final(vad)) == frames_seen(*old(vad)),
{
    vad.is_voice_segment(frame)
}

/// The whole frames of `pending`, in order: frame `k` is samples `k*BLOCK .. (k+1)*BLOCK`.
pub open spec fn whole_frames(pending: Seq<i16>) -> Seq<Seq<i16>> {
    Seq::new(
        (pending.len() as int / (BLOCK as int)) as nat,
        |k: int| pending.subrange(k * BLOCK, (k + 1) * BLOCK),
    )
}

/// The verdicts of a speech detector that has processed `seen` on `frames`, fed in order:
/// frame `k` is judged after the frames before it.
pub open spec fn verdicts_on(seen: Seq<Seq<i16>>, frames: Seq<Seq<i16>>) -> Seq<Result<bool, ()>> {
    Seq::new(frames.len(), |k: int| Ok::<bool, ()>(vad_decision(seen + frames.take(k), frames[k])))
}

/// The samples left once every whole frame has been judged.
pub open spec fn after_frames(pending: Seq<i16>) -> Seq<i16> {
    pending.skip((pending.len() as int / (BLOCK as int)) * BLOCK)
}

/// The whole frames of `pending`, in order: frame `k` is samples `k*BLOCK .. (k+1)*BLOCK`.
pub fn vad_frames(pending: &Vec<i16>) -> (f: Vec<Vec<i16>>)
    ensures
        f@.len() == pending@.len() as int / (BLOCK as int),
        sample_views(f@) == whole_frames(pending@),
        forall|k: int|
            0 <= k < f@.len() ==> #[trigger] f@[k]@ == pending@.subrange(
                k * BLOCK,
                (k + 1) * BLOCK,
            ),
{
    let len = pending.len();
    let n = len / BLOCK;
    let mut f: Vec<Vec<i16>> = Vec::new();
    for k in 0..n
        invariant
            n == len / BLOCK,
            len == pending@.len(),
            f@.len() == k,
            forall|j: int|
                0 <= j < k ==> #[trigger] f@[j]@ == pending@.subrange(j * BLOCK, (j + 1) * BLOCK),
    {
        assert((k + 1) * BLOCK <= len) by (nonlinear_arith)
            requires
                k < n,
                n == len / BLOCK,
                BLOCK == 480,
        ;
        let frame = slice_to_vec(&pending.as_slice()[k * BLOCK..(k + 1) * BLOCK]);
        f.push(frame);
    }
    assert(sample_views(f@) =~= whole_frames(pending@));
    f
}

/// Number of verdicts that are `Ok`.
pub open spec fn ok_count(v: Seq<Result<bool, ()>>) -> nat
    decreases v.len(),
{
    if v.len() == 0 {
        0
    } else {
        ok_count(v.drop_last()) + if v.last() is Ok {
            1nat
        } else {
            0nat
        }
    }
}

/// Number of verdicts that are `Ok(true)`: frames judged speech.
pub open spec fn speech_count(v: Seq<Result<bool, ()>>) -> nat
    decreases v.len(),
{
    if v.len() == 0 {
        0
    } else {
        speech_count(v.drop_last()) + if v.last() == Ok::<bool, ()>(true) {
            1nat
        } else {
            0nat
        }
    }
}

proof fn lemma_counts(v: Seq<Result<bool, ()>>)
    ensures
        speech_count(v) <= ok_count(v) <= v.len(),
        speech_count(v) > 0 <==> exists|k: int| 0 <= k < v.len() && v[k] == Ok::<bool, ()>(true),
    decreases v.len(),
{
    if v.len() > 0 {
        let d = v.drop_last();
        lemma_counts(d);
        if speech_count(d) > 0 {
            let k = choose|k: int| 0 <= k < d.len() && d[k] == Ok::<bool, ()>(true);
            assert(v[k] == d[k]);
        }
        if v.last() == Ok::<bool, ()>(true) {
            assert(v[v.len() - 1] == Ok::<bool, ()>(true));
        }
        if exists|k: int| 0 <= k < v.len() && v[k] == Ok::<bool, ()>(true) {
            let k = choose|k: int| 0 <= k < v.len() && v[k] == Ok::<bool, ()>(true);
            if k < v.len() - 1 {
                assert(d[k] == v[k]);
            }
        }
    }
}

/// Counts the detector's verdicts: how many frames got a verdict (`Ok`), and how many of
/// those were speech (`Ok(true)`).
pub fn tally(v: &Vec<Result<bool, ()>>) -> (r: (usize, usize))
    ensures
        r.0 == ok_count(v@),
        r.1 == speech_count(v@),
        r.1 <= r.0 <= v@.len(),
        r.1 > 0 <==> exists|k: int| 0 <= k < v@.len() && v@[k] == Ok::<bool, ()>(true),
{
    let n = v.len();
    let mut oks: usize = 0;
    let mut speech: usize = 0;
    for i in 0..n
        invariant
            n == v@.len(),
            oks == ok_count(v@.take(i as int)),
            speech == speech_count(v@.take(i as int)),
    {
        proof {
            lemma_counts(v@.take(i as int));
            assert(v@.take(i + 1).drop_last() =~= v@.take(i as int));
            assert(v@.take(i + 1).last() == v@[i as int]);
        }
        match v[i] {
            Ok(b) => {
                oks = oks + 1;
                if b {
                    speech = speech + 1;
                }
            },
            Err(_) => {},
        }
    }
    assert(v@.take(n as int) =~= v@);
    proof {
        lemma_counts(v@);
    }
    (oks, speech)
}

/// The detector's verdict on each frame, in order.
fn judge_each(vad: &mut webrtc_vad::Vad, frames: &Vec<Vec<i16>>) -> (v: Vec<Result<bool, ()>>)
    requires
        is_speech_detector(*old(vad)),
        forall|k: int| 0 <= k < frames@.len() ==> (#[trigger] frames@[k])@.len() == BLOCK,
    ensures
        is_speech_detector(*final(vad)),
        v@ == verdicts_on(frames_seen(*old(vad)), sample_views(frames@)),
        frames_seen(*final(vad)) == frames_seen(*old(vad)) + sample_views(frames@),
{
    let ghost seen0 = frames_seen(*vad);
    let ghost fv = sample_views(frames@);
    let n = frames.len();
    let mut v: Vec<Result<bool, ()>> = Vec::new();
    assert(fv.take(0) =~= Seq::<Seq<i16>>::empty());
    assert(seen0 + fv.take(0) =~= seen0);
    for k in 0..n
        invariant
            n == frames@.len(),
            fv == sample_views(frames@),
            is_speech_detector(*vad),
            forall|j: int| 0 <= j < frames@.len() ==> (#[trigger] frames@[j])@.len() == BLOCK,
            frames_seen(*vad) == seen0 + fv.take(k as int),
            v@ == verdicts_on(seen0, fv).take(k as int),
    {
        assert(frames@[k as int]@ == fv[k as int]);
        let verdict = vad_verdict(vad, frames[k].as_slice());
        v.push(verdict);
        assert(fv.take(k + 1) =~= fv.take(k as int).push(fv[k as int]));
        assert(seen0 + fv.take(k + 1) =~= (seen0 + fv.take(k as int)).push(fv[k as int]));
        assert(verdicts_on(seen0, fv).take(k + 1) =~= verdicts_on(seen0, fv).take(k as int).push(
            verdict,
        ));
    }
    assert(fv.take(n as int) =~= fv);
    assert(verdicts_on(seen0, fv).take(n as int) =~= verdicts_on(seen0, fv));
    v
}

/// Judges every whole frame of `pending` with the detector, in order (the frames of
/// [`vad_frames`]), and drops them. Returns the verdicts, one per frame.
fn judge_frames(vad: &mut webrtc_vad::Vad, pending: &mut Vec<i16>) -> (v: Vec<Result<bool, ()>>)
    requires
        is_speech_detector(*old(vad)),
    ensures
        is_speech_detector(*final(vad)),
        final(pending)@ == after_frames(old(pending)@),
        v@ == verdicts_on(frames_seen(*old(vad)), whole_frames(old(pending)@)),
        frames_seen(*final(vad)) == frames_seen(*old(vad)) + whole_frames(old(pending)@),
{
    let len = pending.len();
    let frames = vad_frames(pending);
    assert forall|k: int| 0 <= k < frames@.len() implies (#[trigger] frames@[k])@.len() == BLOCK by {
        assert(frames@[k]@ == pending@.subrange(k * BLOCK, (k + 1) * BLOCK));
        assert((k + 1) * BLOCK <= len) by (nonlinear_arith)
            requires
                0 <= k < len as int / (BLOCK as int),
                BLOCK == 480,
        ;
    }
    let verdicts = judge_each(vad, &frames);
    let k = len / BLOCK;
    assert(k * BLOCK <= len) by (nonlinear_arith)
        requires
            k == len / BLOCK,
            BLOCK == 480,
    ;
    let rest = slice_to_vec(&pending.as_slice()[k * BLOCK..len]);
    *pending = rest;
    verdicts
}

// ---------------------------------------------------------------------------
// The meeting pipeline: mixing, detection, cutting, numbering
// ---------------------------------------------------------------------------

/// What a [`MeetingPipeline`] holds.
pub struct PipelineView {
    /// The frames its detector has processed, in order.
    pub seen: Seq<Seq<i16>>,
    pub segmenter: SegmenterView,
    pub monitor_pending: Seq<i16>,
    pub vad_pending: Seq<i16>,
    pub last_id: u32,
}

/// All sample sequences of monitor audio, one after the other.
pub open spec fn concat_samples(parts: Seq<Seq<i16>>) -> Seq<i16>
    decreases parts.len(),
{
    if parts.len() == 0 {
        Seq::empty()
    } else {
        concat_samples(parts.drop_last()) + parts.last()
    }
}

pub open spec fn sample_views(v: Seq<Vec<i16>>) -> Seq<Seq<i16>> {
    v.map_values(|c: Vec<i16>| c@)
}

/// What one microphone chunk did.
pub struct MicStep {
    pub started: bool,
    pub segment: Option<Vec<i16>>,
    /// The detector's verdict on each whole frame judged during this chunk, in order.
    pub verdicts: Vec<Result<bool, ()>>,
    /// Frames that got a verdict during this chunk.
    pub frames: usize,
    /// Of those, frames judged speech.
    pub speech_frames: usize,
}

/// The number the next segment gets (`fetch_add(1) + 1` on a 32-bit counter).
pub open spec fn next_id(last: u32) -> u32 {
    if last == u32::MAX {
        0
    } else {
        (last + 1) as u32
    }
}

/// What [`MeetingPipeline::on_mic_chunk`] does: from `p` to `q`, for the microphone chunk
/// `mic` and the monitor chunks `monitor`, answering `r`.
pub open spec fn mic_chunk_done(
    p: PipelineView,
    q: PipelineView,
    mic: Seq<i16>,
    monitor: Seq<Seq<i16>>,
    r: MicStep,
) -> bool {
    let queued = p.monitor_pending + concat_samples(monitor);
    if mic.len() == 0 {
        &&& q == (PipelineView { monitor_pending: queued, ..p })
        &&& !r.started && r.segment is None && r.frames == 0 && r.speech_frames == 0
        &&& r.verdicts@.len() == 0
    } else {
        let mix = mixed(mic, queued);
        let judged = p.vad_pending + mix;
        let (seg, started, out) = chunk_step(
            p.segmenter,
            mix,
            exists|k: int|
                0 <= k < r.verdicts@.len() && r.verdicts@[k] == Ok::<bool, ()>(true),
        );
        &&& q.monitor_pending == pending_after_mix(mic.len() as int, queued)
        &&& q.vad_pending == after_frames(judged)
        &&& r.verdicts@ == verdicts_on(p.seen, whole_frames(judged))
        &&& q.seen == p.seen + whole_frames(judged)
        &&& r.verdicts@.len() == judged.len() as int / (BLOCK as int)
        &&& r.frames == ok_count(r.verdicts@)
        &&& r.speech_frames == speech_count(r.verdicts@)
        &&& q.segmenter == seg
        &&& r.started == started
        &&& opt_samples(r.segment) == out
        &&& q.last_id == p.last_id
    }
}

/// What the audio thread received.
pub enum Received {
    /// A microphone chunk.
    Chunk(Vec<i16>),
    /// Nothing for a while.
    Timeout,
    /// The microphone channel is closed.
    Disconnected,
}

/// What one turn of the audio thread did.
pub struct LoopStep {
    /// The thread ends.
    pub stop: bool,
    /// What a chunk handled while running did.
    pub mic: Option<MicStep>,
    /// The utterance closed by a timeout or by the stop, when long enough to keep.
    pub flushed: Option<Vec<i16>>,
}

/// The decisions of the meeting recorder's audio thread.
pub struct MeetingPipeline {
    vad: webrtc_vad::Vad,
    segmenter: Segmenter,
    monitor_pending: Vec<i16>,
    vad_pending: Vec<i16>,
    last_id: u32,
}

impl View for MeetingPipeline {
    type V = PipelineView;

    closed spec fn view(&self) -> PipelineView {
        PipelineView {
            seen: frames_seen(self.vad),
            segmenter: self.segmenter@,
            monitor_pending: self.monitor_pending@,
            vad_pending: self.vad_pending@,
            last_id: self.last_id,
        }
    }
}

impl MeetingPipeline {
    /// The pipeline's detector is a speech detector (16 kHz, very aggressive mode) that has
    /// processed only frames: made by [`MeetingPipeline::new`], kept by every method.
    pub closed spec fn wf(&self) -> bool {
        is_speech_detector(self.vad)
    }

    pub fn new() -> (p: Self)
        ensures
            p.wf(),
            p@ == (PipelineView {
                seen: Seq::empty(),
                segmenter: idle_view(),
                monitor_pending: Seq::empty(),
                vad_pending: Seq::empty(),
                last_id: 0,
            }),
    {
        MeetingPipeline {
            vad: new_speech_detector(),
            segmenter: Segmenter::new(),
            monitor_pending: Vec::new(),
            vad_pending: Vec::new(),
            last_id: 0,
        }
    }

    /// Whether an utterance is being recorded.
    pub fn is_speaking(&self) -> (r: bool)
        ensures
            r == self@.segmenter.speaking,
    {
        self.segmenter.is_speaking()
    }

    /// Handles one microphone chunk together with the monitor chunks received before it:
    /// the monitor audio is queued, the chunk is mixed with it and appended to the samples
    /// awaiting detection, and the detector processes each of their whole frames in order
    /// (the frames of [`vad_frames`]). The mixed chunk goes to the segmenter as speech exactly
    /// when some verdict was `Ok(true)`. The verdicts are returned, and counted by [`tally`].
    /// An empty microphone chunk only queues the monitor audio.
    pub fn on_mic_chunk(&mut self, mic: Vec<i16>, monitor: Vec<Vec<i16>>) -> (r: MicStep)
        requires
            old(self).wf(),
        ensures
            final(self).wf(),
            mic_chunk_done(old(self)@, final(self)@, mic@, sample_views(monitor@), r),
    {
        let n = monitor.len();
        let ghost start = self.monitor_pending@;
        for i in 0..n
            invariant
                n == monitor@.len(),
                self.monitor_pending@ == start + concat_samples(
                    sample_views(monitor@).take(i as int),
                ),
                self.segmenter@ == old(self)@.segmenter,
                self.vad_pending@ == old(self)@.vad_pending,
                self.last_id == old(self)@.last_id,
                self.vad == old(self).vad,
                start == old(self)@.monitor_pending,
        {
            append_samples(&mut self.monitor_pending, monitor[i].as_slice());
            assert(sample_views(monitor@).take(i + 1).drop_last() =~= sample_views(monitor@).take(
                i as int,
            ));
        }
        assert(sample_views(monitor@).take(n as int) =~= sample_views(monitor@));
        if mic.len() == 0 {
            return MicStep {
                started: false,
                segment: None,
                verdicts: Vec::new(),
                frames: 0,
                speech_frames: 0,
            };
        }
        let chunk = mix_with_pending(mic.as_slice(), &mut self.monitor_pending);
        append_samples(&mut self.vad_pending, chunk.as_slice());
        let verdicts = judge_frames(&mut self.vad, &mut self.vad_pending);
        let (frames, speech_frames) = tally(&verdicts);
        let step = self.segmenter.on_chunk(chunk.as_slice(), speech_frames > 0);
        MicStep { started: step.started, segment: step.segment, verdicts, frames, speech_frames }
    }

    /// No audio arrived for a while, or the recorder stopped: closes the utterance in
    /// progress.
    pub fn on_silence(&mut self) -> (r: Option<Vec<i16>>)
        ensures
            opt_samples(r) == closing(old(self)@.segmenter),
            final(self)@ == (PipelineView { segmenter: idle_view(), ..old(self)@ }),
            final(self).wf() == old(self).wf(),
    {
        self.segmenter.on_silence()
    }

    /// One turn of the audio thread: a microphone chunk while the recorder runs is handled
    /// as by [`MeetingPipeline::on_mic_chunk`]; a chunk after the recorder stopped closes
    /// the utterance in progress, is itself added to nothing, and ends the thread; a silence
    /// timeout closes the utterance in progress; a closed channel ends the thread.
    pub fn on_received(&mut self, received: Received, running: bool, monitor: Vec<Vec<i16>>) -> (r:
        LoopStep)
        requires
            old(self).wf(),
        ensures
            final(self).wf(),
            match received {
                Received::Chunk(mic) => if running {
                    &&& !r.stop
                    &&& r.flushed is None
                    &&& r.mic matches Some(m) && mic_chunk_done(
                        old(self)@,
                        final(self)@,
                        mic@,
                        sample_views(monitor@),
                        m,
                    )
                } else {
                    &&& r.stop
                    &&& r.mic is None
                    &&& opt_samples(r.flushed) == closing(old(self)@.segmenter)
                    &&& final(self)@ == (PipelineView { segmenter: idle_view(), ..old(self)@ })
                },
                Received::Timeout => {
                    &&& !r.stop
                    &&& r.mic is None
                    &&& opt_samples(r.flushed) == closing(old(self)@.segmenter)
                    &&& final(self)@ == (PipelineView { segmenter: idle_view(), ..old(self)@ })
                },
                Received::Disconnected => {
                    &&& r.stop
                    &&& r.mic is None
                    &&& r.flushed is None
                    &&& final(self)@ == old(self)@
                },
            },
    {
        match received {
            Received::Chunk(mic) => {
                if running {
                    let step = self.on_mic_chunk(mic, monitor);
                    LoopStep { stop: false, mic: Some(step), flushed: None }
                } else {
                    let flushed = self.on_silence();
                    LoopStep { stop: true, mic: None, flushed }
                }
            },
            Received::Timeout => {
                let flushed = self.on_silence();
                LoopStep { stop: false, mic: None, flushed }
            },
            Received::Disconnected => LoopStep { stop: true, mic: None, flushed: None },
        }
    }

    /// Numbers an utterance handed on, with the wall-clock label of its start.
    pub fn queue_segment(&mut self, pcm: Vec<i16>, ts: String) -> (seg: Segment)
        ensures
            seg.id == next_id(old(self)@.last_id),
            seg.pcm == pcm,
            seg.ts == ts,
            final(self)@ == (PipelineView { last_id: seg.id, ..old(self)@ }),
            final(self).wf() == old(self).wf(),
    {
        let id = self.last_id.wrapping_add(1);
        self.last_id = id;
        Segment { id, pcm, ts }
    }
}

/// The event announcing a queued segment.
pub fn queued_event(seg: &Segment) -> (e: QueuedEvent)
    ensures
        e.id == seg.id,
{
    QueuedEvent { id: seg.id }
}

/// The event carrying a segment's transcript; none for an empty transcript.
pub fn segment_event(seg: &Segment, text: String) -> (e: Option<SegmentEvent>)
    ensures
        text@.len() == 0 ==> e is None,
        text@.len() > 0 ==> (e matches Some(ev) && ev.id == seg.id && ev.text == text && ev.ts
            == seg.ts),
{
    if text.as_str().is_empty() {
        None
    } else {
        Some(SegmentEvent { id: seg.id, text, ts: seg.ts.clone() })
    }
}

// ---------------------------------------------------------------------------
// Finding the monitor source in `pactl list sources short`
// ---------------------------------------------------------------------------

pub open spec fn monitor_text() -> Seq<char> {
    seq!['m', 'o', 'n', 'i', 't', 'o', 'r']
}

pub open spec fn running_text() -> Seq<char> {
    seq!['R', 'U', 'N', 'N', 'I', 'N', 'G']
}

pub open spec fn is_monitor_line(l: Seq<char>) -> bool {
    contains_text(l, monitor_text())
}

pub open spec fn is_running_monitor_line(l: Seq<char>) -> bool {
    contains_text(l, monitor_text()) && contains_text(l, running_text())
}

/// `i` is the first line satisfying `running ? is_running_monitor_line : is_monitor_line`.
pub open spec fn first_line_with(lines: Seq<Seq<char>>, running: bool, i: int) -> bool {
    &&& 0 <= i < lines.len()
    &&& if running {
        is_running_monitor_line(lines[i])
    } else {
        is_monitor_line(lines[i])
    }
    &&& forall|j: int|
        0 <= j < i ==> !(if running {
            is_running_monitor_line(#[trigger] lines[j])
        } else {
            is_monitor_line(lines[j])
        })
}

/// The source to record the output from: the first word of the first monitor line that is
/// running, else of the first monitor line; `None` when no line mentions a monitor.
pub open spec fn monitor_source(listing: Seq<char>) -> Option<Seq<char>> {
    let ls = line_pieces(listing);
    if exists|i: int| first_line_with(ls, true, i) {
        first_word(ls[choose|i: int| first_line_with(ls, true, i)])
    } else if exists|i: int| first_line_with(ls, false, i) {
        first_word(ls[choose|i: int| first_line_with(ls, false, i)])
    } else {
        None
    }
}

proof fn lemma_first_line_unique(lines: Seq<Seq<char>>, running: bool, i: int, k: int)
    requires
        first_line_with(lines, running, i),
        first_line_with(lines, running, k),
    ensures
        i == k,
{
    if i < k {
        assert(!(if running {
            is_running_monitor_line(lines[i])
        } else {
            is_monitor_line(lines[i])
        }));
    } else if k < i {
        assert(!(if running {
            is_running_monitor_line(lines[k])
        } else {
            is_monitor_line(lines[k])
        }));
    }
}

proof fn lemma_skip_ws_before_word(s: Seq<char>, a: int, i: int)
    requires
        0 <= a <= i < s.len(),
        !is_white_space(s[i]),
    ensures
        skip_ws(s, a) <= i,
    decreases i - a,
{
    if is_white_space(s[a]) {
        lemma_skip_ws_before_word(s, a + 1, i);
    }
}

/// A line that mentions a monitor has a first word.
proof fn lemma_monitor_line_has_word(l: Seq<char>)
    requires
        contains_text(l, monitor_text()),
    ensures
        first_word(l) is Some,
{
    let i = choose|i: int| crate::text::occurs_at(l, monitor_text(), i);
    assert(l.subrange(i, i + 7)[0] == 'm');
    assert(l[i] == 'm');
    lemma_skip_ws_before_word(l, 0, i);
}

/// The first index of a line of `lines` of the given kind.
fn find_line(lines: &Vec<Vec<char>>, running: bool, ghost_lines: Ghost<Seq<Seq<char>>>) -> (r:
    Option<usize>)
    requires
        lines@.len() == ghost_lines@.len(),
        forall|k: int| 0 <= k < lines@.len() ==> #[trigger] lines@[k]@ == ghost_lines@[k],
    ensures
        r matches Some(i) ==> first_line_with(ghost_lines@, running, i as int),
        r is None ==> !exists|i: int| first_line_with(ghost_lines@, running, i),
{
    let mon = vec!['m', 'o', 'n', 'i', 't', 'o', 'r'];
    let run = vec!['R', 'U', 'N', 'N', 'I', 'N', 'G'];
    assert(mon@ =~= monitor_text());
    assert(run@ =~= running_text());
    let n = lines.len();
    for i in 0..n
        invariant
            n == lines@.len(),
            lines@.len() == ghost_lines@.len(),
            forall|k: int| 0 <= k < lines@.len() ==> #[trigger] lines@[k]@ == ghost_lines@[k],
            mon@ == monitor_text(),
            run@ == running_text(),
            forall|j: int|
                0 <= j < i ==> !(if running {
                    is_running_monitor_line(#[trigger] ghost_lines@[j])
                } else {
                    is_monitor_line(ghost_lines@[j])
                }),
    {
        let line = &lines[i];
        assert(line@ == ghost_lines@[i as int]);
        let hit = if running {
            contains_chars(line, &mon) && contains_chars(line, &run)
        } else {
            contains_chars(line, &mon)
        };
        if hit {
            return Some(i);
        }
    }
    proof {
        assert forall|i: int| !first_line_with(ghost_lines@, running, i) by {
            if 0 <= i < ghost_lines@.len() {
                let _ = ghost_lines@[i];
            }
        }
    }
    None
}

/// The PulseAudio source to record the output from, read from the listing of
/// `pactl list sources short`.
pub fn pick_monitor_source(listing: &str) -> (r: Option<String>)
    ensures
        match monitor_source(listing@) {
            Some(w) => r is Some && r->0@ == w,
            None => r is None,
        },
{
    let cs = chars_of(listing);
    let lines = split_lines(&cs);
    let ghost ls = line_pieces(listing@);
    let found = match find_line(&lines, true, Ghost(ls)) {
        Some(i) => Some(i),
        None => find_line(&lines, false, Ghost(ls)),
    };
    match found {
        None => None,
        Some(i) => {
            proof {
                if exists|k: int| first_line_with(ls, true, k) {
                    let k = choose|k: int| first_line_with(ls, true, k);
                    lemma_first_line_unique(ls, true, i as int, k);
                } else {
                    let k = choose|k: int| first_line_with(ls, false, k);
                    lemma_first_line_unique(ls, false, i as int, k);
                }
                assert(lines@[i as int]@ == ls[i as int]);
                lemma_monitor_line_has_word(ls[i as int]);
            }
            match first_word_of(&lines[i]) {
                Some(w) => Some(string_from_chars(w.as_slice())),
                None => None,
            }
        },
    }
}

// ---------------------------------------------------------------------------
// Switching the meeting recorder on
// ---------------------------------------------------------------------------

/// Where a start of the meeting recorder stands.
pub enum StartPhase {
    /// The start was asked for.
    Requested,
    /// The microphone is being opened.
    OpeningMic,
    /// A monitor input device is being looked for.
    FindingMonitor,
    /// The monitor input device found is being opened.
    OpeningCpalMonitor,
    /// `parec` is being started on the PulseAudio monitor source.
    SpawningParec,
    /// The start is over.
    Finished,
}

/// What happened in the step just taken.
pub enum StartEvent {
    Begin { running: bool },
    MicOpened { ok: bool },
    MonitorSearched { found: bool },
    CpalMonitorOpened { ok: bool },
    ParecSpawned { ok: bool },
}

/// What the recorder does next.
pub enum StartAction {
    /// It was already recording: nothing to do, the start succeeds.
    AlreadyOn,
    /// Mark the recorder running and open the microphone.
    OpenMic,
    /// Look for a monitor input device.
    FindCpalMonitor,
    /// Open the monitor input device found.
    OpenCpalMonitor,
    /// Record the PulseAudio monitor source with `parec`.
    SpawnParec,
    /// The microphone failed: mark the recorder stopped, announce "off", fail with its error.
    AbortMicFailed,
    /// The monitor device failed: stop the recorder (announcing "off"), fail with its error.
    AbortMonitorFailed,
    /// No monitor is available: stop the recorder (announcing "off"), fail with
    /// [`no_monitor_message`].
    AbortNoMonitor,
    /// Announce "on"; the start succeeds.
    Announce,
}

/// The event fits the phase.
pub open spec fn start_accepts(p: StartPhase, e: StartEvent) -> bool {
    match (p, e) {
        (StartPhase::Requested, StartEvent::Begin { .. }) => true,
        (StartPhase::OpeningMic, StartEvent::MicOpened { .. }) => true,
        (StartPhase::FindingMonitor, StartEvent::MonitorSearched { .. }) => true,
        (StartPhase::OpeningCpalMonitor, StartEvent::CpalMonitorOpened { .. }) => true,
        (StartPhase::SpawningParec, StartEvent::ParecSpawned { .. }) => true,
        _ => false,
    }
}

/// One step of a start: the microphone first, then a monitor input device, then `parec`.
pub open spec fn start_transition(p: StartPhase, e: StartEvent) -> (StartPhase, StartAction) {
    match (p, e) {
        (StartPhase::Requested, StartEvent::Begin { running }) => if running {
            (StartPhase::Finished, StartAction::AlreadyOn)
        } else {
            (StartPhase::OpeningMic, StartAction::OpenMic)
        },
        (StartPhase::OpeningMic, StartEvent::MicOpened { ok }) => if ok {
            (StartPhase::FindingMonitor, StartAction::FindCpalMonitor)
        } else {
            (StartPhase::Finished, StartAction::AbortMicFailed)
        },
        (StartPhase::FindingMonitor, StartEvent::MonitorSearched { found }) => if found {
            (StartPhase::OpeningCpalMonitor, StartAction::OpenCpalMonitor)
        } else {
            (StartPhase::SpawningParec, StartAction::SpawnParec)
        },
        (StartPhase::OpeningCpalMonitor, StartEvent::CpalMonitorOpened { ok }) => if ok {
            (StartPhase::Finished, StartAction::Announce)
        } else {
            (StartPhase::Finished, StartAction::AbortMonitorFailed)
        },
        (StartPhase::SpawningParec, StartEvent::ParecSpawned { ok }) => if ok {
            (StartPhase::Finished, StartAction::Announce)
        } else {
            (StartPhase::Finished, StartAction::AbortNoMonitor)
        },
        _ => (p, StartAction::AlreadyOn),
    }
}

/// The next phase and action of a start of the meeting recorder.
pub fn recorder_start_step(phase: StartPhase, event: StartEvent) -> (r: (StartPhase, StartAction))
    requires
        start_accepts(phase, event),
    ensures
        r == start_transition(phase, event),
{
    match (phase, event) {
        (StartPhase::Requested, StartEvent::Begin { running }) => if running {
            (StartPhase::Finished, StartAction::AlreadyOn)
        } else {
            (StartPhase::OpeningMic, StartAction::OpenMic)
        },
        (StartPhase::OpeningMic, StartEvent::MicOpened { ok }) => if ok {
            (StartPhase::FindingMonitor, StartAction::FindCpalMonitor)
        } else {
            (StartPhase::Finished, StartAction::AbortMicFailed)
        },
        (StartPhase::FindingMonitor, StartEvent::MonitorSearched { found }) => if found {
            (StartPhase::OpeningCpalMonitor, StartAction::OpenCpalMonitor)
        } else {
            (StartPhase::SpawningParec, StartAction::SpawnParec)
        },
        (StartPhase::OpeningCpalMonitor, StartEvent::CpalMonitorOpened { ok }) => if ok {
            (StartPhase::Finished, StartAction::Announce)
        } else {
            (StartPhase::Finished, StartAction::AbortMonitorFailed)
        },
        (StartPhase::SpawningParec, StartEvent::ParecSpawned { ok }) => if ok {
            (StartPhase::Finished, StartAction::Announce)
        } else {
            (StartPhase::Finished, StartAction::AbortNoMonitor)
        },
        (p, _) => (p, StartAction::AlreadyOn),
    }
}

/// The error of a start that found no monitor.
pub fn no_monitor_message() -> (m: String)
    ensures
        m@ == "nenhum dispositivo de monitor disponível"@,
{
    String::from_str("nenhum dispositivo de monitor disponível")
}

/// The actions that end a start.
pub open spec fn ends_start(a: StartAction) -> bool {
    a is AlreadyOn || a is AbortMicFailed || a is AbortMonitorFailed || a is AbortNoMonitor
        || a is Announce
}

/// The actions that announce "off".
pub open spec fn announces_off(a: StartAction) -> bool {
    a is AbortMicFailed || a is AbortMonitorFailed || a is AbortNoMonitor
}

/// The events of a start, given what the recorder finds at each step.
pub open spec fn start_events(
    running: bool,
    mic_ok: bool,
    found: bool,
    cpal_ok: bool,
    parec_ok: bool,
) -> Seq<StartEvent> {
    if running {
        seq![StartEvent::Begin { running: true }]
    } else if !mic_ok {
        seq![StartEvent::Begin { running: false }, StartEvent::MicOpened { ok: false }]
    } else if found {
        seq![
            StartEvent::Begin { running: false },
            StartEvent::MicOpened { ok: true },
            StartEvent::MonitorSearched { found: true },
            StartEvent::CpalMonitorOpened { ok: cpal_ok },
        ]
    } else {
        seq![
            StartEvent::Begin { running: false },
            StartEvent::MicOpened { ok: true },
            StartEvent::MonitorSearched { found: false },
            StartEvent::ParecSpawned { ok: parec_ok },
        ]
    }
}

/// Feeds `events` to the start from phase `p`: the last phase and the actions taken.
pub open spec fn run_start(p: StartPhase, events: Seq<StartEvent>) -> (StartPhase, Seq<StartAction>)
    decreases events.len(),
{
    if events.len() == 0 {
        (p, Seq::empty())
    } else {
        let (q, a) = start_transition(p, events[0]);
        let (r, rest) = run_start(q, events.drop_first());
        (r, seq![a] + rest)
    }
}

/// Law: a start of the recorder ends in one step when it was already recording, and
/// otherwise opens the microphone, then tries a monitor input device, and only when there is
/// none falls back to `parec`. Every start ends with exactly one ending action, the last;
/// it announces "on" exactly when the microphone and the chosen monitor opened, and "off"
/// otherwise.
pub proof fn law_start_order(running: bool, mic_ok: bool, found: bool, cpal_ok: bool, parec_ok: bool)
    ensures
        ({
            let (end, acts) = run_start(
                StartPhase::Requested,
                start_events(running, mic_ok, found, cpal_ok, parec_ok),
            );
            &&& end is Finished
            &&& acts.len() > 0
            &&& running ==> acts == seq![StartAction::AlreadyOn]
            &&& !running ==> acts[0] is OpenMic
            &&& ends_start(acts.last())
            &&& forall|i: int| 0 <= i < acts.len() - 1 ==> !ends_start(#[trigger] acts[i])
            &&& (acts.last() is Announce <==> !running && mic_ok && (if found {
                cpal_ok
            } else {
                parec_ok
            }))
            &&& (announces_off(acts.last()) <==> !running && !(mic_ok && (if found {
                cpal_ok
            } else {
                parec_ok
            })))
            &&& (acts.contains(StartAction::SpawnParec) <==> !running && mic_ok && !found)
            &&& (acts.contains(StartAction::OpenCpalMonitor) <==> !running && mic_ok && found)
            &&& (acts.last() is AbortNoMonitor <==> !running && mic_ok && !found && !parec_ok)
        }),
{
    reveal_with_fuel(run_start, 5);
    let events = start_events(running, mic_ok, found, cpal_ok, parec_ok);
    let (end, acts) = run_start(StartPhase::Requested, events);
    if running {
        assert(acts =~= seq![StartAction::AlreadyOn]);
    } else if !mic_ok {
        assert(acts =~= seq![StartAction::OpenMic, StartAction::AbortMicFailed]);
    } else if found {
        let last = if cpal_ok {
            StartAction::Announce
        } else {
            StartAction::AbortMonitorFailed
        };
        assert(acts =~= seq![
            StartAction::OpenMic,
            StartAction::FindCpalMonitor,
            StartAction::OpenCpalMonitor,
            last,
        ]);
        assert(acts[2] == StartAction::OpenCpalMonitor);
    } else {
        let last = if parec_ok {
            StartAction::Announce
        } else {
            StartAction::AbortNoMonitor
        };
        assert(acts =~= seq![
            StartAction::OpenMic,
            StartAction::FindCpalMonitor,
            StartAction::SpawnParec,
            last,
        ]);
        assert(acts[2] == StartAction::SpawnParec);
    }
}

} // verus!
