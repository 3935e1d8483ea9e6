use vstd::prelude::*;
use vstd::slice::slice_to_vec;
use vstd::string::StringExecFns;

use crate::pcm::{sample_from_bytes, samples_from_le};
use crate::text::{chars_of, decimal, decimal2, digit, push_decimal, push_decimal2, string_from_chars};

verus! {

/// Length of one transcription segment of a video, in seconds.
pub const SEG_SEC: usize = 30;

/// Samples in one full segment (at 16 kHz).
pub const SEG_SAMPLES: usize = 480000;

/// Bytes of 16-bit PCM in one full segment.
pub const SEG_BYTES: usize = 960000;

// ---------------------------------------------------------------------------
// Events sent to the user interface
// ---------------------------------------------------------------------------

/// A transcribed segment of a video.
pub struct VideoSegmentEvent {
    pub index: usize,
    pub ts: String,
    pub text: String,
}

/// How many segments of a video are done.
pub struct VideoProgressEvent {
    pub done: usize,
    pub total: usize,
}

/// The whole transcription of a video.
pub struct VideoDoneEvent {
    pub segments: usize,
    pub text: String,
}

/// A failed video transcription.
pub struct VideoErrorEvent {
    pub message: String,
}

// ---------------------------------------------------------------------------
// The job switch: at most one video transcription at a time
// ---------------------------------------------------------------------------

/// What a [`VideoJob`] records: whether a job runs, and whether cancelling was asked for.
pub struct JobState {
    pub running: bool,
    pub canceled: bool,
}

/// State and answer of `try_start`.
pub open spec fn started(s: JobState) -> (JobState, bool) {
    if s.running {
        (s, false)
    } else {
        (JobState { running: true, canceled: false }, true)
    }
}

/// State after `finish`.
pub open spec fn finished(s: JobState) -> JobState {
    JobState { running: false, canceled: s.canceled }
}

/// State after `cancel`.
pub open spec fn cancel_requested(s: JobState) -> JobState {
    JobState { running: s.running, canceled: true }
}

/// The single video transcription slot and its cancel flag.
pub struct VideoJob {
    cancel: bool,
    running: bool,
}

impl View for VideoJob {
    type V = JobState;

    closed spec fn view(&self) -> JobState {
        JobState { running: self.running, canceled: self.cancel }
    }
}

impl VideoJob {
    pub fn new() -> (job: Self)
        ensures
            job@ == (JobState { running: false, canceled: false }),
    {
        VideoJob { cancel: false, running: false }
    }

    pub fn is_running(&self) -> (r: bool)
        ensures
            r == self@.running,
    {
        self.running
    }

    /// Claims the slot; refused while a job runs. A new job starts uncancelled.
    pub fn try_start(&mut self) -> (ok: bool)
        ensures
            (final(self)@, ok) == started(old(self)@),
    {
        if self.running {
            return false;
        }
        self.cancel = false;
        self.running = true;
        true
    }

    /// Releases the slot.
    pub fn finish(&mut self)
        ensures
            final(self)@ == finished(old(self)@),
    {
        self.running = false;
    }

    /// Asks the running job to stop.
    pub fn cancel(&mut self)
        ensures
            final(self)@ == cancel_requested(old(self)@),
    {
        self.cancel = true;
    }

    pub fn is_canceled(&self) -> (r: bool)
        ensures
            r == self@.canceled,
    {
        self.cancel
    }
}

/// Law: a start asked for while a job runs is refused and changes nothing, a pending cancel
/// request included; a start while no job runs is accepted and gives a running job with no
/// cancel request.
pub proof fn law_refused_start_keeps_state(s: JobState)
    ensures
        s.running ==> !started(s).1 && started(s).0.running && started(s).0.canceled == s.canceled,
        !s.running ==> started(s).1 && started(s).0.running && !started(s).0.canceled,
{
}

/// Law: while a job runs, a second start is refused and changes nothing.
pub proof fn law_second_start_refused(s: JobState)
    ensures
        !started(started(s).0).1,
        started(started(s).0).0 == started(s).0,
{
}

/// Law: once a job has finished, the next start is accepted.
pub proof fn law_restart_after_finish(s: JobState)
    ensures
        started(finished(s)).1,
        started(finished(s)).0 == (JobState { running: true, canceled: false }),
{
}

/// Law: a cancel request is observable, and neither starts nor stops a job.
pub proof fn law_cancel_observable(s: JobState)
    ensures
        cancel_requested(s).canceled,
        cancel_requested(s).running == s.running,
{
}

/// Law: a cancel asked for while no job runs does not reach the next job.
pub proof fn law_stale_cancel_cleared(s: JobState)
    requires
        !s.running,
    ensures
        started(cancel_requested(s)).1,
        !started(cancel_requested(s)).0.canceled,
{
}

/// A call on a [`VideoJob`].
pub enum JobCall {
    TryStart,
    Finish,
    Cancel,
    /// `is_running` or `is_canceled`, which change nothing.
    Query,
}

/// State after one call.
pub open spec fn after_call(s: JobState, c: JobCall) -> JobState {
    match c {
        JobCall::TryStart => started(s).0,
        JobCall::Finish => finished(s),
        JobCall::Cancel => cancel_requested(s),
        JobCall::Query => s,
    }
}

/// State after a sequence of calls, from `s`.
pub open spec fn after_calls(s: JobState, calls: Seq<JobCall>) -> JobState
    decreases calls.len(),
{
    if calls.len() == 0 {
        s
    } else {
        after_call(after_calls(s, calls.drop_last()), calls.last())
    }
}

/// The state of a new job.
pub open spec fn new_job() -> JobState {
    JobState { running: false, canceled: false }
}

/// Call `i` is a `try_start` that was accepted, on a job made by `new`.
pub open spec fn start_accepted(calls: Seq<JobCall>, i: int) -> bool {
    calls[i] is TryStart && !after_calls(new_job(), calls.take(i)).running
}

/// Law: after any sequence of calls on a new job, it runs exactly when some `try_start` was
/// accepted and no `finish` came after it; `cancel` and queries never change whether it runs.
pub proof fn law_running_after_calls(calls: Seq<JobCall>)
    ensures
        after_calls(new_job(), calls).running <==> exists|i: int|
            0 <= i < calls.len() && #[trigger] start_accepted(calls, i) && forall|j: int|
                i < j < calls.len() ==> !(calls[j] is Finish),
    decreases calls.len(),
{
    if calls.len() > 0 {
        let d = calls.drop_last();
        let n = calls.len() - 1;
        law_running_after_calls(d);
        assert forall|i: int| 0 <= i <= n implies #[trigger] calls.take(i) == d.take(i) by {
            assert(calls.take(i) =~= d.take(i));
        }
        assert(calls.take(n) =~= d);
        let before = after_calls(new_job(), d);
        if exists|i: int|
            0 <= i < d.len() && #[trigger] start_accepted(d, i) && forall|j: int|
                i < j < d.len() ==> !(d[j] is Finish) {
            let i = choose|i: int|
                0 <= i < d.len() && #[trigger] start_accepted(d, i) && forall|j: int|
                    i < j < d.len() ==> !(d[j] is Finish);
            assert(start_accepted(calls, i));
            if !(calls.last() is Finish) {
                assert forall|j: int| i < j < calls.len() implies !(calls[j] is Finish) by {
                    if j < n {
                        assert(calls[j] == d[j]);
                    }
                }
            }
        }
        if calls.last() is TryStart && !before.running {
            assert(start_accepted(calls, n));
        }
        if exists|i: int|
            0 <= i < calls.len() && #[trigger] start_accepted(calls, i) && forall|j: int|
                i < j < calls.len() ==> !(calls[j] is Finish) {
            let i = choose|i: int|
                0 <= i < calls.len() && #[trigger] start_accepted(calls, i) && forall|j: int|
                    i < j < calls.len() ==> !(calls[j] is Finish);
            if i < n {
                assert(calls.last() == calls[n]);
                assert(start_accepted(d, i));
                assert forall|j: int| i < j < d.len() implies !(d[j] is Finish) by {
                    assert(calls[j] == d[j]);
                }
            }
        }
    }
}

// ---------------------------------------------------------------------------
// PCM decoding and timestamps
// ---------------------------------------------------------------------------

/// 16-bit little-endian PCM bytes as samples; a trailing odd byte is ignored.
pub fn bytes_to_i16(bytes: &[u8]) -> (r: Vec<i16>)
    ensures
        r@ == samples_from_le(bytes@),
{
    let n = bytes.len() / 2;
    let mut r: Vec<i16> = Vec::new();
    for i in 0..n
        invariant
            n == bytes@.len() / 2,
            r@ == samples_from_le(bytes@).take(i as int),
    {
        let len = bytes.len();
        assert(2 * i + 1 < len) by (nonlinear_arith)
            requires
                i < n,
                n == len / 2,
        ;
        r.push(sample_from_bytes(bytes[2 * i], bytes[2 * i + 1]));
        assert(samples_from_le(bytes@).take(i + 1) =~= samples_from_le(bytes@).take(i as int).push(
            samples_from_le(bytes@)[i as int],
        ));
    }
    assert(samples_from_le(bytes@).take(n as int) =~= samples_from_le(bytes@));
    r
}

/// `HH:MM:SS` for an offset in seconds; the hours take more digits when needed.
pub open spec fn timestamp_text(secs: nat) -> Seq<char> {
    decimal2(secs / 3600) + seq![':'] + decimal2((secs / 60) % 60) + seq![':'] + decimal2(
        secs % 60,
    )
}

/// The label of an offset in seconds, as `HH:MM:SS`.
pub fn fmt_ts(secs: usize) -> (r: String)
    ensures
        r@ == timestamp_text(secs as nat),
{
    let mut cs: Vec<char> = Vec::new();
    push_decimal2(&mut cs, secs / 3600);
    cs.push(':');
    push_decimal2(&mut cs, (secs / 60) % 60);
    cs.push(':');
    push_decimal2(&mut cs, secs % 60);
    string_from_chars(cs.as_slice())
}

proof fn lemma_decimal2_len(n: nat)
    requires
        n < 100,
    ensures
        decimal2(n).len() == 2,
{
    if n >= 10 {
        assert(decimal(n / 10).len() == 1);
    }
}

/// Law: minutes and seconds always take two digits each; under a hundred hours the whole
/// label reads `HH:MM:SS`.
pub proof fn law_timestamp_shape(secs: nat)
    ensures
        timestamp_text(secs).len() == decimal2(secs / 3600).len() + 6,
        secs < 360000 ==> {
            &&& timestamp_text(secs).len() == 8
            &&& timestamp_text(secs)[2] == ':'
            &&& timestamp_text(secs)[5] == ':'
        },
{
    lemma_decimal2_len((secs / 60) % 60);
    lemma_decimal2_len(secs % 60);
    if secs < 360000 {
        lemma_decimal2_len(secs / 3600);
    }
}

/// Value of a decimal digit character.
pub open spec fn digit_value(c: char) -> int {
    c as u32 as int - 48
}

/// `c` is one of `'0'..='9'`.
pub open spec fn is_digit_char(c: char) -> bool {
    48 <= c as u32 <= 57
}

/// `a` comes before `b` in the lexicographic order of strings (`str`'s `<` on these ASCII
/// labels): at the first position where they differ `a` has the smaller character, or `a` is
/// a proper prefix of `b`.
pub open spec fn text_lt(a: Seq<char>, b: Seq<char>) -> bool {
    ||| exists|i: int|
        0 <= i < a.len() && i < b.len() && #[trigger] a.take(i) == b.take(i) && (a[i] as u32) < (
        b[i] as u32)
    ||| a.len() < b.len() && b.take(a.len() as int) == a
}

proof fn lemma_digit(d: nat)
    requires
        d < 10,
    ensures
        digit(d) as u32 == d + 48,
        is_digit_char(digit(d)),
        digit_value(digit(d)) == d,
{
}

proof fn lemma_decimal2_digits(n: nat)
    requires
        n < 100,
    ensures
        decimal2(n) == seq![digit(n / 10), digit(n % 10)],
{
    if n < 10 {
        assert(digit(0) == '0');
        assert(decimal2(n) =~= seq![digit(n / 10), digit(n % 10)]);
    } else {
        assert(decimal(n / 10) == seq![digit(n / 10)]);
        assert(decimal2(n) =~= seq![digit(n / 10), digit(n % 10)]);
    }
}

/// The six digits of a label under a hundred hours.
pub open spec fn ts_digits(secs: nat) -> Seq<nat> {
    seq![
        (secs / 3600) / 10,
        (secs / 3600) % 10,
        ((secs / 60) % 60) / 10,
        ((secs / 60) % 60) % 10,
        (secs % 60) / 10,
        (secs % 60) % 10,
    ]
}

proof fn lemma_ts_chars(secs: nat)
    requires
        secs < 360000,
    ensures
        ({
            let d = ts_digits(secs);
            &&& timestamp_text(secs) == seq![
                digit(d[0]),
                digit(d[1]),
                ':',
                digit(d[2]),
                digit(d[3]),
                ':',
                digit(d[4]),
                digit(d[5]),
            ]
            &&& d[0] <= 9 && d[1] <= 9 && d[2] <= 5 && d[3] <= 9 && d[4] <= 5 && d[5] <= 9
            &&& secs == 36000 * d[0] + 3600 * d[1] + 600 * d[2] + 60 * d[3] + 10 * d[4] + d[5]
        }),
{
    let h = secs / 3600;
    let m = (secs / 60) % 60;
    let s = secs % 60;
    lemma_decimal2_digits(h);
    lemma_decimal2_digits(m);
    lemma_decimal2_digits(s);
    assert(timestamp_text(secs) =~= seq![
        digit(h / 10),
        digit(h % 10),
        ':',
        digit(m / 10),
        digit(m % 10),
        ':',
        digit(s / 10),
        digit(s % 10),
    ]);
    assert(secs == 3600 * h + 60 * m + s) by (nonlinear_arith)
        requires
            h == secs / 3600,
            m == (secs / 60) % 60,
            s == secs % 60,
    ;
    assert(h == 10 * (h / 10) + h % 10);
    assert(m == 10 * (m / 10) + m % 10);
    assert(s == 10 * (s / 10) + s % 10);
}

/// Law: under a hundred hours a label reads `HH:MM:SS` in ASCII digits, and the three
/// fields give back the offset, with minutes and seconds under sixty.
pub proof fn law_timestamp_fields(secs: nat)
    requires
        secs < 360000,
    ensures
        ({
            let t = timestamp_text(secs);
            let h = 10 * digit_value(t[0]) + digit_value(t[1]);
            let m = 10 * digit_value(t[3]) + digit_value(t[4]);
            let s = 10 * digit_value(t[6]) + digit_value(t[7]);
            &&& t.len() == 8
            &&& t[2] == ':' && t[5] == ':'
            &&& is_digit_char(t[0]) && is_digit_char(t[1]) && is_digit_char(t[3])
            &&& is_digit_char(t[4]) && is_digit_char(t[6]) && is_digit_char(t[7])
            &&& 0 <= m < 60 && 0 <= s < 60
            &&& 3600 * h + 60 * m + s == secs
        }),
{
    lemma_ts_chars(secs);
    let d = ts_digits(secs);
    lemma_digit(d[0]);
    lemma_digit(d[1]);
    lemma_digit(d[2]);
    lemma_digit(d[3]);
    lemma_digit(d[4]);
    lemma_digit(d[5]);
}

/// In mixed radix (10, 10, 6, 10, 6, 10) the first differing digit of a smaller number is
/// smaller.
proof fn lemma_first_smaller_digit(x: Seq<nat>, y: Seq<nat>) -> (j: int)
    requires
        x.len() == 6,
        y.len() == 6,
        x[0] <= 9 && x[1] <= 9 && x[2] <= 5 && x[3] <= 9 && x[4] <= 5 && x[5] <= 9,
        y[0] <= 9 && y[1] <= 9 && y[2] <= 5 && y[3] <= 9 && y[4] <= 5 && y[5] <= 9,
        36000 * x[0] + 3600 * x[1] + 600 * x[2] + 60 * x[3] + 10 * x[4] + x[5] < 36000 * y[0]
            + 3600 * y[1] + 600 * y[2] + 60 * y[3] + 10 * y[4] + y[5],
    ensures
        0 <= j < 6,
        forall|i: int| 0 <= i < j ==> x[i] == y[i],
        x[j] < y[j],
{
    if x[0] != y[0] {
        0
    } else if x[1] != y[1] {
        1
    } else if x[2] != y[2] {
        2
    } else if x[3] != y[3] {
        3
    } else if x[4] != y[4] {
        4
    } else {
        5
    }
}

/// Position in the label of digit `j`.
spec fn digit_pos(j: int) -> int {
    if j < 2 {
        j
    } else if j < 4 {
        j + 1
    } else {
        j + 2
    }
}

/// A label spelled from six digits.
spec fn label_of(d: Seq<nat>) -> Seq<char> {
    seq![digit(d[0]), digit(d[1]), ':', digit(d[2]), digit(d[3]), ':', digit(d[4]), digit(d[5])]
}

proof fn lemma_label_before(x: Seq<nat>, y: Seq<nat>)
    requires
        x.len() == 6,
        y.len() == 6,
        x[0] <= 9 && x[1] <= 9 && x[2] <= 5 && x[3] <= 9 && x[4] <= 5 && x[5] <= 9,
        y[0] <= 9 && y[1] <= 9 && y[2] <= 5 && y[3] <= 9 && y[4] <= 5 && y[5] <= 9,
        36000 * x[0] + 3600 * x[1] + 600 * x[2] + 60 * x[3] + 10 * x[4] + x[5] < 36000 * y[0]
            + 3600 * y[1] + 600 * y[2] + 60 * y[3] + 10 * y[4] + y[5],
    ensures
        text_lt(label_of(x), label_of(y)),
{
    let ta = label_of(x);
    let tb = label_of(y);
    let j = lemma_first_smaller_digit(x, y);
    let k = digit_pos(j);
    lemma_digit(x[j]);
    lemma_digit(y[j]);
    assert(ta[k] == digit(x[j]));
    assert(tb[k] == digit(y[j]));
    assert forall|i: int| 0 <= i < k implies ta[i] == tb[i] by {
        if i == 2 || i == 5 {
        } else {
            let ji = if i < 2 {
                i
            } else if i < 5 {
                i - 1
            } else {
                i - 2
            };
            assert(x[ji] == y[ji]);
        }
    }
    assert(ta.take(k) =~= tb.take(k));
}

proof fn lemma_ts_before(a: nat, b: nat)
    requires
        a < b < 360000,
    ensures
        text_lt(timestamp_text(a), timestamp_text(b)),
{
    lemma_ts_chars(a);
    lemma_ts_chars(b);
    lemma_label_before(ts_digits(a), ts_digits(b));
    assert(timestamp_text(a) == label_of(ts_digits(a)));
    assert(timestamp_text(b) == label_of(ts_digits(b)));
}

proof fn lemma_text_lt_asym(x: Seq<char>, y: Seq<char>)
    requires
        x.len() == y.len(),
        text_lt(x, y),
    ensures
        !text_lt(y, x),
{
    if text_lt(y, x) {
        let i = choose|i: int|
            0 <= i < x.len() && i < y.len() && #[trigger] x.take(i) == y.take(i) && (x[i] as u32)
                < (y[i] as u32);
        let j = choose|j: int|
            0 <= j < y.len() && j < x.len() && #[trigger] y.take(j) == x.take(j) && (y[j] as u32)
                < (x[j] as u32);
        if i < j {
            assert(x.take(j)[i] == y.take(j)[i]);
        } else if j < i {
            assert(x.take(i)[j] == y.take(i)[j]);
        }
    }
}

/// Law: under a hundred hours, labels sort as the offsets they stand for (all of them are
/// eight characters long).
pub proof fn law_timestamp_order(a: nat, b: nat)
    requires
        a < 360000,
        b < 360000,
    ensures
        text_lt(timestamp_text(a), timestamp_text(b)) <==> a < b,
{
    if a < b {
        lemma_ts_before(a, b);
    } else if b < a {
        lemma_ts_before(b, a);
        law_timestamp_shape(a);
        law_timestamp_shape(b);
        lemma_text_lt_asym(timestamp_text(b), timestamp_text(a));
    } else {
        let t = timestamp_text(a);
        assert(!text_lt(t, t));
    }
}

/// Number of segments of a video of `secs` seconds (the last one may be partial).
pub fn segments_for_seconds(secs: usize) -> (n: usize)
    requires
        secs + SEG_SEC - 1 <= usize::MAX,
    ensures
        n == (secs + SEG_SEC - 1) / (SEG_SEC as int),
        n * SEG_SEC >= secs,
        secs > 0 ==> (n - 1) * SEG_SEC < secs,
{
    (secs + (SEG_SEC - 1)) / SEG_SEC
}

// ---------------------------------------------------------------------------
// Cutting the decoded audio stream into segments
// ---------------------------------------------------------------------------

/// All byte sequences, one after the other.
pub open spec fn concat_bytes(parts: Seq<Seq<u8>>) -> Seq<u8>
    decreases parts.len(),
{
    if parts.len() == 0 {
        Seq::empty()
    } else {
        concat_bytes(parts.drop_last()) + parts.last()
    }
}

/// The views of a list of byte vectors.
pub open spec fn byte_views(v: Seq<Vec<u8>>) -> Seq<Seq<u8>> {
    v.map_values(|c: Vec<u8>| c@)
}

/// Bytes of decoded audio waiting to fill a whole segment.
pub struct PcmChunker {
    pending: Vec<u8>,
}

impl View for PcmChunker {
    type V = Seq<u8>;

    closed spec fn view(&self) -> Seq<u8> {
        self.pending@
    }
}

impl PcmChunker {
    #[verifier::type_invariant]
    closed spec fn partial(&self) -> bool {
        self.pending@.len() < SEG_BYTES
    }

    pub fn new() -> (c: Self)
        ensures
            c@ == Seq::<u8>::empty(),
    {
        PcmChunker { pending: Vec::new() }
    }

    /// Appends `bytes` and hands out every whole segment now available, in order.
    pub fn push(&mut self, bytes: &[u8]) -> (chunks: Vec<Vec<u8>>)
        ensures
            forall|k: int| 0 <= k < chunks@.len() ==> #[trigger] chunks@[k]@.len() == SEG_BYTES,
            concat_bytes(byte_views(chunks@)) + final(self)@ == old(self)@ + bytes@,
            final(self)@.len() < SEG_BYTES,
    {
        let mut all: Vec<u8> = Vec::new();
        std::mem::swap(&mut all, &mut self.pending);
        let ghost before = all@;
        all.extend_from_slice(bytes);
        assert(all@ =~= before + bytes@);
        let mut chunks: Vec<Vec<u8>> = Vec::new();
        let mut start: usize = 0;
        while all.len() - start >= SEG_BYTES
            invariant
                start <= all@.len(),
                forall|k: int|
                    0 <= k < chunks@.len() ==> #[trigger] chunks@[k]@.len() == SEG_BYTES,
                concat_bytes(byte_views(chunks@)) == all@.take(start as int),
            decreases all@.len() - start,
        {
            let piece = slice_to_vec(&all.as_slice()[start..start + SEG_BYTES]);
            let ghost old_chunks = chunks@;
            chunks.push(piece);
            assert(byte_views(chunks@).drop_last() =~= byte_views(old_chunks));
            assert(all@.take(start + SEG_BYTES) =~= all@.take(start as int) + piece@);
            start = start + SEG_BYTES;
        }
        let rest = slice_to_vec(&all.as_slice()[start..all.len()]);
        assert(all@.take(start as int) + rest@ =~= all@);
        self.pending = rest;
        chunks
    }

    /// Hands out the last, partial segment, if any bytes are left.
    pub fn finish(&mut self) -> (last: Option<Vec<u8>>)
        ensures
            final(self)@ == Seq::<u8>::empty(),
            old(self)@.len() == 0 ==> last is None,
            old(self)@.len() > 0 ==> last is Some && last->0@ == old(self)@,
    {
        let mut all: Vec<u8> = Vec::new();
        std::mem::swap(&mut all, &mut self.pending);
        if all.len() == 0 {
            None
        } else {
            Some(all)
        }
    }
}

/// Law: every byte pushed into the chunker comes out once, in order, in whole segments
/// followed by the final partial one.
pub proof fn law_chunker_keeps_every_byte(
    pending: Seq<u8>,
    input: Seq<u8>,
    chunks: Seq<Seq<u8>>,
    rest: Seq<u8>,
)
    requires
        pending.len() < SEG_BYTES,
        forall|k: int| 0 <= k < chunks.len() ==> #[trigger] chunks[k].len() == SEG_BYTES,
        concat_bytes(chunks) + rest == pending + input,
        rest.len() < SEG_BYTES,
    ensures
        chunks.len() == (pending.len() + input.len()) as int / (SEG_BYTES as int),
        rest.len() == (pending.len() + input.len()) as int % (SEG_BYTES as int),
{
    lemma_concat_len(chunks);
    let total = pending.len() + input.len();
    assert((concat_bytes(chunks) + rest).len() == concat_bytes(chunks).len() + rest.len());
    assert((pending + input).len() == total);
    assert(total == chunks.len() * SEG_BYTES + rest.len());
    vstd::arithmetic::div_mod::lemma_fundamental_div_mod_converse(
        total as int,
        SEG_BYTES as int,
        chunks.len() as int,
        rest.len() as int,
    );
}

proof fn lemma_concat_len(chunks: Seq<Seq<u8>>)
    requires
        forall|k: int| 0 <= k < chunks.len() ==> #[trigger] chunks[k].len() == SEG_BYTES,
    ensures
        concat_bytes(chunks).len() == chunks.len() * SEG_BYTES,
    decreases chunks.len(),
{
    if chunks.len() > 0 {
        let d = chunks.drop_last();
        assert forall|k: int| 0 <= k < d.len() implies #[trigger] d[k].len() == SEG_BYTES by {
            assert(d[k] == chunks[k]);
        }
        lemma_concat_len(d);
        assert(chunks.last() == chunks[chunks.len() - 1]);
    }
}

// ---------------------------------------------------------------------------
// One segment's work and the job's end
// ---------------------------------------------------------------------------

/// The samples of one segment that still needs transcribing; `None` when the job was
/// cancelled or the segment holds no whole sample.
pub fn chunk_samples(canceled: bool, bytes: &[u8]) -> (r: Option<Vec<i16>>)
    ensures
        (canceled || bytes@.len() < 2) ==> r is None,
        (!canceled && bytes@.len() >= 2) ==> r is Some && r->0@ == samples_from_le(bytes@),
{
    if canceled {
        return None;
    }
    let samples = bytes_to_i16(bytes);
    if samples.len() == 0 {
        return None;
    }
    Some(samples)
}

/// What the video job does next around a read of the decoded audio.
pub enum VideoReadAction {
    /// The job was cancelled before the read: stop the decoder and announce the cancel.
    Cancel,
    /// Read the next bytes of decoded audio.
    Read,
    /// The decoder's output ended.
    EndOfInput,
    /// Feed this many bytes read to the chunker.
    Feed(usize),
}

/// The next step of the video job: before each read (`read` is `None`) a cancel stops it;
/// after a read, no bytes mean the end of the audio, and bytes are fed to the chunker.
pub fn video_read_step(canceled: bool, read: Option<usize>) -> (a: VideoReadAction)
    ensures
        read is None ==> (if canceled {
            a is Cancel
        } else {
            a is Read
        }),
        read == Some(0usize) ==> a is EndOfInput,
        read is Some && read->0 > 0 ==> a == VideoReadAction::Feed(read->0),
{
    match read {
        None => if canceled {
            VideoReadAction::Cancel
        } else {
            VideoReadAction::Read
        },
        Some(n) => if n == 0 {
            VideoReadAction::EndOfInput
        } else {
            VideoReadAction::Feed(n)
        },
    }
}

/// The error of a segment that could not be transcribed; segments are counted from 1.
pub fn segment_failure_message(index: usize, cause: &str) -> (m: String)
    requires
        index < usize::MAX,
    ensures
        m@ == "falha na transcrição (segmento "@ + decimal((index + 1) as nat) + "): "@ + cause@,
{
    let mut cs = chars_of("falha na transcrição (segmento ");
    push_decimal(&mut cs, index + 1);
    let tail = chars_of("): ");
    let mut i: usize = 0;
    let ghost head = cs@;
    while i < tail.len()
        invariant
            i <= tail@.len(),
            cs@ == head + tail@.take(i as int),
        decreases tail@.len() - i,
    {
        cs.push(tail[i]);
        assert(tail@.take(i + 1) =~= tail@.take(i as int).push(tail@[i as int]));
        i = i + 1;
    }
    assert(tail@.take(i as int) =~= tail@);
    let mut m = string_from_chars(cs.as_slice());
    m.append(cause);
    m
}

/// The events announcing the text of segment `index` (counted from 0) out of `total`.
pub fn chunk_events(index: usize, total: usize, text: String) -> (r: (
    VideoSegmentEvent,
    VideoProgressEvent,
))
    requires
        (index + 1) * SEG_SEC <= usize::MAX,
    ensures
        r.0.index == index + 1,
        r.0.ts@ == timestamp_text((index * SEG_SEC) as nat),
        r.0.text == text,
        r.1.done == index + 1,
        r.1.total == total,
{
    let ts = fmt_ts(index * SEG_SEC);
    (VideoSegmentEvent { index: index + 1, ts, text }, VideoProgressEvent { done: index + 1, total })
}

/// `parts` joined with `sep` between neighbours.
pub open spec fn joined(parts: Seq<Seq<char>>, sep: Seq<char>) -> Seq<char>
    decreases parts.len(),
{
    if parts.len() == 0 {
        Seq::empty()
    } else if parts.len() == 1 {
        parts[0]
    } else {
        joined(parts.drop_last(), sep) + sep + parts.last()
    }
}

/// The views of a list of strings.
pub open spec fn string_views(v: Seq<String>) -> Seq<Seq<char>> {
    v.map_values(|s: String| s@)
}

/// The texts joined with `sep` between neighbours (`[String]::join`).
pub fn join_texts(texts: &Vec<String>, sep: &str) -> (r: String)
    ensures
        r@ == joined(string_views(texts@), sep@),
{
    let mut r = String::new();
    let n = texts.len();
    for i in 0..n
        invariant
            n == texts@.len(),
            r@ == joined(string_views(texts@).take(i as int), sep@),
    {
        let ghost parts = string_views(texts@).take(i + 1);
        assert(parts.drop_last() =~= string_views(texts@).take(i as int));
        assert(parts.last() == texts@[i as int]@);
        if i > 0 {
            r.append(sep);
        } else {
            assert(parts.len() == 1);
        }
        r.append(texts[i].as_str());
    }
    assert(string_views(texts@).take(n as int) =~= string_views(texts@));
    r
}

/// The event closing a finished video: the segment count and the texts, a blank line apart.
pub fn done_event(texts: &Vec<String>) -> (e: VideoDoneEvent)
    ensures
        e.segments == texts@.len(),
        e.text@ == joined(string_views(texts@), seq!['\n', '\n']),
{
    let sep = "\n\n";
    proof {
        reveal_strlit("\n\n");
        assert(sep@ =~= seq!['\n', '\n']);
    }
    VideoDoneEvent { segments: texts.len(), text: join_texts(texts, sep) }
}

/// How a video job ends once the decoder has stopped.
pub enum VideoOutcome {
    /// The decoder reported an error.
    Failed,
    /// The user cancelled the job.
    Canceled,
    /// Every segment went through; the done event follows.
    Done,
}

pub fn video_outcome(decoder_ok: bool, canceled: bool) -> (o: VideoOutcome)
    ensures
        !decoder_ok ==> o is Failed,
        decoder_ok && canceled ==> o is Canceled,
        decoder_ok && !canceled ==> o is Done,
{
    if !decoder_ok {
        VideoOutcome::Failed
    } else if canceled {
        VideoOutcome::Canceled
    } else {
        VideoOutcome::Done
    }
}

} // verus!
