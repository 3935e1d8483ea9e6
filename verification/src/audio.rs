use vstd::prelude::*;

use crate::text::{chars_of, contains_chars, contains_text};

verus! {

/// Sample rate of all captured audio, in Hz.
pub const SR: u32 = 16000;

/// Length of one voice-activity frame, in milliseconds.
pub const FRAME_MS: usize = 30;

/// Samples in one voice-activity frame: `SR * FRAME_MS / 1000`.
pub const BLOCK: usize = 480;

// ---------------------------------------------------------------------------
// Sample formats
// ---------------------------------------------------------------------------

/// A 16-bit sample is taken as it is.
pub fn sample_from_i16(x: i16) -> (s: i16)
    ensures
        s == x,
{
    x
}

/// A 32-bit sample keeps its upper 16 bits (`x >> 16`).
pub fn sample_from_i32(x: i32) -> (s: i16)
    ensures
        s == x as int / 65536,
{
    let shifted: i64 = x as i64 + 2147483648;
    let q: i64 = shifted / 65536;
    (q - 32768) as i16
}

/// An unsigned 8-bit sample is re-centred on zero and scaled up (`(x - 128) << 8`).
pub fn sample_from_u8(x: u8) -> (s: i16)
    ensures
        s == (x as int - 128) * 256,
{
    ((x as i32 - 128) * 256) as i16
}

/// An unsigned 16-bit sample is reinterpreted bit for bit as a signed one (`x as i16`).
pub fn sample_from_u16(x: u16) -> (s: i16)
    ensures
        s == (if x >= 32768 {
            x as int - 65536
        } else {
            x as int
        }),
{
    if x >= 32768 {
        (x as i32 - 65536) as i16
    } else {
        x as i16
    }
}

/// Sum of the samples of a frame.
pub open spec fn sample_sum(frame: Seq<i16>) -> int
    decreases frame.len(),
{
    if frame.len() == 0 {
        0
    } else {
        sample_sum(frame.drop_last()) + frame.last()
    }
}

/// Integer division rounding toward zero, as Rust's `/`.
pub open spec fn div_toward_zero(a: int, b: int) -> int {
    if a >= 0 {
        a / b
    } else {
        -((-a) / b)
    }
}

proof fn lemma_sum_bounds(frame: Seq<i16>)
    ensures
        -32768 * frame.len() <= sample_sum(frame) <= 32767 * frame.len(),
    decreases frame.len(),
{
    if frame.len() > 0 {
        lemma_sum_bounds(frame.drop_last());
    }
}

/// The mono sample of one multi-channel frame: the mean of its channels, rounded toward
/// zero.
pub fn downmix_frame(frame: &[i16]) -> (s: i16)
    requires
        1 <= frame@.len() <= 65535,
    ensures
        s == div_toward_zero(sample_sum(frame@), frame@.len() as int),
{
    let n = frame.len();
    let mut sum: i32 = 0;
    for i in 0..n
        invariant
            n == frame@.len(),
            n <= 65535,
            sum == sample_sum(frame@.take(i as int)),
    {
        proof {
            lemma_sum_bounds(frame@.take(i as int));
            assert(frame@.take(i + 1).drop_last() =~= frame@.take(i as int));
            assert(-32768 * i >= -32768 * 65535) by (nonlinear_arith)
                requires
                    i <= 65535,
            ;
            assert(32767 * i <= 32767 * 65535) by (nonlinear_arith)
                requires
                    i <= 65535,
            ;
        }
        sum = sum + frame[i] as i32;
    }
    assert(frame@.take(n as int) =~= frame@);
    proof {
        lemma_sum_bounds(frame@);
    }
    let q: i32 = if sum >= 0 {
        sum / (n as i32)
    } else {
        -((-sum) / (n as i32))
    };
    proof {
        let a = sample_sum(frame@);
        let m = n as int;
        if a >= 0 {
            assert(a / m <= 32767) by (nonlinear_arith)
                requires
                    0 <= a <= 32767 * m,
                    m >= 1,
            ;
        } else {
            assert((-a) / m <= 32768) by (nonlinear_arith)
                requires
                    0 < -a <= 32768 * m,
                    m >= 1,
            ;
        }
    }
    q as i16
}

// ---------------------------------------------------------------------------
// Choosing a capture configuration
// ---------------------------------------------------------------------------

/// What the library reads of one supported input configuration range of a device.
pub struct ConfigRange {
    pub channels: u16,
    pub min_rate: u32,
    pub max_rate: u32,
    /// The range delivers 16-bit integer samples.
    pub is_i16: bool,
}

/// The range can deliver mono audio at [`SR`].
pub open spec fn fits(r: ConfigRange) -> bool {
    r.channels == 1 && r.min_rate <= SR && r.max_rate >= SR
}

/// The range can deliver mono 16-bit audio at [`SR`].
pub open spec fn ideal(r: ConfigRange) -> bool {
    fits(r) && r.is_i16
}

/// The range to capture from: the first ideal one, else the first that fits; `None` when
/// none fits (the device's default configuration is used then).
pub fn pick_config_index(ranges: &Vec<ConfigRange>) -> (r: Option<usize>)
    ensures
        r is None <==> forall|j: int| 0 <= j < ranges@.len() ==> !fits(#[trigger] ranges@[j]),
        r matches Some(i) ==> {
            &&& i < ranges@.len()
            &&& fits(ranges@[i as int])
            &&& (exists|j: int| 0 <= j < ranges@.len() && ideal(#[trigger] ranges@[j])) ==> {
                &&& ideal(ranges@[i as int])
                &&& forall|j: int| 0 <= j < i ==> !ideal(#[trigger] ranges@[j])
            }
            &&& (forall|j: int| 0 <= j < ranges@.len() ==> !ideal(#[trigger] ranges@[j]))
                ==> forall|j: int| 0 <= j < i ==> !fits(#[trigger] ranges@[j])
        },
{
    let mut first_fit: Option<usize> = None;
    let n = ranges.len();
    for i in 0..n
        invariant
            n == ranges@.len(),
            forall|j: int| 0 <= j < i ==> !ideal(#[trigger] ranges@[j]),
            first_fit is None <==> forall|j: int| 0 <= j < i ==> !fits(#[trigger] ranges@[j]),
            first_fit matches Some(f) ==> f < i && fits(ranges@[f as int]) && forall|j: int|
                0 <= j < f ==> !fits(#[trigger] ranges@[j]),
    {
        let r = &ranges[i];
        if r.channels == 1 && r.min_rate <= SR && r.max_rate >= SR {
            if r.is_i16 {
                return Some(i);
            }
            if first_fit.is_none() {
                first_fit = Some(i);
            }
        }
    }
    first_fit
}

// ---------------------------------------------------------------------------
// Finding the monitor of the output device
// ---------------------------------------------------------------------------

/// What `str::to_lowercase` returns for a string.
pub uninterp spec fn lowercase(s: Seq<char>) -> Seq<char>;

/// `str::to_lowercase`: the string with every character mapped to lower case.
#[verifier::external_body]
fn to_lowercase(s: &str) -> (r: String)
    ensures
        r@ == lowercase(s@),
{
    s.to_lowercase()
}

pub open spec fn monitor_word() -> Seq<char> {
    seq!['m', 'o', 'n', 'i', 't', 'o', 'r']
}

/// Whether a device name, in lower case, mentions a monitor.
pub fn mentions_monitor(name: &str) -> (r: bool)
    ensures
        r == contains_text(lowercase(name@), monitor_word()),
{
    let lower = to_lowercase(name);
    let cs = chars_of(lower.as_str());
    let word = vec!['m', 'o', 'n', 'i', 't', 'o', 'r'];
    assert(word@ =~= monitor_word());
    contains_chars(&cs, &word)
}

/// The first device whose name mentions a monitor.
pub fn first_monitor_index(names: &Vec<String>) -> (r: Option<usize>)
    ensures
        r is None ==> forall|j: int|
            0 <= j < names@.len() ==> !contains_text(lowercase(#[trigger] names@[j]@), monitor_word()),
        r matches Some(i) ==> {
            &&& i < names@.len()
            &&& contains_text(lowercase(names@[i as int]@), monitor_word())
            &&& forall|j: int|
                0 <= j < i ==> !contains_text(lowercase(#[trigger] names@[j]@), monitor_word())
        },
{
    let n = names.len();
    for i in 0..n
        invariant
            n == names@.len(),
            forall|j: int|
                0 <= j < i ==> !contains_text(lowercase(#[trigger] names@[j]@), monitor_word()),
    {
        if mentions_monitor(names[i].as_str()) {
            return Some(i);
        }
    }
    None
}

} // verus!
