use vstd::prelude::*;

verus! {

/// Shortest prompt worth transcribing: 25 ms at 16 kHz.
pub const MIN_PROMPT_SAMPLES: usize = 400;

/// Whether a recorded prompt is long enough to be transcribed; a shorter one gives an empty
/// text.
pub fn prompt_needs_transcription(samples: usize) -> (r: bool)
    ensures
        r == (samples >= MIN_PROMPT_SAMPLES),
{
    samples >= MIN_PROMPT_SAMPLES
}

} // verus!
