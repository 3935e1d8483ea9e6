use vstd::prelude::*;

use crate::audio::SR;
use crate::pcm::{lemma_pcm_roundtrip, pcm_le_bytes, sample_to_bytes, samples_from_le, u16_le, u32_le};
use crate::text::{chars_of, same_text, string_from_chars, trim_chars, trimmed};

verus! {

/// Port on which the local whisper server listens.
pub const WHISPER_PORT: u16 = 8081;

/// File name of the speech model.
pub const MODEL_NAME: &'static str = "ggml-large-v3-turbo.bin";

// ---------------------------------------------------------------------------
// WAV container
// ---------------------------------------------------------------------------

pub open spec fn tag_riff() -> Seq<u8> {
    seq![0x52u8, 0x49u8, 0x46u8, 0x46u8]
}

pub open spec fn tag_wave() -> Seq<u8> {
    seq![0x57u8, 0x41u8, 0x56u8, 0x45u8]
}

pub open spec fn tag_fmt() -> Seq<u8> {
    seq![0x66u8, 0x6du8, 0x74u8, 0x20u8]
}

pub open spec fn tag_data() -> Seq<u8> {
    seq![0x64u8, 0x61u8, 0x74u8, 0x61u8]
}

/// The 44-byte header of a mono 16-bit 16 kHz PCM WAV file with `data_len` bytes of samples.
pub open spec fn wav_header(data_len: int) -> Seq<u8> {
    tag_riff() + u32_le(36 + data_len) + tag_wave() + tag_fmt() + u32_le(16) + u16_le(1) + u16_le(
        1,
    ) + u32_le(SR as int) + u32_le(2 * SR as int) + u16_le(2) + u16_le(16) + tag_data() + u32_le(
        data_len,
    )
}

/// A whole WAV file holding `pcm`.
pub open spec fn wav_file(pcm: Seq<i16>) -> Seq<u8> {
    wav_header(2 * pcm.len() as int) + pcm_le_bytes(pcm)
}

fn push_tag(w: &mut Vec<u8>, a: u8, b: u8, c: u8, d: u8)
    ensures
        final(w)@ == old(w)@ + seq![a, b, c, d],
{
    w.push(a);
    w.push(b);
    w.push(c);
    w.push(d);
}

fn push_u16_le(w: &mut Vec<u8>, v: u16)
    ensures
        final(w)@ == old(w)@ + u16_le(v as int),
{
    w.push((v % 256) as u8);
    w.push(((v / 256) % 256) as u8);
}

fn push_u32_le(w: &mut Vec<u8>, v: u32)
    ensures
        final(w)@ == old(w)@ + u32_le(v as int),
{
    w.push((v % 256) as u8);
    w.push(((v / 256) % 256) as u8);
    w.push(((v / 65536) % 256) as u8);
    w.push(((v / 16777216) % 256) as u8);
}

/// Wraps mono 16-bit 16 kHz samples in a WAV file.
pub fn pcm_to_wav(pcm: &[i16]) -> (w: Vec<u8>)
    requires
        36 + 2 * pcm@.len() <= u32::MAX,
    ensures
        w@ == wav_file(pcm@),
        w@.len() == 44 + 2 * pcm@.len(),
{
    let n = pcm.len() * 2;
    let mut w: Vec<u8> = Vec::with_capacity(n.saturating_add(44));
    push_tag(&mut w, 0x52, 0x49, 0x46, 0x46);
    push_u32_le(&mut w, 36 + n as u32);
    push_tag(&mut w, 0x57, 0x41, 0x56, 0x45);
    push_tag(&mut w, 0x66, 0x6d, 0x74, 0x20);
    push_u32_le(&mut w, 16);
    push_u16_le(&mut w, 1);
    push_u16_le(&mut w, 1);
    push_u32_le(&mut w, SR);
    push_u32_le(&mut w, SR * 2);
    push_u16_le(&mut w, 2);
    push_u16_le(&mut w, 16);
    push_tag(&mut w, 0x64, 0x61, 0x74, 0x61);
    push_u32_le(&mut w, n as u32);
    let ghost header = w@;
    assert(header =~= wav_header(n as int));
    let len = pcm.len();
    for i in 0..len
        invariant
            len == pcm@.len(),
            header.len() == 44,
            w@ == header + pcm_le_bytes(pcm@.take(i as int)),
    {
        let (lo, hi) = sample_to_bytes(pcm[i]);
        w.push(lo);
        w.push(hi);
        let ghost prev = pcm_le_bytes(pcm@.take(i as int));
        let ghost next = pcm_le_bytes(pcm@.take(i + 1));
        assert forall|j: int| 0 <= j < next.len() implies #[trigger] next[j] == (prev + seq![
            lo,
            hi,
        ])[j] by {
            if j < 2 * i {
                assert(j / 2 < i);
            } else if j == 2 * i {
                assert(j / 2 == i && j % 2 == 0);
            } else {
                assert(j / 2 == i && j % 2 == 1);
            }
        }
        assert(next =~= prev + seq![lo, hi]);
    }
    assert(pcm@.take(len as int) =~= pcm@);
    w
}

/// Law: a WAV file made of `pcm` is 44 bytes of header and then the samples; its size fields
/// describe it, and reading its payload back gives `pcm`.
pub proof fn law_wav_describes_payload(pcm: Seq<i16>)
    ensures
        wav_file(pcm).len() == 44 + 2 * pcm.len(),
        wav_file(pcm).subrange(0, 4) == tag_riff(),
        wav_file(pcm).subrange(4, 8) == u32_le(36 + 2 * pcm.len() as int),
        wav_file(pcm).subrange(36, 40) == tag_data(),
        wav_file(pcm).subrange(40, 44) == u32_le(2 * pcm.len() as int),
        samples_from_le(wav_file(pcm).skip(44)) == pcm,
{
    let w = wav_file(pcm);
    let h = wav_header(2 * pcm.len() as int);
    assert(h.len() == 44);
    assert(w.subrange(0, 4) =~= tag_riff());
    assert(w.subrange(4, 8) =~= u32_le(36 + 2 * pcm.len() as int));
    assert(w.subrange(36, 40) =~= tag_data());
    assert(w.subrange(40, 44) =~= u32_le(2 * pcm.len() as int));
    assert(w.skip(44) =~= pcm_le_bytes(pcm));
    lemma_pcm_roundtrip(pcm);
}

// ---------------------------------------------------------------------------
// Locating the server binary and the model
// ---------------------------------------------------------------------------

/// `s` with every leading `"../"` removed (`trim_start_matches("../")`).
pub open spec fn without_parent_prefixes(s: Seq<char>) -> Seq<char>
    decreases s.len(),
{
    if s.len() >= 3 && s[0] == '.' && s[1] == '.' && s[2] == '/' {
        without_parent_prefixes(s.skip(3))
    } else {
        s
    }
}

/// A relative path with every leading `../` removed.
pub fn strip_parent_prefixes(rel: &str) -> (r: String)
    ensures
        r@ == without_parent_prefixes(rel@),
{
    let cs = chars_of(rel);
    let mut i: usize = 0;
    assert(cs@.skip(0) =~= cs@);
    while cs.len() - i >= 3 && cs[i] == '.' && cs[i + 1] == '.' && cs[i + 2] == '/'
        invariant
            i <= cs@.len(),
            without_parent_prefixes(cs@.skip(i as int)) == without_parent_prefixes(cs@),
        decreases cs@.len() - i,
    {
        assert(cs@.skip(i as int).skip(3) =~= cs@.skip(i + 3));
        i = i + 3;
    }
    string_from_chars(&cs.as_slice()[i..cs.len()])
}

/// Environment variable that overrides where `name` is looked for: the model's variable
/// for the model file, the server's variable for anything else.
pub fn override_var(name: &str) -> (var: &'static str)
    ensures
        name@ == MODEL_NAME@ ==> var@ == "GOAT_WHISPER_MODEL"@,
        name@ != MODEL_NAME@ ==> var@ == "GOAT_WHISPER_BIN"@,
{
    if same_text(name, MODEL_NAME) {
        "GOAT_WHISPER_MODEL"
    } else {
        "GOAT_WHISPER_BIN"
    }
}

/// Where the server binary or the model may lie, in the order they are tried.
pub enum PathCandidate {
    /// `<resources>/<name>`
    Resources,
    /// `<resources>/bin/<name>`
    ResourceBin,
    /// `<resources>/models/<name>`
    ResourceModels,
    /// `/usr/lib/goat-reuniao/<relative path without leading ../>`
    SystemLib,
    /// `<source tree>/<relative path>`
    SourceTree,
}

/// The places tried, in order.
pub fn path_candidates() -> (c: Vec<PathCandidate>)
    ensures
        c@ == seq![
            PathCandidate::Resources,
            PathCandidate::ResourceBin,
            PathCandidate::ResourceModels,
            PathCandidate::SystemLib,
            PathCandidate::SourceTree,
        ],
{
    let c = vec![
        PathCandidate::Resources,
        PathCandidate::ResourceBin,
        PathCandidate::ResourceModels,
        PathCandidate::SystemLib,
        PathCandidate::SourceTree,
    ];
    assert(c@ =~= seq![
        PathCandidate::Resources,
        PathCandidate::ResourceBin,
        PathCandidate::ResourceModels,
        PathCandidate::SystemLib,
        PathCandidate::SourceTree,
    ]);
    c
}

/// Which path is used.
pub enum PathChoice {
    /// The path given by the override variable.
    Override,
    /// The candidate at this index of [`path_candidates`].
    Candidate(usize),
    /// `<resources>/<name>`, though no file is there.
    Fallback,
}

/// The path to use: the override variable when set, else the first candidate that is a
/// file, else the fallback.
pub fn resolve_choice(override_set: bool, is_file: &Vec<bool>) -> (c: PathChoice)
    ensures
        override_set ==> c is Override,
        !override_set && (exists|i: int| 0 <= i < is_file@.len() && is_file@[i]) ==> (
        c matches PathChoice::Candidate(i) && i < is_file@.len() && is_file@[i as int] && forall|
            j: int,
        |
            0 <= j < i ==> !is_file@[j]),
        !override_set && !(exists|i: int| 0 <= i < is_file@.len() && is_file@[i]) ==> c is Fallback,
{
    if override_set {
        return PathChoice::Override;
    }
    let n = is_file.len();
    for i in 0..n
        invariant
            n == is_file@.len(),
            !override_set,
            forall|j: int| 0 <= j < i ==> !is_file@[j],
    {
        if is_file[i] {
            return PathChoice::Candidate(i);
        }
    }
    PathChoice::Fallback
}

// ---------------------------------------------------------------------------
// Waiting for the server to come up
// ---------------------------------------------------------------------------

/// How long the server is given to come up, in seconds.
pub const SERVER_START_TIMEOUT_SECS: u64 = 30;

/// How long to wait between two probes of the server, in milliseconds.
pub const SERVER_POLL_MS: u64 = 500;

/// What to do while the server starts.
pub enum ServerStartAction {
    /// The server answers: keep the process, the start succeeds.
    Ready,
    /// Sleep [`SERVER_POLL_MS`] and probe again.
    Wait,
    /// Kill the process; the start fails.
    GiveUp,
}

/// One round of waiting for the server: past the deadline the start gives up without a
/// further probe; before it, an answering server is ready and a silent one is waited for.
pub fn server_start_step(before_deadline: bool, online: bool) -> (a: ServerStartAction)
    ensures
        !before_deadline ==> a is GiveUp,
        before_deadline && online ==> a is Ready,
        before_deadline && !online ==> a is Wait,
{
    if !before_deadline {
        ServerStartAction::GiveUp
    } else if online {
        ServerStartAction::Ready
    } else {
        ServerStartAction::Wait
    }
}

// ---------------------------------------------------------------------------
// The server's answer
// ---------------------------------------------------------------------------

/// The transcript carried by the `text` field of the server's answer, trimmed; empty when
/// the answer has no such text.
pub fn transcript_text(field: Option<&str>) -> (t: String)
    ensures
        field is None ==> t@ == Seq::<char>::empty(),
        field is Some ==> t@ == trimmed(field->0@),
{
    match field {
        None => String::new(),
        Some(s) => {
            let cs = chars_of(s);
            let tc = trim_chars(&cs);
            string_from_chars(tc.as_slice())
        },
    }
}

} // verus!
