use vstd::prelude::*;

verus! {

/// The 16-bit little-endian two's-complement sample stored in the byte pair `(lo, hi)`.
pub open spec fn sample_from_le(lo: u8, hi: u8) -> i16 {
    let u = lo as int + 256 * hi as int;
    (if u >= 32768 {
        u - 65536
    } else {
        u
    }) as i16
}

/// The unsigned 16-bit pattern of a sample.
pub open spec fn sample_bits(s: i16) -> int {
    if s < 0 {
        s as int + 65536
    } else {
        s as int
    }
}

/// The two little-endian bytes of a sample.
pub open spec fn sample_le_bytes(s: i16) -> Seq<u8> {
    seq![(sample_bits(s) % 256) as u8, (sample_bits(s) / 256) as u8]
}

/// Samples read from consecutive little-endian byte pairs; a trailing odd byte is ignored.
pub open spec fn samples_from_le(bytes: Seq<u8>) -> Seq<i16> {
    Seq::new(bytes.len() / 2, |i: int| sample_from_le(bytes[2 * i], bytes[2 * i + 1]))
}

/// Samples written as consecutive little-endian byte pairs.
pub open spec fn pcm_le_bytes(pcm: Seq<i16>) -> Seq<u8> {
    Seq::new(2 * pcm.len(), |j: int| sample_le_bytes(pcm[j / 2])[j % 2])
}

/// Little-endian bytes of a 16-bit value.
pub open spec fn u16_le(v: int) -> Seq<u8> {
    seq![(v % 256) as u8, ((v / 256) % 256) as u8]
}

/// Little-endian bytes of a 32-bit value.
pub open spec fn u32_le(v: int) -> Seq<u8> {
    seq![
        (v % 256) as u8,
        ((v / 256) % 256) as u8,
        ((v / 65536) % 256) as u8,
        ((v / 16777216) % 256) as u8,
    ]
}

/// The sample held by the byte pair `(lo, hi)` (`i16::from_le_bytes`).
pub fn sample_from_bytes(lo: u8, hi: u8) -> (s: i16)
    ensures
        s == sample_from_le(lo, hi),
{
    let u: i32 = lo as i32 + 256 * (hi as i32);
    let v: i32 = if u >= 32768 {
        u - 65536
    } else {
        u
    };
    v as i16
}

/// The two little-endian bytes of `s` (`i16::to_le_bytes`).
pub fn sample_to_bytes(s: i16) -> (r: (u8, u8))
    ensures
        seq![r.0, r.1] == sample_le_bytes(s),
{
    let u: i32 = if s < 0 {
        s as i32 + 65536
    } else {
        s as i32
    };
    ((u % 256) as u8, (u / 256) as u8)
}

/// Reading back the bytes written for a sample gives the sample.
pub proof fn lemma_sample_roundtrip(s: i16)
    ensures
        sample_from_le(sample_le_bytes(s)[0], sample_le_bytes(s)[1]) == s,
{
}

/// Law: decoding the little-endian encoding of any PCM buffer gives the buffer back.
pub proof fn lemma_pcm_roundtrip(pcm: Seq<i16>)
    ensures
        samples_from_le(pcm_le_bytes(pcm)) == pcm,
{
    let b = pcm_le_bytes(pcm);
    assert forall|i: int| 0 <= i < pcm.len() implies #[trigger] samples_from_le(b)[i] == pcm[i] by {
        assert((2 * i) / 2 == i && (2 * i) % 2 == 0);
        assert((2 * i + 1) / 2 == i && (2 * i + 1) % 2 == 1);
        lemma_sample_roundtrip(pcm[i]);
    }
    assert(samples_from_le(b) =~= pcm);
}

} // verus!
