use goat_reuniao::whisper::{
    path_candidates, resolve_choice, server_start_step, PathCandidate, PathChoice, ServerStartAction,
};
use goat_reuniao::video::bytes_to_i16;
use goat_reuniao::whisper::{
    override_var, pcm_to_wav, strip_parent_prefixes, transcript_text, MODEL_NAME,
};

#[test]
fn pcm_to_wav_has_valid_headers_and_payload() {
    let wav = pcm_to_wav(&[0, 1, -2]);
    assert_eq!(&wav[0..4], b"RIFF");
    assert_eq!(&wav[8..12], b"WAVE");
    assert_eq!(&wav[36..40], b"data");
    assert_eq!(u32::from_le_bytes(wav[40..44].try_into().unwrap()), 6);
    assert_eq!(wav.len(), 50);
}

#[test]
fn wav_header_fields() {
    let wav = pcm_to_wav(&[5; 10]);
    assert_eq!(u32::from_le_bytes(wav[4..8].try_into().unwrap()), 36 + 20);
    assert_eq!(&wav[12..16], b"fmt ");
    assert_eq!(u32::from_le_bytes(wav[16..20].try_into().unwrap()), 16);
    assert_eq!(u16::from_le_bytes(wav[20..22].try_into().unwrap()), 1);
    assert_eq!(u16::from_le_bytes(wav[22..24].try_into().unwrap()), 1);
    assert_eq!(u32::from_le_bytes(wav[24..28].try_into().unwrap()), 16000);
    assert_eq!(u32::from_le_bytes(wav[28..32].try_into().unwrap()), 32000);
    assert_eq!(u16::from_le_bytes(wav[32..34].try_into().unwrap()), 2);
    assert_eq!(u16::from_le_bytes(wav[34..36].try_into().unwrap()), 16);
}

#[test]
fn wav_payload_reads_back() {
    let pcm = vec![0, 1, -1, i16::MIN, i16::MAX, 12345, -12345];
    let wav = pcm_to_wav(&pcm);
    assert_eq!(bytes_to_i16(&wav[44..]), pcm);
    let empty = pcm_to_wav(&[]);
    assert_eq!(empty.len(), 44);
}

#[test]
fn override_variables() {
    assert_eq!(override_var(MODEL_NAME), "GOAT_WHISPER_MODEL");
    assert_eq!(override_var("whisper-server"), "GOAT_WHISPER_BIN");
}

#[test]
fn parent_prefixes_are_stripped() {
    assert_eq!(strip_parent_prefixes("../bin/whisper-server"), "bin/whisper-server");
    assert_eq!(strip_parent_prefixes("../../models/x.bin"), "models/x.bin");
    assert_eq!(strip_parent_prefixes("models/../x"), "models/../x");
    assert_eq!(strip_parent_prefixes(".."), "..");
}

#[test]
fn transcript_is_trimmed() {
    assert_eq!(transcript_text(Some("  olá mundo \n")), "olá mundo");
    assert_eq!(transcript_text(Some("\u{3000}texto\u{a0}")), "texto");
    assert_eq!(transcript_text(Some("   ")), "");
    assert_eq!(transcript_text(None), "");
}

#[test]
fn server_start_rounds() {
    assert!(matches!(server_start_step(true, true), ServerStartAction::Ready));
    assert!(matches!(server_start_step(true, false), ServerStartAction::Wait));
    assert!(matches!(server_start_step(false, true), ServerStartAction::GiveUp));
    assert!(matches!(server_start_step(false, false), ServerStartAction::GiveUp));
}

#[test]
fn path_choice_follows_candidate_order() {
    let c = path_candidates();
    assert_eq!(c.len(), 5);
    assert!(matches!(c[0], PathCandidate::Resources));
    assert!(matches!(c[1], PathCandidate::ResourceBin));
    assert!(matches!(c[4], PathCandidate::SourceTree));
    assert!(matches!(resolve_choice(true, &vec![true; 5]), PathChoice::Override));
    assert!(matches!(
        resolve_choice(false, &vec![false, true, true, false, false]),
        PathChoice::Candidate(1)
    ));
    assert!(matches!(resolve_choice(false, &vec![false; 5]), PathChoice::Fallback));
}
