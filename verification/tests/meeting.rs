use goat_reuniao::meeting::Received;
use goat_reuniao::meeting::{recorder_start_step, StartAction, StartEvent, StartPhase};
use goat_reuniao::audio::BLOCK;
use goat_reuniao::meeting::{
    mix_with_pending, pick_monitor_source, queued_event, segment_event, MeetingPipeline, Segmenter,
    HANGOVER_FRAMES, MAX_SEGMENT_SAMPLES, MIN_SEGMENT_SAMPLES,
};

#[test]
fn mix_preserves_longer_monitor_chunk() {
    let mut pending = vec![10, 20, 30];
    assert_eq!(mix_with_pending(&[1], &mut pending), vec![11, 20, 30]);
    assert_eq!(pending, vec![20, 30]);
}

#[test]
fn mix_clamps_samples() {
    let mut pending = vec![i16::MAX];
    assert_eq!(mix_with_pending(&[1], &mut pending), vec![i16::MAX]);
}

#[test]
fn mix_clamps_negative_samples() {
    let mut pending = vec![i16::MIN, -5];
    assert_eq!(mix_with_pending(&[-1, -7, 3], &mut pending), vec![i16::MIN, -12, 3]);
    assert!(pending.is_empty());
}

#[test]
fn mix_without_monitor_keeps_microphone() {
    let mut pending: Vec<i16> = Vec::new();
    assert_eq!(mix_with_pending(&[5, -6, i16::MAX], &mut pending), vec![5, -6, i16::MAX]);
    assert!(pending.is_empty());
}

#[test]
fn silence_starts_nothing() {
    let mut s = Segmenter::new();
    let step = s.on_chunk(&[0; 100], false);
    assert!(!step.started);
    assert!(step.segment.is_none());
    assert!(!s.is_speaking());
}

#[test]
fn speech_then_hangover_closes_segment() {
    let mut s = Segmenter::new();
    let step = s.on_chunk(&[1; 300], true);
    assert!(step.started);
    assert!(step.segment.is_none());
    assert!(s.is_speaking());
    for _ in 0..HANGOVER_FRAMES - 1 {
        let step = s.on_chunk(&[2; 10], false);
        assert!(step.segment.is_none());
        assert!(!step.started);
    }
    let step = s.on_chunk(&[3; 10], false);
    let seg = step.segment.expect("segment closed by the hangover");
    assert_eq!(seg.len(), 300 + 10 * HANGOVER_FRAMES);
    assert_eq!(seg[0], 1);
    assert_eq!(seg[300], 2);
    assert_eq!(*seg.last().unwrap(), 3);
    assert!(!s.is_speaking());
}

#[test]
fn short_utterance_is_dropped() {
    let mut s = Segmenter::new();
    s.on_chunk(&[1; 10], true);
    for _ in 0..HANGOVER_FRAMES {
        let step = s.on_chunk(&[0; 1], false);
        assert!(step.segment.is_none());
    }
    assert!(!s.is_speaking());
    assert!(10 + HANGOVER_FRAMES < MIN_SEGMENT_SAMPLES);
}

#[test]
fn long_speech_is_cut_at_the_maximum() {
    let mut s = Segmenter::new();
    let chunk = vec![7i16; 100_000];
    let mut cut = None;
    for _ in 0..5 {
        let step = s.on_chunk(&chunk, true);
        if let Some(seg) = step.segment {
            cut = Some(seg);
        }
    }
    let seg = cut.expect("cut at the maximum length");
    assert!(seg.len() >= MAX_SEGMENT_SAMPLES);
    assert!(seg.len() < MAX_SEGMENT_SAMPLES + chunk.len());
    assert!(!s.is_speaking());
}

#[test]
fn silence_timeout_flushes_and_idles() {
    let mut s = Segmenter::new();
    s.on_chunk(&[4; 500], true);
    let seg = s.on_silence().expect("long enough to keep");
    assert_eq!(seg, vec![4; 500]);
    assert!(!s.is_speaking());
    assert!(s.on_silence().is_none());
}

#[test]
fn pipeline_judges_silence_as_no_speech() {
    let mut p = MeetingPipeline::new();
    let step = p.on_mic_chunk(vec![0; BLOCK * 2 + 10], vec![vec![0; 5]]);
    assert!(step.frames <= 2);
    assert_eq!(step.speech_frames, 0);
    assert!(!step.started);
    assert!(step.segment.is_none());
    assert!(p.on_silence().is_none());
}

#[test]
fn pipeline_ignores_empty_microphone_chunk() {
    let mut p = MeetingPipeline::new();
    let step = p.on_mic_chunk(Vec::new(), vec![vec![1, 2, 3]]);
    assert_eq!(step.frames, 0);
    assert!(step.segment.is_none());
}

#[test]
fn segments_are_numbered_from_one() {
    let mut p = MeetingPipeline::new();
    let a = p.queue_segment(vec![1; 400], "10:00:00".to_string());
    let b = p.queue_segment(vec![2; 400], "10:00:05".to_string());
    assert_eq!(a.id, 1);
    assert_eq!(b.id, 2);
    assert_eq!(queued_event(&b).id, 2);
    assert_eq!(b.ts, "10:00:05");
}

#[test]
fn empty_transcript_is_not_announced() {
    let mut p = MeetingPipeline::new();
    let seg = p.queue_segment(vec![1; 400], "09:30:00".to_string());
    assert!(segment_event(&seg, String::new()).is_none());
    let ev = segment_event(&seg, "bom dia".to_string()).unwrap();
    assert_eq!(ev.id, 1);
    assert_eq!(ev.text, "bom dia");
    assert_eq!(ev.ts, "09:30:00");
}

#[test]
fn monitor_source_prefers_running_monitor() {
    let listing = "0\talsa_input.pci.analog-stereo\tmodule-alsa-card.c\ts16le 2ch 44100Hz\tSUSPENDED\n\
1\talsa_output.pci.analog-stereo.monitor\tmodule-alsa-card.c\ts16le 2ch 44100Hz\tIDLE\n\
2\thdmi.monitor\tmodule-alsa-card.c\ts16le 2ch 48000Hz\tRUNNING\n";
    assert_eq!(pick_monitor_source(listing), Some("2".to_string()));
}

#[test]
fn monitor_source_falls_back_to_first_monitor() {
    let listing = "  1 alsa_output.monitor IDLE\r\n7 other.monitor SUSPENDED\n";
    assert_eq!(pick_monitor_source(listing), Some("1".to_string()));
}

#[test]
fn monitor_source_absent() {
    assert_eq!(pick_monitor_source(""), None);
    assert_eq!(pick_monitor_source("0 mic RUNNING\n"), None);
}

#[test]
fn frames_for_the_detector_are_consecutive_blocks() {
    let pending: Vec<i16> = (0..(BLOCK * 2 + 7) as i32).map(|i| i as i16).collect();
    let frames = goat_reuniao::meeting::vad_frames(&pending);
    assert_eq!(frames.len(), 2);
    assert_eq!(frames[0], pending[..BLOCK].to_vec());
    assert_eq!(frames[1], pending[BLOCK..2 * BLOCK].to_vec());
    assert!(goat_reuniao::meeting::vad_frames(&vec![0; BLOCK - 1]).is_empty());
}

#[test]
fn tally_counts_verdicts_and_speech() {
    let v = vec![Ok(true), Err(()), Ok(false), Ok(true)];
    assert_eq!(goat_reuniao::meeting::tally(&v), (3, 2));
    assert_eq!(goat_reuniao::meeting::tally(&vec![Ok(false), Err(())]), (1, 0));
    assert_eq!(goat_reuniao::meeting::tally(&Vec::new()), (0, 0));
}

#[test]
fn pipeline_reports_one_verdict_per_frame() {
    let mut p = MeetingPipeline::new();
    let step = p.on_mic_chunk(vec![0; BLOCK * 3 + 1], Vec::new());
    assert_eq!(step.verdicts.len(), 3);
    let (oks, speech) = goat_reuniao::meeting::tally(&step.verdicts);
    assert_eq!((oks, speech), (step.frames, step.speech_frames));
    let step = p.on_mic_chunk(vec![0; BLOCK - 1], Vec::new());
    assert_eq!(step.verdicts.len(), 1);
}

#[test]
fn recorder_start_order() {
    let (p, a) = recorder_start_step(StartPhase::Requested, StartEvent::Begin { running: true });
    assert!(matches!((p, a), (StartPhase::Finished, StartAction::AlreadyOn)));
    let (p, a) = recorder_start_step(StartPhase::Requested, StartEvent::Begin { running: false });
    assert!(matches!(a, StartAction::OpenMic));
    let (p2, a) = recorder_start_step(p, StartEvent::MicOpened { ok: true });
    assert!(matches!(a, StartAction::FindCpalMonitor));
    let (p3, a) = recorder_start_step(p2, StartEvent::MonitorSearched { found: false });
    assert!(matches!(a, StartAction::SpawnParec));
    let (p4, a) = recorder_start_step(p3, StartEvent::ParecSpawned { ok: false });
    assert!(matches!((p4, a), (StartPhase::Finished, StartAction::AbortNoMonitor)));
    let (_, a) = recorder_start_step(StartPhase::OpeningMic, StartEvent::MicOpened { ok: false });
    assert!(matches!(a, StartAction::AbortMicFailed));
    let (_, a) = recorder_start_step(
        StartPhase::FindingMonitor,
        StartEvent::MonitorSearched { found: true },
    );
    assert!(matches!(a, StartAction::OpenCpalMonitor));
    let (_, a) = recorder_start_step(
        StartPhase::OpeningCpalMonitor,
        StartEvent::CpalMonitorOpened { ok: true },
    );
    assert!(matches!(a, StartAction::Announce));
    let (_, a) = recorder_start_step(
        StartPhase::OpeningCpalMonitor,
        StartEvent::CpalMonitorOpened { ok: false },
    );
    assert!(matches!(a, StartAction::AbortMonitorFailed));
    assert_eq!(goat_reuniao::meeting::no_monitor_message(), "nenhum dispositivo de monitor disponível");
}

#[test]
fn audio_thread_turns() {
    let mut p = MeetingPipeline::new();
    let r = p.on_received(Received::Chunk(vec![0; BLOCK]), true, Vec::new());
    assert!(!r.stop);
    assert!(r.flushed.is_none());
    assert_eq!(r.mic.unwrap().verdicts.len(), 1);
    let r = p.on_received(Received::Timeout, true, Vec::new());
    assert!(!r.stop && r.mic.is_none() && r.flushed.is_none());
    let r = p.on_received(Received::Disconnected, true, Vec::new());
    assert!(r.stop && r.mic.is_none() && r.flushed.is_none());
    let r = p.on_received(Received::Chunk(Vec::new()), false, vec![vec![1; 10]]);
    assert!(r.stop && r.mic.is_none() && r.flushed.is_none());
}

#[test]
fn silence_frames_are_judged_not_speech() {
    let mut p = MeetingPipeline::new();
    let step = p.on_mic_chunk(vec![0; BLOCK * 4], Vec::new());
    assert_eq!(step.verdicts, vec![Ok(false); 4]);
    assert_eq!(step.frames, 4);
}
