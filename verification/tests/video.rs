use goat_reuniao::video::{video_read_step, VideoReadAction};
use goat_reuniao::video::{
    bytes_to_i16, chunk_events, chunk_samples, done_event, fmt_ts, join_texts, segments_for_seconds,
    video_outcome, PcmChunker, VideoJob, VideoOutcome, SEG_BYTES, SEG_SAMPLES,
};

#[test]
fn video_job_rejects_concurrent_start_and_allows_restart() {
    let mut job = VideoJob::new();
    assert!(job.try_start());
    assert!(job.is_running());
    assert!(!job.try_start());
    job.finish();
    assert!(!job.is_running());
    assert!(job.try_start());
}

#[test]
fn video_job_cancel_is_observable() {
    let mut job = VideoJob::new();
    assert!(!job.is_canceled());
    job.cancel();
    assert!(job.is_canceled());
}

#[test]
fn video_job_start_clears_stale_cancel() {
    let mut job = VideoJob::new();
    job.cancel();
    assert!(job.try_start());
    assert!(!job.is_canceled());
    job.cancel();
    assert!(job.is_running());
    assert!(job.is_canceled());
}

#[test]
fn formats_timestamps() {
    assert_eq!(fmt_ts(3723), "01:02:03");
}

#[test]
fn formats_timestamps_edges() {
    assert_eq!(fmt_ts(0), "00:00:00");
    assert_eq!(fmt_ts(59), "00:00:59");
    assert_eq!(fmt_ts(3600 * 100 + 61), "100:01:01");
}

#[test]
fn converts_little_endian_pcm_and_ignores_partial_byte() {
    assert_eq!(bytes_to_i16(&[0, 0, 0xff, 0x7f, 0x80]), vec![0, 32767]);
}

#[test]
fn converts_negative_samples() {
    assert_eq!(bytes_to_i16(&[0x00, 0x80, 0xff, 0xff]), vec![i16::MIN, -1]);
}

#[test]
fn chunks_are_bounded_to_thirty_seconds() {
    let bytes = vec![0u8; SEG_SAMPLES * 2 + 2];
    let mut chunks = bytes.chunks_exact(SEG_SAMPLES * 2);
    assert_eq!(chunks.next().unwrap().len(), SEG_SAMPLES * 2);
    assert_eq!(chunks.remainder().len(), 2);
}

#[test]
fn chunker_keeps_every_byte_in_order() {
    let mut c = PcmChunker::new();
    let data: Vec<u8> = (0..(SEG_BYTES * 2 + 1234)).map(|i| (i % 251) as u8).collect();
    let mut out: Vec<Vec<u8>> = Vec::new();
    for piece in data.chunks(65536) {
        out.extend(c.push(piece));
    }
    assert_eq!(out.len(), 2);
    assert!(out.iter().all(|ch| ch.len() == SEG_BYTES));
    let last = c.finish().unwrap();
    assert_eq!(last.len(), 1234);
    let mut all: Vec<u8> = out.concat();
    all.extend(last);
    assert_eq!(all, data);
    assert!(c.finish().is_none());
}

#[test]
fn segment_count_rounds_up() {
    assert_eq!(segments_for_seconds(0), 0);
    assert_eq!(segments_for_seconds(1), 1);
    assert_eq!(segments_for_seconds(30), 1);
    assert_eq!(segments_for_seconds(31), 2);
}

#[test]
fn chunk_samples_skips_cancelled_and_empty() {
    assert!(chunk_samples(true, &[1, 0]).is_none());
    assert!(chunk_samples(false, &[1]).is_none());
    assert_eq!(chunk_samples(false, &[1, 0, 2]), Some(vec![1]));
}

#[test]
fn chunk_events_number_from_one() {
    let (seg, progress) = chunk_events(2, 5, "olá".to_string());
    assert_eq!(seg.index, 3);
    assert_eq!(seg.ts, "00:01:00");
    assert_eq!(seg.text, "olá");
    assert_eq!(progress.done, 3);
    assert_eq!(progress.total, 5);
}

#[test]
fn done_event_joins_with_blank_lines() {
    let texts = vec!["um".to_string(), "dois".to_string(), "três".to_string()];
    let ev = done_event(&texts);
    assert_eq!(ev.segments, 3);
    assert_eq!(ev.text, "um\n\ndois\n\ntrês");
    assert_eq!(done_event(&Vec::new()).text, "");
    assert_eq!(join_texts(&vec!["a".to_string()], ", "), "a");
}

#[test]
fn outcome_of_a_job() {
    assert!(matches!(video_outcome(false, true), VideoOutcome::Failed));
    assert!(matches!(video_outcome(true, true), VideoOutcome::Canceled));
    assert!(matches!(video_outcome(true, false), VideoOutcome::Done));
}

#[test]
fn labels_sort_as_offsets() {
    let samples = [0usize, 1, 59, 60, 61, 599, 600, 3599, 3600, 35999, 36000, 359999];
    for &a in &samples {
        for &b in &samples {
            assert_eq!(fmt_ts(a) < fmt_ts(b), a < b);
        }
    }
}

#[test]
fn job_runs_until_finished() {
    let mut job = VideoJob::new();
    job.cancel();
    assert!(!job.is_running());
    assert!(job.try_start());
    job.cancel();
    assert!(job.is_running());
    assert!(!job.try_start());
    assert!(job.is_running());
    job.finish();
    job.cancel();
    assert!(!job.is_running());
}

#[test]
fn video_read_steps() {
    assert!(matches!(video_read_step(true, None), VideoReadAction::Cancel));
    assert!(matches!(video_read_step(false, None), VideoReadAction::Read));
    assert!(matches!(video_read_step(false, Some(0)), VideoReadAction::EndOfInput));
    assert!(matches!(video_read_step(true, Some(10)), VideoReadAction::Feed(10)));
}

#[test]
fn segment_failure_counts_from_one() {
    assert_eq!(
        goat_reuniao::video::segment_failure_message(11, "timeout"),
        "falha na transcrição (segmento 12): timeout"
    );
}
