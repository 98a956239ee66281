use nocturned::json::Json;
use nocturned::audio::{
    arecord_args, discard_priming_frame, pcm_frame_samples, pcm_trace_metadata, PcmFrameError, preference_muted, preference_text, priming_enabled, validate_config, AudioCommand, AudioConfig,
    AudioConfigError, PcmTraceData, PreRollBuffer, RawFrameAssembler, RawTrace, WakeWordPauseState,
    DetectionGate, WakeWordControl, WindFrameBatch, WIND_FRAME_BATCH_SIZE,
    ARECORD_CAPTURE_DEVICE, ARECORD_WAKEWORD_DEVICE, PCM_TRACE_MAX_BYTES, PREROLL_MAX_BYTES,
    RAW_FRAME_BYTES, RAW_TRACE_FRAME_BYTES, RAW_TRACE_MAX_BYTES,
};

#[test]
fn arecord_args_use_superbird_native_capture_format() {
    assert_eq!(ARECORD_WAKEWORD_DEVICE, "hw:0,0");
    assert_eq!(ARECORD_CAPTURE_DEVICE, "hw:0,1");
    assert_eq!(
        arecord_args(ARECORD_WAKEWORD_DEVICE),
        ["-q", "-D", "hw:0,0", "-f", "S32_LE", "-c", "4", "-r", "48000", "-t", "raw"]
    );
    assert_eq!(
        arecord_args(ARECORD_CAPTURE_DEVICE),
        ["-q", "-D", "hw:0,1", "-f", "S32_LE", "-c", "4", "-r", "48000", "-t", "raw"]
    );
}

#[test]
fn preroll_buffer_keeps_frame_alignment_across_odd_pushes() {
    let mut preroll = PreRollBuffer::new();
    let start: u64 = 1_000;
    let data: Vec<u8> = (0..3000u32).map(|i| (i % 251) as u8).collect();
    preroll.push(&data[..1000], start);
    preroll.push(&data[1000..1003], start + 1);
    preroll.push(&data[1003..], start + 2);

    let snapshot = preroll.snapshot_since(start);
    assert_eq!(snapshot.len() % RAW_FRAME_BYTES, 0);
    assert_eq!(snapshot.len(), 3000 - (3000 % RAW_FRAME_BYTES));
    assert_eq!(snapshot[..], data[..snapshot.len()]);
}

#[test]
fn preroll_buffer_evicts_oldest_beyond_capacity_and_resets() {
    let mut preroll = PreRollBuffer::new();
    let start: u64 = 1_000;
    let chunk = vec![7u8; RAW_FRAME_BYTES * 3000]; // 48000 bytes
    for i in 0..20u64 {
        preroll.push(&chunk, start + i);
    }
    let snapshot = preroll.snapshot_since(start);
    assert!(snapshot.len() <= PREROLL_MAX_BYTES);
    assert_eq!(snapshot.len() % RAW_FRAME_BYTES, 0);
    assert!(!snapshot.is_empty());

    preroll.reset_stream();
    assert!(preroll.snapshot_since(start).is_empty());
}

#[test]
fn preroll_snapshot_filters_by_cutoff() {
    let mut preroll = PreRollBuffer::new();
    let chunk = vec![1u8; RAW_FRAME_BYTES * 4];
    preroll.push(&chunk, 5_000);
    let after_first: u64 = 5_001;
    let chunk2 = vec![2u8; RAW_FRAME_BYTES * 4];
    preroll.push(&chunk2, 5_002);

    let recent = preroll.snapshot_since(after_first);
    assert_eq!(recent, chunk2);
    let all = preroll.snapshot_since(after_first - 1_000);
    assert_eq!(all.len(), chunk.len() + chunk2.len());
}

#[test]
fn preroll_keeps_exactly_one_second_after_overflow() {
    let mut preroll = PreRollBuffer::new();
    let chunk = vec![3u8; RAW_FRAME_BYTES * 3000];
    for i in 0..17u64 {
        preroll.push(&chunk, i);
    }
    // 17 chunks of 48000 bytes exceed the 768000 cap by one chunk.
    assert_eq!(preroll.snapshot_since(0).len(), PREROLL_MAX_BYTES);
    assert_eq!(preroll.snapshot_since(1).len(), PREROLL_MAX_BYTES);
}

#[test]
fn preroll_carries_a_partial_frame_until_it_completes() {
    let mut preroll = PreRollBuffer::new();
    preroll.push(&[1u8; 15], 10);
    assert!(preroll.snapshot_since(0).is_empty());
    preroll.push(&[2u8; 1], 11);
    let mut expected = vec![1u8; 15];
    expected.push(2);
    assert_eq!(preroll.snapshot_since(0), expected);
    // The completed frame is stamped with the push that completed it.
    assert_eq!(preroll.snapshot_since(11), expected);
    assert!(preroll.snapshot_since(12).is_empty());
}

#[test]
fn raw_trace_preserves_split_input_and_caps_on_complete_frames() {
    let mut trace = RawTrace::new();
    let chunk: Vec<u8> = (0..1003).map(|index| (index % 251) as u8).collect();
    let total = RAW_TRACE_MAX_BYTES + 19;
    let mut consumed = 0;
    while consumed < total {
        let count = chunk.len().min(total - consumed);
        trace.record(&chunk[..count]);
        consumed += count;
    }
    assert_eq!(trace.consumed_bytes, total as u64);
    assert_eq!(trace.bytes.len(), RAW_TRACE_MAX_BYTES);
    assert_eq!(trace.bytes.capacity(), RAW_TRACE_MAX_BYTES);
    assert_eq!(trace.aligned_bytes().len() % RAW_TRACE_FRAME_BYTES, 0);
    assert!(trace
        .bytes
        .iter()
        .enumerate()
        .all(|(index, byte)| *byte == chunk[index % chunk.len()]));
    trace.record(&[255; 33]);
    assert_eq!(trace.consumed_bytes, (total + 33) as u64);
    assert_eq!(trace.bytes.len(), RAW_TRACE_MAX_BYTES);
}

#[test]
fn raw_trace_starts_empty_with_unknown_source() {
    let trace = RawTrace::new();
    assert!(trace.bytes.is_empty());
    assert_eq!(trace.consumed_bytes, 0);
    assert_eq!(trace.source, "unavailable");
    assert!(trace.aligned_bytes().is_empty());
}

#[test]
fn raw_trace_aligned_bytes_drop_a_partial_frame() {
    let mut trace = RawTrace::new();
    trace.record(&[9u8; 37]);
    assert_eq!(trace.aligned_bytes(), &[9u8; 32][..]);
}

#[test]
fn pcm_trace_keeps_only_frames_that_fit_whole() {
    let mut trace = PcmTraceData { pcm: vec![0u8; PCM_TRACE_MAX_BYTES - 10], raw: None };
    trace.record_encoded(&[1u8; 11]);
    assert_eq!(trace.pcm.len(), PCM_TRACE_MAX_BYTES - 10);
    trace.record_encoded(&[1u8; 10]);
    assert_eq!(trace.pcm.len(), PCM_TRACE_MAX_BYTES);
}

#[test]
fn discarding_priming_frames_counts_them_in_the_raw_trace() {
    let mut raw_trace = RawTrace::new();
    raw_trace.priming_target_pcm_frames = 3;
    let mut trace = Some(PcmTraceData { pcm: Vec::new(), raw: Some(raw_trace) });
    let mut remaining = 3;
    assert!(discard_priming_frame(&mut remaining, &mut trace));
    assert_eq!(remaining, 2);
    let t = trace.as_ref().unwrap();
    assert!(t.pcm.is_empty());
    assert_eq!(t.raw.as_ref().unwrap().priming_discarded_pcm_frames, 1);
    assert_eq!(t.raw.as_ref().unwrap().priming_target_pcm_frames, 3);
    remaining = 0;
    assert!(!discard_priming_frame(&mut remaining, &mut None));
    assert_eq!(remaining, 0);
}

#[test]
fn capture_accepts_only_sixteen_khz_mono_sixty_ms() {
    assert_eq!(validate_config(AudioConfig::default()), Ok(()));
    let stereo = AudioConfig { channels: 2, ..AudioConfig::default() };
    assert_eq!(validate_config(stereo), Err(AudioConfigError::UnsupportedFormat));
    let fast = AudioConfig { sample_rate: 48_000, ..AudioConfig::default() };
    assert_eq!(validate_config(fast), Err(AudioConfigError::UnsupportedFormat));
    let short = AudioConfig { frame_duration_ms: 20, ..AudioConfig::default() };
    assert_eq!(validate_config(short), Err(AudioConfigError::UnsupportedFormat));
    assert_ne!(AudioCommand::Start, AudioCommand::Stop);
}

#[test]
fn priming_is_enabled_only_by_one() {
    assert!(priming_enabled(Some("1")));
    assert!(!priming_enabled(Some("0")));
    assert!(!priming_enabled(Some("true")));
    assert!(!priming_enabled(None));
}

#[test]
fn transient_resume_does_not_clear_user_mute() {
    let mut state = WakeWordPauseState::new(true);

    state.pause(false);
    state.resume(false);

    assert!(state.is_paused());
    assert!(state.user_muted);
    assert!(!state.recording_suppressed);
}

#[test]
fn user_resume_keeps_recording_suppression_active() {
    let mut state = WakeWordPauseState::new(true);

    state.pause(false);
    state.resume(true);

    assert!(state.is_paused());
    assert!(!state.user_muted);
    assert!(state.recording_suppressed);
}

#[test]
fn transient_pause_resumes_when_recording_finishes() {
    let mut state = WakeWordPauseState::new(false);

    state.pause(false);
    assert!(state.is_paused());

    state.resume(false);

    assert!(!state.is_paused());
    assert!(!state.user_muted);
    assert!(!state.recording_suppressed);
}

#[test]
fn muting_during_recording_requires_user_resume_after_recording_finishes() {
    let mut state = WakeWordPauseState::new(false);

    assert_eq!(state.pause(false), None);
    assert_eq!(state.pause(true), Some(true));
    assert_eq!(state.resume(false), None);
    assert!(state.user_muted);
    assert!(state.is_paused());

    assert_eq!(state.resume(true), Some(false));
    assert!(!state.is_paused());
}

#[test]
fn wake_noise_suppression_requires_explicit_opt_in() {
    for (value, expected) in [
        (None, false),
        (Some("0"), false),
        (Some("1"), true),
        (Some(""), false),
        (Some("true"), false),
        (Some(" 1"), false),
        (Some("2"), false),
    ] {
        assert_eq!(nocturned::audio::wake_noise_suppression_enabled(value), expected);
    }
}

fn number(j: &Json, key: &str) -> Option<u64> {
    j.get(key).and_then(|v| v.as_u64())
}

#[test]
fn trace_metadata_describes_the_encoded_pcm() {
    let trace = PcmTraceData { pcm: vec![0u8; 1920 * 3 + 100], raw: None };
    let meta = pcm_trace_metadata(&trace, 1_713_000, "silence", 5, "ignored.s32le");
    assert_eq!(meta.get("format").and_then(|v| v.as_str()), Some("s16le"));
    assert_eq!(number(&meta, "sample_rate"), Some(16_000));
    assert_eq!(number(&meta, "frame_duration_ms"), Some(60));
    assert_eq!(meta.get("stop_reason").and_then(|v| v.as_str()), Some("silence"));
    assert_eq!(number(&meta, "started_ms"), Some(1_713_000));
    assert_eq!(number(&meta, "total_encoded_frames"), Some(5));
    assert_eq!(number(&meta, "trace_frames"), Some(3));
    assert_eq!(number(&meta, "trace_bytes"), Some(1920 * 3 + 100));
    assert_eq!(meta.get("truncated").and_then(|v| v.as_bool()), Some(true));
    assert!(meta.get("raw").is_none());

    let complete = PcmTraceData { pcm: vec![0u8; 1920 * 2], raw: None };
    let meta = pcm_trace_metadata(&complete, 0, "user_requested", 2, "");
    assert_eq!(meta.get("truncated").and_then(|v| v.as_bool()), Some(false));
}

#[test]
fn trace_metadata_describes_the_raw_input() {
    let mut raw = RawTrace::new();
    raw.record(&[1u8; 40]);
    raw.priming_target_pcm_frames = 4;
    raw.priming_discarded_pcm_frames = 2;
    raw.source = "continuous";
    let trace = PcmTraceData { pcm: Vec::new(), raw: Some(raw) };
    let meta = pcm_trace_metadata(&trace, 7, "silence", 0, "voice-7-x.s32le");
    let raw = meta.get("raw").expect("raw section");
    assert_eq!(raw.get("file").and_then(|v| v.as_str()), Some("voice-7-x.s32le"));
    assert_eq!(raw.get("source").and_then(|v| v.as_str()), Some("continuous"));
    assert_eq!(number(raw, "sample_rate"), Some(48_000));
    assert_eq!(number(raw, "channels"), Some(4));
    assert_eq!(number(raw, "priming_discarded_pcm_samples"), Some(2 * 960));
    assert_eq!(number(raw, "consumed_bytes"), Some(40));
    assert_eq!(number(raw, "trace_bytes"), Some(32));
    assert_eq!(number(raw, "trace_frames"), Some(2));
    assert_eq!(number(raw, "discarded_partial_frame_bytes"), Some(8));
    assert_eq!(number(raw, "maximum_bytes"), Some(RAW_TRACE_MAX_BYTES as u64));
    assert_eq!(raw.get("truncated").and_then(|v| v.as_bool()), Some(true));
    assert_eq!(raw.get("encoded_frames_only").and_then(|v| v.as_bool()), Some(false));
}

fn frame_bytes(samples: [i32; 4]) -> Vec<u8> {
    samples.iter().flat_map(|s| s.to_le_bytes()).collect()
}

#[test]
fn raw_input_is_framed_across_pushes() {
    let mut assembler = RawFrameAssembler::new();
    let first = frame_bytes([1, -1, i32::MAX, i32::MIN]);
    let second = frame_bytes([0x0102_0304, -2, 7, 0]);
    let mut input = first.clone();
    input.extend_from_slice(&second[..5]);
    assert_eq!(assembler.push(&input), vec![[1, -1, i32::MAX, i32::MIN]]);
    assert!(assembler.push(&second[5..10]).is_empty());
    assert_eq!(assembler.push(&second[10..]), vec![[0x0102_0304, -2, 7, 0]]);
    assert!(assembler.push(&[]).is_empty());
}

#[test]
fn wind_frames_are_handed_over_in_full_batches() {
    let mut batch = WindFrameBatch::new();
    for i in 0..WIND_FRAME_BATCH_SIZE - 1 {
        assert!(batch.push([i as i32, 0, 0, 0]).is_none());
    }
    let full = batch.push([-1, 0, 0, 0]).expect("a full batch");
    assert_eq!(full.len(), WIND_FRAME_BATCH_SIZE);
    assert_eq!(full[0], [0, 0, 0, 0]);
    assert_eq!(full[WIND_FRAME_BATCH_SIZE - 1], [-1, 0, 0, 0]);
    assert!(batch.push([5, 5, 5, 5]).is_none());
}

#[test]
fn wake_word_mute_preference_reads_back() {
    assert!(preference_muted(Some(preference_text(true))));
    assert!(!preference_muted(Some(preference_text(false))));
    assert!(preference_muted(Some("  paused\n")));
    assert!(!preference_muted(Some("Paused")));
    assert!(!preference_muted(Some("")));
    assert!(!preference_muted(None));
    assert_eq!(preference_text(true), "paused");
    assert_eq!(preference_text(false), "running");
}

#[test]
fn pcm_frames_are_read_as_little_endian_samples() {
    let mut frame = vec![0u8; 1920];
    frame[0] = 0x34;
    frame[1] = 0x12;
    frame[1918] = 0x00;
    frame[1919] = 0x80;
    let samples = pcm_frame_samples(&frame).expect("a full frame");
    assert_eq!(samples.len(), 960);
    assert_eq!(samples[0], 0x1234);
    assert_eq!(samples[959], i16::MIN);
    assert_eq!(pcm_frame_samples(&frame[..1918]), Err(PcmFrameError::WrongSize));
    assert_eq!(pcm_frame_samples(&[]), Err(PcmFrameError::WrongSize));
}

#[test]
fn one_detection_at_a_time_until_its_verdict() {
    let mut gate = DetectionGate::new();
    assert!(gate.may_announce());
    gate.announced(false);
    assert!(gate.may_announce());
    gate.announced(true);
    assert!(!gate.may_announce());
    gate.announced(true);
    assert!(!gate.may_announce());
    gate.clear();
    assert!(gate.may_announce());
}

#[test]
fn detections_are_announced_one_at_a_time_and_never_while_paused() {
    let mut control = WakeWordControl::new(false);
    assert!(control.may_announce());
    control.announced(true);
    assert!(!control.may_announce());
    control.clear_detection();
    assert!(control.may_announce());

    let actions = control.on_pause(false, true);
    assert_eq!(actions.save_muted, None);
    assert!(!actions.stop_listener && actions.acknowledge);
    assert!(!control.may_announce());
    assert_eq!(control.on_resume(false), None);
    assert!(control.may_announce());

    control.announced(true);
    let actions = control.on_pause(true, false);
    assert_eq!(actions.save_muted, Some(true));
    assert!(actions.stop_listener && !actions.acknowledge);
    assert!(!control.gate.candidate_pending);
    assert!(!control.may_announce());
    assert_eq!(control.on_resume(true), Some(false));
    assert!(control.may_announce());

    assert!(!WakeWordControl::new(true).may_announce());
}
