use nocturned::audio::AudioCommand;
use nocturned::recording::{
    observe_recording_exit, priming_plan, record_start_step, stop_reason, CaptureAction,
    CaptureControl, RecordStartAction, RecordStartEvent, RecordingEnd, RecordingSession,
    PAUSE_ACK_TIMEOUT_MS, RAW_BYTES_PER_FRAME,
};

#[test]
fn first_frame_announces_and_every_third_reports_level() {
    let mut s = RecordingSession::new();
    let d1 = s.on_frame(1000, true);
    assert!(d1.announce_start);
    assert!(!d1.report_level);
    let d2 = s.on_frame(1060, true);
    assert!(!d2.announce_start);
    assert!(!d2.report_level);
    let d3 = s.on_frame(1120, true);
    assert!(d3.report_level);
    assert_eq!(s.first_frame_at, Some(1000));
    assert_eq!(s.mic_level_counter, 3);
}

#[test]
fn silence_ends_a_recording_only_after_grace_and_duration() {
    let mut s = RecordingSession::new();
    assert!(!s.on_frame(0, false).stop_for_silence);
    assert!(!s.on_frame(1499, false).stop_for_silence);
    assert_eq!(s.silence_start, None);
    // Grace is over: silence starts counting here.
    assert!(!s.on_frame(1500, false).stop_for_silence);
    assert_eq!(s.silence_start, Some(1500));
    assert!(!s.on_frame(2999, false).stop_for_silence);
    assert!(s.on_frame(3000, false).stop_for_silence);
}

#[test]
fn voice_resets_the_silence_timer() {
    let mut s = RecordingSession::new();
    s.on_frame(0, true);
    s.on_frame(2000, false);
    assert_eq!(s.silence_start, Some(2000));
    s.on_frame(2500, true);
    assert_eq!(s.silence_start, None);
    assert!(!s.on_frame(3400, false).stop_for_silence);
    assert_eq!(s.silence_start, Some(3400));
    assert!(s.on_frame(4900, false).stop_for_silence);
}

#[test]
fn sent_frames_are_numbered_from_zero() {
    let mut s = RecordingSession::new();
    s.on_frame(0, true);
    assert_eq!(s.frame_sent(), 0);
    s.on_frame(60, true);
    assert_eq!(s.frame_sent(), 1);
    assert_eq!(s.total_frames, 2);
    assert_eq!(s.seq, 2);
}

#[test]
fn capture_actor_starts_and_stops_once() {
    let mut c = CaptureControl::new();
    assert_eq!(c.on_command(Some(AudioCommand::Stop)), CaptureAction::Ignore);
    assert_eq!(c.on_command(Some(AudioCommand::Start)), CaptureAction::StartRecording);
    assert_eq!(c.on_command(Some(AudioCommand::Start)), CaptureAction::Ignore);
    assert_eq!(c.on_command(Some(AudioCommand::Stop)), CaptureAction::StopRecording);
    assert!(!c.recording);
    assert_eq!(c.on_command(Some(AudioCommand::Start)), CaptureAction::StartRecording);
    c.on_recording_exit();
    assert!(!c.recording);
    assert_eq!(c.on_command(Some(AudioCommand::Start)), CaptureAction::StartRecording);
    assert_eq!(c.on_command(None), CaptureAction::StopRecordingAndExit);
    assert_eq!(CaptureControl::new().on_command(None), CaptureAction::Exit);
}

#[test]
fn priming_drops_whole_frames_of_history() {
    assert_eq!(priming_plan(0, 1000), (0, 1000));
    assert_eq!(priming_plan(RAW_BYTES_PER_FRAME * 2 + 5, RAW_BYTES_PER_FRAME * 3), (2, RAW_BYTES_PER_FRAME));
}

#[test]
fn stop_reasons() {
    assert_eq!(stop_reason(RecordingEnd::Stopped), "stopped");
    assert_eq!(stop_reason(RecordingEnd::Silence), "silence");
    assert_eq!(stop_reason(RecordingEnd::Failed), "cancelled");
}

#[test]
fn unexpected_task_exit_emits_a_terminal_event() {
    assert_eq!(observe_recording_exit(true), Some(("cancelled", 0)));
    assert_eq!(observe_recording_exit(false), None);
}

#[test]
fn audio_start_pauses_wakeword_before_recording() {
    assert_eq!(
        record_start_step(RecordStartEvent::Requested { has_detector: true }),
        RecordStartAction::PauseDetector { persist: false, wants_ack: true }
    );
    assert_eq!(
        record_start_step(RecordStartEvent::PauseSent { delivered: true }),
        RecordStartAction::AwaitAck { timeout_ms: 1000 }
    );
    assert_eq!(PAUSE_ACK_TIMEOUT_MS, 1000);
    assert_eq!(
        record_start_step(RecordStartEvent::AckWaitOver { acknowledged: true }),
        RecordStartAction::StartRecording
    );
}

#[test]
fn recording_starts_even_without_a_pause_confirmation() {
    assert_eq!(
        record_start_step(RecordStartEvent::AckWaitOver { acknowledged: false }),
        RecordStartAction::StartRecording
    );
    assert_eq!(
        record_start_step(RecordStartEvent::PauseSent { delivered: false }),
        RecordStartAction::StartRecording
    );
    assert_eq!(
        record_start_step(RecordStartEvent::Requested { has_detector: false }),
        RecordStartAction::StartRecording
    );
}
