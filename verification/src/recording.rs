//! The decisions of a voice recording: which frames announce the start,
//! report the microphone level or end the recording on silence, and what the
//! capture actor does with each command.
use vstd::prelude::*;
use crate::audio::AudioCommand;

verus! {

/// Silence that ends a recording, once the grace period is over.
pub const SILENCE_DURATION_MS: u64 = 1500;
/// Time after the first frame during which silence never ends a recording.
pub const SILENCE_GRACE_PERIOD_MS: u64 = 1500;
/// Raw capture bytes per millisecond (48 kHz, four 32-bit channels).
pub const RAW_BYTES_PER_MS: usize = 768;
/// Raw capture bytes behind one 60 ms output frame.
pub const RAW_BYTES_PER_FRAME: usize = 46080;
/// Every this many frames the microphone level is reported.
pub const MIC_LEVEL_EVERY: u64 = 3;

/// Priming for a shared capture: the whole output frames of history to drop
/// before the first output frame, and the pre-roll bytes that remain.
pub fn priming_plan(history_before_output_bytes: usize, preroll_bytes: usize) -> (r: (usize, usize))
    requires
        (history_before_output_bytes / RAW_BYTES_PER_FRAME) * RAW_BYTES_PER_FRAME <= preroll_bytes,
    ensures
        r.0 == history_before_output_bytes / RAW_BYTES_PER_FRAME,
        r.1 == preroll_bytes - r.0 * RAW_BYTES_PER_FRAME,
{
    let frames = history_before_output_bytes / RAW_BYTES_PER_FRAME;
    (frames, preroll_bytes - frames * RAW_BYTES_PER_FRAME)
}

/// Time from `earlier` to `later` in milliseconds, zero when `later` is not
/// later.
pub open spec fn elapsed_ms(earlier: u64, later: u64) -> u64 {
    if later >= earlier {
        (later - earlier) as u64
    } else {
        0
    }
}

/// Progress of one recording.
#[derive(Clone, Copy, Debug, PartialEq, Eq, Structural)]
pub struct RecordingSession {
    /// Whether the `started` event has gone out.
    pub started_sent: bool,
    /// When the first output frame arrived.
    pub first_frame_at: Option<u64>,
    /// When the current run of silence began.
    pub silence_start: Option<u64>,
    /// Output frames seen.
    pub mic_level_counter: u64,
    /// Sequence number of the next encoded frame.
    pub seq: u64,
    /// Frames encoded and sent.
    pub total_frames: u64,
}

/// What to do with one output frame, in order: announce the start, report
/// the microphone level, then either end the recording for silence or
/// encode and send the frame.
#[derive(Clone, Copy, Debug, PartialEq, Eq, Structural)]
pub struct FrameDecision {
    pub announce_start: bool,
    pub report_level: bool,
    pub stop_for_silence: bool,
}

impl RecordingSession {
    /// A recording that has seen no frame.
    pub fn new() -> (s: RecordingSession)
        ensures
            !s.started_sent,
            s.first_frame_at is None,
            s.silence_start is None,
            s.mic_level_counter == 0,
            s.seq == 0,
            s.total_frames == 0,
    {
        RecordingSession {
            started_sent: false,
            first_frame_at: None,
            silence_start: None,
            mic_level_counter: 0,
            seq: 0,
            total_frames: 0,
        }
    }

    /// Takes one output frame arriving at `now_ms`; `voice_active` is the
    /// frame's voice-activity verdict. The start is announced on the first
    /// frame, the level on every third; within the grace period after the
    /// first frame, or on voice, the silence timer is cleared; otherwise it
    /// runs from the first silent frame, and the recording ends once it has
    /// run for the silence duration.
    pub fn on_frame(&mut self, now_ms: u64, voice_active: bool) -> (d: FrameDecision)
        requires
            old(self).mic_level_counter < u64::MAX,
        ensures
            d.announce_start == !old(self).started_sent,
            final(self).started_sent,
            final(self).first_frame_at == Some(
                match old(self).first_frame_at {
                    Some(f) => f,
                    None => now_ms,
                },
            ),
            final(self).mic_level_counter == old(self).mic_level_counter + 1,
            d.report_level == (final(self).mic_level_counter % MIC_LEVEL_EVERY == 0),
            ({
                let first = match old(self).first_frame_at {
                    Some(f) => f,
                    None => now_ms,
                };
                let since = match old(self).silence_start {
                    Some(s) => s,
                    None => now_ms,
                };
                if elapsed_ms(first, now_ms) < SILENCE_GRACE_PERIOD_MS || voice_active {
                    final(self).silence_start is None && !d.stop_for_silence
                } else {
                    final(self).silence_start == Some(since) && d.stop_for_silence == (elapsed_ms(
                        since,
                        now_ms,
                    ) >= SILENCE_DURATION_MS)
                }
            }),
            final(self).seq == old(self).seq,
            final(self).total_frames == old(self).total_frames,
    {
        let announce_start = !self.started_sent;
        self.started_sent = true;
        let first = match self.first_frame_at {
            Some(f) => f,
            None => now_ms,
        };
        self.first_frame_at = Some(first);
        self.mic_level_counter = self.mic_level_counter + 1;
        let report_level = self.mic_level_counter % MIC_LEVEL_EVERY == 0;
        let since_first = if now_ms >= first {
            now_ms - first
        } else {
            0
        };
        let mut stop_for_silence = false;
        if since_first < SILENCE_GRACE_PERIOD_MS || voice_active {
            self.silence_start = None;
        } else {
            let since = match self.silence_start {
                Some(s) => s,
                None => now_ms,
            };
            self.silence_start = Some(since);
            let silent_for = if now_ms >= since {
                now_ms - since
            } else {
                0
            };
            stop_for_silence = silent_for >= SILENCE_DURATION_MS;
        }
        FrameDecision { announce_start, report_level, stop_for_silence }
    }

    /// Records that a frame was encoded and sent; returns its sequence
    /// number.
    pub fn frame_sent(&mut self) -> (seq: u64)
        requires
            old(self).seq < u64::MAX,
            old(self).total_frames < u64::MAX,
        ensures
            seq == old(self).seq,
            *final(self) == (RecordingSession {
                seq: (old(self).seq + 1) as u64,
                total_frames: (old(self).total_frames + 1) as u64,
                ..*old(self)
            }),
    {
        let seq = self.seq;
        self.seq = self.seq + 1;
        self.total_frames = self.total_frames + 1;
        seq
    }
}

/// How a recording ended.
#[derive(Clone, Copy, Debug, PartialEq, Eq, Structural)]
pub enum RecordingEnd {
    /// Asked to stop.
    Stopped,
    /// Silence ended it.
    Silence,
    /// Capture or encoding failed.
    Failed,
}

/// The reason the `stopped` event gives for an ending.
pub fn stop_reason(end: RecordingEnd) -> (reason: &'static str)
    ensures
        end == RecordingEnd::Stopped ==> reason@ == "stopped"@,
        end == RecordingEnd::Silence ==> reason@ == "silence"@,
        end == RecordingEnd::Failed ==> reason@ == "cancelled"@,
{
    match end {
        RecordingEnd::Stopped => "stopped",
        RecordingEnd::Silence => "silence",
        RecordingEnd::Failed => "cancelled",
    }
}

/// What the capture actor does with a command.
#[derive(Clone, Copy, Debug, PartialEq, Eq, Structural)]
pub enum CaptureAction {
    /// Start a recording task.
    StartRecording,
    /// Nothing: already in the requested state.
    Ignore,
    /// Stop the recording task and wait for it.
    StopRecording,
    /// Stop the recording task, then shut down.
    StopRecordingAndExit,
    /// Shut down.
    Exit,
}

/// Whether the voice capture actor has a recording running.
#[derive(Clone, Copy, Debug, PartialEq, Eq, Structural)]
pub struct CaptureControl {
    pub recording: bool,
}

impl CaptureControl {
    /// Idle.
    pub fn new() -> (c: CaptureControl)
        ensures
            !c.recording,
    {
        CaptureControl { recording: false }
    }

    /// Takes a command (`None` when the command channel closed): a start
    /// while idle starts a recording, a stop while recording stops it, a
    /// closed channel stops any recording and shuts down; a repeated start or
    /// stop is ignored.
    pub fn on_command(&mut self, cmd: Option<AudioCommand>) -> (a: CaptureAction)
        ensures
            a == match cmd {
                Some(AudioCommand::Start) => if old(self).recording {
                    CaptureAction::Ignore
                } else {
                    CaptureAction::StartRecording
                },
                Some(AudioCommand::Stop) => if old(self).recording {
                    CaptureAction::StopRecording
                } else {
                    CaptureAction::Ignore
                },
                None => if old(self).recording {
                    CaptureAction::StopRecordingAndExit
                } else {
                    CaptureAction::Exit
                },
            },
            final(self).recording == ((old(self).recording || cmd == Some(AudioCommand::Start)) && cmd
                != Some(AudioCommand::Stop) && cmd is Some),
    {
        match cmd {
            Some(AudioCommand::Start) => {
                if self.recording {
                    CaptureAction::Ignore
                } else {
                    self.recording = true;
                    CaptureAction::StartRecording
                }
            },
            Some(AudioCommand::Stop) => {
                if self.recording {
                    self.recording = false;
                    CaptureAction::StopRecording
                } else {
                    CaptureAction::Ignore
                }
            },
            None => {
                let was = self.recording;
                self.recording = false;
                if was {
                    CaptureAction::StopRecordingAndExit
                } else {
                    CaptureAction::Exit
                }
            },
        }
    }

    /// The recording task ended on its own.
    pub fn on_recording_exit(&mut self)
        ensures
            !final(self).recording,
    {
        self.recording = false;
    }
}


/// The `stopped` event owed once a recording task has been joined: a task
/// that returned sent its own, so none; one that panicked or was aborted sent
/// none, so a `cancelled` event with no frames.
pub fn observe_recording_exit(task_failed: bool) -> (event: Option<(&'static str, u64)>)
    ensures
        !task_failed ==> event is None,
        task_failed ==> (event matches Some((reason, frames)) && reason@ == "cancelled"@ && frames == 0),
{
    if task_failed {
        Some((stop_reason(RecordingEnd::Failed), 0))
    } else {
        None
    }
}

/// How long a recording start waits for the wake-word detector to confirm
/// that it paused.
pub const PAUSE_ACK_TIMEOUT_MS: u64 = 1000;

/// What happened since the last step of starting a recording.
#[derive(Clone, Copy, Debug, PartialEq, Eq, Structural)]
pub enum RecordStartEvent {
    /// A start was requested; `has_detector` tells whether a wake-word
    /// detector is wired up.
    Requested { has_detector: bool },
    /// The pause command was handed to the detector (`delivered`) or its
    /// channel was closed.
    PauseSent { delivered: bool },
    /// The wait for the pause confirmation ended, acknowledged or not
    /// (timed out, or the detector dropped the reply).
    AckWaitOver { acknowledged: bool },
}

/// What to do next while starting a recording.
#[derive(Clone, Copy, Debug, PartialEq, Eq, Structural)]
pub enum RecordStartAction {
    /// Pause the wake-word detector for this recording only, asking for a
    /// confirmation.
    PauseDetector { persist: bool, wants_ack: bool },
    /// Wait at most this long for the confirmation.
    AwaitAck { timeout_ms: u64 },
    /// Send the start command to the capture actor and answer `recording`.
    StartRecording,
}

/// The step that `record_start_step` takes.
pub open spec fn record_start_action(event: RecordStartEvent) -> RecordStartAction {
    match event {
        RecordStartEvent::Requested { has_detector } => if has_detector {
            RecordStartAction::PauseDetector { persist: false, wants_ack: true }
        } else {
            RecordStartAction::StartRecording
        },
        RecordStartEvent::PauseSent { delivered } => if delivered {
            RecordStartAction::AwaitAck { timeout_ms: PAUSE_ACK_TIMEOUT_MS }
        } else {
            RecordStartAction::StartRecording
        },
        RecordStartEvent::AckWaitOver { .. } => RecordStartAction::StartRecording,
    }
}

/// Starting a recording: the wake-word detector is paused first (transiently,
/// with a confirmation awaited for at most a second), and the recording
/// starts whatever the detector answers.
pub fn record_start_step(event: RecordStartEvent) -> (action: RecordStartAction)
    ensures
        action == record_start_action(event),
{
    match event {
        RecordStartEvent::Requested { has_detector } => if has_detector {
            RecordStartAction::PauseDetector { persist: false, wants_ack: true }
        } else {
            RecordStartAction::StartRecording
        },
        RecordStartEvent::PauseSent { delivered } => if delivered {
            RecordStartAction::AwaitAck { timeout_ms: PAUSE_ACK_TIMEOUT_MS }
        } else {
            RecordStartAction::StartRecording
        },
        RecordStartEvent::AckWaitOver { .. } => RecordStartAction::StartRecording,
    }
}

/// A requested recording always starts, in at most three steps and whatever
/// the detector does: with no detector at once, after a failed pause send
/// next, and otherwise once the bounded wait for the confirmation is over;
/// the detector is never paused persistently on the way.
pub proof fn lemma_recording_always_starts(has_detector: bool, delivered: bool, acknowledged: bool)
    ensures
        !has_detector ==> record_start_action(RecordStartEvent::Requested { has_detector })
            == RecordStartAction::StartRecording,
        has_detector ==> record_start_action(RecordStartEvent::Requested { has_detector })
            == (RecordStartAction::PauseDetector { persist: false, wants_ack: true }),
        !delivered ==> record_start_action(RecordStartEvent::PauseSent { delivered })
            == RecordStartAction::StartRecording,
        delivered ==> record_start_action(RecordStartEvent::PauseSent { delivered })
            == (RecordStartAction::AwaitAck { timeout_ms: PAUSE_ACK_TIMEOUT_MS }),
        record_start_action(RecordStartEvent::AckWaitOver { acknowledged })
            == RecordStartAction::StartRecording,
{
}

} // verus!
