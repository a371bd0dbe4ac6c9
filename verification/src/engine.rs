//! The speech engine's load-state machine and the persisted settings the
//! core reads. The locks, threads and timers around them live outside; this
//! decides which step each caller takes.

use vstd::prelude::*;

use crate::errors::RecordingError;

verus! {

/// Seconds of inactivity after which the idle watcher unloads the model.
pub const IDLE_UNLOAD_SECS: u64 = 300;

/// Where the shared ASR model stands.
#[derive(Debug, Clone)]
pub enum EngineState {
    Unloaded,
    Loading,
    Loaded,
    Failed(String),
}

/// What a caller that needs the model loaded should do next.
#[derive(Debug)]
pub enum LoadAction {
    /// The model is ready: proceed.
    UseLoaded,
    /// Another caller is loading: wait for it with a bounded timeout.
    Wait,
    /// Nobody is loading: mark the state `Loading` and start the load.
    BeginLoad,
}

/// Decides the next step toward a loaded model: a loaded engine is used as
/// is, a load in flight is awaited, and an unloaded or previously failed
/// engine starts a fresh load (the failure is forgotten).
pub fn plan_load(state: &EngineState) -> (r: (LoadAction, EngineState))
    ensures
        match state {
            EngineState::Loaded => (r.0 is UseLoaded) && (r.1 is Loaded),
            EngineState::Loading => (r.0 is Wait) && (r.1 is Loading),
            EngineState::Unloaded => (r.0 is BeginLoad) && (r.1 is Loading),
            EngineState::Failed(_) => (r.0 is BeginLoad) && (r.1 is Loading),
        },
{
    match state {
        EngineState::Loaded => (LoadAction::UseLoaded, EngineState::Loaded),
        EngineState::Loading => (LoadAction::Wait, EngineState::Loading),
        EngineState::Unloaded => (LoadAction::BeginLoad, EngineState::Loading),
        EngineState::Failed(_) => (LoadAction::BeginLoad, EngineState::Loading),
    }
}

/// Whether the engine is ready to transcribe.
pub fn is_ready(state: &EngineState) -> (r: bool)
    ensures
        r == (state is Loaded),
{
    match state {
        EngineState::Loaded => true,
        _ => false,
    }
}

/// Whether the idle watcher should unload the model: only a loaded model is
/// unloaded, and only after five minutes without use.
pub fn should_unload(state: &EngineState, idle_secs: u64) -> (r: bool)
    ensures
        r == ((state is Loaded) && idle_secs > IDLE_UNLOAD_SECS),
{
    match state {
        EngineState::Loaded => idle_secs > IDLE_UNLOAD_SECS,
        _ => false,
    }
}

/// Gate in front of every transcription: an empty capture is rejected with
/// the no-audio error rather than handed to the model.
pub fn check_audio_present(samples_len: usize) -> (r: Result<(), RecordingError>)
    ensures
        (r is Err) == (samples_len == 0),
        r matches Err(e) ==> e is NoAudioCaptured,
{
    if samples_len == 0 {
        Err(RecordingError::NoAudioCaptured)
    } else {
        Ok(())
    }
}

/// The persisted settings the core reads.
#[derive(Debug)]
pub struct Settings {
    /// Custom model directory, when the user picked one.
    pub model_path: Option<String>,
    /// Whether live streaming transcription is on.
    pub streaming_enabled: bool,
}

impl Default for Settings {
    /// No custom model path; streaming off.
    fn default() -> (r: Self)
        ensures
            r.model_path is None,
            !r.streaming_enabled,
    {
        Settings { model_path: None, streaming_enabled: false }
    }
}

} // verus!
