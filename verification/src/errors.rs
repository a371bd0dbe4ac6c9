//! Error taxonomy of the recording and recognition paths, with the short
//! user-facing message each kind maps to.

use vstd::prelude::*;
use vstd::string::StringExecFns;

verus! {

/// Failures of the recording lifecycle.
#[derive(Debug, Clone)]
pub enum RecordingError {
    AlreadyRecording,
    NotRecording,
    NoInputDevice,
    UnsupportedFormat,
    NoAudioCaptured,
    Device(String),
    LockFailed,
    ChannelError,
    ThreadError,
    AudioProcessingError(String),
}

impl RecordingError {
    /// The short message shown to the user for this failure.
    pub fn user_message(&self) -> (r: &'static str)
        ensures
            r@ == match self {
                RecordingError::AlreadyRecording => "Recording is already in progress."@,
                RecordingError::NotRecording => "No recording in progress."@,
                RecordingError::NoInputDevice => "No microphone found. Please check your audio settings."@,
                RecordingError::UnsupportedFormat => "Your microphone's audio format is not supported."@,
                RecordingError::NoAudioCaptured => "No audio was captured. Please try again."@,
                RecordingError::Device(_) => "A microphone error occurred. Please check your audio settings."@,
                RecordingError::LockFailed => "The recorder is busy. Please try again."@,
                RecordingError::ChannelError => "Internal audio error. Please restart the app."@,
                RecordingError::ThreadError => "Internal audio error. Please restart the app."@,
                RecordingError::AudioProcessingError(_) => "Internal audio error. Please restart the app."@,
            },
    {
        match self {
            RecordingError::AlreadyRecording => "Recording is already in progress.",
            RecordingError::NotRecording => "No recording in progress.",
            RecordingError::NoInputDevice => "No microphone found. Please check your audio settings.",
            RecordingError::UnsupportedFormat => "Your microphone's audio format is not supported.",
            RecordingError::NoAudioCaptured => "No audio was captured. Please try again.",
            RecordingError::Device(_) => "A microphone error occurred. Please check your audio settings.",
            RecordingError::LockFailed => "The recorder is busy. Please try again.",
            RecordingError::ChannelError | RecordingError::ThreadError
                | RecordingError::AudioProcessingError(_) => "Internal audio error. Please restart the app.",
        }
    }
}

/// Failures of the recognition path. Failures coming from the inference
/// runtime, the file system or tensor shaping carry their rendered detail.
#[derive(Debug, Clone)]
pub enum AsrError {
    Ort(String),
    Io(String),
    Shape(String),
    InputNotFound(String),
    OutputNotFound(String),
    TensorShape(String),
    SampleRate(u32),
    Audio(String),
    SnapshotNotFound(String),
    Download(String),
}

impl AsrError {
    /// The short message shown to the user for this failure.
    pub fn user_message(&self) -> (r: &'static str)
        ensures
            r@ == match self {
                AsrError::Download(_) => "Could not download the speech model. Check your internet connection and try again."@,
                AsrError::SnapshotNotFound(_) => "Speech model files are missing or corrupted. Click Retry to download them again."@,
                AsrError::Audio(_) => "Could not decode the recording. Please try recording again."@,
                AsrError::SampleRate(_) => "Could not decode the recording. Please try recording again."@,
                AsrError::Io(_) => "The app could not read or write its local files. Check disk space and permissions."@,
                _ => "The speech engine failed to run. Try restarting the app or downloading the model again."@,
            },
    {
        match self {
            AsrError::Download(_) => "Could not download the speech model. Check your internet connection and try again.",
            AsrError::SnapshotNotFound(_) => "Speech model files are missing or corrupted. Click Retry to download them again.",
            AsrError::Audio(_) | AsrError::SampleRate(_) => "Could not decode the recording. Please try recording again.",
            AsrError::Io(_) => "The app could not read or write its local files. Check disk space and permissions.",
            AsrError::Ort(_) | AsrError::InputNotFound(_) | AsrError::OutputNotFound(_)
                | AsrError::TensorShape(_) | AsrError::Shape(_) => "The speech engine failed to run. Try restarting the app or downloading the model again.",
        }
    }

    /// A diagnostic line naming the failure kind and its detail.
    pub fn message(&self) -> (r: String)
        ensures
            r@ == match self {
                AsrError::Ort(d) => "ORT error: "@ + d@,
                AsrError::Io(d) => "I/O error: "@ + d@,
                AsrError::Shape(d) => "ndarray shape error: "@ + d@,
                AsrError::InputNotFound(d) => "Model input not found: "@ + d@,
                AsrError::OutputNotFound(d) => "Model output not found: "@ + d@,
                AsrError::TensorShape(d) => "Failed to get tensor shape for input: "@ + d@,
                AsrError::SampleRate(_) => "Unsupported sample rate, expected 16000 Hz"@,
                AsrError::Audio(d) => "Audio decode error: "@ + d@,
                AsrError::SnapshotNotFound(d) => "Model snapshot not found under "@ + d@,
                AsrError::Download(d) => "Model download failed: "@ + d@,
            },
    {
        match self {
            AsrError::Ort(d) => prefixed("ORT error: ", d),
            AsrError::Io(d) => prefixed("I/O error: ", d),
            AsrError::Shape(d) => prefixed("ndarray shape error: ", d),
            AsrError::InputNotFound(d) => prefixed("Model input not found: ", d),
            AsrError::OutputNotFound(d) => prefixed("Model output not found: ", d),
            AsrError::TensorShape(d) => prefixed("Failed to get tensor shape for input: ", d),
            AsrError::SampleRate(_) => String::from_str("Unsupported sample rate, expected 16000 Hz"),
            AsrError::Audio(d) => prefixed("Audio decode error: ", d),
            AsrError::SnapshotNotFound(d) => prefixed("Model snapshot not found under ", d),
            AsrError::Download(d) => prefixed("Model download failed: ", d),
        }
    }
}

/// `prefix` followed by `detail`.
fn prefixed(prefix: &str, detail: &String) -> (r: String)
    ensures
        r@ == prefix@ + detail@,
{
    let mut r = String::from_str(prefix);
    r.append(detail.as_str());
    r
}

/// Failures of the audio processing stage.
#[derive(Debug, Clone)]
pub enum AudioError {
    ResamplerCreation(String),
    ResamplerProcessing(String),
}

impl AudioError {
    /// A diagnostic line naming the failure kind and its detail.
    pub fn message(&self) -> (r: String)
        ensures
            r@ == match self {
                AudioError::ResamplerCreation(d) => "Failed to create resampler: "@ + d@,
                AudioError::ResamplerProcessing(d) => "Resampler processing failed: "@ + d@,
            },
    {
        match self {
            AudioError::ResamplerCreation(d) => prefixed("Failed to create resampler: ", d),
            AudioError::ResamplerProcessing(d) => prefixed("Resampler processing failed: ", d),
        }
    }
}

/// Failures of the voice-activity detector.
#[derive(Debug, Clone)]
pub enum VadError {
    Ort(String),
    Io(String),
    Shape(String),
    InvalidChunkSize { expected: usize, actual: usize },
    ModelNotFound(String),
}

impl VadError {
    /// A diagnostic line naming the failure kind.
    pub fn message(&self) -> (r: String)
        ensures
            r@ == match self {
                VadError::Ort(d) => "ORT error: "@ + d@,
                VadError::Io(d) => "I/O error: "@ + d@,
                VadError::Shape(d) => "ndarray shape error: "@ + d@,
                VadError::InvalidChunkSize { .. } => "Invalid chunk size"@,
                VadError::ModelNotFound(d) => "VAD model not found at "@ + d@,
            },
    {
        match self {
            VadError::Ort(d) => prefixed("ORT error: ", d),
            VadError::Io(d) => prefixed("I/O error: ", d),
            VadError::Shape(d) => prefixed("ndarray shape error: ", d),
            VadError::InvalidChunkSize { .. } => String::from_str("Invalid chunk size"),
            VadError::ModelNotFound(d) => prefixed("VAD model not found at ", d),
        }
    }
}

} // verus!
