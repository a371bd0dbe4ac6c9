use silent_keys::engine::{check_audio_present, is_ready, plan_load, should_unload, EngineState, LoadAction, Settings};
use silent_keys::errors::{AudioError, RecordingError, VadError};
use silent_keys::shortcuts::default_record_shortcut;
use silent_keys::store::{
    backoff_secs, choose_snapshot, download_complete, missing_model_files_for_tests, plan_resume,
    should_retry, ResumePlan, SnapshotChoice,
};
use silent_keys::text::slice_chars;
use silent_keys::typing::{should_insert_space, suffix_after_prefix, TypingBuffer};
use silent_keys::VAD_CHUNK_SIZE;

#[test]
fn recording_error_user_messages() {
    assert!(!RecordingError::AlreadyRecording.user_message().is_empty());
    assert!(!RecordingError::NotRecording.user_message().is_empty());
    assert!(!RecordingError::NoInputDevice.user_message().is_empty());
    assert!(!RecordingError::UnsupportedFormat.user_message().is_empty());
    assert!(!RecordingError::NoAudioCaptured.user_message().is_empty());
    assert!(!RecordingError::Device("test".to_string())
        .user_message()
        .is_empty());
    assert!(!RecordingError::LockFailed.user_message().is_empty());
}

#[test]
fn vad_error_display_messages_are_not_empty() {
    let errors = [
        VadError::Ort("test error".to_string()),
        VadError::Io("test".to_string()),
        VadError::InvalidChunkSize {
            expected: 480,
            actual: 256,
        },
        VadError::ModelNotFound("/path/to/model".to_string()),
        VadError::Shape("incompatible shape".to_string()),
    ];

    for err in errors {
        assert!(!err.message().is_empty());
    }
}

#[test]
fn vad_chunk_size_is_480() {
    assert_eq!(VAD_CHUNK_SIZE, 480);
}

#[test]
fn audio_error_messages_carry_their_detail() {
    let err = AudioError::ResamplerCreation("bad ratio".to_string());
    assert!(err.message().contains("bad ratio"));
    let err = AudioError::ResamplerProcessing("step failed".to_string());
    assert!(err.message().contains("step failed"));
}

#[test]
fn default_record_shortcut_returns_string() {
    let shortcut = default_record_shortcut();
    assert!(!shortcut.is_empty());
    assert!(shortcut.contains("Alt") || shortcut.contains("Key"));
}

#[test]
fn transcribe_samples_of_nothing_is_a_no_audio_error() {
    let err = check_audio_present(0).unwrap_err();
    assert!(matches!(err, RecordingError::NoAudioCaptured));
    assert!(err.user_message().contains("No audio"));
    assert!(check_audio_present(480).is_ok());
}

#[test]
fn missing_model_files_detects_incomplete_snapshot() {
    let present: Vec<String> = Vec::new();
    let initial_missing = missing_model_files_for_tests(&present);
    assert!(
        initial_missing.contains(&"encoder-model.int8.onnx".to_string()),
        "expected a known model file to be missing in an empty snapshot"
    );
    assert_eq!(initial_missing.len(), 6);

    let missing_after = missing_model_files_for_tests(&initial_missing);
    assert!(missing_after.is_empty());

    let partial = vec!["vocab.txt".to_string(), "nemo128.onnx".to_string()];
    let missing = missing_model_files_for_tests(&partial);
    assert_eq!(missing.len(), 4);
    assert!(!missing.contains(&"vocab.txt".to_string()));
}

#[test]
fn snapshot_resolution_order() {
    assert_eq!(choose_snapshot(true, &vec![5, 9]), SnapshotChoice::UseRef);
    assert_eq!(choose_snapshot(false, &vec![]), SnapshotChoice::Download);
    assert_eq!(
        choose_snapshot(false, &vec![5, 9, 9, 7]),
        SnapshotChoice::UseNewest(1),
        "newest wins; ties keep the earliest"
    );
}

#[test]
fn download_retry_and_resume_policy() {
    assert!(should_retry(1) && should_retry(2) && !should_retry(3));
    assert_eq!(backoff_secs(1), 2);
    assert_eq!(backoff_secs(2), 4);

    assert!(plan_resume(404, 0, Some(10)).is_none());
    assert_eq!(
        plan_resume(206, 100, Some(50)),
        Some(ResumePlan {
            append: true,
            initial_downloaded: 100,
            total_size: 150,
        })
    );
    assert_eq!(
        plan_resume(200, 100, Some(50)),
        Some(ResumePlan {
            append: false,
            initial_downloaded: 0,
            total_size: 50,
        })
    );

    assert!(download_complete(0, 123), "unknown size always passes");
    assert!(download_complete(10, 10));
    assert!(!download_complete(10, 9));
}

#[test]
fn engine_load_state_machine() {
    let (a, s) = plan_load(&EngineState::Unloaded);
    assert!(matches!(a, LoadAction::BeginLoad));
    assert!(matches!(s, EngineState::Loading));
    let (a, _) = plan_load(&EngineState::Loading);
    assert!(matches!(a, LoadAction::Wait));
    let (a, _) = plan_load(&EngineState::Loaded);
    assert!(matches!(a, LoadAction::UseLoaded));
    let (a, s) = plan_load(&EngineState::Failed("x".to_string()));
    assert!(matches!(a, LoadAction::BeginLoad));
    assert!(matches!(s, EngineState::Loading));

    assert!(is_ready(&EngineState::Loaded));
    assert!(!is_ready(&EngineState::Loading));
    assert!(should_unload(&EngineState::Loaded, 301));
    assert!(!should_unload(&EngineState::Loaded, 300));
    assert!(!should_unload(&EngineState::Unloaded, 9999));

    let s = Settings::default();
    assert!(s.model_path.is_none());
    assert!(!s.streaming_enabled);
}

#[test]
fn typing_buffer_appends_and_merges_suffixes() {
    let mut buf = TypingBuffer::new();
    assert_eq!(buf.append_and_type("hello".to_string()), Some("hello".to_string()));
    assert_eq!(buf.current_transcription(), "hello");
    assert_eq!(buf.append_and_type(String::new()), None);

    let (ok, queued) = buf.append_offline_suffix("hello world".to_string());
    assert!(ok);
    assert_eq!(queued, Some(" world".to_string()));
    assert_eq!(buf.current_transcription(), "hello world");

    let (ok, queued) = buf.append_offline_suffix("something else".to_string());
    assert!(!ok, "a transcript that does not extend the prefix is rejected");
    assert!(queued.is_none());

    buf.reset_buffer();
    assert_eq!(buf.current_transcription(), "");
}

#[test]
fn suffix_after_prefix_cases() {
    assert_eq!(
        suffix_after_prefix("hello", "hello there"),
        Some(" there".to_string())
    );
    assert_eq!(suffix_after_prefix("hello", "help"), None);
    assert_eq!(suffix_after_prefix("hello", "hello   "), None, "blank suffix");
    assert_eq!(suffix_after_prefix("hello  ", "hello now"), Some(" now".to_string()));
}

#[test]
fn slice_chars_clamps_both_ends() {
    assert_eq!(slice_chars("abcdef", 1, 4), "bcd");
    assert_eq!(slice_chars("abcdef", 4, 99), "ef");
    assert_eq!(slice_chars("abcdef", 9, 12), "");
    assert_eq!(slice_chars("abcdef", 3, 2), "");
}

#[test]
fn space_insertion_checks_both_boundaries() {
    assert!(should_insert_space("hello", "world"));
    assert!(!should_insert_space("hello ", "world"));
    assert!(!should_insert_space("hello", " world"));
    assert!(!should_insert_space("", "world"));
    assert!(!should_insert_space("hello", ""));
}
