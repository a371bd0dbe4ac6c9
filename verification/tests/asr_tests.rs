use silent_keys::errors::AsrError;
use silent_keys::progress::DownloadProgress;
use silent_keys::vocab::{decode_tokens, parse_usize, parse_vocab, replace_space_marker, split_lines};

#[test]
fn download_progress_lifecycle_is_coherent() {
    let mut tracker = DownloadProgress::new();
    tracker.start_tracking(3);
    let p = tracker.current_download_progress();
    assert_eq!(p.file_count, 3);
    assert_eq!(p.file_index, 0);
    assert!(!p.done);
    assert_eq!(p.downloaded_bytes, 0);
    assert_eq!(p.total_bytes, 0);
    assert!(p.error.is_none());

    tracker.set_file_index(1);
    let p = tracker.current_download_progress();
    assert_eq!(p.file_index, 1);

    tracker.mark_finished();
    let p = tracker.current_download_progress();
    assert!(p.done);
    assert_eq!(p.file_index, 3);
    assert!(p.error.is_none());

    tracker.record_failure("network error".to_string());
    let p = tracker.current_download_progress();
    assert!(p.done);
    assert_eq!(p.error.as_deref(), Some("network error"));
}

#[test]
fn asr_error_user_message_download() {
    let err = AsrError::Download("connection failed".to_string());
    let msg = err.user_message();
    assert!(msg.contains("download") || msg.contains("internet"));
}

#[test]
fn asr_error_user_message_snapshot_not_found() {
    let err = AsrError::SnapshotNotFound("/path/to/model".to_string());
    let msg = err.user_message();
    assert!(msg.contains("missing") || msg.contains("corrupted"));
}

#[test]
fn asr_error_user_message_audio() {
    let err = AsrError::Audio("invalid format".to_string());
    let msg = err.user_message();
    assert!(msg.contains("decode") || msg.contains("recording"));
}

#[test]
fn asr_error_user_message_sample_rate() {
    let err = AsrError::SampleRate(44100);
    let msg = err.user_message();
    assert!(msg.contains("decode") || msg.contains("recording"));
}

#[test]
fn asr_error_user_message_io() {
    let err = AsrError::Io("file not found".to_string());
    let msg = err.user_message();
    assert!(msg.contains("read") || msg.contains("write") || msg.contains("files"));
}

#[test]
fn asr_error_user_message_runtime_errors() {
    let err = AsrError::InputNotFound("encoder".to_string());
    assert!(!err.user_message().is_empty());

    let err = AsrError::OutputNotFound("logits".to_string());
    assert!(!err.user_message().is_empty());

    let err = AsrError::TensorShape("input_states".to_string());
    assert!(!err.user_message().is_empty());
}

#[test]
fn asr_error_display_includes_details() {
    let err = AsrError::Download("timeout".to_string());
    let display = err.message();
    assert!(display.contains("download") || display.contains("failed"));
    assert!(display.contains("timeout"));
}

#[test]
fn space_marker_decoding() {
    let vocab: Vec<String> = vec![
        replace_space_marker("\u{2581}hello"),
        replace_space_marker("\u{2581}world"),
    ];
    assert_eq!(vocab[0], " hello");
    assert_eq!(vocab[1], " world");

    let ids = vec![0i32, 1i32];
    let timestamps = vec![0usize, 1usize];
    let transcript = decode_tokens(&vocab, &ids, &timestamps);
    let joined: String = transcript.tokens.concat();
    assert_eq!(joined, " hello world", "raw join keeps the leading space");
    assert_eq!(transcript.text, "hello world", "collapse trims the edges");
    assert_eq!(transcript.frames, vec![0, 1]);
}

#[test]
fn decode_tokens_drops_out_of_range_ids() {
    let vocab: Vec<String> = vec![" one".to_string()];
    let ids = vec![0i32, 7i32, -3i32];
    let timestamps = vec![0usize];
    let transcript = decode_tokens(&vocab, &ids, &timestamps);
    assert_eq!(transcript.tokens, vec![" one".to_string()]);
    assert_eq!(transcript.text, "one");
}

#[test]
fn vocab_parsing_builds_the_id_indexed_array() {
    let content = "\u{2581}hello 0\nworld 2\n<blk> 1\nbadline\nnoise x\n";
    let (vocab, blank) = parse_vocab(content).expect("blank token present");
    assert_eq!(blank, 1);
    assert_eq!(vocab.len(), 3);
    assert_eq!(vocab[0], " hello", "space marker normalized");
    assert_eq!(vocab[1], "<blk>");
    assert_eq!(vocab[2], "world");

    let err = parse_vocab("hello 0\nworld 1\n").unwrap_err();
    assert!(err.message().contains("I/O error"));
    assert!(err.user_message().contains("files"));
}

#[test]
fn vocab_parsing_helpers_handle_edges() {
    assert_eq!(split_lines(""), Vec::<String>::new());
    assert_eq!(split_lines("a\r\nb\nc"), vec!["a", "b", "c"]);
    assert_eq!(split_lines("a\n"), vec!["a"]);

    assert_eq!(parse_usize("0"), Some(0));
    assert_eq!(parse_usize("1024"), Some(1024));
    assert_eq!(parse_usize(""), None);
    assert_eq!(parse_usize("12x"), None);
    assert_eq!(parse_usize("99999999999999999999999999"), None);
}
