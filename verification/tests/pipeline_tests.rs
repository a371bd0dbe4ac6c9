use silent_keys::phrase::{PhraseAction, PhraseConfig, PhraseEvent, StreamingTranscriber};
use silent_keys::resample::{resample_plan, ResampleTap};
use silent_keys::session::SessionCursor;
use silent_keys::streaming::{apply_patch, flush_draft, process_tick, TranscriptionPatch};
use silent_keys::vad::{segment_action, SegmentAction, VadGate, VadGateConfig};
use silent_keys::word_hypothesis::{WordHypothesisConfig, WordHypothesisManager};
use silent_keys::words::TokenWithTime;

#[test]
fn resampler_downsample_returns_two_samples() {
    // Four samples at 32 kHz resampled to 16 kHz keep exactly two.
    let plan = resample_plan(4, 32_000, 16_000);
    assert_eq!(plan.len(), 2);
    assert_eq!(plan[0], ResampleTap { base: 0, next: 1, frac_num: 0 });
    assert_eq!(plan[1], ResampleTap { base: 2, next: 3, frac_num: 0 });
}

#[test]
fn resampler_empty_input_and_zero_rates_yield_nothing() {
    assert_eq!(resample_plan(0, 32_000, 16_000).len(), 0);
    assert_eq!(resample_plan(4, 0, 16_000).len(), 0);
    assert_eq!(resample_plan(4, 32_000, 0).len(), 0);
}

#[test]
fn resampler_equal_rates_copy_every_sample() {
    let plan = resample_plan(3, 16_000, 16_000);
    assert_eq!(plan.len(), 3);
    for (i, tap) in plan.iter().enumerate() {
        assert_eq!(*tap, ResampleTap { base: i, next: i, frac_num: 0 });
    }
}

#[test]
fn resampler_single_sample_downsample_is_identity() {
    let plan = resample_plan(1, 32_000, 16_000);
    assert_eq!(plan.len(), 1);
    assert_eq!(plan[0], ResampleTap { base: 0, next: 0, frac_num: 0 });
}

#[test]
fn resampler_output_length_is_ceiling() {
    // 5 samples from 16 kHz to 48 kHz: ceil(5 * 48000 / 16000) = 15.
    assert_eq!(resample_plan(5, 16_000, 48_000).len(), 15);
    // 5 samples from 44100 to 16000: ceil(5 * 16000 / 44100) = 2.
    assert_eq!(resample_plan(5, 44_100, 16_000).len(), 2);
}

fn tok(text: &str, start: usize, end: usize) -> TokenWithTime {
    TokenWithTime {
        token_id: 1,
        text: text.to_string(),
        start_frame: start,
        end_frame: end,
    }
}

#[test]
fn process_tick_emits_stable_then_volatile_patches() {
    let config = WordHypothesisConfig {
        commit_lag_ms: 0,
        ..Default::default()
    };
    let mut manager = WordHypothesisManager::new(config);

    let (c1, p1) = process_tick(&mut manager, vec![tok(" hello", 0, 2)], 300);
    assert!(c1.is_none());
    assert_eq!(p1.len(), 1, "no commit yet: only the volatile preview");
    assert!(!p1[0].stable);
    assert_eq!(p1[0].text, "hello");

    let (_, _) = process_tick(&mut manager, vec![tok(" hello", 0, 2)], 300);
    let (c3, p3) = process_tick(&mut manager, vec![tok(" hello", 0, 2)], 300);
    assert!(c3.is_some());
    assert_eq!(p3.len(), 2, "commit: a stable patch then the volatile one");
    assert!(p3[0].stable);
    assert_eq!(p3[0].start, 0);
    assert_eq!(p3[0].end, 0);
    assert_eq!(p3[0].text, "hello");
    assert!(!p3[1].stable);
    assert_eq!(p3[1].text, "hello");
}

#[test]
fn process_tick_with_no_tokens_changes_nothing() {
    let mut manager = WordHypothesisManager::new(WordHypothesisConfig::default());
    let (commit, patches) = process_tick(&mut manager, Vec::new(), 500);
    assert!(commit.is_none());
    assert!(patches.is_empty());
}

#[test]
fn stable_patch_concatenation_is_prefix_of_full_text() {
    let config = WordHypothesisConfig {
        commit_lag_ms: 0,
        ..Default::default()
    };
    let mut manager = WordHypothesisManager::new(config);
    let mut stable_acc = String::new();
    let drafts = vec![
        vec![tok(" one", 0, 2)],
        vec![tok(" one", 0, 2)],
        vec![tok(" one", 0, 2)],
        vec![tok(" one", 0, 2), tok(" two", 3, 5)],
        vec![tok(" one", 0, 2), tok(" two", 3, 5)],
        vec![tok(" one", 0, 2), tok(" two", 3, 5)],
    ];
    let mut last_full = String::new();
    for (i, draft) in drafts.into_iter().enumerate() {
        let now = 600 + (i as i64);
        let (_, patches) = process_tick(&mut manager, draft, now);
        for p in &patches {
            if p.stable {
                stable_acc.push_str(&p.text);
            } else {
                last_full = p.text.clone();
            }
        }
        assert!(
            last_full.starts_with(&stable_acc),
            "stable text must stay a prefix of the full transcript"
        );
    }
    assert_eq!(stable_acc, "one two");
}

#[test]
fn flush_draft_prefixes_a_space() {
    let mut manager = WordHypothesisManager::new(WordHypothesisConfig::default());
    let (_, _) = process_tick(&mut manager, vec![tok(" rest", 0, 2)], 300);
    let patch = flush_draft(&manager).expect("draft pending");
    assert!(patch.stable);
    assert_eq!(patch.text, " rest");

    let empty = WordHypothesisManager::new(WordHypothesisConfig::default());
    assert!(flush_draft(&empty).is_none());
}

#[test]
fn apply_patch_splices_by_character_offsets() {
    let patch = TranscriptionPatch {
        start: 5,
        end: 5,
        text: " world".to_string(),
        stable: true,
    };
    assert_eq!(apply_patch("hello", &patch), "hello world");

    let replace_all = TranscriptionPatch {
        start: 0,
        end: usize::MAX,
        text: "fresh".to_string(),
        stable: false,
    };
    assert_eq!(apply_patch("anything here", &replace_all), "fresh");
}

#[test]
fn session_cursor_window_and_commit_math() {
    let mut cursor = SessionCursor::new();
    assert!(!cursor.ready());
    cursor.note_appended(4000);
    assert!(cursor.ready());

    // 30 encoded frames: decode [0, 24) after the 6-frame right context.
    assert_eq!(cursor.decode_window(30), Some((0, 24)));
    assert_eq!(cursor.decode_window(6), None);
    assert_eq!(cursor.absolute_frame(3), 3);

    // Committing to frame 25 keeps 20 context frames: trim 5 frames of audio.
    cursor.note_appended(36_000);
    let drain = cursor.commit_to(25, 17);
    assert_eq!(drain, 5 * 1280);
    assert_eq!(cursor.encoder_cursor, 25);
    assert_eq!(cursor.buffer_start_frame, 5);
    assert_eq!(cursor.last_token, 17);
    assert_eq!(cursor.decode_window(30), Some((20, 24)));

    cursor.reset();
    assert_eq!(cursor.encoder_cursor, 0);
    assert_eq!(cursor.last_token, -1);
}

#[test]
fn vad_gate_needs_onset_and_respects_hangover() {
    let mut gate = VadGate::new(VadGateConfig {
        onset_frames: 2,
        hangover_frames: 1,
    });
    assert!(!gate.process_decision(true), "one voiced chunk is not enough");
    assert!(gate.process_decision(true), "second voiced chunk starts speech");
    assert!(gate.has_prefill());
    gate.take_prefill();
    assert!(!gate.has_prefill());
    assert!(gate.process_decision(false), "hangover keeps speech alive");
    assert!(!gate.process_decision(false), "hangover exhausted: speech ends");
    assert!(!gate.process_decision(false));
}

#[test]
fn segment_actions_follow_gate_transitions() {
    assert_eq!(segment_action(false, true, true), SegmentAction::StartWithPrefill);
    assert_eq!(segment_action(false, true, false), SegmentAction::Start);
    assert_eq!(segment_action(true, true, false), SegmentAction::Continue);
    assert_eq!(segment_action(true, false, false), SegmentAction::End);
    assert_eq!(segment_action(false, false, false), SegmentAction::Nothing);
}

#[test]
fn phrase_segmenter_releases_and_forces_phrases() {
    let mut t = StreamingTranscriber::new(PhraseConfig {
        min_speech_samples: 1600,
        max_phrase_samples: 240_000,
    });

    let a = t.handle_event(PhraseEvent::SpeechStart { samples: 800 });
    assert_eq!(a, vec![PhraseAction::StartedSpeaking]);
    let a = t.handle_event(PhraseEvent::Speech { samples: 1200 });
    assert!(a.is_empty());
    let a = t.handle_event(PhraseEvent::SpeechEnd);
    assert_eq!(a, vec![PhraseAction::PhraseComplete { samples: 2000 }]);

    // A phrase shorter than the minimum is discarded on end-of-speech.
    let a = t.handle_event(PhraseEvent::SpeechStart { samples: 400 });
    assert_eq!(a, vec![PhraseAction::StartedSpeaking]);
    let a = t.handle_event(PhraseEvent::SpeechEnd);
    assert!(a.is_empty());

    // Outgrowing the budget force-commits mid-speech.
    t.handle_event(PhraseEvent::SpeechStart { samples: 200_000 });
    let a = t.handle_event(PhraseEvent::Speech { samples: 50_000 });
    assert_eq!(a, vec![PhraseAction::ForcedCommit { samples: 250_000 }]);

    // A flush keeps only remainders worth transcribing.
    t.handle_event(PhraseEvent::Speech { samples: 1000 });
    assert_eq!(t.flush(), None);
    t.handle_event(PhraseEvent::Speech { samples: 2000 });
    assert_eq!(t.flush(), Some(3000));
}
