use silent_keys::words::{tokens_to_words, TokenWithTime};

fn make_token(text: &str, start_frame: usize, end_frame: usize) -> TokenWithTime {
    TokenWithTime {
        token_id: 0,
        text: text.to_string(),
        start_frame,
        end_frame,
    }
}

#[test]
fn test_simple_words() {
    let tokens = vec![make_token("hello", 0, 2), make_token(" world", 2, 4)];

    let words = tokens_to_words(tokens);
    assert_eq!(words.len(), 2);
    assert_eq!(words[0].text, "hello");
    assert_eq!(words[1].text, "world");
}

#[test]
fn test_subword_aggregation() {
    let tokens = vec![
        make_token("hello", 0, 2),
        make_token(" sh", 2, 4),
        make_token("it", 4, 6),
    ];

    let words = tokens_to_words(tokens);
    assert_eq!(words.len(), 2);
    assert_eq!(words[0].text, "hello");
    assert_eq!(words[1].text, "shit");
    assert_eq!(words[1].t0_ms, 160);
    assert_eq!(words[1].t1_ms, 480);
}

#[test]
fn test_punctuation_preserved() {
    let tokens = vec![make_token("hello", 0, 2), make_token(".", 2, 3)];

    let words = tokens_to_words(tokens);
    assert_eq!(words.len(), 1);
    assert_eq!(words[0].text, "hello.");
}

#[test]
fn test_time_conversion() {
    let tokens = vec![make_token("test", 10, 15)];

    let words = tokens_to_words(tokens);
    assert_eq!(words[0].t0_ms, 800);
    assert_eq!(words[0].t1_ms, 1200);
}

#[test]
fn whitespace_only_group_is_dropped() {
    let tokens = vec![make_token(" ", 0, 1)];
    let words = tokens_to_words(tokens);
    assert_eq!(words.len(), 0);
}

#[test]
fn empty_token_stream_yields_no_words() {
    let words = tokens_to_words(Vec::new());
    assert_eq!(words.len(), 0);
}

#[test]
fn word_count_matches_space_marker_count() {
    let tokens = vec![
        make_token("one", 0, 1),
        make_token(" two", 1, 2),
        make_token(" three", 2, 3),
        make_token("s", 3, 4),
    ];
    let words = tokens_to_words(tokens);
    assert_eq!(words.len(), 3);
    assert_eq!(words[2].text, "threes");
}
