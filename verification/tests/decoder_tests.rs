use silent_keys::decoder::{
    build_hotword_mask, extract_top_tokens, fork_blank, fork_emit, greedy_step_decision,
    retain_top_k, GreedyState, Hypothesis,
};

#[test]
fn greedy_decision_takes_first_argmax() {
    // Scores (already scaled): blank at 0 is weak, index 2 wins.
    let scores: Vec<i64> = vec![10, 40, 70, 70];
    let mask: Vec<bool> = Vec::new();
    let decision = greedy_step_decision(&scores, 4, 0, &mask, 0, 0);
    assert_eq!(decision, Some(2), "ties break toward the earlier index");
}

#[test]
fn tdt_duration_logits_are_ignored() {
    // The vocabulary has 3 entries; the two trailing duration logits are
    // larger than everything else and must not influence the argmax.
    let scores: Vec<i64> = vec![10, 40, 20, 900, 900];
    let mask: Vec<bool> = Vec::new();
    let decision = greedy_step_decision(&scores, 3, 0, &mask, 0, 0);
    assert_eq!(decision, Some(1));
}

#[test]
fn blank_margin_gate_coerces_to_blank() {
    // Best non-blank beats blank by 50; the margin demands 100: emit blank.
    let scores: Vec<i64> = vec![100, 150, 90];
    let mask: Vec<bool> = Vec::new();
    assert_eq!(greedy_step_decision(&scores, 3, 0, &mask, 0, 100), None);
    // With the margin satisfied the token is emitted.
    assert_eq!(greedy_step_decision(&scores, 3, 0, &mask, 0, 50), Some(1));
}

#[test]
fn blank_margin_gate_leaves_state_unchanged() {
    let scores: Vec<i64> = vec![100, 150, 90];
    let mask: Vec<bool> = Vec::new();
    let mut state = GreedyState::new(0);
    let decision = greedy_step_decision(&scores, 3, 0, &mask, 0, 100);
    state.apply(decision, 10);
    assert_eq!(state.tokens, Vec::<i32>::new());
    assert_eq!(state.last_token, 0, "a gated step does not update the feedback token");
    assert_eq!(state.t, 1, "blank advances time");
}

#[test]
fn greedy_state_tracks_emissions_and_budget() {
    let mut state = GreedyState::new(0);
    state.apply(Some(5), 2);
    assert_eq!(state.tokens, vec![5]);
    assert_eq!(state.timestamps, vec![0]);
    assert_eq!(state.t, 0, "one emission of two allowed: stay on the frame");
    state.apply(Some(6), 2);
    assert_eq!(state.tokens, vec![5, 6]);
    assert_eq!(state.t, 1, "emission budget exhausted: advance");
    assert_eq!(state.emitted_in_step, 0);
    assert_eq!(state.last_token, 6);
}

#[test]
fn greedy_decode_is_deterministic_across_runs() {
    let scores: Vec<i64> = vec![10, 40, 70];
    let mask: Vec<bool> = Vec::new();
    let mut runs: Vec<(Vec<i32>, Vec<usize>)> = Vec::new();
    for _ in 0..2 {
        let mut state = GreedyState::new(0);
        while !state.done(3) {
            let decision = greedy_step_decision(&scores, 3, 0, &mask, 0, 0);
            state.apply(decision, 1);
        }
        runs.push((state.tokens.clone(), state.timestamps.clone()));
    }
    assert_eq!(runs[0], runs[1]);
}

#[test]
fn hotword_boost_can_change_the_winner() {
    let scores: Vec<i64> = vec![10, 40, 35];
    let mask: Vec<bool> = vec![false, false, true];
    assert_eq!(greedy_step_decision(&scores, 3, 0, &mask, 0, 0), Some(1));
    assert_eq!(greedy_step_decision(&scores, 3, 0, &mask, 10, 0), Some(2));
}

#[test]
fn hotword_mask_matches_case_insensitively() {
    let vocab: Vec<String> = vec![" Hello".to_string(), "world".to_string(), "".to_string()];
    let hotwords: Vec<String> = vec!["HELLO".to_string()];
    let mask = build_hotword_mask(&vocab, &hotwords, 5).expect("one token matches");
    assert_eq!(mask, vec![true, false, false]);

    assert!(build_hotword_mask(&vocab, &hotwords, 0).is_none(), "boost off");
    assert!(build_hotword_mask(&vocab, &vec![], 5).is_none(), "no hotwords");
    assert!(
        build_hotword_mask(&vocab, &vec!["   ".to_string()], 5).is_none(),
        "blank hotwords are unusable"
    );
    assert!(
        build_hotword_mask(&vocab, &vec!["absent".to_string()], 5).is_none(),
        "no token matches"
    );
}

fn hyp(score_q: i64, slot: usize) -> Hypothesis {
    Hypothesis {
        tokens: Vec::new(),
        timestamps: Vec::new(),
        score_q,
        state_slot: slot,
        last_token: 0,
    }
}

#[test]
fn retain_top_k_keeps_the_best_sorted() {
    let mut hyps = vec![hyp(10, 0), hyp(30, 1), hyp(20, 2), hyp(30, 3)];
    retain_top_k(&mut hyps, 2);
    assert_eq!(hyps.len(), 2);
    assert_eq!(hyps[0].score_q, 30);
    assert_eq!(hyps[0].state_slot, 1, "tie broken toward the earlier entry");
    assert_eq!(hyps[1].score_q, 30);

    let mut small = vec![hyp(1, 0)];
    retain_top_k(&mut small, 4);
    assert_eq!(small.len(), 1, "within budget: untouched");
}

#[test]
fn extract_top_tokens_filters_and_ranks() {
    // Blank is index 0 with score 100.
    let scores: Vec<i64> = vec![100, 150, 120, 180, 90];
    let mask: Vec<bool> = Vec::new();
    let top = extract_top_tokens(&scores, 5, 0, &mask, 0, 40, 100, 2);
    // Margin 40 over blank 100: only 150 and 180 pass; sorted best first.
    assert_eq!(top, vec![(3usize, 180i64), (1usize, 150i64)]);

    let all = extract_top_tokens(&scores, 5, 0, &mask, 0, 0, 100, 10);
    assert_eq!(all.len(), 4, "no margin: every non-blank token is a candidate");
    assert_eq!(all[0], (3, 180));
    assert_eq!(all[3], (4, 90));
}

#[test]
fn hypothesis_forks_accumulate_scores_and_content() {
    let h = hyp(100, 4);
    let blank = fork_blank(&h, -30);
    assert_eq!(blank.score_q, 70);
    assert_eq!(blank.state_slot, 4, "blank inherits the state");
    assert!(blank.tokens.is_empty());

    let emit = fork_emit(&h, 12, 25, 3, 9);
    assert_eq!(emit.score_q, 125);
    assert_eq!(emit.tokens, vec![12]);
    assert_eq!(emit.timestamps, vec![3]);
    assert_eq!(emit.state_slot, 9, "emission adopts the fresh state");
    assert_eq!(emit.last_token, 12);

    let saturated = fork_blank(&hyp(i64::MAX, 0), 10);
    assert_eq!(saturated.score_q, i64::MAX);
}
