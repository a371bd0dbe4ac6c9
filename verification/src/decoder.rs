//! Transducer decode decisions. The joint network's logits arrive as
//! fixed-point scores (scaled and temperature-divided by the caller); this
//! module owns everything decided from them: hotword boosting, the argmax,
//! the blank-margin gate, the greedy bookkeeping, and the beam bookkeeping.

use vstd::prelude::*;
use vstd::string::StrSliceExecFns;

use crate::text::{lower_of, trim_spec};

verus! {

/// Fixed-point scores handed in by the inference layer stay within this
/// magnitude, so that a score plus a boost can never overflow.
pub const SCORE_LIMIT: i64 = 0x100_0000_0000;

/// All scores within the fixed-point magnitude bound.
pub open spec fn scores_bounded(scores: Seq<i64>) -> bool {
    forall|i: int| 0 <= i < scores.len() ==> -SCORE_LIMIT <= #[trigger] scores[i] <= SCORE_LIMIT
}

/// The score of vocabulary index `i` after hotword boosting.
pub open spec fn boosted(scores: Seq<i64>, mask: Seq<bool>, boost: int, i: int) -> int {
    scores[i] + if 0 <= i < mask.len() && mask[i] {
        boost
    } else {
        0
    }
}

/// Index of the first maximum of the boosted scores among `[0, n)`.
pub open spec fn best_upto(scores: Seq<i64>, mask: Seq<bool>, boost: int, n: int) -> int
    decreases n,
{
    if n <= 1 {
        0
    } else {
        let b = best_upto(scores, mask, boost, n - 1);
        if boosted(scores, mask, boost, n - 1) > boosted(scores, mask, boost, b) {
            n - 1
        } else {
            b
        }
    }
}

pub proof fn lemma_best_upto(scores: Seq<i64>, mask: Seq<bool>, boost: int, n: int)
    requires
        1 <= n <= scores.len(),
    ensures
        0 <= best_upto(scores, mask, boost, n) < n,
        forall|j: int|
            0 <= j < n ==> #[trigger] boosted(scores, mask, boost, j) <= boosted(
                scores,
                mask,
                boost,
                best_upto(scores, mask, boost, n),
            ),
        forall|j: int|
            0 <= j < best_upto(scores, mask, boost, n) ==> #[trigger] boosted(
                scores,
                mask,
                boost,
                j,
            ) < boosted(scores, mask, boost, best_upto(scores, mask, boost, n)),
    decreases n,
{
    if n > 1 {
        lemma_best_upto(scores, mask, boost, n - 1);
    }
}

/// What greedy decoding does with one frame's scores: take the first argmax
/// over the vocabulary slice, and coerce it to blank when the margin gate is
/// on and the winner does not beat blank by at least the margin.
pub open spec fn greedy_decision_spec(
    scores: Seq<i64>,
    mask: Seq<bool>,
    boost: int,
    vocab_size: int,
    blank_idx: int,
    margin: int,
) -> Option<int> {
    let best = best_upto(scores, mask, boost, vocab_size);
    if best != blank_idx && (margin <= 0 || boosted(scores, mask, boost, best) - boosted(
        scores,
        mask,
        boost,
        blank_idx,
    ) >= margin) {
        Some(best)
    } else {
        None
    }
}

/// Picks the token one greedy step emits, if any. Only the first
/// `vocab_size` entries of `scores` take part: trailing duration logits of a
/// token-and-duration transducer are ignored.
pub fn greedy_step_decision(
    scores: &Vec<i64>,
    vocab_size: usize,
    blank_idx: usize,
    mask: &Vec<bool>,
    boost_q: i64,
    min_blank_margin_q: i64,
) -> (r: Option<usize>)
    requires
        0 < vocab_size <= scores@.len(),
        vocab_size <= 0x7FFF_FFFF,
        blank_idx < vocab_size,
        scores_bounded(scores@),
        -SCORE_LIMIT <= boost_q <= SCORE_LIMIT,
        -SCORE_LIMIT * 4 <= min_blank_margin_q <= SCORE_LIMIT * 4,
    ensures
        r == match greedy_decision_spec(
            scores@,
            mask@,
            boost_q as int,
            vocab_size as int,
            blank_idx as int,
            min_blank_margin_q as int,
        ) {
            Some(b) => Some(b as usize),
            None => None::<usize>,
        },
{
    let ghost gscores = scores@;
    let ghost gmask = mask@;
    let mut best: usize = 0;
    let mut best_score: i64 = boosted_score(scores, mask, boost_q, 0);
    let mut i: usize = 1;
    while i < vocab_size
        invariant
            1 <= i <= vocab_size <= scores@.len(),
            gscores == scores@,
            gmask == mask@,
            scores_bounded(scores@),
            -SCORE_LIMIT <= boost_q <= SCORE_LIMIT,
            best as int == best_upto(gscores, gmask, boost_q as int, i as int),
            best < i,
            best_score as int == boosted(gscores, gmask, boost_q as int, best as int),
        decreases vocab_size - i,
    {
        let s = boosted_score(scores, mask, boost_q, i);
        if s > best_score {
            best = i;
            best_score = s;
        }
        i = i + 1;
    }
    let blank_score = boosted_score(scores, mask, boost_q, blank_idx);
    if best != blank_idx && (min_blank_margin_q <= 0 || best_score - blank_score
        >= min_blank_margin_q) {
        Some(best)
    } else {
        None
    }
}

/// The boosted score of one vocabulary index.
fn boosted_score(scores: &Vec<i64>, mask: &Vec<bool>, boost_q: i64, i: usize) -> (r: i64)
    requires
        i < scores@.len(),
        scores_bounded(scores@),
        -SCORE_LIMIT <= boost_q <= SCORE_LIMIT,
    ensures
        r as int == boosted(scores@, mask@, boost_q as int, i as int),
{
    let base = scores[i];
    if i < mask.len() && mask[i] {
        base + boost_q
    } else {
        base
    }
}

/// Duration-logit law: the decision depends only on the first `vocab_size`
/// scores, so the trailing duration logits a token-and-duration transducer
/// appends are ignored.
pub proof fn lemma_duration_logits_ignored(
    s1: Seq<i64>,
    s2: Seq<i64>,
    mask: Seq<bool>,
    boost: int,
    vocab_size: int,
    blank_idx: int,
    margin: int,
)
    requires
        0 < vocab_size <= s1.len(),
        vocab_size <= s2.len(),
        forall|i: int| 0 <= i < vocab_size ==> s1[i] == s2[i],
        0 <= blank_idx < vocab_size,
    ensures
        greedy_decision_spec(s1, mask, boost, vocab_size, blank_idx, margin)
            == greedy_decision_spec(s2, mask, boost, vocab_size, blank_idx, margin),
{
    lemma_best_upto_congruent(s1, s2, mask, boost, vocab_size);
}

proof fn lemma_best_upto_congruent(
    s1: Seq<i64>,
    s2: Seq<i64>,
    mask: Seq<bool>,
    boost: int,
    n: int,
)
    requires
        0 < n <= s1.len(),
        n <= s2.len(),
        forall|i: int| 0 <= i < n ==> s1[i] == s2[i],
    ensures
        best_upto(s1, mask, boost, n) == best_upto(s2, mask, boost, n),
        boosted(s1, mask, boost, best_upto(s1, mask, boost, n)) == boosted(
            s2,
            mask,
            boost,
            best_upto(s2, mask, boost, n),
        ),
    decreases n,
{
    if n > 1 {
        lemma_best_upto_congruent(s1, s2, mask, boost, n - 1);
        lemma_best_upto(s1, mask, boost, n - 1);
    }
}

/// Blank-margin law: when a positive margin is configured, a winner that
/// does not beat blank by at least that margin is coerced to blank, so
/// nothing is emitted.
pub proof fn lemma_blank_margin_gate(
    scores: Seq<i64>,
    mask: Seq<bool>,
    boost: int,
    vocab_size: int,
    blank_idx: int,
    margin: int,
)
    requires
        0 < vocab_size <= scores.len(),
        0 <= blank_idx < vocab_size,
        margin > 0,
        boosted(scores, mask, boost, best_upto(scores, mask, boost, vocab_size)) - boosted(
            scores,
            mask,
            boost,
            blank_idx,
        ) < margin,
    ensures
        greedy_decision_spec(scores, mask, boost, vocab_size, blank_idx, margin) is None,
{
}

/// Greedy decoding state: what has been emitted, the current frame, how many
/// tokens this frame has emitted, and the last non-blank token.
pub struct GreedyState {
    pub tokens: Vec<i32>,
    pub timestamps: Vec<usize>,
    pub t: usize,
    pub emitted_in_step: usize,
    pub last_token: i32,
}

/// Mathematical content of a [`GreedyState`].
#[verifier::ext_equal]
pub struct GreedyStateView {
    pub tokens: Seq<int>,
    pub timestamps: Seq<int>,
    pub t: int,
    pub emitted_in_step: int,
    pub last_token: int,
}

impl View for GreedyState {
    type V = GreedyStateView;

    open spec fn view(&self) -> GreedyStateView {
        GreedyStateView {
            tokens: self.tokens@.map_values(|x: i32| x as int),
            timestamps: self.timestamps@.map_values(|x: usize| x as int),
            t: self.t as int,
            emitted_in_step: self.emitted_in_step as int,
            last_token: self.last_token as int,
        }
    }
}

/// The state after applying one decision, per the greedy algorithm: a token
/// is appended with the current frame index and becomes the feedback target;
/// on blank, or when the per-frame emission budget is exhausted, time
/// advances and the budget resets.
pub open spec fn greedy_apply_model(
    s: GreedyStateView,
    decision: Option<int>,
    max_tokens_per_step: int,
) -> GreedyStateView {
    match decision {
        Some(tok) => {
            let s1 = GreedyStateView {
                tokens: s.tokens.push(tok),
                timestamps: s.timestamps.push(s.t),
                emitted_in_step: s.emitted_in_step + 1,
                last_token: tok,
                ..s
            };
            if s1.emitted_in_step >= max_tokens_per_step {
                GreedyStateView { t: s1.t + 1, emitted_in_step: 0, ..s1 }
            } else {
                s1
            }
        },
        None => GreedyStateView { t: s.t + 1, emitted_in_step: 0, ..s },
    }
}

impl GreedyState {
    /// A fresh state at frame zero, seeded with the feedback token to hand the
    /// joint network first (the blank on a cold start, else the anchor token).
    pub fn new(seed_token: i32) -> (r: Self)
        ensures
            r@ == (GreedyStateView {
                tokens: Seq::empty(),
                timestamps: Seq::empty(),
                t: 0,
                emitted_in_step: 0,
                last_token: seed_token as int,
            }),
    {
        let r = GreedyState {
            tokens: Vec::new(),
            timestamps: Vec::new(),
            t: 0,
            emitted_in_step: 0,
            last_token: seed_token,
        };
        proof {
            assert(r@.tokens =~= Seq::<int>::empty());
            assert(r@.timestamps =~= Seq::<int>::empty());
        }
        r
    }

    /// The token to feed the joint network for the next call.
    pub fn target(&self) -> (r: i32)
        ensures
            r as int == self@.last_token,
    {
        self.last_token
    }

    /// Whether decoding has consumed all `encodings_len` frames.
    pub fn done(&self, encodings_len: usize) -> (r: bool)
        ensures
            r == (self@.t >= encodings_len as int),
    {
        self.t >= encodings_len
    }

    /// Applies one step's decision.
    pub fn apply(&mut self, decision: Option<usize>, max_tokens_per_step: usize)
        requires
            max_tokens_per_step >= 1,
            old(self)@.emitted_in_step < max_tokens_per_step,
            old(self)@.t < 0x4000_0000,
            decision matches Some(tok) ==> tok <= 0x7FFF_FFFF,
        ensures
            final(self)@ == greedy_apply_model(
                old(self)@,
                match decision {
                    Some(tok) => Some(tok as int),
                    None => None,
                },
                max_tokens_per_step as int,
            ),
    {
        let ghost s0 = self@;
        match decision {
            Some(tok) => {
                self.tokens.push(tok as i32);
                self.timestamps.push(self.t);
                self.emitted_in_step = self.emitted_in_step + 1;
                self.last_token = tok as i32;
                proof {
                    assert(self@.tokens =~= s0.tokens.push(tok as int));
                    assert(self@.timestamps =~= s0.timestamps.push(s0.t));
                }
                if self.emitted_in_step >= max_tokens_per_step {
                    self.t = self.t + 1;
                    self.emitted_in_step = 0;
                }
                proof {
                    assert(self@ =~= greedy_apply_model(
                        s0,
                        Some(tok as int),
                        max_tokens_per_step as int,
                    ));
                }
            },
            None => {
                self.t = self.t + 1;
                self.emitted_in_step = 0;
                proof {
                    assert(self@ =~= greedy_apply_model(s0, None, max_tokens_per_step as int));
                }
            },
        }
    }
}

/// The state reached after applying a whole sequence of decisions in order.
pub open spec fn greedy_replay(
    s: GreedyStateView,
    decisions: Seq<Option<int>>,
    max_tokens_per_step: int,
) -> GreedyStateView
    decreases decisions.len(),
{
    if decisions.len() == 0 {
        s
    } else {
        greedy_replay(
            greedy_apply_model(s, decisions[0], max_tokens_per_step),
            decisions.skip(1),
            max_tokens_per_step,
        )
    }
}

/// Determinism law: greedy decoding is a pure fold of its per-step decisions.
/// Two runs that start from the same seed state and receive the same
/// per-step score outcomes end in the same state, token and timestamp
/// sequences included.
pub proof fn lemma_greedy_deterministic(
    s: GreedyStateView,
    d1: Seq<Option<int>>,
    d2: Seq<Option<int>>,
    max_tokens_per_step: int,
)
    requires
        d1 == d2,
    ensures
        greedy_replay(s, d1, max_tokens_per_step) == greedy_replay(s, d2, max_tokens_per_step),
{
}

/// One beam-search hypothesis. Its recurrent decoder state lives in an arena
/// owned by the inference layer and is referred to by slot index.
#[derive(Debug)]
pub struct Hypothesis {
    pub tokens: Vec<i32>,
    pub timestamps: Vec<usize>,
    pub score_q: i64,
    pub state_slot: usize,
    pub last_token: i32,
}

/// Mathematical content of a [`Hypothesis`].
#[verifier::ext_equal]
pub struct HypView {
    pub tokens: Seq<int>,
    pub timestamps: Seq<int>,
    pub score_q: int,
    pub state_slot: int,
    pub last_token: int,
}

impl View for Hypothesis {
    type V = HypView;

    open spec fn view(&self) -> HypView {
        HypView {
            tokens: self.tokens@.map_values(|x: i32| x as int),
            timestamps: self.timestamps@.map_values(|x: usize| x as int),
            score_q: self.score_q as int,
            state_slot: self.state_slot as int,
            last_token: self.last_token as int,
        }
    }
}

impl Clone for Hypothesis {
    fn clone(&self) -> (r: Self)
        ensures
            r@ == self@,
    {
        let r = Hypothesis {
            tokens: self.tokens.clone(),
            timestamps: self.timestamps.clone(),
            score_q: self.score_q,
            state_slot: self.state_slot,
            last_token: self.last_token,
        };
        proof {
            assert(r@.tokens =~= self@.tokens);
            assert(r@.timestamps =~= self@.timestamps);
            assert(r@ =~= self@);
        }
        r
    }
}

/// Views of a hypothesis list.
pub open spec fn hyps_view(hs: Seq<Hypothesis>) -> Seq<HypView> {
    hs.map_values(|h: Hypothesis| h@)
}

/// Scores never increase along the list.
pub open spec fn hyps_sorted_desc(hs: Seq<HypView>) -> bool {
    forall|i: int, j: int|
        0 <= i <= j < hs.len() ==> (#[trigger] hs[i]).score_q >= (#[trigger] hs[j]).score_q
}

/// Index of the first highest-scoring hypothesis among `[0, n)`.
pub open spec fn hyp_best_upto(hs: Seq<HypView>, n: int) -> int
    decreases n,
{
    if n <= 1 {
        0
    } else {
        let b = hyp_best_upto(hs, n - 1);
        if hs[n - 1].score_q > hs[b].score_q {
            n - 1
        } else {
            b
        }
    }
}

proof fn lemma_hyp_best_upto(hs: Seq<HypView>, n: int)
    requires
        1 <= n <= hs.len(),
    ensures
        0 <= hyp_best_upto(hs, n) < n,
        forall|j: int| 0 <= j < n ==> (#[trigger] hs[j]).score_q <= hs[hyp_best_upto(hs, n)].score_q,
    decreases n,
{
    if n > 1 {
        lemma_hyp_best_upto(hs, n - 1);
    }
}

/// Keeps the `k` best hypotheses, best first. Does nothing when `k` is zero
/// or the list is already within the budget (then the order is untouched);
/// otherwise the result is the first `k` entries of a score-sorted
/// rearrangement of the input, and the single best hypothesis — the
/// first-listed one of top score, so ties favour insertion order — leads.
pub fn retain_top_k(hyps: &mut Vec<Hypothesis>, k: usize)
    ensures
        k == 0 || old(hyps)@.len() <= k ==> hyps_view(final(hyps)@) == hyps_view(old(hyps)@),
        k > 0 && old(hyps)@.len() > k ==> {
            &&& final(hyps)@.len() == k
            &&& hyps_sorted_desc(hyps_view(final(hyps)@))
            &&& exists|full: Seq<HypView>|
                #![auto]
                full.to_multiset() == hyps_view(old(hyps)@).to_multiset() && hyps_sorted_desc(
                    full,
                ) && hyps_view(final(hyps)@) == full.take(k as int)
            &&& hyps_view(final(hyps)@)[0] == hyps_view(old(hyps)@)[hyp_best_upto(
                hyps_view(old(hyps)@),
                old(hyps)@.len() as int,
            )]
        },
{
    broadcast use vstd::seq_lib::group_to_multiset_ensures;

    if k == 0 || hyps.len() <= k {
        return ;
    }
    let ghost orig = hyps_view(hyps@);
    let mut sorted: Vec<Hypothesis> = Vec::new();
    proof {
        assert(hyps_view(sorted@) =~= Seq::<HypView>::empty());
        assert(hyps_view(sorted@).to_multiset().add(hyps_view(hyps@).to_multiset())
            =~= orig.to_multiset());
    }
    while hyps.len() > 0
        invariant
            sorted@.len() + hyps@.len() == orig.len(),
            hyps_view(sorted@).to_multiset().add(hyps_view(hyps@).to_multiset())
                == orig.to_multiset(),
            hyps_sorted_desc(hyps_view(sorted@)),
            forall|a: int, b: int|
                0 <= a < sorted@.len() && 0 <= b < hyps@.len() ==> (#[trigger] hyps_view(
                    sorted@,
                )[a]).score_q >= (#[trigger] hyps_view(hyps@)[b]).score_q,
            sorted@.len() == 0 ==> hyps_view(hyps@) == orig,
            sorted@.len() > 0 ==> orig.len() > 0 && hyps_view(sorted@)[0] == orig[hyp_best_upto(
                orig,
                orig.len() as int,
            )],
        decreases hyps@.len(),
    {
        let ghost hv = hyps_view(hyps@);
        let ghost sv = hyps_view(sorted@);
        let mut bi: usize = 0;
        let mut j: usize = 1;
        while j < hyps.len()
            invariant
                1 <= j <= hyps@.len(),
                bi < j,
                hv == hyps_view(hyps@),
                bi as int == hyp_best_upto(hv, j as int),
            decreases hyps@.len() - j,
        {
            if hyps[j].score_q > hyps[bi].score_q {
                bi = j;
            }
            j = j + 1;
        }
        proof {
            lemma_hyp_best_upto(hv, hv.len() as int);
        }
        let h = hyps.remove(bi);
        sorted.push(h);
        proof {
            assert(hyps_view(hyps@) =~= hv.remove(bi as int));
            assert(hyps_view(sorted@) =~= sv.push(hv[bi as int]));
            assert(hyps_view(sorted@) == sv.push(hv[bi as int]));
            vstd::seq_lib::to_multiset_build(sv, hv[bi as int]);
            assert(hyps_view(hyps@) == hv.remove(bi as int));
            vstd::seq_lib::to_multiset_remove(hv, bi as int);
            assert(hv.contains(hv[bi as int]));
            hv.to_multiset_ensures();
            assert(hv.to_multiset().count(hv[bi as int]) > 0);
            assert(hyps_view(sorted@).to_multiset().add(hyps_view(hyps@).to_multiset())
                =~= sv.to_multiset().add(hv.to_multiset()));
            assert forall|a: int, b: int|
                0 <= a < sorted@.len() && 0 <= b < hyps@.len() implies (#[trigger] hyps_view(
                sorted@,
            )[a]).score_q >= (#[trigger] hyps_view(hyps@)[b]).score_q by {
                let x = hyps_view(hyps@)[b];
                if b < bi {
                    assert(x == hv[b]);
                } else {
                    assert(x == hv[b + 1]);
                }
                if a < sorted@.len() - 1 {
                    assert(hyps_view(sorted@)[a] == sv[a]);
                } else {
                    assert(hyps_view(sorted@)[a] == hv[bi as int]);
                }
            }
            if sv.len() == 0 {
                assert(hyps_view(sorted@)[0] == hv[bi as int]);
            }
        }
    }
    proof {
        assert(hyps_view(hyps@) =~= Seq::<HypView>::empty());
        assert(hyps_view(sorted@).to_multiset() =~= orig.to_multiset());
    }
    let ghost full = hyps_view(sorted@);
    sorted.truncate(k);
    proof {
        assert(hyps_view(sorted@) =~= full.take(k as int));
    }
    *hyps = sorted;
}

/// Whether vocabulary index `i` may be emitted by a beam expansion: non-blank
/// and, when the margin gate is on, beating the blank score by the margin.
pub open spec fn beam_candidate(
    scores: Seq<i64>,
    mask: Seq<bool>,
    boost: int,
    blank_idx: int,
    margin: int,
    blank_score: int,
    i: int,
) -> bool {
    i != blank_idx && (margin <= 0 || boosted(scores, mask, boost, i) - blank_score >= margin)
}

/// Whether some entry of the candidate list carries vocabulary index `j`.
pub open spec fn contains_idx(r: Seq<(usize, i64)>, j: int) -> bool {
    exists|a: int| 0 <= a < r.len() && (#[trigger] r[a]).0 == j
}

/// The top candidate tokens of one beam step: every returned pair is a
/// margin-passing non-blank index with its boosted score, the list is sorted
/// by score with no index repeated, at most `beam_width` (at least one) are
/// returned, and any passing index left out scores no better than the worst
/// returned one.
#[verifier::rlimit(80)]
pub fn extract_top_tokens(
    scores: &Vec<i64>,
    vocab_size: usize,
    blank_idx: usize,
    mask: &Vec<bool>,
    boost_q: i64,
    min_blank_margin_q: i64,
    blank_score_q: i64,
    beam_width: usize,
) -> (r: Vec<(usize, i64)>)
    requires
        0 < vocab_size <= scores@.len(),
        blank_idx < vocab_size,
        scores_bounded(scores@),
        -SCORE_LIMIT <= boost_q <= SCORE_LIMIT,
        -SCORE_LIMIT * 4 <= min_blank_margin_q <= SCORE_LIMIT * 4,
        -SCORE_LIMIT * 2 <= blank_score_q <= SCORE_LIMIT * 2,
    ensures
        ({
            let k = if beam_width >= 1 {
                beam_width as int
            } else {
                1int
            };
            &&& r@.len() <= k
            &&& forall|a: int, b: int|
                0 <= a <= b < r@.len() ==> (#[trigger] r@[a]).1 >= (#[trigger] r@[b]).1
            &&& forall|a: int, b: int|
                0 <= a < b < r@.len() ==> (#[trigger] r@[a]).0 != (#[trigger] r@[b]).0
            &&& forall|a: int|
                0 <= a < r@.len() ==> (#[trigger] r@[a]).0 < vocab_size && beam_candidate(
                    scores@,
                    mask@,
                    boost_q as int,
                    blank_idx as int,
                    min_blank_margin_q as int,
                    blank_score_q as int,
                    r@[a].0 as int,
                ) && r@[a].1 as int == boosted(scores@, mask@, boost_q as int, r@[a].0 as int)
            &&& forall|j: int|
                0 <= j < vocab_size && beam_candidate(
                    scores@,
                    mask@,
                    boost_q as int,
                    blank_idx as int,
                    min_blank_margin_q as int,
                    blank_score_q as int,
                    j,
                ) && !contains_idx(r@, j) ==> r@.len() == k && boosted(
                    scores@,
                    mask@,
                    boost_q as int,
                    j,
                ) <= r@.last().1
        }),
{
    let k: usize = if beam_width >= 1 {
        beam_width
    } else {
        1
    };
    let ghost gscores = scores@;
    let ghost gmask = mask@;
    let mut r: Vec<(usize, i64)> = Vec::new();
    let mut j: usize = 0;
    while j < vocab_size
        invariant
            0 <= j <= vocab_size <= scores@.len(),
            gscores == scores@,
            gmask == mask@,
            scores_bounded(scores@),
            -SCORE_LIMIT <= boost_q <= SCORE_LIMIT,
            -SCORE_LIMIT * 4 <= min_blank_margin_q <= SCORE_LIMIT * 4,
            -SCORE_LIMIT * 2 <= blank_score_q <= SCORE_LIMIT * 2,
            blank_idx < vocab_size,
            1 <= k,
            r@.len() <= k,
            forall|a: int, b: int|
                0 <= a <= b < r@.len() ==> (#[trigger] r@[a]).1 >= (#[trigger] r@[b]).1,
            forall|a: int, b: int|
                0 <= a < b < r@.len() ==> (#[trigger] r@[a]).0 != (#[trigger] r@[b]).0,
            forall|a: int|
                0 <= a < r@.len() ==> (#[trigger] r@[a]).0 < j && beam_candidate(
                    gscores,
                    gmask,
                    boost_q as int,
                    blank_idx as int,
                    min_blank_margin_q as int,
                    blank_score_q as int,
                    r@[a].0 as int,
                ) && r@[a].1 as int == boosted(gscores, gmask, boost_q as int, r@[a].0 as int),
            forall|jj: int|
                0 <= jj < j && beam_candidate(
                    gscores,
                    gmask,
                    boost_q as int,
                    blank_idx as int,
                    min_blank_margin_q as int,
                    blank_score_q as int,
                    jj,
                ) && !contains_idx(r@, jj) ==> r@.len() == k && boosted(
                    gscores,
                    gmask,
                    boost_q as int,
                    jj,
                ) <= r@.last().1,
        decreases vocab_size - j,
    {
        let ghost r0 = r@;
        let s = boosted_score(scores, mask, boost_q, j);
        let passes = j != blank_idx && (min_blank_margin_q <= 0 || s - blank_score_q
            >= min_blank_margin_q);
        if passes {
            let mut p: usize = 0;
            while p < r.len() && r[p].1 >= s
                invariant
                    0 <= p <= r@.len(),
                    r@ == r0,
                    forall|q: int| 0 <= q < p ==> (#[trigger] r@[q]).1 >= s,
                decreases r@.len() - p,
            {
                p = p + 1;
            }
            let inserted = r.len() < k || p < k;
            if r.len() < k {
                r.insert(p, (j, s));
            } else if p < k {
                r.insert(p, (j, s));
                let ghost rmid = r@;
                let _ = r.pop();
                proof {
                    assert(r@ =~= rmid.drop_last());
                }
            }
            proof {
                if inserted {
                    assert forall|a: int, b: int|
                        0 <= a <= b < r@.len() implies (#[trigger] r@[a]).1 >= (
                    #[trigger] r@[b]).1 by {
                        if a < p {
                            assert(r@[a] == r0[a]);
                        } else if a == p {
                            assert(r@[a] == (j, s));
                        } else {
                            assert(r@[a] == r0[a - 1]);
                        }
                        if b < p {
                            assert(r@[b] == r0[b]);
                        } else if b == p {
                            assert(r@[b] == (j, s));
                        } else {
                            assert(r@[b] == r0[b - 1]);
                            if a > p {
                                assert(r0[a - 1].1 >= r0[b - 1].1);
                            } else if a == p {
                                assert(r0[b - 1].1 < s);
                            }
                        }
                    }
                    assert forall|a: int|
                        0 <= a < r@.len() implies (#[trigger] r@[a]).0 < j + 1 && beam_candidate(
                        gscores,
                        gmask,
                        boost_q as int,
                        blank_idx as int,
                        min_blank_margin_q as int,
                        blank_score_q as int,
                        r@[a].0 as int,
                    ) && r@[a].1 as int == boosted(
                        gscores,
                        gmask,
                        boost_q as int,
                        r@[a].0 as int,
                    ) by {
                        if a < p {
                            assert(r@[a] == r0[a]);
                        } else if a == p {
                            assert(r@[a] == (j, s));
                        } else {
                            assert(r@[a] == r0[a - 1]);
                        }
                    }
                    assert forall|a: int, b: int|
                        0 <= a < b < r@.len() implies (#[trigger] r@[a]).0 != (
                    #[trigger] r@[b]).0 by {
                        if b == p {
                            assert(r@[a] == r0[a]);
                            assert(r@[a].0 < j);
                        } else if a == p {
                            assert(r@[b] == r0[b - 1]);
                            assert(r@[b].0 < j);
                        } else {
                            let a0 = if a < p {
                                a
                            } else {
                                a - 1
                            };
                            let b0 = if b < p {
                                b
                            } else {
                                b - 1
                            };
                            assert(r@[a] == r0[a0]);
                            assert(r@[b] == r0[b0]);
                        }
                    }
                    assert(r@[p as int].0 == j);
                    assert(contains_idx(r@, j as int));
                    assert forall|jj: int|
                        0 <= jj < j + 1 && beam_candidate(
                            gscores,
                            gmask,
                            boost_q as int,
                            blank_idx as int,
                            min_blank_margin_q as int,
                            blank_score_q as int,
                            jj,
                        ) && !contains_idx(r@, jj) implies r@.len() == k && boosted(
                        gscores,
                        gmask,
                        boost_q as int,
                        jj,
                    ) <= r@.last().1 by {
                        assert(jj != j);
                        if contains_idx(r0, jj) {
                            let a = choose|a: int| 0 <= a < r0.len() && (#[trigger] r0[a]).0 == jj;
                            if r0.len() < k || a < k - 1 {
                                if a < p {
                                    assert(r@[a].0 == jj);
                                    assert(contains_idx(r@, jj));
                                } else {
                                    assert(r@[a + 1].0 == jj);
                                    assert(contains_idx(r@, jj));
                                }
                                assert(false);
                            } else {
                                assert(a == k - 1 && r0.len() == k);
                                assert(boosted(gscores, gmask, boost_q as int, jj) == r0[k
                                    - 1].1 as int);
                            }
                        } else {
                            assert(r0.len() == k);
                            assert(boosted(gscores, gmask, boost_q as int, jj) <= r0.last().1);
                        }
                        assert(r@.len() == k);
                        assert(r@[k - 1].1 >= r0[k - 1].1) by {
                            if p < k - 1 {
                                assert(r@[k - 1] == r0[k - 2]);
                                assert(r0[k - 2].1 >= r0[k - 1].1);
                            } else {
                                assert(r@[k - 1] == (j, s));
                                assert(r0[k - 1].1 < s);
                            }
                        }
                        assert(r@.last() == r@[k - 1]);
                        assert(r0.last() == r0[k - 1]);
                    }
                } else {
                    assert(r@ == r0);
                    assert(r0.len() == k);
                    assert(r0.last().1 >= s);
                    assert forall|jj: int|
                        0 <= jj < j + 1 && beam_candidate(
                            gscores,
                            gmask,
                            boost_q as int,
                            blank_idx as int,
                            min_blank_margin_q as int,
                            blank_score_q as int,
                            jj,
                        ) && !contains_idx(r@, jj) implies r@.len() == k && boosted(
                        gscores,
                        gmask,
                        boost_q as int,
                        jj,
                    ) <= r@.last().1 by {
                        if jj == j {
                            assert(boosted(gscores, gmask, boost_q as int, jj) == s as int);
                        }
                    }
                }
            }
        }
        j = j + 1;
    }
    r
}

/// A hotword or vocabulary token normalized for matching: trimmed, then
/// case-folded.
pub open spec fn norm_text(s: Seq<char>) -> Seq<char> {
    lower_of(trim_spec(s))
}

/// Whether vocabulary token `i` equals some usable hotword after
/// normalization; hotwords that trim away to nothing are unusable.
pub open spec fn hotword_match(vocab: Seq<Seq<char>>, hotwords: Seq<Seq<char>>, i: int) -> bool {
    exists|h: int|
        0 <= h < hotwords.len() && trim_spec(#[trigger] hotwords[h]).len() > 0 && norm_text(
            vocab[i],
        ) == norm_text(hotwords[h])
}

/// Builds the per-token hotword mask: token `i` is marked when its trimmed,
/// case-folded text equals that of some usable hotword (one that does not
/// trim away to nothing). Returns nothing when the boost is off, no usable
/// hotword exists, or no token matches.
pub fn build_hotword_mask(vocab: &Vec<String>, hotwords: &Vec<String>, hotword_boost_q: i64) -> (r:
    Option<Vec<bool>>)
    ensures
        ({
            let vv = vocab@.map_values(|s: String| s@);
            let hv = hotwords@.map_values(|s: String| s@);
            &&& (r is Some) == (hotword_boost_q > 0 && exists|i: int|
                0 <= i < vv.len() && hotword_match(vv, hv, i))
            &&& (r matches Some(mask) ==> mask@.len() == vv.len() && forall|i: int|
                0 <= i < vv.len() ==> mask@[i] == hotword_match(vv, hv, i))
        }),
{
    let ghost vv = vocab@.map_values(|s: String| s@);
    let ghost hv = hotwords@.map_values(|s: String| s@);
    if hotword_boost_q <= 0 || hotwords.len() == 0 {
        proof {
            if hotwords@.len() == 0 {
                assert(forall|i: int| 0 <= i < vv.len() ==> !hotword_match(vv, hv, i));
            }
        }
        return None;
    }
    let mut mask: Vec<bool> = Vec::new();
    let mut matched = false;
    let mut i: usize = 0;
    while i < vocab.len()
        invariant
            0 <= i <= vocab@.len(),
            vv == vocab@.map_values(|s: String| s@),
            hv == hotwords@.map_values(|s: String| s@),
            mask@.len() == i,
            forall|i2: int| 0 <= i2 < i ==> mask@[i2] == hotword_match(vv, hv, i2),
            matched == exists|i2: int| 0 <= i2 < i && hotword_match(vv, hv, i2),
        decreases vocab@.len() - i,
    {
        let trimmed = crate::text::trim_str(vocab[i].as_str());
        let token_norm = crate::text::lowercase_str(trimmed);
        proof {
            assert(token_norm@ == norm_text(vv[i as int]));
        }
        let mut is_match = false;
        let mut h: usize = 0;
        while h < hotwords.len()
            invariant
                0 <= h <= hotwords@.len(),
                hv == hotwords@.map_values(|s: String| s@),
                token_norm@ == norm_text(vv[i as int]),
                0 <= i < vv.len(),
                is_match ==> hotword_match(vv, hv, i as int),
                !is_match ==> forall|h2: int|
                    0 <= h2 < h ==> !(trim_spec(#[trigger] hv[h2]).len() > 0 && norm_text(
                        vv[i as int],
                    ) == norm_text(hv[h2])),
            ensures
                is_match ==> hotword_match(vv, hv, i as int),
                !is_match ==> forall|h2: int|
                    0 <= h2 < hv.len() ==> !(trim_spec(#[trigger] hv[h2]).len() > 0 && norm_text(
                        vv[i as int],
                    ) == norm_text(hv[h2])),
            decreases hotwords@.len() - h,
        {
            let ht = crate::text::trim_str(hotwords[h].as_str());
            if ht.unicode_len() > 0 {
                let hn = crate::text::lowercase_str(ht);
                proof {
                    assert(hn@ == norm_text(hv[h as int]));
                }
                if hn.eq(&token_norm) {
                    is_match = true;
                    proof {
                        assert(trim_spec(hv[h as int]).len() > 0);
                        assert(norm_text(vv[i as int]) == norm_text(hv[h as int]));
                    }
                    break ;
                }
            }
            h = h + 1;
        }
        proof {
            if !is_match {
                assert(!hotword_match(vv, hv, i as int));
            }
        }
        mask.push(is_match);
        if is_match {
            matched = true;
        }
        i = i + 1;
    }
    if !matched {
        return None;
    }
    Some(mask)
}

/// `value + delta` clamped to the `i64` range.
pub open spec fn saturated_add(value: int, delta: int) -> int {
    if value + delta > i64::MAX {
        i64::MAX as int
    } else if value + delta < i64::MIN {
        i64::MIN as int
    } else {
        value + delta
    }
}

/// Adds a score delta without overflowing.
fn add_score(value: i64, delta: i64) -> (r: i64)
    ensures
        r as int == saturated_add(value as int, delta as int),
{
    if delta >= 0 {
        if value > i64::MAX - delta {
            i64::MAX
        } else {
            value + delta
        }
    } else {
        if value < i64::MIN - delta {
            i64::MIN
        } else {
            value + delta
        }
    }
}

/// The blank continuation of a hypothesis: identical content with the blank
/// score added; the recurrent state is inherited, not replaced.
pub fn fork_blank(h: &Hypothesis, blank_score_q: i64) -> (r: Hypothesis)
    ensures
        r@ == (HypView {
            score_q: saturated_add(h@.score_q, blank_score_q as int),
            ..h@
        }),
{
    let mut r = h.clone();
    r.score_q = add_score(r.score_q, blank_score_q);
    proof {
        assert(r@ =~= (HypView { score_q: saturated_add(h@.score_q, blank_score_q as int), ..h@ }));
    }
    r
}

/// An emission fork of a hypothesis: the token is appended with its frame,
/// its score is accumulated, the joint's fresh recurrent state is adopted,
/// and the token becomes the feedback target.
pub fn fork_emit(h: &Hypothesis, idx: usize, score_q: i64, t: usize, state_slot: usize) -> (r:
    Hypothesis)
    requires
        idx <= 0x7FFF_FFFF,
    ensures
        r@ == (HypView {
            tokens: h@.tokens.push(idx as int),
            timestamps: h@.timestamps.push(t as int),
            score_q: saturated_add(h@.score_q, score_q as int),
            state_slot: state_slot as int,
            last_token: idx as int,
        }),
{
    let mut r = h.clone();
    r.score_q = add_score(r.score_q, score_q);
    r.tokens.push(idx as i32);
    r.timestamps.push(t);
    r.state_slot = state_slot;
    r.last_token = idx as i32;
    proof {
        assert(r@.tokens =~= h@.tokens.push(idx as int));
        assert(r@.timestamps =~= h@.timestamps.push(t as int));
        assert(r@ =~= (HypView {
            tokens: h@.tokens.push(idx as int),
            timestamps: h@.timestamps.push(t as int),
            score_q: saturated_add(h@.score_q, score_q as int),
            state_slot: state_slot as int,
            last_token: idx as int,
        }));
    }
    r
}

} // verus!
