//! Longest-stable-prefix commit: turns a stream of drifting word drafts into
//! a monotonic committed prefix plus a volatile draft.

use std::collections::VecDeque;
use vstd::prelude::*;
use vstd::string::StrSliceExecFns;
use vstd::string::StringExecFns;

use crate::text::{is_blank, slice_chars, trim_spec};
use crate::words::{
    max_word_ms, word_matches, word_wf, words_ordered, words_wf, wview, WordView, WordWithTime,
};

verus! {

/// End time of the last word, or -1 when there is none.
pub open spec fn last_t1(ws: Seq<WordView>) -> int {
    if ws.len() == 0 {
        -1
    } else {
        ws.last().t1_ms
    }
}

/// The words whose start lies strictly after `boundary`.
pub open spec fn keep_after(ws: Seq<WordView>, boundary: int) -> Seq<WordView> {
    ws.filter(|w: WordView| w.t0_ms > boundary)
}

pub proof fn lemma_keep_after(ws: Seq<WordView>, boundary: int)
    ensures
        keep_after(ws, boundary).len() <= ws.len(),
        forall|k: int|
            0 <= k < keep_after(ws, boundary).len() ==> (#[trigger] keep_after(ws, boundary)[k]).t0_ms
                > boundary,
        forall|k: int|
            0 <= k < keep_after(ws, boundary).len() ==> ws.contains(
                #[trigger] keep_after(ws, boundary)[k],
            ),
        words_wf(ws) ==> words_wf(keep_after(ws, boundary)),
        words_ordered(ws) && words_wf(ws) ==> words_ordered(keep_after(ws, boundary)),
    decreases ws.len(),
{
    reveal(Seq::filter);
    let f = keep_after(ws, boundary);
    if ws.len() == 0 {
        assert(f.len() == 0);
    } else {
        let dl = ws.drop_last();
        let last = ws.last();
        lemma_keep_after(dl, boundary);
        let fd = keep_after(dl, boundary);
        assert(forall|k: int| 0 <= k < dl.len() ==> dl[k] == ws[k]);
        assert(forall|x: WordView| dl.contains(x) ==> ws.contains(x));
        assert(ws.contains(last));
        if last.t0_ms > boundary {
            assert(f == fd.push(last));
        } else {
            assert(f == fd);
        }
        if words_wf(ws) {
            assert(words_wf(dl));
        }
        if words_ordered(ws) && words_wf(ws) {
            assert(words_ordered(dl));
            if last.t0_ms > boundary {
                assert forall|i: int, j: int| 0 <= i <= j < f.len() implies (
                #[trigger] f[i]).t0_ms <= (#[trigger] f[j]).t0_ms && f[i].t1_ms <= f[j].t1_ms by {
                    if j < f.len() - 1 {
                        assert(f[i] == fd[i] && f[j] == fd[j]);
                    } else if i < f.len() - 1 {
                        assert(f[i] == fd[i]);
                        assert(dl.contains(fd[i]));
                        let m = choose|m: int| 0 <= m < dl.len() && dl[m] == fd[i];
                        assert(ws[m] == fd[i]);
                        assert(ws[m].t0_ms <= last.t0_ms && ws[m].t1_ms <= last.t1_ms);
                    }
                }
            }
        }
    }
}

/// The text of a word list joined by single spaces, after the first word.
pub open spec fn words_text_tail(ws: Seq<WordView>) -> Seq<char>
    decreases ws.len(),
{
    if ws.len() == 0 {
        Seq::empty()
    } else {
        seq![' '] + ws[0].text + words_text_tail(ws.skip(1))
    }
}

/// The text of a word list, words joined by single spaces.
pub open spec fn words_text(ws: Seq<WordView>) -> Seq<char> {
    if ws.len() == 0 {
        Seq::empty()
    } else {
        ws[0].text + words_text_tail(ws.skip(1))
    }
}

pub proof fn lemma_words_text_tail_concat(a: Seq<WordView>, b: Seq<WordView>)
    ensures
        words_text_tail(a + b) == words_text_tail(a) + words_text_tail(b),
    decreases a.len(),
{
    if a.len() == 0 {
        assert(a + b =~= b);
        assert(words_text_tail(a) + words_text_tail(b) =~= words_text_tail(b));
    } else {
        assert((a + b)[0] == a[0]);
        assert((a + b).skip(1) =~= a.skip(1) + b);
        lemma_words_text_tail_concat(a.skip(1), b);
        assert(seq![' '] + a[0].text + (words_text_tail(a.skip(1)) + words_text_tail(b)) =~= (
        seq![' '] + a[0].text + words_text_tail(a.skip(1))) + words_text_tail(b));
        assert(words_text_tail(a + b) =~= words_text_tail(a) + words_text_tail(b));
    }
}

/// Joining distributes over concatenation: the joined text of `a + b` starts
/// with the joined text of `a`.
pub proof fn lemma_words_text_concat(a: Seq<WordView>, b: Seq<WordView>)
    ensures
        a.len() > 0 ==> words_text(a + b) == words_text(a) + words_text_tail(b),
        a.len() == 0 ==> words_text(a + b) == words_text(b),
{
    if a.len() == 0 {
        assert(a + b =~= b);
    } else {
        assert((a + b)[0] == a[0]);
        assert((a + b).skip(1) =~= a.skip(1) + b);
        lemma_words_text_tail_concat(a.skip(1), b);
        assert(a[0].text + (words_text_tail(a.skip(1)) + words_text_tail(b)) =~= (a[0].text
            + words_text_tail(a.skip(1))) + words_text_tail(b));
        assert(words_text(a + b) =~= words_text(a) + words_text_tail(b));
    }
}

pub proof fn lemma_words_text_push(ws: Seq<WordView>, w: WordView)
    ensures
        ws.len() == 0 ==> words_text(ws.push(w)) == w.text,
        ws.len() > 0 ==> words_text(ws.push(w)) == words_text(ws) + seq![' '] + w.text,
{
    assert(ws.push(w) =~= ws + seq![w]);
    lemma_words_text_concat(ws, seq![w]);
    assert(seq![w].skip(1) =~= Seq::<WordView>::empty());
    if ws.len() == 0 {
        assert(words_text(seq![w]) =~= w.text);
    } else {
        assert(seq![w][0] == w);
        assert(words_text_tail(seq![w].skip(1)) =~= Seq::<char>::empty());
        assert((seq![' '] + w.text) + Seq::<char>::empty() =~= seq![' '] + w.text);
        assert(words_text_tail(seq![w]) =~= seq![' '] + w.text);
        assert(words_text(ws) + (seq![' '] + w.text) =~= words_text(ws) + seq![' '] + w.text);
    }
}

/// Committed and draft words joined by single spaces.
pub fn words_to_text(committed: &Vec<WordWithTime>, draft: &Vec<WordWithTime>) -> (r: String)
    ensures
        r@ == words_text(
            committed@.map_values(|w: WordWithTime| w@) + draft@.map_values(
                |w: WordWithTime| w@,
            ),
        ),
{
    let ghost cv = committed@.map_values(|w: WordWithTime| w@);
    let ghost dv = draft@.map_values(|w: WordWithTime| w@);
    let mut result = String::new();
    let mut first = true;
    let mut i: usize = 0;
    proof {
        assert(cv.take(0) =~= Seq::<WordView>::empty());
    }
    while i < committed.len()
        invariant
            0 <= i <= committed@.len(),
            cv == committed@.map_values(|w: WordWithTime| w@),
            result@ == words_text(cv.take(i as int)),
            first == (i == 0),
        decreases committed@.len() - i,
    {
        proof {
            assert(cv.take(i + 1) =~= cv.take(i as int).push(cv[i as int]));
            lemma_words_text_push(cv.take(i as int), cv[i as int]);
        }
        if !first {
            result.append(" ");
            proof {
                reveal_strlit(" ");
            }
        }
        result.append(committed[i].text.as_str());
        proof {
            if i > 0 {
                assert(result@ =~= words_text(cv.take(i + 1)));
            } else {
                assert(result@ =~= words_text(cv.take(1)));
            }
        }
        first = false;
        i = i + 1;
    }
    proof {
        assert(cv.take(cv.len() as int) =~= cv);
    }
    let mut j: usize = 0;
    proof {
        assert(dv.take(0) =~= Seq::<WordView>::empty());
        assert(cv + dv.take(0) =~= cv);
    }
    while j < draft.len()
        invariant
            0 <= j <= draft@.len(),
            cv == committed@.map_values(|w: WordWithTime| w@),
            dv == draft@.map_values(|w: WordWithTime| w@),
            result@ == words_text(cv + dv.take(j as int)),
            first == (cv.len() + j == 0),
        decreases draft@.len() - j,
    {
        proof {
            assert((cv + dv.take(j as int)).push(dv[j as int]) =~= cv + dv.take(j + 1));
            lemma_words_text_push(cv + dv.take(j as int), dv[j as int]);
        }
        if !first {
            result.append(" ");
            proof {
                reveal_strlit(" ");
            }
        }
        result.append(draft[j].text.as_str());
        proof {
            if cv.len() + j > 0 {
                assert(result@ =~= words_text(cv + dv.take(j + 1)));
            } else {
                assert(result@ =~= words_text(cv + dv.take(j + 1)));
            }
        }
        first = false;
        j = j + 1;
    }
    proof {
        assert(cv + dv.take(dv.len() as int) =~= cv + dv);
    }
    result
}

/// Views of a list of drafts.
pub open spec fn hview(h: Seq<Vec<WordWithTime>>) -> Seq<Seq<WordView>> {
    h.map_values(|d: Vec<WordWithTime>| d@.map_values(|w: WordWithTime| w@))
}

/// Whether position `i` agrees across every draft in the history: present in
/// all of them, with the same text and time bucket as in the oldest draft.
pub open spec fn stable_at(h: Seq<Seq<WordView>>, bucket: int, i: int) -> bool {
    forall|d: int|
        0 <= d < h.len() ==> i < (#[trigger] h[d]).len() && word_matches(h[0][i], h[d][i], bucket)
}

/// Length of the longest stable prefix, scanning upward from `i`.
pub open spec fn lsp_len_from(h: Seq<Seq<WordView>>, bucket: int, i: int) -> int
    decreases h[0].len() - i,
    when h.len() > 0 && 0 <= i <= h[0].len()
{
    if stable_at(h, bucket, i) {
        lsp_len_from(h, bucket, i + 1)
    } else {
        i
    }
}

/// The longest index-aligned prefix on which every draft in the history agrees.
pub open spec fn lsp(h: Seq<Seq<WordView>>, bucket: int) -> Seq<WordView> {
    if h.len() == 0 {
        Seq::empty()
    } else {
        h[0].take(lsp_len_from(h, bucket, 0))
    }
}

proof fn lemma_lsp_from(h: Seq<Seq<WordView>>, bucket: int, i: int, k: int)
    requires
        h.len() > 0,
        0 <= i <= k <= h[0].len(),
        forall|j: int| i <= j < k ==> stable_at(h, bucket, j),
        k < h[0].len() ==> !stable_at(h, bucket, k),
    ensures
        lsp_len_from(h, bucket, i) == k,
    decreases k - i,
{
    if i == k {
        if k == h[0].len() {
            assert(!stable_at(h, bucket, k)) by {
                if stable_at(h, bucket, k) {
                    assert(k < h[0].len());
                }
            }
        }
    } else {
        assert(stable_at(h, bucket, i));
        lemma_lsp_from(h, bucket, i + 1, k);
    }
}

/// Number of leading prefix words old enough to commit, scanning up to `limit`.
pub open spec fn commit_count_from(prefix: Seq<WordView>, limit: int, deadline: int, i: int) -> int
    decreases limit - i,
    when 0 <= i <= limit <= prefix.len()
{
    if i >= limit {
        i
    } else if prefix[i].t1_ms <= deadline {
        commit_count_from(prefix, limit, deadline, i + 1)
    } else {
        i
    }
}

/// How much of the stable prefix may commit after withholding the safety margin.
pub open spec fn margin_limit(len: int, margin: int) -> int {
    if margin >= len {
        0
    } else {
        len - margin
    }
}

pub open spec fn commit_count(prefix: Seq<WordView>, margin: int, deadline: int) -> int {
    commit_count_from(prefix, margin_limit(prefix.len() as int, margin), deadline, 0)
}

proof fn lemma_commit_count_from(prefix: Seq<WordView>, limit: int, deadline: int, i: int, k: int)
    requires
        0 <= i <= k <= limit <= prefix.len(),
        forall|j: int| i <= j < k ==> (#[trigger] prefix[j]).t1_ms <= deadline,
        k < limit ==> prefix[k].t1_ms > deadline,
    ensures
        commit_count_from(prefix, limit, deadline, i) == k,
    decreases k - i,
{
    if i < k {
        lemma_commit_count_from(prefix, limit, deadline, i + 1, k);
    }
}

/// Configuration of the stable-prefix voting.
pub struct ConfigView {
    pub history_size: int,
    pub commit_lag_ms: int,
    pub time_bucket_ms: int,
    pub safety_margin_words: int,
    pub max_uncommitted_duration_ms: int,
}

#[derive(Debug)]
pub struct WordHypothesisConfig {
    /// Number of consecutive drafts that must agree.
    pub history_size: usize,
    /// A word's right edge must be at least this far in the past to commit.
    pub commit_lag_ms: i64,
    /// Words whose centers fall in the same bucket count as the same occurrence.
    pub time_bucket_ms: i64,
    /// Trailing stable words withheld as a safety margin.
    pub safety_margin_words: usize,
    /// Age at which the draft's head word is committed even without agreement.
    pub max_uncommitted_duration_ms: i64,
}

impl View for WordHypothesisConfig {
    type V = ConfigView;

    open spec fn view(&self) -> ConfigView {
        ConfigView {
            history_size: self.history_size as int,
            commit_lag_ms: self.commit_lag_ms as int,
            time_bucket_ms: self.time_bucket_ms as int,
            safety_margin_words: self.safety_margin_words as int,
            max_uncommitted_duration_ms: self.max_uncommitted_duration_ms as int,
        }
    }
}

pub open spec fn config_wf(c: ConfigView) -> bool {
    &&& 1 <= c.history_size
    &&& 0 <= c.commit_lag_ms <= max_word_ms()
    &&& 0 < c.time_bucket_ms
    &&& 0 <= c.max_uncommitted_duration_ms <= max_word_ms()
}

impl Default for WordHypothesisConfig {
    /// Three agreeing drafts, a 50 ms commit lag, 100 ms time buckets, no
    /// safety margin, and a 4 s force-commit threshold.
    fn default() -> (c: Self)
        ensures
            c@ == (ConfigView {
                history_size: 3,
                commit_lag_ms: 50,
                time_bucket_ms: 100,
                safety_margin_words: 0,
                max_uncommitted_duration_ms: 4000,
            }),
            config_wf(c@),
    {
        WordHypothesisConfig {
            history_size: 3,
            commit_lag_ms: 50,
            time_bucket_ms: 100,
            safety_margin_words: 0,
            max_uncommitted_duration_ms: 4000,
        }
    }
}

/// Mathematical content of a [`WordHypothesisManager`].
#[verifier::ext_equal]
pub struct ManagerView {
    pub config: ConfigView,
    pub committed: Seq<WordView>,
    pub draft: Seq<WordView>,
    pub history: Seq<Seq<WordView>>,
    pub stable_char_len: int,
    pub total_char_len: int,
}

/// Holds the committed words, the volatile draft, and a bounded history of
/// recent drafts used for longest-stable-prefix voting.
pub struct WordHypothesisManager {
    config: WordHypothesisConfig,
    committed: Vec<WordWithTime>,
    current_draft: Vec<WordWithTime>,
    history: VecDeque<Vec<WordWithTime>>,
    /// Unicode scalar values of committed text already surfaced as stable.
    pub stable_char_len: usize,
    /// Unicode scalar values of the whole committed text.
    pub total_char_len: usize,
}

impl View for WordHypothesisManager {
    type V = ManagerView;

    closed spec fn view(&self) -> ManagerView {
        ManagerView {
            config: self.config@,
            committed: wview(self.committed@),
            draft: wview(self.current_draft@),
            history: hview(self.history@),
            stable_char_len: self.stable_char_len as int,
            total_char_len: self.total_char_len as int,
        }
    }
}

/// Internal invariant: everything well formed and time-ordered, every draft
/// and history word strictly after the last committed word, the history
/// bounded, and the character accounting consistent.
pub open spec fn manager_inv(m: ManagerView) -> bool {
    &&& config_wf(m.config)
    &&& words_wf(m.committed) && words_ordered(m.committed)
    &&& words_wf(m.draft) && words_ordered(m.draft)
    &&& forall|d: int|
        0 <= d < m.history.len() ==> words_wf(#[trigger] m.history[d]) && words_ordered(
            m.history[d],
        )
    &&& forall|k: int| 0 <= k < m.draft.len() ==> (#[trigger] m.draft[k]).t0_ms > last_t1(
        m.committed,
    )
    &&& forall|d: int, k: int|
        0 <= d < m.history.len() && 0 <= k < m.history[d].len() ==> (
        #[trigger] m.history[d][k]).t0_ms > last_t1(m.committed)
    &&& m.history.len() <= m.config.history_size
    &&& m.total_char_len == words_text(m.committed).len()
    &&& 0 <= m.stable_char_len <= m.total_char_len
}

/// Committed/draft separation: after any update, every committed word ends
/// strictly before every draft word begins.
pub proof fn lemma_committed_before_draft(m: ManagerView)
    requires
        manager_inv(m),
    ensures
        forall|i: int, j: int|
            0 <= i < m.committed.len() && 0 <= j < m.draft.len() ==> (
            #[trigger] m.committed[i]).t1_ms < (#[trigger] m.draft[j]).t0_ms,
{
    assert forall|i: int, j: int|
        0 <= i < m.committed.len() && 0 <= j < m.draft.len() implies (
    #[trigger] m.committed[i]).t1_ms < (#[trigger] m.draft[j]).t0_ms by {
        assert(m.committed[i].t1_ms <= m.committed.last().t1_ms);
        assert(m.draft[j].t0_ms > last_t1(m.committed));
    }
}

/// Stable text is a prefix of the full transcript: the first
/// `stable_char_len` characters of the full text are exactly the already
/// surfaced part of the committed text.
pub proof fn lemma_stable_text_is_prefix(m: ManagerView)
    requires
        manager_inv(m),
    ensures
        m.stable_char_len <= words_text(m.committed + m.draft).len(),
        words_text(m.committed + m.draft).take(m.stable_char_len) == words_text(
            m.committed,
        ).take(m.stable_char_len),
{
    lemma_words_text_concat(m.committed, m.draft);
    if m.committed.len() == 0 {
        assert(m.stable_char_len == 0);
        assert(words_text(m.committed + m.draft).take(0) =~= Seq::<char>::empty());
        assert(words_text(m.committed).take(0) =~= Seq::<char>::empty());
    } else {
        assert(words_text(m.committed + m.draft).take(m.stable_char_len) =~= words_text(
            m.committed,
        ).take(m.stable_char_len));
    }
}

/// The new draft with re-emissions of already committed audio dropped.
pub open spec fn filtered_words(m: ManagerView, words: Seq<WordView>) -> Seq<WordView> {
    keep_after(words, last_t1(m.committed))
}

/// The history after pushing the new draft and dropping the oldest entry if full.
pub open spec fn pushed_history(m: ManagerView, words: Seq<WordView>) -> Seq<Seq<WordView>> {
    let h1 = m.history.push(filtered_words(m, words));
    if h1.len() > m.config.history_size {
        h1.subrange(1, h1.len() as int)
    } else {
        h1
    }
}

/// The words this update commits: the time-gated stable prefix less the
/// safety margin, or the draft's head word when it has been pending longer
/// than the force-commit threshold.
pub open spec fn update_commit(m: ManagerView, words: Seq<WordView>, now: int) -> Seq<WordView> {
    let filtered = filtered_words(m, words);
    let hist1 = pushed_history(m, words);
    let prefix = if hist1.len() >= m.config.history_size {
        lsp(hist1, m.config.time_bucket_ms)
    } else {
        Seq::empty()
    };
    let n = commit_count(prefix, m.config.safety_margin_words, now - m.config.commit_lag_ms);
    if n > 0 {
        prefix.take(n)
    } else if filtered.len() > 0 && now - filtered[0].t0_ms > m.config.max_uncommitted_duration_ms {
        filtered.take(1)
    } else {
        Seq::empty()
    }
}

/// The manager's state after `update_draft`.
pub open spec fn update_model(m: ManagerView, words: Seq<WordView>, now: int) -> ManagerView {
    let filtered = filtered_words(m, words);
    let hist1 = pushed_history(m, words);
    let tc = update_commit(m, words, now);
    if tc.len() == 0 {
        ManagerView { draft: filtered, history: hist1, ..m }
    } else {
        let b = tc.last().t1_ms;
        let committed1 = m.committed + tc;
        ManagerView {
            committed: committed1,
            draft: keep_after(filtered, b),
            history: hist1.map_values(|d: Seq<WordView>| keep_after(d, b)),
            total_char_len: words_text(committed1).len() as int,
            ..m
        }
    }
}

/// The commit anchor `update_draft` returns: the last committed word's end
/// frame and token id, if anything was committed.
pub open spec fn update_result(m: ManagerView, words: Seq<WordView>, now: int) -> Option<
    (int, int),
> {
    let tc = update_commit(m, words, now);
    if tc.len() == 0 {
        None
    } else {
        Some((tc.last().end_frame, tc.last().last_token_id))
    }
}

proof fn lemma_keep_after_push(ws: Seq<WordView>, w: WordView, boundary: int)
    ensures
        keep_after(ws.push(w), boundary) == if w.t0_ms > boundary {
            keep_after(ws, boundary).push(w)
        } else {
            keep_after(ws, boundary)
        },
{
    reveal(Seq::filter);
    assert(ws.push(w).drop_last() =~= ws);
    assert(ws.push(w).last() == w);
}

/// The words that start strictly after `boundary`, in order.
fn filter_words_after(words: &Vec<WordWithTime>, boundary: i64) -> (r: Vec<WordWithTime>)
    ensures
        wview(r@) == keep_after(wview(words@), boundary as int),
{
    let ghost wv = wview(words@);
    let mut r: Vec<WordWithTime> = Vec::new();
    let mut i: usize = 0;
    proof {
        reveal(Seq::filter);
        assert(wv.take(0) =~= Seq::<WordView>::empty());
        assert(wview(r@) =~= keep_after(wv.take(0), boundary as int));
    }
    while i < words.len()
        invariant
            0 <= i <= words@.len(),
            wv == wview(words@),
            wview(r@) == keep_after(wv.take(i as int), boundary as int),
        decreases words@.len() - i,
    {
        let ghost r0 = wview(r@);
        let w = &words[i];
        proof {
            assert(wv.take(i + 1) =~= wv.take(i as int).push(wv[i as int]));
            lemma_keep_after_push(wv.take(i as int), wv[i as int], boundary as int);
        }
        if w.t0_ms > boundary {
            r.push(w.clone());
            proof {
                assert(wview(r@) =~= r0.push(wv[i as int]));
            }
        }
        i = i + 1;
    }
    proof {
        assert(wv.take(wv.len() as int) =~= wv);
    }
    r
}

/// A copy of the word list.
fn clone_words(words: &Vec<WordWithTime>) -> (r: Vec<WordWithTime>)
    ensures
        wview(r@) == wview(words@),
{
    let ghost wv = wview(words@);
    let mut r: Vec<WordWithTime> = Vec::new();
    let mut i: usize = 0;
    while i < words.len()
        invariant
            0 <= i <= words@.len(),
            wv == wview(words@),
            wview(r@) == wv.take(i as int),
        decreases words@.len() - i,
    {
        r.push(words[i].clone());
        proof {
            assert(wv.take(i + 1) =~= wv.take(i as int).push(wv[i as int]));
            assert(wview(r@) =~= wv.take(i + 1));
        }
        i = i + 1;
    }
    proof {
        assert(wv.take(wv.len() as int) =~= wv);
    }
    r
}

/// A copy of the first `n` words.
fn take_words(words: &Vec<WordWithTime>, n: usize) -> (r: Vec<WordWithTime>)
    requires
        n <= words@.len(),
    ensures
        wview(r@) == wview(words@).take(n as int),
{
    let ghost wv = wview(words@);
    let mut r: Vec<WordWithTime> = Vec::new();
    let mut i: usize = 0;
    while i < n
        invariant
            0 <= i <= n <= words@.len(),
            wv == wview(words@),
            wview(r@) == wv.take(i as int),
        decreases n - i,
    {
        r.push(words[i].clone());
        proof {
            assert(wv.take(i + 1) =~= wv.take(i as int).push(wv[i as int]));
            assert(wview(r@) =~= wv.take(i + 1));
        }
        i = i + 1;
    }
    r
}

/// Whether position `i` agrees across all drafts in the history.
fn is_stable_at(history: &VecDeque<Vec<WordWithTime>>, bucket_ms: i64, i: usize) -> (b: bool)
    requires
        history@.len() > 0,
        bucket_ms > 0,
        forall|d: int| 0 <= d < hview(history@).len() ==> words_wf(#[trigger] hview(history@)[d]),
    ensures
        b == stable_at(hview(history@), bucket_ms as int, i as int),
{
    let ghost hv = hview(history@);
    let hlen = history.len();
    let mut d: usize = 0;
    while d < hlen
        invariant
            0 <= d <= hlen,
            hlen == history@.len(),
            bucket_ms > 0,
            hv == hview(history@),
            forall|dd: int| 0 <= dd < hv.len() ==> words_wf(#[trigger] hv[dd]),
            forall|dd: int|
                0 <= dd < d ==> (i as int) < (#[trigger] hv[dd]).len() && word_matches(
                    hv[0][i as int],
                    hv[dd][i as int],
                    bucket_ms as int,
                ),
        decreases hlen - d,
    {
        let draft = &history[d];
        proof {
            assert(hv[d as int] == draft@.map_values(|w: WordWithTime| w@));
        }
        if i >= draft.len() {
            proof {
                assert(!stable_at(hv, bucket_ms as int, i as int)) by {
                    if stable_at(hv, bucket_ms as int, i as int) {
                        assert((i as int) < hv[d as int].len());
                    }
                }
            }
            return false;
        }
        let first = &history[0];
        proof {
            assert(hv[0] == first@.map_values(|w: WordWithTime| w@));
            if d > 0 {
                assert((i as int) < hv[0].len());
            }
            assert(first@[i as int]@ == hv[0][i as int]);
            assert(draft@[i as int]@ == hv[d as int][i as int]);
            assert(word_wf(hv[0][i as int]));
            assert(word_wf(hv[d as int][i as int]));
        }
        if !first[i].matches_in_time_bucket(&draft[i], bucket_ms) {
            proof {
                assert(!stable_at(hv, bucket_ms as int, i as int)) by {
                    if stable_at(hv, bucket_ms as int, i as int) {
                        assert(word_matches(
                            hv[0][i as int],
                            hv[d as int][i as int],
                            bucket_ms as int,
                        ));
                    }
                }
            }
            return false;
        }
        d = d + 1;
    }
    true
}

/// The longest index-aligned prefix on which every draft in the bounded
/// history agrees, word for word and time bucket for time bucket.
fn longest_stable_prefix(history: &VecDeque<Vec<WordWithTime>>, bucket_ms: i64) -> (r: Vec<
    WordWithTime,
>)
    requires
        history@.len() > 0,
        bucket_ms > 0,
        forall|d: int| 0 <= d < hview(history@).len() ==> words_wf(#[trigger] hview(history@)[d]),
    ensures
        wview(r@) == lsp(hview(history@), bucket_ms as int),
        wview(r@).len() <= hview(history@)[0].len(),
        forall|k: int|
            0 <= k < wview(r@).len() ==> wview(r@)[k] == hview(history@)[0][k],
{
    let ghost hv = hview(history@);
    let first_len = history[0].len();
    proof {
        assert(hv[0] == history@[0]@.map_values(|w: WordWithTime| w@));
    }
    let mut k: usize = 0;
    while k < first_len && is_stable_at(history, bucket_ms, k)
        invariant
            0 <= k <= first_len,
            first_len == hv[0].len(),
            bucket_ms > 0,
            hv == hview(history@),
            history@.len() > 0,
            forall|dd: int| 0 <= dd < hv.len() ==> words_wf(#[trigger] hv[dd]),
            forall|j: int| 0 <= j < k ==> stable_at(hv, bucket_ms as int, j),
        decreases first_len - k,
    {
        k = k + 1;
    }
    proof {
        lemma_lsp_from(hv, bucket_ms as int, 0, k as int);
    }
    let first = &history[0];
    proof {
        assert(hv[0] == first@.map_values(|w: WordWithTime| w@));
    }
    let r = take_words(first, k);
    proof {
        assert(wview(r@) == hv[0].take(k as int));
        assert(forall|j: int| 0 <= j < k ==> wview(r@)[j] == hv[0][j]);
    }
    r
}

impl WordHypothesisManager {
    /// The internal invariant, preserved by every method.
    pub open spec fn inv(&self) -> bool {
        manager_inv(self@)
    }

    /// An empty manager with the given configuration.
    pub fn new(config: WordHypothesisConfig) -> (r: Self)
        requires
            config_wf(config@),
        ensures
            r@ == (ManagerView {
                config: config@,
                committed: Seq::empty(),
                draft: Seq::empty(),
                history: Seq::empty(),
                stable_char_len: 0,
                total_char_len: 0,
            }),
            r.inv(),
    {
        let r = WordHypothesisManager {
            config,
            committed: Vec::new(),
            current_draft: Vec::new(),
            history: VecDeque::new(),
            stable_char_len: 0,
            total_char_len: 0,
        };
        proof {
            assert(wview(r.committed@) =~= Seq::<WordView>::empty());
            assert(wview(r.current_draft@) =~= Seq::<WordView>::empty());
            assert(hview(r.history@) =~= Seq::<Seq<WordView>>::empty());
            assert(r@ =~= (ManagerView {
                config: config@,
                committed: Seq::empty(),
                draft: Seq::empty(),
                history: Seq::empty(),
                stable_char_len: 0,
                total_char_len: 0,
            }));
        }
        r
    }

    /// Committed text followed by the current draft, joined by single spaces.
    pub fn get_full_text(&self) -> (r: String)
        ensures
            r@ == words_text(self@.committed + self@.draft),
    {
        words_to_text(&self.committed, &self.current_draft)
    }

    /// Feeds a fresh draft into the voting history and commits what has become
    /// stable: re-emitted words are dropped, the draft is pushed onto the
    /// bounded history, and once the history is full the time-gated longest
    /// stable prefix (or an overdue head word) moves to the committed list.
    /// Returns the last committed word's end frame and token id, if any.
    #[verifier::rlimit(60)]
    pub fn update_draft(&mut self, new_words: Vec<WordWithTime>, current_audio_ms: i64) -> (r:
        Option<(usize, i32)>)
        requires
            old(self).inv(),
            words_wf(wview(new_words@)),
            words_ordered(wview(new_words@)),
            0 <= current_audio_ms <= max_word_ms(),
        ensures
            final(self).inv(),
            final(self)@ == update_model(old(self)@, wview(new_words@), current_audio_ms as int),
            (r is Some) == (update_result(
                old(self)@,
                wview(new_words@),
                current_audio_ms as int,
            ) is Some),
            r matches Some(p) ==> update_result(
                old(self)@,
                wview(new_words@),
                current_audio_ms as int,
            ) == Some((p.0 as int, p.1 as int)),
    {
        let ghost m0 = self@;
        let ghost wsv = wview(new_words@);
        let ghost now = current_audio_ms as int;
        let boundary: i64 = if self.committed.len() == 0 {
            -1
        } else {
            self.committed[self.committed.len() - 1].t1_ms
        };
        proof {
            if self.committed@.len() > 0 {
                assert(m0.committed.last() == self.committed@[self.committed@.len() - 1]@);
            }
            assert(boundary as int == last_t1(m0.committed));
            lemma_keep_after(wsv, boundary as int);
        }
        let filtered = filter_words_after(&new_words, boundary);
        let ghost fv = wview(filtered@);
        proof {
            assert(fv == filtered_words(m0, wsv));
            assert(words_wf(fv) && words_ordered(fv));
            assert(forall|k: int| 0 <= k < fv.len() ==> (#[trigger] fv[k]).t0_ms > boundary as int);
        }
        self.current_draft = filtered;
        let entry = clone_words(&self.current_draft);
        let ghost h0 = m0.history;
        self.history.push_back(entry);
        proof {
            assert(hview(self.history@) =~= h0.push(fv));
        }
        if self.history.len() > self.config.history_size {
            let _ = self.history.pop_front();
            proof {
                assert(hview(self.history@) =~= h0.push(fv).subrange(1, h0.push(fv).len() as int));
            }
        }
        let ghost h1 = pushed_history(m0, wsv);
        proof {
            assert(hview(self.history@) =~= h1);
            assert(h1.len() <= m0.config.history_size);
            assert(h1.len() >= 1);
            assert forall|d: int| 0 <= d < h1.len() implies words_wf(#[trigger] h1[d])
                && words_ordered(h1[d]) by {
                if h0.len() < m0.config.history_size {
                    if d < h0.len() {
                        assert(h1[d] == h0[d]);
                    } else {
                        assert(h1[d] == fv);
                    }
                } else {
                    assert(h1[d] == h0.push(fv)[d + 1]);
                    if d + 1 < h0.len() {
                        assert(h1[d] == h0[d + 1]);
                    } else {
                        assert(h1[d] == fv);
                    }
                }
            }
            assert forall|d: int, k: int|
                0 <= d < h1.len() && 0 <= k < h1[d].len() implies (#[trigger] h1[d][k]).t0_ms
                > boundary as int by {
                if h0.len() < m0.config.history_size {
                    if d < h0.len() {
                        assert(h1[d] == h0[d]);
                    } else {
                        assert(h1[d] == fv);
                    }
                } else {
                    assert(h1[d] == h0.push(fv)[d + 1]);
                    if d + 1 < h0.len() {
                        assert(h1[d] == h0[d + 1]);
                    } else {
                        assert(h1[d] == fv);
                    }
                }
            }
        }
        let prefix: Vec<WordWithTime> = if self.history.len() >= self.config.history_size {
            longest_stable_prefix(&self.history, self.config.time_bucket_ms)
        } else {
            Vec::new()
        };
        let ghost pv = wview(prefix@);
        proof {
            if h1.len() < m0.config.history_size {
                assert(pv =~= Seq::<WordView>::empty());
            }
            assert(pv == if h1.len() >= m0.config.history_size {
                lsp(h1, m0.config.time_bucket_ms)
            } else {
                Seq::<WordView>::empty()
            });
            assert forall|k: int| 0 <= k < pv.len() implies word_wf(#[trigger] pv[k])
                && pv[k].t0_ms > boundary as int by {
                assert(pv[k] == h1[0][k]);
            }
            assert forall|i: int, j: int| 0 <= i <= j < pv.len() implies (#[trigger] pv[i]).t0_ms
                <= (#[trigger] pv[j]).t0_ms && pv[i].t1_ms <= pv[j].t1_ms by {
                assert(pv[i] == h1[0][i] && pv[j] == h1[0][j]);
                assert(words_ordered(h1[0]));
            }
        }
        let deadline: i64 = current_audio_ms - self.config.commit_lag_ms;
        let limit: usize = if self.config.safety_margin_words >= prefix.len() {
            0
        } else {
            prefix.len() - self.config.safety_margin_words
        };
        proof {
            assert(limit as int == margin_limit(pv.len() as int, m0.config.safety_margin_words));
        }
        let mut n: usize = 0;
        while n < limit && prefix[n].t1_ms <= deadline
            invariant
                0 <= n <= limit <= prefix@.len(),
                pv == wview(prefix@),
                deadline as int == now - m0.config.commit_lag_ms,
                forall|j: int| 0 <= j < n ==> (#[trigger] pv[j]).t1_ms <= deadline as int,
            decreases limit - n,
        {
            n = n + 1;
        }
        proof {
            lemma_commit_count_from(pv, limit as int, deadline as int, 0, n as int);
            assert(n as int == commit_count(
                pv,
                m0.config.safety_margin_words,
                now - m0.config.commit_lag_ms,
            ));
        }
        let mut to_commit = take_words(&prefix, n);
        if to_commit.len() == 0 && self.current_draft.len() > 0 {
            let head_t0 = self.current_draft[0].t0_ms;
            proof {
                assert(self.current_draft@[0]@ == fv[0]);
                assert(word_wf(fv[0]));
            }
            if current_audio_ms - head_t0 > self.config.max_uncommitted_duration_ms {
                to_commit.push(self.current_draft[0].clone());
                proof {
                    assert(wview(to_commit@) =~= fv.take(1));
                }
            }
        }
        let ghost tc = update_commit(m0, wsv, now);
        proof {
            if n > 0 {
                assert(wview(to_commit@) =~= pv.take(n as int));
            }
            assert(wview(to_commit@) == tc);
            assert forall|k: int| 0 <= k < tc.len() implies word_wf(#[trigger] tc[k])
                && tc[k].t0_ms > boundary as int by {
                if n > 0 {
                    assert(tc[k] == pv[k]);
                } else {
                    assert(tc[k] == fv[0]);
                }
            }
            assert forall|i: int, j: int| 0 <= i <= j < tc.len() implies (#[trigger] tc[i]).t0_ms
                <= (#[trigger] tc[j]).t0_ms && tc[i].t1_ms <= tc[j].t1_ms by {
                if n > 0 {
                    assert(tc[i] == pv[i] && tc[j] == pv[j]);
                }
            }
        }
        if to_commit.len() == 0 {
            proof {
                assert(self@ =~= update_model(m0, wsv, now));
                assert(manager_inv(self@));
            }
            return None;
        }
        let last_i = to_commit.len() - 1;
        let commit_frame = to_commit[last_i].end_frame;
        let commit_token = to_commit[last_i].last_token_id;
        let commit_boundary = to_commit[last_i].t1_ms;
        let ghost b = tc.last().t1_ms;
        proof {
            assert(to_commit@[last_i as int]@ == tc.last());
            assert(commit_boundary as int == b);
        }
        let ghost committed1 = m0.committed + tc;
        let mut tail = to_commit;
        self.committed.append(&mut tail);
        proof {
            assert(wview(self.committed@) =~= committed1);
            assert(committed1.last() == tc.last());
            assert(last_t1(committed1) == b);
            assert forall|i: int, j: int| 0 <= i <= j < committed1.len() implies (
            #[trigger] committed1[i]).t0_ms <= (#[trigger] committed1[j]).t0_ms
                && committed1[i].t1_ms <= committed1[j].t1_ms by {
                let cl = m0.committed.len() as int;
                if j < cl {
                    assert(committed1[i] == m0.committed[i] && committed1[j] == m0.committed[j]);
                    assert(words_ordered(m0.committed));
                } else if i >= cl {
                    assert(committed1[i] == tc[i - cl] && committed1[j] == tc[j - cl]);
                } else {
                    assert(committed1[i] == m0.committed[i] && committed1[j] == tc[j - cl]);
                    assert(m0.committed[i].t0_ms <= m0.committed[i].t1_ms);
                    assert(m0.committed[i].t1_ms <= m0.committed.last().t1_ms);
                    assert(tc[j - cl].t0_ms > boundary as int);
                    assert(word_wf(tc[j - cl]));
                }
            }
            assert(words_wf(committed1)) by {
                assert forall|k: int| 0 <= k < committed1.len() implies word_wf(
                    #[trigger] committed1[k],
                ) by {
                    let cl = m0.committed.len() as int;
                    if k < cl {
                        assert(committed1[k] == m0.committed[k]);
                    } else {
                        assert(committed1[k] == tc[k - cl]);
                    }
                }
            }
            lemma_keep_after(fv, b);
        }
        let new_draft = filter_words_after(&self.current_draft, commit_boundary);
        self.current_draft = new_draft;
        let hist_count = self.history.len();
        let mut new_history: VecDeque<Vec<WordWithTime>> = VecDeque::new();
        let mut d: usize = 0;
        while d < hist_count
            invariant
                0 <= d <= hist_count,
                hist_count == self.history@.len(),
                hview(self.history@) == h1,
                commit_boundary as int == b,
                hview(new_history@).len() == d as int,
                forall|dd: int|
                    0 <= dd < d ==> hview(new_history@)[dd] == keep_after(h1[dd], b),
            decreases hist_count - d,
        {
            let ghost nh0 = hview(new_history@);
            let fd = filter_words_after(&self.history[d], commit_boundary);
            proof {
                assert(hview(self.history@)[d as int] == wview(self.history@[d as int]@));
            }
            new_history.push_back(fd);
            proof {
                assert(hview(new_history@) =~= nh0.push(keep_after(h1[d as int], b)));
            }
            d = d + 1;
        }
        self.history = new_history;
        proof {
            assert(hview(self.history@) =~= h1.map_values(
                |dd: Seq<WordView>| keep_after(dd, b),
            ));
        }
        let empty_words: Vec<WordWithTime> = Vec::new();
        let text = words_to_text(&self.committed, &empty_words);
        self.total_char_len = text.unicode_len();
        proof {
            assert(wview(empty_words@) =~= Seq::<WordView>::empty());
            assert(wview(self.committed@) + wview(empty_words@) =~= committed1);
            assert(self.total_char_len as int == words_text(committed1).len() as int);
            lemma_words_text_concat(m0.committed, tc);
            if m0.committed.len() == 0 {
                assert(m0.total_char_len == words_text(m0.committed).len());
                assert(words_text(m0.committed).len() == 0);
                assert(m0.stable_char_len == 0);
            } else {
                assert(words_text(committed1).len() == words_text(m0.committed).len()
                    + words_text_tail(tc).len());
            }
            assert(self@.stable_char_len <= self@.total_char_len);
            assert forall|dd: int, k: int|
                0 <= dd < self@.history.len() && 0 <= k < self@.history[dd].len() implies (
            #[trigger] self@.history[dd][k]).t0_ms > last_t1(self@.committed) by {
                assert(self@.history[dd] == keep_after(h1[dd], b));
                lemma_keep_after(h1[dd], b);
            }
            assert forall|dd: int| 0 <= dd < self@.history.len() implies words_wf(
                #[trigger] self@.history[dd],
            ) && words_ordered(self@.history[dd]) by {
                assert(self@.history[dd] == keep_after(h1[dd], b));
                lemma_keep_after(h1[dd], b);
            }
            assert(self@ =~= update_model(m0, wsv, now));
            assert(manager_inv(self@));
        }
        Some((commit_frame, commit_token))
    }

    /// Returns the committed text not yet surfaced, with the character offset
    /// it starts at, and advances `stable_char_len` past it.
    pub fn take_newly_committed(&mut self) -> (r: Option<(usize, String)>)
        requires
            old(self).inv(),
        ensures
            final(self).inv(),
            final(self)@ == (ManagerView {
                stable_char_len: if old(self)@.total_char_len > old(self)@.stable_char_len {
                    old(self)@.total_char_len
                } else {
                    old(self)@.stable_char_len
                },
                ..old(self)@
            }),
            (r is Some) == (old(self)@.total_char_len > old(self)@.stable_char_len && trim_spec(
                words_text(old(self)@.committed).skip(old(self)@.stable_char_len),
            ).len() > 0),
            r matches Some(p) ==> p.0 as int == old(self)@.stable_char_len && p.1@ == words_text(
                old(self)@.committed,
            ).skip(old(self)@.stable_char_len),
    {
        let ghost m0 = self@;
        let empty_words: Vec<WordWithTime> = Vec::new();
        let committed_text = words_to_text(&self.committed, &empty_words);
        proof {
            assert(wview(empty_words@) =~= Seq::<WordView>::empty());
            assert(wview(self.committed@) + wview(empty_words@) =~= m0.committed);
        }
        let total = committed_text.unicode_len();
        proof {
            assert(total as int == m0.total_char_len);
        }
        if total > self.stable_char_len {
            let prior = self.stable_char_len;
            let new_text = slice_chars(committed_text.as_str(), prior, total);
            self.stable_char_len = total;
            proof {
                assert(new_text@ =~= words_text(m0.committed).skip(prior as int));
                assert(self@ =~= (ManagerView { stable_char_len: m0.total_char_len, ..m0 }));
            }
            if !is_blank(new_text.as_str()) {
                return Some((prior, new_text));
            }
            return None;
        }
        proof {
            assert(self@ =~= (ManagerView { stable_char_len: m0.stable_char_len, ..m0 }));
        }
        None
    }

    /// The number of committed characters already surfaced as stable.
    pub fn stable_len(&self) -> (r: usize)
        ensures
            r as int == self@.stable_char_len,
    {
        self.stable_char_len
    }

    /// The current draft's text alone.
    pub fn get_draft_only_text(&self) -> (r: String)
        ensures
            r@ == words_text(self@.draft),
    {
        let empty_words: Vec<WordWithTime> = Vec::new();
        let r = words_to_text(&empty_words, &self.current_draft);
        proof {
            assert(wview(empty_words@) =~= Seq::<WordView>::empty());
            assert(Seq::<WordView>::empty() + self@.draft =~= self@.draft);
        }
        r
    }
}

} // verus!

