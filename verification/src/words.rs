//! Tokens with frame timestamps, words aggregated from them, and the
//! time-bucket comparison the stable-prefix voting relies on.

use vstd::prelude::*;
use vstd::string::StrSliceExecFns;
use vstd::string::StringExecFns;

use crate::text::{trim_spec, trim_str};
use crate::FRAME_DURATION_MS;

verus! {

/// Frames are kept well below this bound so that every millisecond value and
/// every sum of two of them fits comfortably in an `i64`.
pub const MAX_FRAME: usize = 0x4000_0000;

/// Mathematical content of a [`TokenWithTime`].
pub struct TokenView {
    pub token_id: int,
    pub text: Seq<char>,
    pub start_frame: int,
    pub end_frame: int,
}

/// A decoded subword token with the encoder frame span it was emitted on.
#[derive(Debug)]
pub struct TokenWithTime {
    pub token_id: i32,
    pub text: String,
    pub start_frame: usize,
    pub end_frame: usize,
}

impl View for TokenWithTime {
    type V = TokenView;

    open spec fn view(&self) -> TokenView {
        TokenView {
            token_id: self.token_id as int,
            text: self.text@,
            start_frame: self.start_frame as int,
            end_frame: self.end_frame as int,
        }
    }
}

impl Clone for TokenWithTime {
    fn clone(&self) -> (r: Self)
        ensures
            r@ == self@,
    {
        TokenWithTime {
            token_id: self.token_id,
            text: self.text.clone(),
            start_frame: self.start_frame,
            end_frame: self.end_frame,
        }
    }
}

/// Frame spans stay in range and ordered, so millisecond math cannot overflow.
pub open spec fn token_wf(t: TokenView) -> bool {
    t.start_frame <= t.end_frame <= MAX_FRAME as int
}

impl TokenWithTime {
    pub open spec fn wf(&self) -> bool {
        token_wf(self@)
    }

    /// Start of the token in milliseconds of audio.
    pub fn start_ms(&self) -> (r: i64)
        requires
            self.wf(),
        ensures
            r == self@.start_frame * FRAME_DURATION_MS,
    {
        (self.start_frame as i64) * FRAME_DURATION_MS
    }

    /// End of the token in milliseconds of audio.
    pub fn end_ms(&self) -> (r: i64)
        requires
            self.wf(),
        ensures
            r == self@.end_frame * FRAME_DURATION_MS,
    {
        (self.end_frame as i64) * FRAME_DURATION_MS
    }
}

/// Mathematical content of a [`WordWithTime`].
pub struct WordView {
    pub text: Seq<char>,
    pub t0_ms: int,
    pub t1_ms: int,
    pub end_frame: int,
    pub last_token_id: int,
}

/// A word assembled from consecutive tokens, with its time span.
#[derive(Debug)]
pub struct WordWithTime {
    pub text: String,
    pub t0_ms: i64,
    pub t1_ms: i64,
    pub end_frame: usize,
    pub last_token_id: i32,
}

impl View for WordWithTime {
    type V = WordView;

    open spec fn view(&self) -> WordView {
        WordView {
            text: self.text@,
            t0_ms: self.t0_ms as int,
            t1_ms: self.t1_ms as int,
            end_frame: self.end_frame as int,
            last_token_id: self.last_token_id as int,
        }
    }
}

impl Clone for WordWithTime {
    fn clone(&self) -> (r: Self)
        ensures
            r@ == self@,
    {
        WordWithTime {
            text: self.text.clone(),
            t0_ms: self.t0_ms,
            t1_ms: self.t1_ms,
            end_frame: self.end_frame,
            last_token_id: self.last_token_id,
        }
    }
}

/// The bound every word time respects, so that sums of two times fit in `i64`.
pub open spec fn max_word_ms() -> int {
    MAX_FRAME as int * FRAME_DURATION_MS as int
}

/// Non-empty text and an ordered, bounded time span.
pub open spec fn word_wf(w: WordView) -> bool {
    &&& w.text.len() > 0
    &&& 0 <= w.t0_ms <= w.t1_ms <= max_word_ms()
}

/// Midpoint of a word's time span.
pub open spec fn center_of(w: WordView) -> int {
    (w.t0_ms + w.t1_ms) / 2
}

/// Whether two words count as the same occurrence: identical text and
/// time-span centers falling into the same bucket of `bucket_ms`.
pub open spec fn word_matches(a: WordView, b: WordView, bucket_ms: int) -> bool {
    a.text == b.text && center_of(a) / bucket_ms == center_of(b) / bucket_ms
}

impl WordWithTime {
    pub open spec fn wf(&self) -> bool {
        word_wf(self@)
    }

    pub fn center_ms(&self) -> (r: i64)
        requires
            self.wf(),
        ensures
            r == center_of(self@),
    {
        (self.t0_ms + self.t1_ms) / 2
    }

    pub fn matches_in_time_bucket(&self, other: &WordWithTime, bucket_ms: i64) -> (r: bool)
        requires
            self.wf(),
            other.wf(),
            bucket_ms > 0,
        ensures
            r == word_matches(self@, other@, bucket_ms as int),
    {
        if !self.text.eq(&other.text) {
            return false;
        }
        let self_bucket = self.center_ms() / bucket_ms;
        let other_bucket = other.center_ms() / bucket_ms;
        self_bucket == other_bucket
    }
}

/// Views of a list of words.
pub open spec fn wview(ws: Seq<WordWithTime>) -> Seq<WordView> {
    ws.map_values(|w: WordWithTime| w@)
}

/// Every word well formed.
pub open spec fn words_wf(ws: Seq<WordView>) -> bool {
    forall|i: int| 0 <= i < ws.len() ==> word_wf(#[trigger] ws[i])
}

/// Word spans never move backwards in time.
pub open spec fn words_ordered(ws: Seq<WordView>) -> bool {
    forall|i: int, j: int|
        0 <= i <= j < ws.len() ==> (#[trigger] ws[i]).t0_ms <= (#[trigger] ws[j]).t0_ms
            && ws[i].t1_ms <= ws[j].t1_ms
}

/// Whether a token text begins with the (normalized) space marker.
pub open spec fn is_space_start(t: Seq<char>) -> bool {
    t.len() > 0 && t[0] == ' '
}

/// The texts of a token group, concatenated in order.
pub open spec fn concat_texts(toks: Seq<TokenView>) -> Seq<char>
    decreases toks.len(),
{
    if toks.len() == 0 {
        Seq::empty()
    } else {
        toks[0].text + concat_texts(toks.skip(1))
    }
}

/// The word a non-empty token group yields before the blank check.
pub open spec fn word_of_group(toks: Seq<TokenView>) -> WordView {
    WordView {
        text: trim_spec(concat_texts(toks)),
        t0_ms: toks[0].start_frame * FRAME_DURATION_MS as int,
        t1_ms: toks.last().end_frame * FRAME_DURATION_MS as int,
        end_frame: toks.last().end_frame,
        last_token_id: toks.last().token_id,
    }
}

/// The words a finished token group contributes: one, unless it trims to nothing.
pub open spec fn group_words(toks: Seq<TokenView>) -> Seq<WordView> {
    if toks.len() == 0 || trim_spec(concat_texts(toks)).len() == 0 {
        Seq::empty()
    } else {
        seq![word_of_group(toks)]
    }
}

/// Words produced from the remaining tokens `toks`, with `cur` the group
/// currently being collected.
pub open spec fn words_acc(toks: Seq<TokenView>, cur: Seq<TokenView>) -> Seq<WordView>
    decreases toks.len(),
{
    if toks.len() == 0 {
        group_words(cur)
    } else if cur.len() > 0 && is_space_start(toks[0].text) {
        group_words(cur) + words_acc(toks.skip(1), seq![toks[0]])
    } else {
        words_acc(toks.skip(1), cur.push(toks[0]))
    }
}

/// All words aggregated from a token stream: groups start at space-marker
/// tokens, each group's texts are concatenated and trimmed, and groups that
/// trim to nothing are dropped.
pub open spec fn words_of_tokens(toks: Seq<TokenView>) -> Seq<WordView> {
    words_acc(toks, Seq::empty())
}

pub proof fn lemma_concat_push(toks: Seq<TokenView>, t: TokenView)
    ensures
        concat_texts(toks.push(t)) == concat_texts(toks) + t.text,
    decreases toks.len(),
{
    if toks.len() == 0 {
        assert(toks.push(t).skip(1) =~= Seq::<TokenView>::empty());
        assert(toks.push(t)[0] == t);
        assert(concat_texts(toks.push(t).skip(1)) =~= Seq::<char>::empty());
        assert(concat_texts(toks) =~= Seq::<char>::empty());
        assert(concat_texts(toks.push(t)) =~= concat_texts(toks) + t.text);
    } else {
        assert(toks.push(t).skip(1) =~= toks.skip(1).push(t));
        assert(toks.push(t)[0] == toks[0]);
        lemma_concat_push(toks.skip(1), t);
        assert(toks[0].text + (concat_texts(toks.skip(1)) + t.text) =~= (toks[0].text
            + concat_texts(toks.skip(1))) + t.text);
        assert(concat_texts(toks.push(t)) =~= concat_texts(toks) + t.text);
    }
}

/// Token spans that never move backwards in time.
pub open spec fn tokens_ordered(toks: Seq<TokenView>) -> bool {
    forall|i: int, j: int|
        0 <= i <= j < toks.len() ==> (#[trigger] toks[i]).start_frame <= (#[trigger] toks[j]).start_frame
            && toks[i].end_frame <= toks[j].end_frame
}

/// Builds the word for a finished token group, if anything is left after trimming.
fn finalize_word(tokens: &Vec<TokenWithTime>) -> (r: Option<WordWithTime>)
    requires
        forall|i: int| 0 <= i < tokens@.len() ==> (#[trigger] tokens@[i]).wf(),
        tokens_ordered(tokens@.map_values(|t: TokenWithTime| t@)),
    ensures
        match r {
            Some(w) => group_words(tokens@.map_values(|t: TokenWithTime| t@)) =~= seq![w@]
                && w.wf(),
            None => group_words(tokens@.map_values(|t: TokenWithTime| t@)) =~= Seq::empty(),
        },
{
    let ghost gtoks = tokens@.map_values(|t: TokenWithTime| t@);
    if tokens.len() == 0 {
        return None;
    }
    let mut raw_text = String::new();
    let mut i: usize = 0;
    while i < tokens.len()
        invariant
            0 <= i <= tokens@.len(),
            gtoks == tokens@.map_values(|t: TokenWithTime| t@),
            raw_text@ == concat_texts(gtoks.take(i as int)),
        decreases tokens@.len() - i,
    {
        proof {
            assert(gtoks.take(i + 1) =~= gtoks.take(i as int).push(gtoks[i as int]));
            lemma_concat_push(gtoks.take(i as int), gtoks[i as int]);
        }
        raw_text.append(tokens[i].text.as_str());
        i = i + 1;
    }
    proof {
        assert(gtoks.take(gtoks.len() as int) =~= gtoks);
    }
    let text = trim_str(raw_text.as_str());
    if text.unicode_len() == 0 {
        return None;
    }
    let first = &tokens[0];
    let last = &tokens[tokens.len() - 1];
    let w = WordWithTime {
        text: text.to_owned(),
        t0_ms: first.start_ms(),
        t1_ms: last.end_ms(),
        end_frame: last.end_frame,
        last_token_id: last.token_id,
    };
    proof {
        assert(gtoks[0] == tokens@[0]@);
        assert(gtoks.last() == tokens@[tokens@.len() - 1]@);
        assert(gtoks[0].start_frame <= gtoks[gtoks.len() - 1].start_frame);
    }
    Some(w)
}

/// Splits a token stream into words: a new word starts on each token whose
/// text begins with the space marker; each word's text is the trimmed
/// concatenation of its tokens, timed from the first token's start to the
/// last token's end.
pub fn tokens_to_words(tokens: Vec<TokenWithTime>) -> (r: Vec<WordWithTime>)
    requires
        forall|i: int| 0 <= i < tokens@.len() ==> (#[trigger] tokens@[i]).wf(),
        tokens_ordered(tokens@.map_values(|t: TokenWithTime| t@)),
    ensures
        r@.map_values(|w: WordWithTime| w@) == words_of_tokens(
            tokens@.map_values(|t: TokenWithTime| t@),
        ),
        forall|i: int| 0 <= i < r@.len() ==> (#[trigger] r@[i]).wf(),
        words_ordered(wview(r@)),
{
    let ghost gtoks = tokens@.map_values(|t: TokenWithTime| t@);
    let mut words: Vec<WordWithTime> = Vec::new();
    let mut current: Vec<TokenWithTime> = Vec::new();
    let ghost mut g: int = 0;
    let mut i: usize = 0;
    proof {
        assert(gtoks.skip(0) =~= gtoks);
        assert(current@.map_values(|t: TokenWithTime| t@) =~= gtoks.subrange(0, 0));
        assert(current@.map_values(|t: TokenWithTime| t@) =~= Seq::<TokenView>::empty());
        assert(Seq::<WordView>::empty() + words_of_tokens(gtoks) =~= words_of_tokens(gtoks));
        assert(words@.map_values(|w: WordWithTime| w@) =~= Seq::<WordView>::empty());
    }
    while i < tokens.len()
        invariant
            0 <= g <= i <= tokens@.len(),
            gtoks == tokens@.map_values(|t: TokenWithTime| t@),
            forall|k: int| 0 <= k < tokens@.len() ==> (#[trigger] tokens@[k]).wf(),
            tokens_ordered(gtoks),
            current@.map_values(|t: TokenWithTime| t@) == gtoks.subrange(g, i as int),
            words@.map_values(|w: WordWithTime| w@) + words_acc(
                gtoks.skip(i as int),
                current@.map_values(|t: TokenWithTime| t@),
            ) == words_of_tokens(gtoks),
            forall|k: int| 0 <= k < words@.len() ==> (#[trigger] words@[k]).wf(),
            words_ordered(wview(words@)),
            forall|x: int, k: int|
                0 <= x < words@.len() && g <= k < gtoks.len() ==> (
                #[trigger] wview(words@)[x]).t0_ms <= (#[trigger] gtoks[k]).start_frame
                    * FRAME_DURATION_MS && wview(words@)[x].t1_ms <= gtoks[k].end_frame
                    * FRAME_DURATION_MS,
        decreases tokens@.len() - i,
    {
        let ghost cur0 = current@.map_values(|t: TokenWithTime| t@);
        let ghost words0 = words@.map_values(|w: WordWithTime| w@);
        let ghost g0 = g;
        let token = tokens[i].clone();
        proof {
            assert(token@ == gtoks[i as int]);
            assert(forall|k: int|
                0 <= k < current@.len() ==> (#[trigger] current@[k])@ == cur0[k]);
        }
        let starts_word = starts_with_space_token(&token) || current.len() == 0;
        if starts_word && current.len() > 0 {
            proof {
                assert(forall|a: int, b: int|
                    0 <= a <= b < cur0.len() ==> (#[trigger] cur0[a]).start_frame <= (
                    #[trigger] cur0[b]).start_frame && cur0[a].end_frame <= cur0[b].end_frame);
            }
            if let Some(word) = finalize_word(&current) {
                words.push(word);
                proof {
                    assert(words@.map_values(|w: WordWithTime| w@) =~= words0.push(word@));
                    assert(words0.push(word@) =~= words0 + group_words(cur0));
                    assert(seq![word@] =~= group_words(cur0));
                    assert(group_words(cur0).len() == 1);
                    assert(group_words(cur0) == seq![word_of_group(cur0)]);
                    assert(seq![word_of_group(cur0)][0] == word_of_group(cur0));
                    assert(seq![word@][0] == word@);
                    assert(word@ == word_of_group(cur0));
                    assert(cur0[0] == gtoks[g0]);
                    assert(cur0.last() == gtoks[i - 1]);
                    assert(word@.t0_ms == gtoks[g0].start_frame * FRAME_DURATION_MS);
                    assert(word@.t1_ms == gtoks[i - 1].end_frame * FRAME_DURATION_MS);
                    assert forall|x: int, y: int|
                        0 <= x <= y < wview(words@).len() implies (
                    #[trigger] wview(words@)[x]).t0_ms <= (#[trigger] wview(words@)[y]).t0_ms
                        && wview(words@)[x].t1_ms <= wview(words@)[y].t1_ms by {
                        assert(wview(words@) =~= words0.push(word@));
                        if y < wview(words@).len() - 1 {
                            assert(wview(words@)[x] == words0[x]);
                            assert(wview(words@)[y] == words0[y]);
                        } else if x < y {
                            assert(wview(words@)[x] == words0[x]);
                            assert(words0[x].t0_ms <= gtoks[g0].start_frame
                                * FRAME_DURATION_MS);
                            assert(words0[x].t1_ms <= gtoks[i - 1].end_frame
                                * FRAME_DURATION_MS);
                        }
                    }
                }
            } else {
                proof {
                    assert(words@.map_values(|w: WordWithTime| w@) =~= words0 + group_words(
                        cur0,
                    ));
                }
            }
            current.clear();
            proof {
                g = i as int;
                assert forall|x: int, k: int|
                    0 <= x < words@.len() && g <= k < gtoks.len() implies (
                #[trigger] wview(words@)[x]).t0_ms <= (#[trigger] gtoks[k]).start_frame
                    * FRAME_DURATION_MS && wview(words@)[x].t1_ms <= gtoks[k].end_frame
                    * FRAME_DURATION_MS by {
                    if x < words0.len() {
                        assert(wview(words@)[x] == words0[x]);
                    } else {
                        assert(wview(words@)[x].t0_ms == gtoks[g0].start_frame
                            * FRAME_DURATION_MS);
                        assert(wview(words@)[x].t1_ms == gtoks[i - 1].end_frame
                            * FRAME_DURATION_MS);
                        assert(gtoks[g0].start_frame <= gtoks[k].start_frame);
                        assert(gtoks[i - 1].end_frame <= gtoks[k].end_frame);
                    }
                }
            }
        }
        current.push(token);
        proof {
            assert(gtoks.skip(i as int)[0] == gtoks[i as int]);
            assert(gtoks.skip(i as int).skip(1) =~= gtoks.skip(i + 1));
            if cur0.len() > 0 && is_space_start(gtoks[i as int].text) {
                assert(current@.map_values(|t: TokenWithTime| t@) =~= seq![gtoks[i as int]]);
                assert(current@.map_values(|t: TokenWithTime| t@) =~= gtoks.subrange(
                    g,
                    i + 1,
                ));
                assert((words0 + group_words(cur0)) + words_acc(
                    gtoks.skip(i + 1),
                    seq![gtoks[i as int]],
                ) =~= words0 + (group_words(cur0) + words_acc(
                    gtoks.skip(i + 1),
                    seq![gtoks[i as int]],
                )));
            } else {
                assert(current@.map_values(|t: TokenWithTime| t@) =~= cur0.push(
                    gtoks[i as int],
                ));
                assert(cur0.push(gtoks[i as int]) =~= gtoks.subrange(g, i + 1));
            }
        }
        i = i + 1;
    }
    proof {
        assert(gtoks.skip(gtoks.len() as int) =~= Seq::<TokenView>::empty());
    }
    let ghost words1 = words@.map_values(|w: WordWithTime| w@);
    let ghost cur1 = current@.map_values(|t: TokenWithTime| t@);
    if current.len() > 0 {
        proof {
            assert(forall|k: int|
                0 <= k < current@.len() ==> (#[trigger] current@[k])@ == cur1[k]);
            assert(forall|a: int, b: int|
                0 <= a <= b < cur1.len() ==> (#[trigger] cur1[a]).start_frame <= (
                #[trigger] cur1[b]).start_frame && cur1[a].end_frame <= cur1[b].end_frame);
        }
        if let Some(word) = finalize_word(&current) {
            words.push(word);
            proof {
                assert(words@.map_values(|w: WordWithTime| w@) =~= words1.push(word@));
                assert(words1.push(word@) =~= words1 + group_words(cur1));
                assert(seq![word@] =~= group_words(cur1));
                assert(group_words(cur1).len() == 1);
                assert(group_words(cur1) == seq![word_of_group(cur1)]);
                assert(seq![word_of_group(cur1)][0] == word_of_group(cur1));
                assert(seq![word@][0] == word@);
                assert(word@ == word_of_group(cur1));
                assert(cur1[0] == gtoks[g]);
                assert(cur1.last() == gtoks[gtoks.len() - 1]);
                assert(word@.t0_ms == gtoks[g].start_frame * FRAME_DURATION_MS);
                assert(word@.t1_ms == gtoks[gtoks.len() - 1].end_frame * FRAME_DURATION_MS);
                assert forall|x: int, y: int|
                    0 <= x <= y < wview(words@).len() implies (
                #[trigger] wview(words@)[x]).t0_ms <= (#[trigger] wview(words@)[y]).t0_ms
                    && wview(words@)[x].t1_ms <= wview(words@)[y].t1_ms by {
                    assert(wview(words@) =~= words1.push(word@));
                    if y < wview(words@).len() - 1 {
                        assert(wview(words@)[x] == words1[x]);
                        assert(wview(words@)[y] == words1[y]);
                    } else if x < y {
                        assert(wview(words@)[x] == words1[x]);
                        assert(words1[x].t0_ms <= gtoks[g].start_frame * FRAME_DURATION_MS);
                        assert(words1[x].t1_ms <= gtoks[gtoks.len() - 1].end_frame
                            * FRAME_DURATION_MS);
                    }
                }
            }
        } else {
            proof {
                assert(words@.map_values(|w: WordWithTime| w@) =~= words1 + group_words(cur1));
            }
        }
    } else {
        proof {
            assert(group_words(cur1) =~= Seq::<WordView>::empty());
            assert(words1 + group_words(cur1) =~= words1);
        }
    }
    proof {
        assert(words@.map_values(|w: WordWithTime| w@) =~= words_of_tokens(gtoks));
    }
    words
}

/// Whether this token begins a new word.
fn starts_with_space_token(t: &TokenWithTime) -> (r: bool)
    ensures
        r == is_space_start(t@.text),
{
    crate::text::starts_with_space(t.text.as_str())
}

/// How many tokens begin with the space marker.
pub open spec fn count_space_starts(toks: Seq<TokenView>) -> int
    decreases toks.len(),
{
    if toks.len() == 0 {
        0
    } else {
        (if is_space_start(toks[0].text) {
            1int
        } else {
            0int
        }) + count_space_starts(toks.skip(1))
    }
}

/// Whether every token group formed along the way keeps some text after
/// trimming, with `cur` the group currently being collected.
pub open spec fn no_blank_groups(toks: Seq<TokenView>, cur: Seq<TokenView>) -> bool
    decreases toks.len(),
{
    if toks.len() == 0 {
        cur.len() == 0 || trim_spec(concat_texts(cur)).len() > 0
    } else if cur.len() > 0 && is_space_start(toks[0].text) {
        trim_spec(concat_texts(cur)).len() > 0 && no_blank_groups(toks.skip(1), seq![toks[0]])
    } else {
        no_blank_groups(toks.skip(1), cur.push(toks[0]))
    }
}

proof fn lemma_words_acc_count(toks: Seq<TokenView>, cur: Seq<TokenView>, bucket: int)
    requires
        no_blank_groups(toks, cur),
    ensures
        words_acc(toks, cur).len() == if cur.len() > 0 {
            1 + count_space_starts(toks)
        } else if toks.len() > 0 {
            1 + count_space_starts(toks.skip(1))
        } else {
            0
        },
    decreases toks.len(),
{
    if toks.len() == 0 {
    } else if cur.len() > 0 && is_space_start(toks[0].text) {
        lemma_words_acc_count(toks.skip(1), seq![toks[0]], bucket);
    } else {
        lemma_words_acc_count(toks.skip(1), cur.push(toks[0]), bucket);
    }
}

/// Word-count law: when no group trims away to nothing, the number of
/// aggregated words equals the number of tokens that begin with the space
/// marker, plus one more when the first token does not begin with it.
pub proof fn lemma_word_count(toks: Seq<TokenView>)
    requires
        toks.len() > 0,
        no_blank_groups(toks, Seq::empty()),
    ensures
        words_of_tokens(toks).len() == count_space_starts(toks) + if !is_space_start(
            toks[0].text,
        ) {
            1int
        } else {
            0int
        },
{
    lemma_words_acc_count(toks, Seq::empty(), 0);
}

} // verus!
