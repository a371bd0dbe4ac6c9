//! Transcription patches: the streaming pipeline's output records, the pure
//! per-tick step that produces them, and the splice their consumers apply.

use vstd::prelude::*;
use vstd::string::StrSliceExecFns;
use vstd::string::StringExecFns;

use crate::text::{slice_chars, slice_chars_spec, trim_spec, trim_start_spec, trim_start_str};
use crate::word_hypothesis::{
    update_model, update_result, words_text, ManagerView, WordHypothesisManager,
};
use crate::words::{
    max_word_ms, token_wf, tokens_ordered, tokens_to_words, words_of_tokens, TokenView,
    TokenWithTime,
};

verus! {

/// Marker used as the `end` of a volatile patch: replace the whole preview.
pub const VOLATILE_END: usize = 0xFFFF_FFFF;

/// Mathematical content of a [`TranscriptionPatch`].
pub struct PatchView {
    pub start: int,
    pub end: int,
    pub text: Seq<char>,
    pub stable: bool,
}

/// One streamed edit of the transcription: stable patches append committed
/// text at `start == end`; volatile patches replace the whole preview.
#[derive(Debug)]
pub struct TranscriptionPatch {
    pub start: usize,
    pub end: usize,
    pub text: String,
    pub stable: bool,
}

impl View for TranscriptionPatch {
    type V = PatchView;

    open spec fn view(&self) -> PatchView {
        PatchView {
            start: self.start as int,
            end: self.end as int,
            text: self.text@,
            stable: self.stable,
        }
    }
}

impl Clone for TranscriptionPatch {
    fn clone(&self) -> (r: Self)
        ensures
            r@ == self@,
    {
        TranscriptionPatch {
            start: self.start,
            end: self.end,
            text: self.text.clone(),
            stable: self.stable,
        }
    }
}

/// The manager state after one tick: draft update, possible commit, and the
/// stable counter advanced over whatever was newly committed.
pub open spec fn tick_model(m: ManagerView, toks: Seq<TokenView>, now: int) -> ManagerView {
    let m1 = update_model(m, words_of_tokens(toks), now);
    ManagerView {
        stable_char_len: if m1.total_char_len > m1.stable_char_len {
            m1.total_char_len
        } else {
            m1.stable_char_len
        },
        ..m1
    }
}

/// Whether one tick surfaces a stable patch.
pub open spec fn tick_emits_stable(m: ManagerView, toks: Seq<TokenView>, now: int) -> bool {
    let m1 = update_model(m, words_of_tokens(toks), now);
    m1.total_char_len > m1.stable_char_len && trim_spec(
        words_text(m1.committed).skip(m1.stable_char_len),
    ).len() > 0
}

/// One decode tick: aggregates the freshly decoded tokens into words, feeds
/// them to the hypothesis manager, and renders the resulting patches — an
/// append-only stable patch for newly committed text, then a volatile patch
/// carrying the full current transcript. Returns the commit anchor, if any,
/// and the patches in emission order.
pub fn process_tick(
    manager: &mut WordHypothesisManager,
    new_tokens: Vec<TokenWithTime>,
    current_audio_ms: i64,
) -> (r: (Option<(usize, i32)>, Vec<TranscriptionPatch>))
    requires
        old(manager).inv(),
        forall|i: int| 0 <= i < new_tokens@.len() ==> token_wf(#[trigger] new_tokens@[i]@),
        tokens_ordered(new_tokens@.map_values(|t: TokenWithTime| t@)),
        0 <= current_audio_ms <= max_word_ms(),
    ensures
        final(manager).inv(),
        new_tokens@.len() == 0 ==> final(manager)@ == old(manager)@ && r.0 is None && r.1@.len()
            == 0,
        new_tokens@.len() > 0 ==> {
            let toks = new_tokens@.map_values(|t: TokenWithTime| t@);
            let m1 = update_model(old(manager)@, words_of_tokens(toks), current_audio_ms as int);
            &&& final(manager)@ == tick_model(old(manager)@, toks, current_audio_ms as int)
            &&& (r.0 is Some) == (update_result(
                old(manager)@,
                words_of_tokens(toks),
                current_audio_ms as int,
            ) is Some)
            &&& (r.0 matches Some(p) ==> update_result(
                old(manager)@,
                words_of_tokens(toks),
                current_audio_ms as int,
            ) == Some((p.0 as int, p.1 as int)))
            &&& r.1@.len() == if tick_emits_stable(old(manager)@, toks, current_audio_ms as int) {
                2int
            } else {
                1int
            }
            &&& (tick_emits_stable(old(manager)@, toks, current_audio_ms as int) ==> r.1@[0]@
                == (PatchView {
                start: m1.stable_char_len,
                end: m1.stable_char_len,
                text: words_text(m1.committed).skip(m1.stable_char_len),
                stable: true,
            }))
            &&& r.1@.last()@ == (PatchView {
                start: 0,
                end: VOLATILE_END as int,
                text: words_text(m1.committed + m1.draft),
                stable: false,
            })
        },
{
    let mut patches: Vec<TranscriptionPatch> = Vec::new();
    if new_tokens.len() == 0 {
        return (None, patches);
    }
    let words = tokens_to_words(new_tokens);
    let commit = manager.update_draft(words, current_audio_ms);
    if let Some((start, text)) = manager.take_newly_committed() {
        patches.push(TranscriptionPatch { start, end: start, text, stable: true });
    }
    let full_text = manager.get_full_text();
    patches.push(
        TranscriptionPatch { start: 0, end: VOLATILE_END, text: full_text, stable: false },
    );
    (commit, patches)
}

/// The final stable patch a closing stream emits: the uncommitted draft,
/// prefixed with a single space, or nothing when the draft is empty.
pub fn flush_draft(manager: &WordHypothesisManager) -> (r: Option<TranscriptionPatch>)
    ensures
        (r is Some) == (words_text(manager@.draft).len() > 0),
        r matches Some(p) ==> p@ == (PatchView {
            start: manager@.stable_char_len,
            end: manager@.stable_char_len,
            text: seq![' '] + trim_start_spec(words_text(manager@.draft)),
            stable: true,
        }),
{
    let remaining = manager.get_draft_only_text();
    if remaining.unicode_len() == 0 {
        return None;
    }
    let mut text = String::new();
    text.append(" ");
    proof {
        reveal_strlit(" ");
        assert(text@ =~= seq![' ']);
    }
    text.append(trim_start_str(remaining.as_str()));
    let start = manager.stable_len();
    Some(TranscriptionPatch { start, end: start, text, stable: true })
}

/// Applies one patch to the current preview text: keeps the characters before
/// `start` and from `end` on, and splices the patch's text in between, with
/// the two offsets taken in either order.
pub fn apply_patch(current: &str, patch: &TranscriptionPatch) -> (r: String)
    ensures
        ({
            let lo = if patch@.start <= patch@.end {
                patch@.start
            } else {
                patch@.end
            };
            let hi = if patch@.start <= patch@.end {
                patch@.end
            } else {
                patch@.start
            };
            r@ == slice_chars_spec(current@, 0, lo) + patch@.text + slice_chars_spec(
                current@,
                hi,
                current@.len() as int,
            )
        }),
{
    let lo = if patch.start <= patch.end {
        patch.start
    } else {
        patch.end
    };
    let hi = if patch.start <= patch.end {
        patch.end
    } else {
        patch.start
    };
    let total = current.unicode_len();
    let prefix = slice_chars(current, 0, lo);
    let suffix = slice_chars(current, hi, total);
    let mut r = prefix;
    r.append(patch.text.as_str());
    r.append(suffix.as_str());
    proof {
        assert(slice_chars_spec(current@, hi as int, total as int) == slice_chars_spec(
            current@,
            hi as int,
            current@.len() as int,
        ));
    }
    r
}

} // verus!
