//! The typed-text buffer behind the global-shortcut path: what has already
//! been typed at the caret, and what each new transcription adds to it.

use vstd::prelude::*;
use vstd::string::StrSliceExecFns;
use vstd::string::StringExecFns;

use crate::streaming::TranscriptionPatch;
use crate::text::{char_is_whitespace, is_whitespace_char, trim_end_spec, trim_end_str, trim_spec};

verus! {

/// Whether `p` is a prefix of `s`.
pub open spec fn is_prefix_of(p: Seq<char>, s: Seq<char>) -> bool {
    p.len() <= s.len() && s.take(p.len() as int) == p
}

/// Whether the string starts with the given prefix, character for character.
pub fn str_starts_with(s: &str, prefix: &str) -> (r: bool)
    ensures
        r == is_prefix_of(prefix@, s@),
{
    let plen = prefix.unicode_len();
    let slen = s.unicode_len();
    if plen > slen {
        proof {
            assert(!is_prefix_of(prefix@, s@));
        }
        return false;
    }
    let mut i: usize = 0;
    while i < plen
        invariant
            0 <= i <= plen == prefix@.len(),
            plen <= slen == s@.len(),
            forall|j: int| 0 <= j < i ==> s@[j] == prefix@[j],
        decreases plen - i,
    {
        if s.get_char(i) != prefix.get_char(i) {
            proof {
                assert(s@.take(plen as int)[i as int] != prefix@[i as int]);
            }
            return false;
        }
        i = i + 1;
    }
    proof {
        assert(s@.take(plen as int) =~= prefix@);
    }
    true
}

/// What already-typed text a new full transcript extends it by: both sides
/// are compared with trailing white space ignored, and the suffix counts only
/// if it is not blank itself.
pub open spec fn suffix_spec(prefix: Seq<char>, full: Seq<char>) -> Option<Seq<char>> {
    let p = trim_end_spec(prefix);
    let f = trim_end_spec(full);
    if !is_prefix_of(p, f) {
        None
    } else {
        let suffix = f.skip(p.len() as int);
        if trim_spec(suffix).len() == 0 {
            None
        } else {
            Some(suffix)
        }
    }
}

/// The part of `full` that extends `prefix`, if `full` continues it with
/// anything more than white space.
pub fn suffix_after_prefix(prefix: &str, full: &str) -> (r: Option<String>)
    ensures
        (r is Some) == (suffix_spec(prefix@, full@) is Some),
        r matches Some(s) ==> suffix_spec(prefix@, full@) == Some(s@),
{
    let prefix_trimmed = trim_end_str(prefix);
    let full_trimmed = trim_end_str(full);
    if full_trimmed.unicode_len() < prefix_trimmed.unicode_len() {
        return None;
    }
    if !str_starts_with(full_trimmed, prefix_trimmed) {
        return None;
    }
    let suffix = full_trimmed.substring_char(
        prefix_trimmed.unicode_len(),
        full_trimmed.unicode_len(),
    );
    proof {
        assert(suffix@ =~= trim_end_spec(full@).skip(trim_end_spec(prefix@).len() as int));
    }
    if crate::text::is_blank(suffix) {
        return None;
    }
    Some(suffix.to_owned())
}

/// Whether a separating space belongs between already-typed text and a new
/// chunk: both sides must be non-empty and neither boundary character may
/// already be white space.
pub fn should_insert_space(buffer: &str, new_text: &str) -> (r: bool)
    ensures
        r == (buffer@.len() > 0 && new_text@.len() > 0 && !char_is_whitespace(buffer@.last())
            && !char_is_whitespace(new_text@[0])),
{
    let blen = buffer.unicode_len();
    let nlen = new_text.unicode_len();
    if blen == 0 || nlen == 0 {
        return false;
    }
    let last = buffer.get_char(blen - 1);
    let first = new_text.get_char(0);
    !is_whitespace_char(last) && !is_whitespace_char(first)
}

/// The text typed so far in this session.
pub struct TypingBuffer {
    buffer: String,
}

impl TypingBuffer {
    /// Characters typed so far.
    pub closed spec fn view(&self) -> Seq<char> {
        self.buffer@
    }

    /// An empty session.
    pub fn new() -> (r: Self)
        ensures
            r@ == Seq::<char>::empty(),
    {
        TypingBuffer { buffer: String::new() }
    }

    /// Clears the session (a new recording starts).
    pub fn reset_buffer(&mut self)
        ensures
            final(self)@ == Seq::<char>::empty(),
    {
        self.buffer = String::new();
    }

    /// The text typed so far.
    pub fn current_transcription(&self) -> (r: String)
        ensures
            r@ == self@,
    {
        self.buffer.clone()
    }

    /// Records `text` as typed and says what to send to the keystroke queue:
    /// exactly `text`, unless it is empty, in which case nothing is typed.
    pub fn append_and_type(&mut self, text: String) -> (queued: Option<String>)
        ensures
            text@.len() == 0 ==> final(self)@ == old(self)@ && queued is None,
            text@.len() > 0 ==> final(self)@ == old(self)@ + text@ && (queued matches Some(q)
                && q@ == text@),
    {
        if text.unicode_len() == 0 {
            return None;
        }
        self.buffer.append(text.as_str());
        Some(text)
    }

    /// Merges a final offline transcription after streaming already typed a
    /// prefix: an untouched session takes the whole text, a continued one
    /// only the new suffix; anything else is rejected. Returns what to type,
    /// or nothing when the offline text adds nothing.
    pub fn append_offline_suffix(&mut self, text: String) -> (r: (bool, Option<String>))
        ensures
            trim_spec(old(self)@).len() == 0 ==> r.0 && final(self)@ == if text@.len() == 0 {
                old(self)@
            } else {
                old(self)@ + text@
            },
            trim_spec(old(self)@).len() > 0 ==> {
                match suffix_spec(old(self)@, text@) {
                    Some(sfx) => r.0 && final(self)@ == old(self)@ + sfx && (r.1 matches Some(
                        q,
                    ) && q@ == sfx),
                    None => !r.0 && final(self)@ == old(self)@ && r.1 is None,
                }
            },
    {
        if crate::text::is_blank(self.buffer.as_str()) {
            let queued = self.append_and_type(text);
            return (true, queued);
        }
        let current = self.buffer.clone();
        match suffix_after_prefix(current.as_str(), text.as_str()) {
            Some(suffix) => {
                let queued = self.append_and_type(suffix);
                proof {
                    assert(suffix_spec(old(self)@, text@) matches Some(s) ==> s.len() > 0);
                }
                (true, queued)
            },
            None => (false, None),
        }
    }

    /// Applies a streamed patch to the typing session: only stable, non-empty
    /// patches are typed, exactly as their text.
    pub fn apply_patch_for_typing(&mut self, patch: &TranscriptionPatch) -> (queued: Option<
        String,
    >)
        ensures
            (!patch@.stable || patch@.text.len() == 0) ==> final(self)@ == old(self)@ && queued
                is None,
            patch@.stable && patch@.text.len() > 0 ==> final(self)@ == old(self)@ + patch@.text
                && (queued matches Some(q) && q@ == patch@.text),
    {
        if !patch.stable || patch.text.unicode_len() == 0 {
            return None;
        }
        self.append_and_type(patch.text.clone())
    }
}

} // verus!
