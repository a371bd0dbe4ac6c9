//! Character and string helpers shared by the decoder and the streaming
//! pipeline: whitespace trimming, character slicing and case folding.

use vstd::prelude::*;
use vstd::string::StrSliceExecFns;

verus! {

/// Whether a character counts as white space, as `char::is_whitespace` decides it.
pub uninterp spec fn char_is_whitespace(c: char) -> bool;

/// Relies on `char::is_whitespace`: true exactly for the fixed Unicode
/// white-space character class, which contains the ASCII space and control
/// whitespace and no printable ASCII character.
#[verifier::external_body]
pub(crate) fn is_whitespace_char(c: char) -> (r: bool)
    ensures
        r == char_is_whitespace(c),
        c == ' ' || c == '\t' || c == '\n' || c == '\r' ==> r,
        33 <= c as u32 && c as u32 <= 126 ==> !r,
{
    c.is_whitespace()
}

/// Index of the first character that is not white space (the length if all are).
pub open spec fn first_non_ws(s: Seq<char>) -> int
    decreases s.len(),
{
    if s.len() == 0 {
        0
    } else if !char_is_whitespace(s[0]) {
        0
    } else {
        1 + first_non_ws(s.skip(1))
    }
}

/// One past the index of the last character that is not white space (0 if all are).
pub open spec fn end_non_ws(s: Seq<char>) -> int
    decreases s.len(),
{
    if s.len() == 0 {
        0
    } else if !char_is_whitespace(s[s.len() - 1]) {
        s.len() as int
    } else {
        end_non_ws(s.drop_last())
    }
}

/// Index of the first white-space character (the length if none is).
pub open spec fn first_ws(s: Seq<char>) -> int
    decreases s.len(),
{
    if s.len() == 0 {
        0
    } else if char_is_whitespace(s[0]) {
        0
    } else {
        1 + first_ws(s.skip(1))
    }
}

pub proof fn lemma_first_ws_is(s: Seq<char>, n: int)
    requires
        0 <= n <= s.len(),
        forall|j: int| 0 <= j < n ==> !char_is_whitespace(s[j]),
        n < s.len() ==> char_is_whitespace(s[n]),
    ensures
        first_ws(s) == n,
    decreases s.len(),
{
    if s.len() == 0 {
    } else if n == 0 {
    } else {
        assert(!char_is_whitespace(s[0]));
        assert forall|j: int| 0 <= j < n - 1 implies !char_is_whitespace(s.skip(1)[j]) by {
            assert(s.skip(1)[j] == s[j + 1]);
        }
        if n - 1 < s.skip(1).len() {
            assert(s.skip(1)[n - 1] == s[n]);
        }
        lemma_first_ws_is(s.skip(1), n - 1);
    }
}

pub open spec fn trim_start_spec(s: Seq<char>) -> Seq<char> {
    s.skip(first_non_ws(s))
}

pub open spec fn trim_end_spec(s: Seq<char>) -> Seq<char> {
    s.take(end_non_ws(s))
}

/// What `str::trim` leaves: the characters between the outermost non-white-space ones.
pub open spec fn trim_spec(s: Seq<char>) -> Seq<char> {
    trim_end_spec(trim_start_spec(s))
}

pub proof fn lemma_first_non_ws(s: Seq<char>)
    ensures
        0 <= first_non_ws(s) <= s.len(),
        forall|j: int| 0 <= j < first_non_ws(s) ==> char_is_whitespace(s[j]),
        first_non_ws(s) < s.len() ==> !char_is_whitespace(s[first_non_ws(s)]),
    decreases s.len(),
{
    if s.len() == 0 {
    } else if !char_is_whitespace(s[0]) {
    } else {
        lemma_first_non_ws(s.skip(1));
        assert forall|j: int| 0 <= j < first_non_ws(s) implies char_is_whitespace(s[j]) by {
            if j > 0 {
                assert(s.skip(1)[j - 1] == s[j]);
            }
        }
        if first_non_ws(s) < s.len() {
            assert(s.skip(1)[first_non_ws(s) - 1] == s[first_non_ws(s)]);
        }
    }
}

pub proof fn lemma_first_non_ws_is(s: Seq<char>, n: int)
    requires
        0 <= n <= s.len(),
        forall|j: int| 0 <= j < n ==> char_is_whitespace(s[j]),
        n < s.len() ==> !char_is_whitespace(s[n]),
    ensures
        first_non_ws(s) == n,
    decreases s.len(),
{
    if s.len() == 0 {
    } else if n == 0 {
        if first_non_ws(s) != 0 {
            lemma_first_non_ws(s);
        }
    } else {
        assert(char_is_whitespace(s[0]));
        assert forall|j: int| 0 <= j < n - 1 implies char_is_whitespace(s.skip(1)[j]) by {
            assert(s.skip(1)[j] == s[j + 1]);
        }
        if n - 1 < s.skip(1).len() {
            assert(s.skip(1)[n - 1] == s[n]);
        }
        lemma_first_non_ws_is(s.skip(1), n - 1);
    }
}

pub proof fn lemma_end_non_ws(s: Seq<char>)
    ensures
        0 <= end_non_ws(s) <= s.len(),
        forall|j: int| end_non_ws(s) <= j < s.len() ==> char_is_whitespace(s[j]),
        end_non_ws(s) > 0 ==> !char_is_whitespace(s[end_non_ws(s) - 1]),
    decreases s.len(),
{
    if s.len() == 0 {
    } else if !char_is_whitespace(s[s.len() - 1]) {
    } else {
        lemma_end_non_ws(s.drop_last());
        assert forall|j: int| end_non_ws(s) <= j < s.len() implies char_is_whitespace(s[j]) by {
            if j < s.len() - 1 {
                assert(s.drop_last()[j] == s[j]);
            }
        }
        if end_non_ws(s) > 0 {
            assert(s.drop_last()[end_non_ws(s) - 1] == s[end_non_ws(s) - 1]);
        }
    }
}

pub proof fn lemma_end_non_ws_is(s: Seq<char>, n: int)
    requires
        0 <= n <= s.len(),
        forall|j: int| n <= j < s.len() ==> char_is_whitespace(s[j]),
        n > 0 ==> !char_is_whitespace(s[n - 1]),
    ensures
        end_non_ws(s) == n,
    decreases s.len(),
{
    if s.len() == 0 {
    } else if n == s.len() {
        if end_non_ws(s) != s.len() {
            lemma_end_non_ws(s);
        }
    } else {
        assert(char_is_whitespace(s[s.len() - 1]));
        assert forall|j: int| n <= j < s.drop_last().len() implies char_is_whitespace(
            s.drop_last()[j],
        ) by {
            assert(s.drop_last()[j] == s[j]);
        }
        if n > 0 {
            assert(s.drop_last()[n - 1] == s[n - 1]);
        }
        lemma_end_non_ws_is(s.drop_last(), n);
    }
}

/// White space stripped from both ends, as `str::trim` does.
pub fn trim_str(s: &str) -> (r: &str)
    ensures
        r@ == trim_spec(s@),
{
    let len = s.unicode_len();
    let mut start: usize = 0;
    while start < len && is_whitespace_char(s.get_char(start))
        invariant
            len == s@.len(),
            0 <= start <= len,
            forall|j: int| 0 <= j < start ==> char_is_whitespace(s@[j]),
        decreases len - start,
    {
        start = start + 1;
    }
    proof {
        lemma_first_non_ws_is(s@, start as int);
    }
    let mut end: usize = len;
    while end > start && is_whitespace_char(s.get_char(end - 1))
        invariant
            len == s@.len(),
            start <= end <= len,
            forall|j: int| end <= j < len ==> char_is_whitespace(s@[j]),
        decreases end,
    {
        end = end - 1;
    }
    let r = s.substring_char(start, end);
    proof {
        let t = s@.skip(start as int);
        assert forall|j: int| end - start <= j < t.len() implies char_is_whitespace(t[j]) by {
            assert(t[j] == s@[start + j]);
        }
        if end > start {
            assert(t[end - start - 1] == s@[end - 1]);
        }
        lemma_end_non_ws_is(t, end - start);
        assert(r@ =~= t.take(end - start));
    }
    r
}

/// White space stripped from the start only, as `str::trim_start` does.
pub fn trim_start_str(s: &str) -> (r: &str)
    ensures
        r@ == trim_start_spec(s@),
{
    let len = s.unicode_len();
    let mut start: usize = 0;
    while start < len && is_whitespace_char(s.get_char(start))
        invariant
            len == s@.len(),
            0 <= start <= len,
            forall|j: int| 0 <= j < start ==> char_is_whitespace(s@[j]),
        decreases len - start,
    {
        start = start + 1;
    }
    proof {
        lemma_first_non_ws_is(s@, start as int);
    }
    let r = s.substring_char(start, len);
    proof {
        assert(r@ =~= s@.skip(start as int));
    }
    r
}

/// White space stripped from the end only, as `str::trim_end` does.
pub fn trim_end_str(s: &str) -> (r: &str)
    ensures
        r@ == trim_end_spec(s@),
{
    let len = s.unicode_len();
    let mut end: usize = len;
    while end > 0 && is_whitespace_char(s.get_char(end - 1))
        invariant
            len == s@.len(),
            0 <= end <= len,
            forall|j: int| end <= j < len ==> char_is_whitespace(s@[j]),
        decreases end,
    {
        end = end - 1;
    }
    proof {
        lemma_end_non_ws_is(s@, end as int);
    }
    let r = s.substring_char(0, end);
    proof {
        assert(r@ =~= s@.take(end as int));
    }
    r
}

/// Whether the string is empty or all white space (what trimming would erase).
pub fn is_blank(s: &str) -> (r: bool)
    ensures
        r == (trim_spec(s@).len() == 0),
{
    let len = s.unicode_len();
    let mut i: usize = 0;
    while i < len && is_whitespace_char(s.get_char(i))
        invariant
            len == s@.len(),
            0 <= i <= len,
            forall|j: int| 0 <= j < i ==> char_is_whitespace(s@[j]),
        decreases len - i,
    {
        i = i + 1;
    }
    proof {
        lemma_first_non_ws_is(s@, i as int);
        if i < len {
            let t = s@.skip(i as int);
            assert(t[0] == s@[i as int]);
            lemma_end_non_ws(t);
            if end_non_ws(t) == 0 {
                assert(char_is_whitespace(t[0]));
            }
        } else {
            assert(trim_start_spec(s@).len() == 0);
        }
    }
    i == len
}

/// Whether the first character is an ASCII space.
pub fn starts_with_space(s: &str) -> (r: bool)
    ensures
        r == (s@.len() > 0 && s@[0] == ' '),
{
    if s.unicode_len() == 0 {
        false
    } else {
        s.get_char(0) == ' '
    }
}

/// The characters of `text` from position `start` up to (exclusive) `end`,
/// with both bounds clamped to the text's length.
pub open spec fn slice_chars_spec(text: Seq<char>, start: int, end: int) -> Seq<char> {
    if start >= text.len() || start >= end {
        Seq::empty()
    } else if end <= text.len() {
        text.subrange(start, end)
    } else {
        text.subrange(start, text.len() as int)
    }
}

/// Character-indexed substring with clamping, used to splice transcription patches.
pub fn slice_chars(text: &str, start: usize, end: usize) -> (r: String)
    ensures
        r@ == slice_chars_spec(text@, start as int, end as int),
{
    let total = text.unicode_len();
    if start >= total || start >= end {
        return String::new();
    }
    let clamped_end = if end < total {
        end
    } else {
        total
    };
    let piece = text.substring_char(start, clamped_end);
    proof {
        assert(piece@ =~= slice_chars_spec(text@, start as int, end as int));
    }
    piece.to_owned()
}

/// The case folding computed by `str::to_lowercase`, a fixed function of the characters.
pub uninterp spec fn lower_of(s: Seq<char>) -> Seq<char>;

/// Relies on `str::to_lowercase`: the result depends on the characters alone,
/// and an empty string stays empty.
#[verifier::external_body]
pub(crate) fn lowercase_str(s: &str) -> (r: String)
    ensures
        r@ == lower_of(s@),
        s@.len() == 0 ==> r@.len() == 0,
{
    s.to_lowercase()
}

} // verus!
