//! Vocabulary lookups and final-text assembly: token ids become token
//! strings, the space marker becomes an ASCII space, and edge and
//! word-boundary white space is collapsed by the post-processing pattern.

use vstd::prelude::*;
use vstd::string::StrSliceExecFns;
use vstd::string::StringExecFns;

use crate::text::{char_is_whitespace, first_non_ws, first_ws, is_whitespace_char};

verus! {

/// The subword marker that vocabularies use for a leading space.
pub const SPACE_MARKER: char = '\u{2581}';

/// Relies on `String::push`: appends exactly the one character.
#[verifier::external_body]
fn push_char(s: &mut String, c: char)
    ensures
        final(s)@ == old(s)@.push(c),
{
    s.push(c);
}

/// `s` with every space marker replaced by an ASCII space.
pub open spec fn replace_marker_spec(s: Seq<char>) -> Seq<char> {
    s.map_values(
        |c: char|
            if c == SPACE_MARKER {
                ' '
            } else {
                c
            },
    )
}

/// Replaces each space marker with an ASCII space.
pub fn replace_space_marker(s: &str) -> (r: String)
    ensures
        r@ == replace_marker_spec(s@),
{
    let len = s.unicode_len();
    let mut r = String::new();
    let mut i: usize = 0;
    proof {
        assert(r@ =~= replace_marker_spec(s@.take(0)));
    }
    while i < len
        invariant
            0 <= i <= len == s@.len(),
            r@ == replace_marker_spec(s@.take(i as int)),
        decreases len - i,
    {
        let c = s.get_char(i);
        if c == SPACE_MARKER {
            push_char(&mut r, ' ');
        } else {
            push_char(&mut r, c);
        }
        proof {
            assert(r@ =~= replace_marker_spec(s@.take(i + 1)));
        }
        i = i + 1;
    }
    proof {
        assert(s@.take(len as int) =~= s@);
    }
    r
}

/// Whether the pattern compiles as a regular expression.
pub uninterp spec fn regex_valid(pattern: Seq<char>) -> bool;

/// What replacing every match of `pattern` in `text` leaves, when each match
/// of the pattern's first capture group is replaced by a single space and
/// every other match is deleted — a fixed function of the two strings.
pub uninterp spec fn regex_collapse(pattern: Seq<char>, text: Seq<char>) -> Seq<char>;

/// Relies on `regex::Regex::new` and `regex::Regex::replace_all`: compiling
/// succeeds exactly when the pattern is a valid expression, and the
/// replacement — first capture group to a space, other matches deleted —
/// depends on the pattern and the text alone.
#[verifier::external_body]
fn regex_collapse_exec(pattern: &str, text: &str) -> (r: Option<String>)
    ensures
        (r is Some) == regex_valid(pattern@),
        r matches Some(s) ==> s@ == regex_collapse(pattern@, text@),
{
    match regex::Regex::new(pattern) {
        Ok(re) => Some(
            re.replace_all(text, |caps: &regex::Captures| {
                if caps.get(1).is_some() {
                    " "
                } else {
                    ""
                }
            }).into_owned(),
        ),
        Err(_) => None,
    }
}

/// The pattern that strips leading white space, deletes white space not at a
/// word boundary, and collapses word-boundary white space to single spaces.
pub open spec fn decode_pattern() -> Seq<char> {
    "\\A\\s|\\s\\B|(\\s)\\b"@
}

/// The token strings a sequence of ids selects from the vocabulary; ids
/// outside the vocabulary are dropped.
pub open spec fn tokens_of_ids(vocab: Seq<Seq<char>>, ids: Seq<i32>) -> Seq<Seq<char>>
    decreases ids.len(),
{
    if ids.len() == 0 {
        Seq::empty()
    } else {
        let front = tokens_of_ids(vocab, ids.drop_last());
        if 0 <= ids.last() < vocab.len() {
            front.push(vocab[ids.last() as int])
        } else {
            front
        }
    }
}

/// All the texts concatenated in order.
pub open spec fn concat_all(ts: Seq<Seq<char>>) -> Seq<char>
    decreases ts.len(),
{
    if ts.len() == 0 {
        Seq::empty()
    } else {
        concat_all(ts.drop_last()) + ts.last()
    }
}

/// A final transcript in frame units: the collapsed text, the per-token
/// frame indices, and the raw token strings.
#[derive(Debug)]
pub struct FrameTranscript {
    pub text: String,
    pub frames: Vec<usize>,
    pub tokens: Vec<String>,
}

/// Turns decoded token ids into the final transcript: each valid id maps to
/// its vocabulary string, the strings are joined, and the joined text has
/// its edge and word-boundary white space collapsed by the post-processing
/// pattern (or is kept as joined if that pattern were ever rejected).
pub fn decode_tokens(vocab: &Vec<String>, ids: &Vec<i32>, timestamps: &Vec<usize>) -> (r:
    FrameTranscript)
    ensures
        ({
            let vv = vocab@.map_values(|s: String| s@);
            let toks = tokens_of_ids(vv, ids@);
            &&& r.tokens@.map_values(|s: String| s@) == toks
            &&& r.frames@ == timestamps@
            &&& r.text@ == if regex_valid(decode_pattern()) {
                regex_collapse(decode_pattern(), concat_all(toks))
            } else {
                concat_all(toks)
            }
        }),
{
    let ghost vv = vocab@.map_values(|s: String| s@);
    let mut tokens: Vec<String> = Vec::new();
    let mut joined = String::new();
    let mut i: usize = 0;
    proof {
        assert(ids@.take(0) =~= Seq::<i32>::empty());
        assert(tokens@.map_values(|s: String| s@) =~= tokens_of_ids(vv, ids@.take(0)));
        assert(joined@ =~= concat_all(tokens_of_ids(vv, ids@.take(0))));
    }
    while i < ids.len()
        invariant
            0 <= i <= ids@.len(),
            vv == vocab@.map_values(|s: String| s@),
            tokens@.map_values(|s: String| s@) == tokens_of_ids(vv, ids@.take(i as int)),
            joined@ == concat_all(tokens_of_ids(vv, ids@.take(i as int))),
        decreases ids@.len() - i,
    {
        let ghost t0 = tokens@.map_values(|s: String| s@);
        let id = ids[i];
        proof {
            assert(ids@.take(i + 1).drop_last() =~= ids@.take(i as int));
            assert(ids@.take(i + 1).last() == ids@[i as int]);
        }
        if id >= 0 && (id as usize) < vocab.len() {
            let token = vocab[id as usize].clone();
            joined.append(token.as_str());
            tokens.push(token);
            proof {
                assert(tokens@.map_values(|s: String| s@) =~= t0.push(vv[id as int]));
                assert(tokens_of_ids(vv, ids@.take(i + 1)).drop_last() =~= t0);
            }
        }
        i = i + 1;
    }
    proof {
        assert(ids@.take(ids@.len() as int) =~= ids@);
    }
    let text = match regex_collapse_exec("\\A\\s|\\s\\B|(\\s)\\b", joined.as_str()) {
        Some(t) => t,
        None => joined,
    };
    let mut frames: Vec<usize> = Vec::new();
    let mut j: usize = 0;
    proof {
        assert(frames@ =~= timestamps@.take(0));
    }
    while j < timestamps.len()
        invariant
            0 <= j <= timestamps@.len(),
            frames@ == timestamps@.take(j as int),
        decreases timestamps@.len() - j,
    {
        frames.push(timestamps[j]);
        proof {
            assert(frames@ =~= timestamps@.take(j + 1));
        }
        j = j + 1;
    }
    proof {
        assert(timestamps@.take(timestamps@.len() as int) =~= timestamps@);
    }
    FrameTranscript { text, frames, tokens }
}

/// Ids above this bound are treated as malformed, which keeps the
/// vocabulary array within memory and the blank id within `i32`.
pub const MAX_VOCAB_ID: usize = 0xFF_FFFF;

/// Index of the first line break (the length if none is).
pub open spec fn first_nl(s: Seq<char>) -> int
    decreases s.len(),
{
    if s.len() == 0 {
        0
    } else if s[0] == '\n' {
        0
    } else {
        1 + first_nl(s.skip(1))
    }
}

proof fn lemma_first_nl(s: Seq<char>)
    ensures
        0 <= first_nl(s) <= s.len(),
        forall|j: int| 0 <= j < first_nl(s) ==> s[j] != '\n',
        first_nl(s) < s.len() ==> s[first_nl(s)] == '\n',
    decreases s.len(),
{
    if s.len() == 0 {
    } else if s[0] == '\n' {
    } else {
        lemma_first_nl(s.skip(1));
        assert forall|j: int| 0 <= j < first_nl(s) implies s[j] != '\n' by {
            if j > 0 {
                assert(s.skip(1)[j - 1] == s[j]);
            }
        }
        if first_nl(s) < s.len() {
            assert(s.skip(1)[first_nl(s) - 1] == s[first_nl(s)]);
        }
    }
}

proof fn lemma_first_nl_is(s: Seq<char>, n: int)
    requires
        0 <= n <= s.len(),
        forall|j: int| 0 <= j < n ==> s[j] != '\n',
        n < s.len() ==> s[n] == '\n',
    ensures
        first_nl(s) == n,
    decreases s.len(),
{
    if s.len() == 0 {
    } else if n == 0 {
        if first_nl(s) != 0 {
            lemma_first_nl(s);
        }
    } else {
        assert forall|j: int| 0 <= j < n - 1 implies s.skip(1)[j] != '\n' by {
            assert(s.skip(1)[j] == s[j + 1]);
        }
        if n - 1 < s.skip(1).len() {
            assert(s.skip(1)[n - 1] == s[n]);
        }
        lemma_first_nl_is(s.skip(1), n - 1);
    }
}

/// A line with any trailing carriage return removed.
pub open spec fn strip_cr(s: Seq<char>) -> Seq<char> {
    if s.len() > 0 && s.last() == '\r' {
        s.drop_last()
    } else {
        s
    }
}

/// The lines of a text, as `str::lines` yields them: split on line feeds,
/// trailing carriage returns stripped, and no empty final line after a
/// trailing line feed.
pub open spec fn split_lines_spec(s: Seq<char>) -> Seq<Seq<char>>
    decreases s.len(),
    via split_lines_decreases
{
    if s.len() == 0 {
        Seq::empty()
    } else {
        let i = first_nl(s);
        if i == s.len() {
            seq![strip_cr(s)]
        } else {
            seq![strip_cr(s.take(i))] + split_lines_spec(s.skip(i + 1))
        }
    }
}

#[via_fn]
proof fn split_lines_decreases(s: Seq<char>) {
    lemma_first_nl(s);
}

/// Splits a text into lines: line feeds separate, trailing carriage returns
/// are stripped, and a trailing line feed does not open an empty final line.
pub fn split_lines(content: &str) -> (r: Vec<String>)
    ensures
        r@.map_values(|s: String| s@) == split_lines_spec(content@),
{
    let len = content.unicode_len();
    let mut r: Vec<String> = Vec::new();
    let mut pos: usize = 0;
    proof {
        assert(r@.map_values(|s: String| s@) =~= Seq::<Seq<char>>::empty());
        assert(content@.skip(0) =~= content@);
        assert(Seq::<Seq<char>>::empty() + split_lines_spec(content@) =~= split_lines_spec(
            content@,
        ));
    }
    while pos < len
        invariant
            0 <= pos <= len == content@.len(),
            r@.map_values(|s: String| s@) + split_lines_spec(content@.skip(pos as int))
                == split_lines_spec(content@),
        decreases len - pos,
    {
        let ghost rest = content@.skip(pos as int);
        let ghost r0 = r@.map_values(|s: String| s@);
        let mut k: usize = pos;
        while k < len && content.get_char(k) != '\n'
            invariant
                pos <= k <= len == content@.len(),
                forall|j: int| pos <= j < k ==> content@[j] != '\n',
            decreases len - k,
        {
            k = k + 1;
        }
        proof {
            assert forall|j: int| 0 <= j < k - pos implies rest[j] != '\n' by {
                assert(rest[j] == content@[pos + j]);
            }
            if (k as int) - (pos as int) < rest.len() {
                assert(rest[k - pos] == content@[k as int]);
            }
            lemma_first_nl_is(rest, k - pos);
        }
        let line_end = if k > pos && content.get_char(k - 1) == '\r' {
            k - 1
        } else {
            k
        };
        let line = content.substring_char(pos, line_end);
        proof {
            assert(rest.take(k - pos) =~= content@.subrange(pos as int, k as int));
            if k == len {
                assert(rest.take(k - pos) =~= rest);
                assert(line@ =~= strip_cr(rest));
            } else {
                assert(line@ =~= strip_cr(rest.take(k - pos)));
            }
        }
        r.push(line.to_owned());
        proof {
            if k == len {
                assert(r@.map_values(|s: String| s@) =~= r0.push(strip_cr(rest)));
                assert(r0.push(strip_cr(rest)) =~= r0 + seq![strip_cr(rest)]);
                assert(content@.skip(len as int) =~= Seq::<char>::empty());
                assert((r0 + seq![strip_cr(rest)]) + split_lines_spec(Seq::<char>::empty())
                    =~= r0 + seq![strip_cr(rest)]);
            } else {
                assert(r@.map_values(|s: String| s@) =~= r0.push(strip_cr(rest.take(k - pos))));
                assert(rest.skip(k - pos + 1) =~= content@.skip(k + 1));
                assert((r0 + seq![strip_cr(rest.take(k - pos))]) + split_lines_spec(
                    content@.skip(k + 1),
                ) =~= r0 + (seq![strip_cr(rest.take(k - pos))] + split_lines_spec(
                    content@.skip(k + 1),
                )));
            }
        }
        pos = if k < len {
            k + 1
        } else {
            len
        };
    }
    proof {
        assert(content@.skip(len as int) =~= Seq::<char>::empty());
        assert(r@.map_values(|s: String| s@) + Seq::<Seq<char>>::empty() =~= r@.map_values(
            |s: String| s@,
        ));
    }
    r
}

/// The first two white-space-delimited fields of a line, when it has two.
pub open spec fn line_fields(line: Seq<char>) -> Option<(Seq<char>, Seq<char>)> {
    let a = first_non_ws(line);
    if a == line.len() {
        None
    } else {
        let b = a + first_ws(line.skip(a));
        let c = b + first_non_ws(line.skip(b));
        if c == line.len() {
            None
        } else {
            let d = c + first_ws(line.skip(c));
            Some((line.subrange(a, b), line.subrange(c, d)))
        }
    }
}

/// Extracts the first two white-space-delimited fields of a line.
pub fn first_two_fields(line: &str) -> (r: Option<(String, String)>)
    ensures
        (r is Some) == (line_fields(line@) is Some),
        r matches Some(p) ==> line_fields(line@) == Some((p.0@, p.1@)),
{
    let len = line.unicode_len();
    let a = scan_non_ws(line, 0);
    proof {
        let t = line@.skip(0);
        assert(t =~= line@);
        crate::text::lemma_first_non_ws_is(line@, a as int);
    }
    if a == len {
        return None;
    }
    let b = scan_ws(line, a);
    proof {
        lemma_scan_ws(line@, a as int, b as int);
    }
    let c = scan_non_ws(line, b);
    proof {
        lemma_scan_non_ws(line@, b as int, c as int);
    }
    if c == len {
        return None;
    }
    let d = scan_ws(line, c);
    proof {
        lemma_scan_ws(line@, c as int, d as int);
    }
    let f1 = line.substring_char(a, b);
    let f2 = line.substring_char(c, d);
    Some((f1.to_owned(), f2.to_owned()))
}

/// First index at or after `from` whose character is not white space.
fn scan_non_ws(line: &str, from: usize) -> (r: usize)
    requires
        from <= line@.len(),
    ensures
        from <= r <= line@.len(),
        forall|j: int| from <= j < r ==> char_is_whitespace(line@[j]),
        r < line@.len() ==> !char_is_whitespace(line@[r as int]),
{
    let len = line.unicode_len();
    let mut i: usize = from;
    while i < len && is_whitespace_char(line.get_char(i))
        invariant
            from <= i <= len == line@.len(),
            forall|j: int| from <= j < i ==> char_is_whitespace(line@[j]),
        decreases len - i,
    {
        i = i + 1;
    }
    i
}

/// First index at or after `from` whose character is white space.
fn scan_ws(line: &str, from: usize) -> (r: usize)
    requires
        from <= line@.len(),
    ensures
        from <= r <= line@.len(),
        forall|j: int| from <= j < r ==> !char_is_whitespace(line@[j]),
        r < line@.len() ==> char_is_whitespace(line@[r as int]),
{
    let len = line.unicode_len();
    let mut i: usize = from;
    while i < len && !is_whitespace_char(line.get_char(i))
        invariant
            from <= i <= len == line@.len(),
            forall|j: int| from <= j < i ==> !char_is_whitespace(line@[j]),
        decreases len - i,
    {
        i = i + 1;
    }
    i
}

proof fn lemma_scan_ws(line: Seq<char>, from: int, r: int)
    requires
        0 <= from <= r <= line.len(),
        forall|j: int| from <= j < r ==> !char_is_whitespace(line[j]),
        r < line.len() ==> char_is_whitespace(line[r]),
    ensures
        first_ws(line.skip(from)) == r - from,
{
    let t = line.skip(from);
    assert forall|j: int| 0 <= j < r - from implies !char_is_whitespace(t[j]) by {
        assert(t[j] == line[from + j]);
    }
    if r - from < t.len() {
        assert(t[r - from] == line[r]);
    }
    crate::text::lemma_first_ws_is(t, r - from);
}

proof fn lemma_scan_non_ws(line: Seq<char>, from: int, r: int)
    requires
        0 <= from <= r <= line.len(),
        forall|j: int| from <= j < r ==> char_is_whitespace(line[j]),
        r < line.len() ==> !char_is_whitespace(line[r]),
    ensures
        first_non_ws(line.skip(from)) == r - from,
{
    let t = line.skip(from);
    assert forall|j: int| 0 <= j < r - from implies char_is_whitespace(t[j]) by {
        assert(t[j] == line[from + j]);
    }
    if r - from < t.len() {
        assert(t[r - from] == line[r]);
    }
    crate::text::lemma_first_non_ws_is(t, r - from);
}

/// Whether every character is an ASCII digit.
pub open spec fn all_digits(s: Seq<char>) -> bool {
    forall|i: int| 0 <= i < s.len() ==> 48 <= (#[trigger] s[i]) as u32 <= 57
}

/// The number an all-digit string denotes.
pub open spec fn digits_value(s: Seq<char>) -> int
    decreases s.len(),
{
    if s.len() == 0 {
        0
    } else {
        digits_value(s.drop_last()) * 10 + (s.last() as u32 - 48)
    }
}

proof fn lemma_digits_value_nonneg(s: Seq<char>)
    requires
        all_digits(s),
    ensures
        digits_value(s) >= 0,
    decreases s.len(),
{
    if s.len() > 0 {
        assert(all_digits(s.drop_last())) by {
            assert(forall|i: int|
                0 <= i < s.drop_last().len() ==> #[trigger] s.drop_last()[i] == s[i]);
        }
        lemma_digits_value_nonneg(s.drop_last());
    }
}

proof fn lemma_digits_prefix_bound(s: Seq<char>, i: int)
    requires
        all_digits(s),
        0 <= i <= s.len(),
    ensures
        digits_value(s) >= digits_value(s.take(i)),
    decreases s.len() - i,
{
    if i < s.len() {
        lemma_digits_prefix_bound(s, i + 1);
        assert(s.take(i + 1).drop_last() =~= s.take(i));
        assert(s.take(i + 1).last() == s[i]);
        assert(all_digits(s.take(i))) by {
            assert(forall|j: int| 0 <= j < i ==> #[trigger] s.take(i)[j] == s[j]);
        }
        lemma_digits_value_nonneg(s.take(i));
        assert(digits_value(s.take(i + 1)) >= digits_value(s.take(i)));
    } else {
        assert(s.take(i) =~= s);
    }
}

/// Parses a decimal number: every character must be a digit, at least one
/// must be present, and the value must fit the machine word.
pub fn parse_usize(s: &str) -> (r: Option<usize>)
    ensures
        (r is Some) == (s@.len() > 0 && all_digits(s@) && digits_value(s@) <= usize::MAX),
        r matches Some(v) ==> v as int == digits_value(s@),
{
    let len = s.unicode_len();
    if len == 0 {
        return None;
    }
    let mut value: usize = 0;
    let mut i: usize = 0;
    proof {
        assert(s@.take(0) =~= Seq::<char>::empty());
    }
    while i < len
        invariant
            0 <= i <= len == s@.len(),
            all_digits(s@.take(i as int)),
            value as int == digits_value(s@.take(i as int)),
        decreases len - i,
    {
        let c = s.get_char(i);
        let code = c as u32;
        proof {
            assert(s@.take(i + 1).drop_last() =~= s@.take(i as int));
            assert(s@.take(i + 1).last() == s@[i as int]);
        }
        if code < 48 || code > 57 {
            proof {
                assert(!all_digits(s@));
            }
            return None;
        }
        let digit = (code - 48) as usize;
        if value > (usize::MAX - digit) / 10 {
            proof {
                assert(forall|j: int|
                    0 <= j < i + 1 ==> 48 <= (#[trigger] s@.take(i + 1)[j]) as u32 <= 57);
                assert(digits_value(s@.take(i + 1)) > usize::MAX);
                if all_digits(s@) {
                    lemma_digits_prefix_bound(s@, i + 1);
                }
            }
            return None;
        }
        value = value * 10 + digit;
        proof {
            assert(forall|j: int|
                0 <= j < i + 1 ==> 48 <= (#[trigger] s@.take(i + 1)[j]) as u32 <= 57);
        }
        i = i + 1;
    }
    proof {
        assert(s@.take(len as int) =~= s@);
    }
    Some(value)
}

/// The entry a vocabulary line contributes: its token text and id, when the
/// line has at least two fields and the second is a numeric id within bounds.
pub open spec fn entry_of_line(line: Seq<char>) -> Option<(Seq<char>, int)> {
    match line_fields(line) {
        Some(f) => {
            if f.1.len() > 0 && all_digits(f.1) && digits_value(f.1) <= MAX_VOCAB_ID as int {
                Some((f.0, digits_value(f.1)))
            } else {
                None
            }
        },
        None => None,
    }
}

/// All entries of a vocabulary file, in order; malformed lines are skipped.
pub open spec fn entries_of(lines: Seq<Seq<char>>) -> Seq<(Seq<char>, int)>
    decreases lines.len(),
{
    if lines.len() == 0 {
        Seq::empty()
    } else {
        let front = entries_of(lines.drop_last());
        match entry_of_line(lines.last()) {
            Some(e) => front.push(e),
            None => front,
        }
    }
}

/// The id of the last `<blk>` entry, if one exists.
pub open spec fn blank_of(entries: Seq<(Seq<char>, int)>) -> Option<int>
    decreases entries.len(),
{
    if entries.len() == 0 {
        None
    } else if entries.last().0 == "<blk>"@ {
        Some(entries.last().1)
    } else {
        blank_of(entries.drop_last())
    }
}

/// The largest id among the entries (zero when there are none).
pub open spec fn max_id(entries: Seq<(Seq<char>, int)>) -> int
    decreases entries.len(),
{
    if entries.len() == 0 {
        0
    } else {
        let front = max_id(entries.drop_last());
        if entries.last().1 > front {
            entries.last().1
        } else {
            front
        }
    }
}

/// The token string slot `k` of the vocabulary array ends up holding: the
/// last entry with id `k`, space markers normalized, or the empty string.
pub open spec fn slot_of(entries: Seq<(Seq<char>, int)>, k: int) -> Seq<char>
    decreases entries.len(),
{
    if entries.len() == 0 {
        Seq::empty()
    } else if entries.last().1 == k {
        replace_marker_spec(entries.last().0)
    } else {
        slot_of(entries.drop_last(), k)
    }
}

/// Parses a vocabulary file: each usable line holds a token and a numeric
/// id; the array is sized to the largest id plus one, with unnamed slots
/// left empty, space markers normalized and the `<blk>` token's id returned
/// as the blank index. A vocabulary without `<blk>` is rejected.
pub fn parse_vocab(content: &str) -> (r: Result<(Vec<String>, i32), crate::errors::AsrError>)
    ensures
        ({
            let es = entries_of(split_lines_spec(content@));
            match r {
                Ok(p) => {
                    &&& blank_of(es) == Some(p.1 as int)
                    &&& p.0@.len() == max_id(es) + 1
                    &&& forall|k: int|
                        0 <= k < p.0@.len() ==> (#[trigger] p.0@[k])@ == slot_of(es, k)
                },
                Err(e) => blank_of(es) is None && e is Io,
            }
        }),
{
    let lines = split_lines(content);
    let ghost lv = lines@.map_values(|s: String| s@);
    let blk = String::from_str("<blk>");
    proof {
        reveal_strlit("<blk>");
    }
    let mut entries: Vec<(String, usize)> = Vec::new();
    let mut blank_idx: Option<usize> = None;
    let mut max_seen: usize = 0;
    let mut i: usize = 0;
    proof {
        assert(lv.take(0) =~= Seq::<Seq<char>>::empty());
        assert(eview(entries@) =~= entries_of(lv.take(0)));
    }
    while i < lines.len()
        invariant
            0 <= i <= lines@.len(),
            lv == lines@.map_values(|s: String| s@),
            blk@ == "<blk>"@,
            eview(entries@) == entries_of(lv.take(i as int)),
            forall|j: int| 0 <= j < entries@.len() ==> (#[trigger] entries@[j]).1 <= MAX_VOCAB_ID,
            match blank_idx {
                Some(b) => blank_of(entries_of(lv.take(i as int))) == Some(b as int) && b
                    <= MAX_VOCAB_ID,
                None => blank_of(entries_of(lv.take(i as int))) is None,
            },
            max_seen as int == max_id(entries_of(lv.take(i as int))),
            max_seen <= MAX_VOCAB_ID,
        decreases lines@.len() - i,
    {
        let ghost e0 = eview(entries@);
        proof {
            assert(lv.take(i + 1).drop_last() =~= lv.take(i as int));
            assert(lv.take(i + 1).last() == lv[i as int]);
            assert(lines@[i as int]@ == lv[i as int]);
        }
        if let Some((token, id_text)) = first_two_fields(lines[i].as_str()) {
            if let Some(id) = parse_usize(id_text.as_str()) {
                if id <= MAX_VOCAB_ID {
                    let ghost tv = token@;
                    proof {
                        assert(entry_of_line(lv[i as int]) == Some((tv, id as int)));
                    }
                    if token.eq(&blk) {
                        blank_idx = Some(id);
                    }
                    if id > max_seen {
                        max_seen = id;
                    }
                    entries.push((token, id));
                    proof {
                        assert(eview(entries@) =~= e0.push((tv, id as int)));
                        assert(e0.push((tv, id as int)).drop_last() =~= e0);
                        assert(e0.push((tv, id as int)).last() == (tv, id as int));
                    }
                } else {
                    proof {
                        assert(entry_of_line(lv[i as int]) is None);
                        assert(eview(entries@) =~= e0);
                    }
                }
            } else {
                proof {
                    assert(entry_of_line(lv[i as int]) is None);
                    assert(eview(entries@) =~= e0);
                }
            }
        } else {
            proof {
                assert(entry_of_line(lv[i as int]) is None);
                assert(eview(entries@) =~= e0);
            }
        }
        i = i + 1;
    }
    proof {
        assert(lv.take(lv.len() as int) =~= lv);
    }
    let ghost es = entries_of(lv);
    let blank = match blank_idx {
        Some(b) => b,
        None => {
            return Err(
                crate::errors::AsrError::Io(
                    String::from_str("Missing <blk> token in vocabulary"),
                ),
            );
        },
    };
    let n = max_seen + 1;
    let mut vocab: Vec<String> = Vec::new();
    let mut k: usize = 0;
    while k < n
        invariant
            0 <= k <= n,
            vocab@.len() == k,
            forall|x: int| 0 <= x < k ==> (#[trigger] vocab@[x])@ == Seq::<char>::empty(),
        decreases n - k,
    {
        vocab.push(String::new());
        k = k + 1;
    }
    proof {
        assert(forall|x: int|
            0 <= x < vocab@.len() ==> (#[trigger] vocab@[x])@ == slot_of(es.take(0), x));
    }
    let mut j: usize = 0;
    while j < entries.len()
        invariant
            0 <= j <= entries@.len(),
            es == entries_of(lv),
            eview(entries@) == es,
            vocab@.len() == n == max_seen + 1,
            max_seen as int == max_id(es),
            forall|x: int| 0 <= x < entries@.len() ==> (#[trigger] entries@[x]).1 <= MAX_VOCAB_ID,
            forall|x: int|
                0 <= x < vocab@.len() ==> (#[trigger] vocab@[x])@ == slot_of(
                    es.take(j as int),
                    x,
                ),
        decreases entries@.len() - j,
    {
        proof {
            assert(es.take(j + 1).drop_last() =~= es.take(j as int));
            assert(es.take(j + 1).last() == es[j as int]);
            assert(eview(entries@)[j as int] == (entries@[j as int].0@, entries@[j as int].1
                as int));
            lemma_max_id_bounds(es, j as int);
        }
        let (token, id) = (&entries[j].0, entries[j].1);
        let replaced = replace_space_marker(token.as_str());
        vocab[id] = replaced;
        proof {
            assert forall|x: int| 0 <= x < vocab@.len() implies (#[trigger] vocab@[x])@
                == slot_of(es.take(j + 1), x) by {
                if x != id as int {
                    assert(vocab@[x]@ == slot_of(es.take(j as int), x));
                }
            }
        }
        j = j + 1;
    }
    proof {
        assert(es.take(es.len() as int) =~= es);
        lemma_blank_le_max(es);
    }
    Ok((vocab, blank as i32))
}

/// Views of an entry list.
pub open spec fn eview(entries: Seq<(String, usize)>) -> Seq<(Seq<char>, int)> {
    entries.map_values(|e: (String, usize)| (e.0@, e.1 as int))
}

proof fn lemma_max_id_bounds(es: Seq<(Seq<char>, int)>, j: int)
    requires
        0 <= j < es.len(),
    ensures
        es[j].1 <= max_id(es),
    decreases es.len(),
{
    if j == es.len() - 1 {
        assert(es.last() == es[j]);
    } else {
        lemma_max_id_bounds(es.drop_last(), j);
        assert(es.drop_last()[j] == es[j]);
    }
}

proof fn lemma_blank_le_max(es: Seq<(Seq<char>, int)>)
    ensures
        blank_of(es) matches Some(b) ==> b <= max_id(es),
    decreases es.len(),
{
    if es.len() > 0 {
        lemma_blank_le_max(es.drop_last());
    }
}

} // verus!
