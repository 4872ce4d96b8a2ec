//! Text: bytes of the input read as UTF-8, names, and trimming.

use crate::lexer::{in_class, lemma_run, run_len, scan, ByteClass};
use vstd::prelude::*;
use vstd::slice::{slice_subrange, slice_to_vec};
use vstd::string::*;
use vstd::utf8::*;

verus! {

/// The text that the bytes `from..to` of `s` encode in UTF-8.
pub open spec fn text_at(s: Seq<u8>, from: int, to: int) -> Seq<char> {
    decode_utf8(s.subrange(from, to))
}

/// Whether the bytes `from..to` of `s` are well-formed UTF-8.
pub open spec fn is_text(s: Seq<u8>, from: int, to: int) -> bool {
    valid_utf8(s.subrange(from, to))
}

/// Bytes below 128 are well-formed UTF-8, and each of them is one character.
pub proof fn lemma_ascii_text(bytes: Seq<u8>)
    requires
        forall|i: int| 0 <= i < bytes.len() ==> #[trigger] bytes[i] < 128,
    ensures
        valid_utf8(bytes),
        decode_utf8(bytes) == Seq::new(bytes.len(), |i: int| bytes[i] as char),
{
    let chars = Seq::new(bytes.len(), |i: int| bytes[i] as char);
    assert(is_ascii_chars(chars));
    is_ascii_chars_encode_utf8(chars);
    assert(encode_utf8(chars) =~= bytes);
    encode_utf8_valid_utf8(chars);
    encode_utf8_decode_utf8(chars);
}

/// `String::from_utf8`. It returns the string that the bytes encode when they
/// are well-formed UTF-8, and an error otherwise; the error is returned as
/// `None`.
#[verifier::external_body]
fn string_from_utf8(bytes: Vec<u8>) -> (r: Option<String>)
    ensures
        r is Some <==> valid_utf8(bytes@),
        r matches Some(text) ==> text@ == decode_utf8(bytes@),
{
    match String::from_utf8(bytes) {
        Ok(text) => Some(text),
        Err(_) => None,
    }
}

/// Reads the bytes `from..to` as UTF-8 text; `None` when they are not
/// well-formed.
pub fn utf8_text(input: &[u8], from: usize, to: usize) -> (r: Option<String>)
    requires
        from <= to <= input.len(),
    ensures
        r is Some <==> is_text(input@, from as int, to as int),
        r matches Some(text) ==> text@ == text_at(input@, from as int, to as int),
{
    string_from_utf8(slice_to_vec(slice_subrange(input, from, to)))
}

/// Length of the name at `pos`: the longest run of name bytes, which may be
/// empty.
pub open spec fn word_len(s: Seq<u8>, pos: int) -> nat {
    run_len(s, pos, ByteClass::Word)
}

/// The name at `pos`.
pub open spec fn word_at(s: Seq<u8>, pos: int) -> Seq<char> {
    text_at(s, pos, pos + word_len(s, pos))
}

/// A name is made of one-byte characters: its text is its bytes.
pub proof fn lemma_word_text(s: Seq<u8>, pos: int)
    requires
        0 <= pos <= s.len(),
    ensures
        is_text(s, pos, pos + word_len(s, pos)),
        word_at(s, pos) == Seq::new(word_len(s, pos), |i: int| s[pos + i] as char),
{
    lemma_run(s, pos, ByteClass::Word);
    let bytes = s.subrange(pos, pos + word_len(s, pos));
    assert forall|i: int| 0 <= i < bytes.len() implies #[trigger] bytes[i] < 128 by {
        assert(in_class(ByteClass::Word, s[pos + i]));
    }
    lemma_ascii_text(bytes);
    assert(decode_utf8(bytes) =~= Seq::new(word_len(s, pos), |i: int| s[pos + i] as char));
}

/// Reads the name at `pos`: returns it with the offset just past it. A name
/// may be empty, so this always succeeds.
pub fn word(input: &[u8], pos: usize) -> (r: (String, usize))
    requires
        pos <= input.len(),
    ensures
        r.0@ == word_at(input@, pos as int),
        r.1 == pos + word_len(input@, pos as int),
        r.1 <= input.len(),
{
    let end: usize = scan(input, pos, ByteClass::Word);
    proof {
        lemma_word_text(input@, pos as int);
    }
    match utf8_text(input, pos, end) {
        Some(name) => (name, end),
        None => (String::new(), end),
    }
}

/// Whether `c` is white space: what `char::is_whitespace` answers, which is
/// whether `c` has the Unicode property `White_Space`.
pub uninterp spec fn is_white_space(c: char) -> bool;

/// `char::is_whitespace`.
#[verifier::external_body]
fn char_is_whitespace(c: char) -> (r: bool)
    ensures
        r == is_white_space(c),
{
    c.is_whitespace()
}

/// Index of the first character of `t` at or after `i` that is no white
/// space; the length of `t` when there is none.
pub open spec fn trim_start(t: Seq<char>, i: int) -> int
    decreases t.len() - i,
{
    if 0 <= i < t.len() && is_white_space(t[i]) {
        trim_start(t, i + 1)
    } else {
        i
    }
}

/// Index just past the last character of `t` in `lo..j` that is no white
/// space; `lo` when there is none.
pub open spec fn trim_end(t: Seq<char>, lo: int, j: int) -> int
    decreases j,
{
    if 0 <= lo < j <= t.len() && is_white_space(t[j - 1]) {
        trim_end(t, lo, j - 1)
    } else {
        j
    }
}

/// `t` without the white space at its start and at its end.
pub open spec fn trimmed(t: Seq<char>) -> Seq<char> {
    let lo = trim_start(t, 0);
    t.subrange(lo, trim_end(t, lo, t.len() as int))
}

/// What is left of a trimmed text begins and ends with a character that is
/// no white space, and only white space was taken away.
pub proof fn lemma_trimmed(t: Seq<char>)
    ensures
        ({
            let lo = trim_start(t, 0);
            let hi = trim_end(t, lo, t.len() as int);
            &&& 0 <= lo <= hi <= t.len()
            &&& forall|i: int| 0 <= i < lo ==> is_white_space(#[trigger] t[i])
            &&& forall|i: int| hi <= i < t.len() ==> is_white_space(#[trigger] t[i])
            &&& lo < hi ==> !is_white_space(t[lo]) && !is_white_space(t[hi - 1])
        }),
{
    lemma_trim_start(t, 0);
    lemma_trim_end(t, trim_start(t, 0), t.len() as int);
}

proof fn lemma_trim_start(t: Seq<char>, i: int)
    requires
        0 <= i <= t.len(),
    ensures
        i <= trim_start(t, i) <= t.len(),
        forall|k: int| i <= k < trim_start(t, i) ==> is_white_space(#[trigger] t[k]),
        trim_start(t, i) < t.len() ==> !is_white_space(t[trim_start(t, i)]),
    decreases t.len() - i,
{
    if i < t.len() && is_white_space(t[i]) {
        lemma_trim_start(t, i + 1);
    }
}

proof fn lemma_trim_end(t: Seq<char>, lo: int, j: int)
    requires
        0 <= lo <= j <= t.len(),
    ensures
        lo <= trim_end(t, lo, j) <= j,
        forall|k: int| trim_end(t, lo, j) <= k < j ==> is_white_space(#[trigger] t[k]),
        lo < trim_end(t, lo, j) ==> !is_white_space(t[trim_end(t, lo, j) - 1]),
    decreases j,
{
    if lo < j && is_white_space(t[j - 1]) {
        lemma_trim_end(t, lo, j - 1);
    }
}

/// Removes the white space at the start and at the end of `text`.
pub fn trim(text: &str) -> (r: String)
    ensures
        r@ == trimmed(text@),
{
    let n: usize = text.unicode_len();
    let mut lo: usize = 0;
    while lo < n && char_is_whitespace(text.get_char(lo))
        invariant
            lo <= n,
            n == text@.len(),
            trim_start(text@, 0) == trim_start(text@, lo as int),
        decreases n - lo,
    {
        lo += 1;
    }
    let mut hi: usize = n;
    while hi > lo && char_is_whitespace(text.get_char(hi - 1))
        invariant
            lo <= hi <= n,
            n == text@.len(),
            trim_end(text@, lo as int, n as int) == trim_end(text@, lo as int, hi as int),
        decreases hi,
    {
        hi -= 1;
    }
    text.substring_char(lo, hi).to_owned()
}

/// The truth value that `t` writes: `true` or `false`, nothing else.
pub open spec fn spec_truth(t: Seq<char>) -> Option<bool> {
    if t == "true"@ {
        Some(true)
    } else if t == "false"@ {
        Some(false)
    } else {
        None
    }
}

/// Reads `text` as a truth value.
pub fn truth(text: &String) -> (r: Option<bool>)
    ensures
        r == spec_truth(text@),
{
    if *text == "true".to_owned() {
        Some(true)
    } else if *text == "false".to_owned() {
        Some(false)
    } else {
        None
    }
}

} // verus!
