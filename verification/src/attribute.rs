//! The bracketed attributes behind a field's number.

use crate::descriptor::{lemma_empty_model, lemma_push_model, lemma_push_then_rest};
use crate::lexer::{
    agrees, breaks, char_at, rest, run_len, scan, skip_breaks, spec_char_at, ByteClass,
};
use crate::text::{
    is_text, spec_truth, text_at, trim, trimmed, truth, utf8_text, word, word_at, word_len,
};
use vstd::prelude::*;

verus! {

/// One attribute at `pos`: `[`, a key, `=`, a value and `]`, with word breaks
/// allowed after each but the value. The value is every byte up to the next
/// `]`, at least one; it must be well-formed UTF-8, and the white space around
/// it does not belong to it. Gives the key and the value.
pub open spec fn spec_key_val(s: Seq<u8>, pos: int) -> Option<((Seq<char>, Seq<char>), nat)> {
    let key_at = skip_breaks(s, pos + 1);
    let key_end = key_at + word_len(s, key_at);
    let eq_at = skip_breaks(s, key_end);
    let value_at = skip_breaks(s, eq_at + 1);
    let value_end = value_at + run_len(s, value_at, ByteClass::Value);
    if spec_char_at(s, pos, '[') && spec_char_at(s, eq_at, '=') && value_end > value_at
        && spec_char_at(s, value_end, ']') && is_text(s, value_at, value_end) {
        Some(
            (
                (word_at(s, key_at), trimmed(text_at(s, value_at, value_end))),
                (skip_breaks(s, value_end + 1) - pos) as nat,
            ),
        )
    } else {
        None
    }
}

/// Parses one attribute at `pos`.
pub fn key_val(input: &[u8], pos: usize) -> (r: Option<((String, String), usize)>)
    requires
        pos <= input.len(),
    ensures
        agrees(r, input@, pos, spec_key_val(input@, pos as int)),
{
    if !char_at(input, pos, '[') {
        return None;
    }
    let key_at: usize = breaks(input, pos + 1);
    let (key, key_end) = word(input, key_at);
    let eq_at: usize = breaks(input, key_end);
    if !char_at(input, eq_at, '=') {
        return None;
    }
    let value_at: usize = breaks(input, eq_at + 1);
    let value_end: usize = scan(input, value_at, ByteClass::Value);
    if value_end == value_at || !char_at(input, value_end, ']') {
        return None;
    }
    let raw = match utf8_text(input, value_at, value_end) {
        Some(raw) => raw,
        None => {
            return None;
        },
    };
    let value = trim(raw.as_str());
    let end: usize = breaks(input, value_end + 1);
    Some(((key, value), end))
}

/// The attributes that follow one another from `pos`, and their length.
#[verifier::opaque]
pub open spec fn spec_key_vals(s: Seq<u8>, pos: int) -> (Seq<(Seq<char>, Seq<char>)>, nat)
    decreases rest(s, pos),
{
    match spec_key_val(s, pos) {
        Some((first, n)) => {
            let (others, m) = spec_key_vals(s, pos + n);
            (seq![first] + others, n + m)
        },
        None => (Seq::empty(), 0),
    }
}

/// Parses the attributes that follow one another from `pos`.
pub fn key_vals(input: &[u8], pos: usize) -> (r: (Vec<(String, String)>, usize))
    requires
        pos <= input.len(),
    ensures
        r.0.deep_view() == spec_key_vals(input@, pos as int).0,
        r.1 == pos + spec_key_vals(input@, pos as int).1,
        r.1 <= input.len(),
{
    proof {
        reveal_with_fuel(spec_key_vals, 1);
    }
    let mut attrs: Vec<(String, String)> = Vec::new();
    let mut p: usize = pos;
    proof {
        lemma_empty_model(attrs);
    }
    loop
        invariant
            pos <= p <= input.len(),
            spec_key_vals(input@, pos as int).0 == attrs.deep_view() + spec_key_vals(
                input@,
                p as int,
            ).0,
            spec_key_vals(input@, pos as int).1 == (p - pos) + spec_key_vals(input@, p as int).1,
        ensures
            pos <= p <= input.len(),
            spec_key_vals(input@, pos as int).0 == attrs.deep_view(),
            spec_key_vals(input@, pos as int).1 == p - pos,
        decreases input.len() - p,
    {
        proof {
            reveal_with_fuel(spec_key_vals, 1);
        }
        match key_val(input, p) {
            Some((attr, end)) => {
                let ghost before = attrs;
                attrs.push(attr);
                proof {
                    lemma_push_model(before, attr, attrs);
                    lemma_push_then_rest(
                        before.deep_view(),
                        attr.deep_view(),
                        spec_key_vals(input@, end as int).0,
                    );
                }
                p = end;
            },
            None => {
                assert(attrs.deep_view() + Seq::empty() =~= attrs.deep_view());
                break ;
            },
        }
    }
    (attrs, p)
}

/// The value of the first attribute at or after index `from` whose key is
/// `key`.
pub open spec fn first_value(
    attrs: Seq<(Seq<char>, Seq<char>)>,
    key: Seq<char>,
    from: int,
) -> Option<Seq<char>>
    decreases attrs.len() - from,
{
    if from < 0 || from >= attrs.len() {
        None
    } else if attrs[from].0 == key {
        Some(attrs[from].1)
    } else {
        first_value(attrs, key, from + 1)
    }
}

/// Looks up the value of the first attribute whose key is `key`.
pub fn lookup(attrs: &Vec<(String, String)>, key: &str) -> (r: Option<String>)
    ensures
        r.deep_view() == first_value(attrs.deep_view(), key@, 0),
{
    let wanted = key.to_owned();
    let mut i: usize = 0;
    while i < attrs.len()
        invariant
            i <= attrs.len(),
            wanted@ == key@,
            first_value(attrs.deep_view(), key@, 0) == first_value(
                attrs.deep_view(),
                key@,
                i as int,
            ),
        decreases attrs.len() - i,
    {
        if attrs[i].0 == wanted {
            return Some(attrs[i].1.clone());
        }
        i += 1;
    }
    None
}

/// The truth value of the attribute `key`: `false` when no attribute has that
/// key, else what the first one's value writes, and `None` when that is
/// neither `true` nor `false`.
pub open spec fn spec_flag(attrs: Seq<(Seq<char>, Seq<char>)>, key: Seq<char>) -> Option<bool> {
    match first_value(attrs, key, 0) {
        Some(value) => spec_truth(value),
        None => Some(false),
    }
}

/// Reads the truth value of the attribute `key`.
pub fn flag(attrs: &Vec<(String, String)>, key: &str) -> (r: Option<bool>)
    ensures
        r == spec_flag(attrs.deep_view(), key@),
{
    match lookup(attrs, key) {
        Some(value) => truth(&value),
        None => Some(false),
    }
}

} // verus!
