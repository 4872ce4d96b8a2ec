//! Messages and what stands in their bodies: reserved numbers and names,
//! enums, oneofs, nested messages.

use crate::descriptor::{
    empty_message, lemma_empty_model, lemma_message_model, lemma_push_model,
    lemma_push_then_rest, EnumValue, EnumValueModel, Enumeration, EnumerationModel, Field,
    FieldModel, Message, MessageModel, OneOf, OneOfModel,
};
use crate::field::{fields_in_braces, message_field, spec_fields_in_braces, spec_message_field};
use crate::lexer::{
    agrees, br, br_len, breaks, breaks1, char_at, hex_integer, integer, rest, run_len, scan,
    skip_breaks, skip_breaks1, spec_char_at, spec_hex_integer, spec_integer, spec_tag, tag,
    ByteClass,
};
use crate::text::{word, word_at, word_len};
use std::ops::Range;
use vstd::prelude::*;

verus! {

/// `n + 1`, but `i32::MAX` where that would not fit.
pub open spec fn spec_next(n: i32) -> i32 {
    if n < i32::MAX {
        (n + 1) as i32
    } else {
        n
    }
}

/// The half-open range that holds the numbers `from` to `to`, both included.
pub fn inclusive(from: i32, to: i32) -> (r: Range<i32>)
    ensures
        r == (Range { start: from, end: spec_next(to) }),
{
    let end: i32 = if to < i32::MAX {
        to + 1
    } else {
        to
    };
    Range { start: from, end }
}

/// The range `A to B` at `pos`: two decimal literals with the word `to`
/// between them, and at least one word break on each side of it.
#[verifier::opaque]
pub open spec fn spec_num_range(s: Seq<u8>, pos: int) -> Option<(Range<i32>, nat)> {
    match spec_integer(s, pos) {
        Some((from, n)) => match skip_breaks1(s, pos + n) {
            Some(to_at) => match skip_breaks1(s, to_at + "to"@.len()) {
                Some(last_at) => match spec_integer(s, last_at) {
                    Some((to, m)) => if spec_tag(s, to_at, "to"@) {
                        Some((Range { start: from, end: spec_next(to) }, (last_at + m - pos) as nat))
                    } else {
                        None
                    },
                    None => None,
                },
                None => None,
            },
            None => None,
        },
        None => None,
    }
}

/// One item of a list of reserved numbers at `pos`: a range `A to B`, else a
/// single number `A`, which reserves `A` alone.
pub open spec fn spec_reserved_item(s: Seq<u8>, pos: int) -> Option<(Range<i32>, nat)> {
    if spec_num_range(s, pos) is Some {
        spec_num_range(s, pos)
    } else {
        match spec_integer(s, pos) {
            Some((number, n)) => Some((Range { start: number, end: spec_next(number) }, n)),
            None => None,
        }
    }
}

/// How the parser's result for a range says what the grammar gives.
pub open spec fn agrees_range(
    got: Option<(Range<i32>, usize)>,
    input: Seq<u8>,
    pos: usize,
    want: Option<(Range<i32>, nat)>,
) -> bool {
    match got {
        Some((range, end)) => want == Some((range, (end - pos) as nat)) && pos < end <= input.len(),
        None => want is None,
    }
}

/// Parses the range `A to B` at `pos`.
pub fn num_range(input: &[u8], pos: usize) -> (r: Option<(Range<i32>, usize)>)
    requires
        pos <= input.len(),
    ensures
        agrees_range(r, input@, pos, spec_num_range(input@, pos as int)),
{
    proof {
        reveal(spec_num_range);
        reveal(spec_integer);
    }
    let (from, from_end) = match integer(input, pos) {
        Some(found) => found,
        None => {
            return None;
        },
    };
    let to_at: usize = match breaks1(input, from_end) {
        Some(at) => at,
        None => {
            return None;
        },
    };
    let to_end: usize = match tag(input, to_at, "to") {
        Some(end) => end,
        None => {
            return None;
        },
    };
    let last_at: usize = match breaks1(input, to_end) {
        Some(at) => at,
        None => {
            return None;
        },
    };
    match integer(input, last_at) {
        Some((to, end)) => Some((inclusive(from, to), end)),
        None => None,
    }
}

/// Parses one item of a list of reserved numbers at `pos`.
pub fn reserved_item(input: &[u8], pos: usize) -> (r: Option<(Range<i32>, usize)>)
    requires
        pos <= input.len(),
    ensures
        agrees_range(r, input@, pos, spec_reserved_item(input@, pos as int)),
{
    proof {
        reveal(spec_integer);
    }
    match num_range(input, pos) {
        Some(found) => {
            return Some(found);
        },
        None => {},
    }
    match integer(input, pos) {
        Some((number, end)) => Some((inclusive(number, number), end)),
        None => None,
    }
}

/// The items from `pos` on, a comma between each two, with word breaks
/// allowed around the comma; none where no item stands at `pos`.
pub open spec fn spec_reserved_items(s: Seq<u8>, pos: int) -> (Seq<Range<i32>>, nat) {
    match spec_reserved_item(s, pos) {
        Some((first, n)) => {
            let (others, m) = spec_more_reserved(s, pos + n);
            (seq![first] + others, n + m)
        },
        None => (Seq::empty(), 0),
    }
}

/// The items that follow an item which ends at `pos`, each behind a comma. A
/// comma that no item follows is not taken.
pub open spec fn spec_more_reserved(s: Seq<u8>, pos: int) -> (Seq<Range<i32>>, nat)
    decreases rest(s, pos),
{
    let comma_at = skip_breaks(s, pos);
    let item_at = skip_breaks(s, comma_at + 1);
    if spec_char_at(s, comma_at, ',') {
        match spec_reserved_item(s, item_at) {
            Some((next, n)) => {
                let (others, m) = spec_more_reserved(s, item_at + n);
                (seq![next] + others, (item_at + n + m - pos) as nat)
            },
            None => (Seq::empty(), 0),
        }
    } else {
        (Seq::empty(), 0)
    }
}

/// Parses a list of reserved numbers from `pos` on.
pub fn reserved_items(input: &[u8], pos: usize) -> (r: (Vec<Range<i32>>, usize))
    requires
        pos <= input.len(),
    ensures
        r.0@ == spec_reserved_items(input@, pos as int).0,
        r.1 == pos + spec_reserved_items(input@, pos as int).1,
        r.1 <= input.len(),
{
    let mut items: Vec<Range<i32>> = Vec::new();
    let mut p: usize = match reserved_item(input, pos) {
        Some((first, end)) => {
            items.push(first);
            assert(items@ =~= seq![first]);
            end
        },
        None => {
            assert(items@ =~= Seq::empty());
            return (items, pos);
        },
    };
    let ghost first_end = p;
    loop
        invariant
            pos <= first_end <= p <= input.len(),
            spec_reserved_items(input@, pos as int).0 == items@ + spec_more_reserved(
                input@,
                p as int,
            ).0,
            spec_reserved_items(input@, pos as int).1 == (p - pos) + spec_more_reserved(
                input@,
                p as int,
            ).1,
        ensures
            pos <= p <= input.len(),
            spec_reserved_items(input@, pos as int).0 == items@,
            spec_reserved_items(input@, pos as int).1 == p - pos,
        decreases input.len() - p,
    {
        let comma_at: usize = breaks(input, p);
        if !char_at(input, comma_at, ',') {
            assert(items@ + Seq::empty() =~= items@);
            break ;
        }
        let item_at: usize = breaks(input, comma_at + 1);
        match reserved_item(input, item_at) {
            Some((next, end)) => {
                proof {
                    lemma_push_then_rest(items@, next, spec_more_reserved(input@, end as int).0);
                }
                items.push(next);
                p = end;
            },
            None => {
                assert(items@ + Seq::empty() =~= items@);
                break ;
            },
        }
    }
    (items, p)
}

/// The statement of reserved numbers at `pos`: `reserved`, at least one word
/// break, a list of items, and `;`. The list may be empty.
#[verifier::opaque]
pub open spec fn spec_reserved_nums(s: Seq<u8>, pos: int) -> Option<(Seq<Range<i32>>, nat)> {
    match skip_breaks1(s, pos + "reserved"@.len()) {
        Some(items_at) => {
            let (items, n) = spec_reserved_items(s, items_at);
            let end_at = skip_breaks(s, items_at + n);
            if spec_tag(s, pos, "reserved"@) && spec_char_at(s, end_at, ';') {
                Some((items, (end_at + 1 - pos) as nat))
            } else {
                None
            }
        },
        None => None,
    }
}

/// Parses the statement of reserved numbers at `pos`.
pub fn reserved_nums(input: &[u8], pos: usize) -> (r: Option<(Vec<Range<i32>>, usize)>)
    requires
        pos <= input.len(),
    ensures
        match r {
            Some((items, end)) => spec_reserved_nums(input@, pos as int) == Some(
                (items@, (end - pos) as nat),
            ) && pos < end <= input.len(),
            None => spec_reserved_nums(input@, pos as int) is None,
        },
{
    proof {
        reveal(spec_reserved_nums);
    }
    let keyword_end: usize = match tag(input, pos, "reserved") {
        Some(end) => end,
        None => {
            return None;
        },
    };
    let items_at: usize = match breaks1(input, keyword_end) {
        Some(at) => at,
        None => {
            return None;
        },
    };
    let (items, items_end) = reserved_items(input, items_at);
    let end_at: usize = breaks(input, items_end);
    if !char_at(input, end_at, ';') {
        return None;
    }
    Some((items, end_at + 1))
}

/// Length of the word breaks and commas that follow one another from `pos`,
/// in any order.
pub open spec fn separators_len(s: Seq<u8>, pos: int) -> nat
    decreases rest(s, pos),
{
    match br_len(s, pos) {
        Some(b) => b + separators_len(s, pos + b),
        None => if spec_char_at(s, pos, ',') {
            1 + separators_len(s, pos + 1)
        } else {
            0
        },
    }
}

/// Skips the word breaks and commas at `pos`.
pub fn separators(input: &[u8], pos: usize) -> (end: usize)
    requires
        pos <= input.len(),
    ensures
        end == pos + separators_len(input@, pos as int),
        end <= input.len(),
{
    let mut p: usize = pos;
    loop
        invariant
            pos <= p <= input.len(),
            separators_len(input@, pos as int) == (p - pos) + separators_len(input@, p as int),
        ensures
            pos <= p <= input.len(),
            separators_len(input@, pos as int) == p - pos,
        decreases input.len() - p,
    {
        match br(input, p) {
            Some(end) => {
                p = end;
            },
            None => {
                if char_at(input, p, ',') {
                    p = p + 1;
                } else {
                    break ;
                }
            },
        }
    }
    p
}

/// One reserved name at `pos`: a name between double quotes, and the word
/// breaks and commas behind it.
pub open spec fn spec_reserved_name(s: Seq<u8>, pos: int) -> Option<(Seq<char>, nat)> {
    let close_at = pos + 1 + word_len(s, pos + 1);
    if spec_char_at(s, pos, '"') && spec_char_at(s, close_at, '"') {
        Some((word_at(s, pos + 1), 1 + word_len(s, pos + 1) + 1 + separators_len(s, close_at + 1)))
    } else {
        None
    }
}

/// Parses one reserved name at `pos`.
pub fn reserved_name(input: &[u8], pos: usize) -> (r: Option<(String, usize)>)
    requires
        pos <= input.len(),
    ensures
        agrees(r, input@, pos, spec_reserved_name(input@, pos as int)),
{
    if !char_at(input, pos, '"') {
        return None;
    }
    let (name, close_at) = word(input, pos + 1);
    if !char_at(input, close_at, '"') {
        return None;
    }
    Some((name, separators(input, close_at + 1)))
}

/// The reserved names that follow one another from `pos`.
pub open spec fn spec_name_list(s: Seq<u8>, pos: int) -> (Seq<Seq<char>>, nat)
    decreases rest(s, pos),
{
    match spec_reserved_name(s, pos) {
        Some((first, n)) => {
            let (others, m) = spec_name_list(s, pos + n);
            (seq![first] + others, n + m)
        },
        None => (Seq::empty(), 0),
    }
}

/// Parses the reserved names that follow one another from `pos`.
pub fn name_list(input: &[u8], pos: usize) -> (r: (Vec<String>, usize))
    requires
        pos <= input.len(),
    ensures
        r.0.deep_view() == spec_name_list(input@, pos as int).0,
        r.1 == pos + spec_name_list(input@, pos as int).1,
        r.1 <= input.len(),
{
    let mut names: Vec<String> = Vec::new();
    let mut p: usize = pos;
    proof {
        lemma_empty_model(names);
    }
    loop
        invariant
            pos <= p <= input.len(),
            spec_name_list(input@, pos as int).0 == names.deep_view() + spec_name_list(
                input@,
                p as int,
            ).0,
            spec_name_list(input@, pos as int).1 == (p - pos) + spec_name_list(input@, p as int).1,
        ensures
            pos <= p <= input.len(),
            spec_name_list(input@, pos as int).0 == names.deep_view(),
            spec_name_list(input@, pos as int).1 == p - pos,
        decreases input.len() - p,
    {
        match reserved_name(input, p) {
            Some((name, end)) => {
                let ghost before = names;
                names.push(name);
                proof {
                    lemma_push_model(before, name, names);
                    lemma_push_then_rest(
                        before.deep_view(),
                        name.deep_view(),
                        spec_name_list(input@, end as int).0,
                    );
                }
                p = end;
            },
            None => {
                assert(names.deep_view() + Seq::empty() =~= names.deep_view());
                break ;
            },
        }
    }
    (names, p)
}

/// The statement of reserved names at `pos`: `reserved`, at least one word
/// break, at least one quoted name, and `;`. Commas and word breaks may stand
/// between the names, in any number and order.
#[verifier::opaque]
pub open spec fn spec_reserved_names(s: Seq<u8>, pos: int) -> Option<(Seq<Seq<char>>, nat)> {
    match skip_breaks1(s, pos + "reserved"@.len()) {
        Some(names_at) => {
            let (names, n) = spec_name_list(s, names_at);
            let end_at = skip_breaks(s, names_at + n);
            if spec_tag(s, pos, "reserved"@) && names.len() > 0 && spec_char_at(s, end_at, ';') {
                Some((names, (end_at + 1 - pos) as nat))
            } else {
                None
            }
        },
        None => None,
    }
}

/// Parses the statement of reserved names at `pos`.
pub fn reserved_names(input: &[u8], pos: usize) -> (r: Option<(Vec<String>, usize)>)
    requires
        pos <= input.len(),
    ensures
        agrees(r, input@, pos, spec_reserved_names(input@, pos as int)),
{
    proof {
        reveal(spec_reserved_names);
    }
    let keyword_end: usize = match tag(input, pos, "reserved") {
        Some(end) => end,
        None => {
            return None;
        },
    };
    let names_at: usize = match breaks1(input, keyword_end) {
        Some(at) => at,
        None => {
            return None;
        },
    };
    let (names, names_end) = name_list(input, names_at);
    if names.len() == 0 {
        return None;
    }
    let end_at: usize = breaks(input, names_end);
    if !char_at(input, end_at, ';') {
        return None;
    }
    Some((names, end_at + 1))
}

/// The number at `pos`: a hexadecimal literal, else a decimal literal.
pub open spec fn spec_number(s: Seq<u8>, pos: int) -> Option<(i32, nat)> {
    if spec_hex_integer(s, pos) is Some {
        spec_hex_integer(s, pos)
    } else {
        spec_integer(s, pos)
    }
}

/// One value of an enum at `pos`: a name, `=`, a number and `;`, with word
/// breaks allowed between them and behind the `;`.
pub open spec fn spec_enum_value(s: Seq<u8>, pos: int) -> Option<(EnumValueModel, nat)> {
    let eq_at = skip_breaks(s, pos + word_len(s, pos));
    let number_at = skip_breaks(s, eq_at + 1);
    match spec_number(s, number_at) {
        Some((number, n)) => {
            let end_at = skip_breaks(s, number_at + n);
            if spec_char_at(s, eq_at, '=') && spec_char_at(s, end_at, ';') {
                Some(
                    (
                        EnumValueModel { name: word_at(s, pos), number },
                        (skip_breaks(s, end_at + 1) - pos) as nat,
                    ),
                )
            } else {
                None
            }
        },
        None => None,
    }
}

/// Parses one value of an enum at `pos`.
pub fn enum_value(input: &[u8], pos: usize) -> (r: Option<(EnumValue, usize)>)
    requires
        pos <= input.len(),
    ensures
        agrees(r, input@, pos, spec_enum_value(input@, pos as int)),
{
    let (name, name_end) = word(input, pos);
    let eq_at: usize = breaks(input, name_end);
    if !char_at(input, eq_at, '=') {
        return None;
    }
    let number_at: usize = breaks(input, eq_at + 1);
    let (number, number_end) = match hex_integer(input, number_at) {
        Some(found) => found,
        None => match integer(input, number_at) {
            Some(found) => found,
            None => {
                return None;
            },
        },
    };
    let end_at: usize = breaks(input, number_end);
    if !char_at(input, end_at, ';') {
        return None;
    }
    Some((EnumValue { name, number }, breaks(input, end_at + 1)))
}

/// The values of an enum that follow one another from `pos`.
pub open spec fn spec_enum_values(s: Seq<u8>, pos: int) -> (Seq<EnumValueModel>, nat)
    decreases rest(s, pos),
{
    match spec_enum_value(s, pos) {
        Some((first, n)) => {
            let (others, m) = spec_enum_values(s, pos + n);
            (seq![first] + others, n + m)
        },
        None => (Seq::empty(), 0),
    }
}

/// Parses the values of an enum that follow one another from `pos`.
pub fn enum_values(input: &[u8], pos: usize) -> (r: (Vec<EnumValue>, usize))
    requires
        pos <= input.len(),
    ensures
        r.0.deep_view() == spec_enum_values(input@, pos as int).0,
        r.1 == pos + spec_enum_values(input@, pos as int).1,
        r.1 <= input.len(),
{
    let mut values: Vec<EnumValue> = Vec::new();
    let mut p: usize = pos;
    proof {
        lemma_empty_model(values);
    }
    loop
        invariant
            pos <= p <= input.len(),
            spec_enum_values(input@, pos as int).0 == values.deep_view() + spec_enum_values(
                input@,
                p as int,
            ).0,
            spec_enum_values(input@, pos as int).1 == (p - pos) + spec_enum_values(
                input@,
                p as int,
            ).1,
        ensures
            pos <= p <= input.len(),
            spec_enum_values(input@, pos as int).0 == values.deep_view(),
            spec_enum_values(input@, pos as int).1 == p - pos,
        decreases input.len() - p,
    {
        match enum_value(input, p) {
            Some((value, end)) => {
                let ghost before = values;
                values.push(value);
                proof {
                    lemma_push_model(before, value, values);
                    lemma_push_then_rest(
                        before.deep_view(),
                        value.deep_view(),
                        spec_enum_values(input@, end as int).0,
                    );
                }
                p = end;
            },
            None => {
                assert(values.deep_view() + Seq::empty() =~= values.deep_view());
                break ;
            },
        }
    }
    (values, p)
}

/// Offset just past what closes a body at `pos`: `}`, word breaks, and any
/// number of `;`. `None` where no `}` stands at `pos`.
pub open spec fn spec_body_end(s: Seq<u8>, pos: int) -> Option<int> {
    let rest_at = skip_breaks(s, pos + 1);
    if spec_char_at(s, pos, '}') {
        Some(rest_at + run_len(s, rest_at, ByteClass::Semicolon))
    } else {
        None
    }
}

/// Matches what closes a body at `pos`.
pub fn body_end(input: &[u8], pos: usize) -> (r: Option<usize>)
    requires
        pos <= input.len(),
    ensures
        match r {
            Some(end) => spec_body_end(input@, pos as int) == Some(end as int) && pos < end
                <= input.len(),
            None => spec_body_end(input@, pos as int) is None,
        },
{
    if !char_at(input, pos, '}') {
        return None;
    }
    let rest_at: usize = breaks(input, pos + 1);
    Some(scan(input, rest_at, ByteClass::Semicolon))
}

/// The enum at `pos`: `enum`, at least one word break, the name, `{`, the
/// values, `}`, and any number of `;`, with word breaks allowed between them.
#[verifier::opaque]
pub open spec fn spec_enumerator(s: Seq<u8>, pos: int) -> Option<(EnumerationModel, nat)> {
    match skip_breaks1(s, pos + "enum"@.len()) {
        Some(name_at) => {
            let open_at = skip_breaks(s, name_at + word_len(s, name_at));
            let values_at = skip_breaks(s, open_at + 1);
            let (values, n) = spec_enum_values(s, values_at);
            match spec_body_end(s, skip_breaks(s, values_at + n)) {
                Some(end) => if spec_tag(s, pos, "enum"@) && spec_char_at(s, open_at, '{') {
                    Some(
                        (
                            EnumerationModel { name: word_at(s, name_at), values },
                            (end - pos) as nat,
                        ),
                    )
                } else {
                    None
                },
                None => None,
            }
        },
        None => None,
    }
}

/// Parses the enum at `pos`.
pub fn enumerator(input: &[u8], pos: usize) -> (r: Option<(Enumeration, usize)>)
    requires
        pos <= input.len(),
    ensures
        agrees(r, input@, pos, spec_enumerator(input@, pos as int)),
{
    proof {
        reveal(spec_enumerator);
    }
    let keyword_end: usize = match tag(input, pos, "enum") {
        Some(end) => end,
        None => {
            return None;
        },
    };
    let name_at: usize = match breaks1(input, keyword_end) {
        Some(at) => at,
        None => {
            return None;
        },
    };
    let (name, name_end) = word(input, name_at);
    let open_at: usize = breaks(input, name_end);
    if !char_at(input, open_at, '{') {
        return None;
    }
    let values_at: usize = breaks(input, open_at + 1);
    let (values, values_end) = enum_values(input, values_at);
    let close_at: usize = breaks(input, values_end);
    match body_end(input, close_at) {
        Some(end) => Some((Enumeration { name, values }, end)),
        None => None,
    }
}

/// The oneof at `pos`: `oneof`, at least one word break, the name, and a brace
/// body of fields, none of which may begin with a rule keyword; then word
/// breaks.
#[verifier::opaque]
pub open spec fn spec_one_of(s: Seq<u8>, pos: int) -> Option<(OneOfModel, nat)> {
    match skip_breaks1(s, pos + "oneof"@.len()) {
        Some(name_at) => {
            let body_at = skip_breaks(s, name_at + word_len(s, name_at));
            match spec_fields_in_braces(s, body_at, false) {
                Some((fields, n)) => if spec_tag(s, pos, "oneof"@) {
                    Some(
                        (
                            OneOfModel { name: word_at(s, name_at), fields },
                            (skip_breaks(s, body_at + n) - pos) as nat,
                        ),
                    )
                } else {
                    None
                },
                None => None,
            }
        },
        None => None,
    }
}

/// Parses the oneof at `pos`.
pub fn one_of(input: &[u8], pos: usize) -> (r: Option<(OneOf, usize)>)
    requires
        pos <= input.len(),
    ensures
        agrees(r, input@, pos, spec_one_of(input@, pos as int)),
{
    proof {
        reveal(spec_one_of);
    }
    let keyword_end: usize = match tag(input, pos, "oneof") {
        Some(end) => end,
        None => {
            return None;
        },
    };
    let name_at: usize = match breaks1(input, keyword_end) {
        Some(at) => at,
        None => {
            return None;
        },
    };
    let (name, name_end) = word(input, name_at);
    let body_at: usize = breaks(input, name_end);
    match fields_in_braces(input, body_at, false) {
        Some((fields, body_end)) => Some((OneOf { name, fields }, breaks(input, body_end))),
        None => None,
    }
}

/// What stands at one place of a message's body.
#[derive(Debug, PartialEq, Eq)]
pub enum MessageEvent {
    Message(Message),
    Enumeration(Enumeration),
    Field(Field),
    ReservedNums(Vec<Range<i32>>),
    ReservedNames(Vec<String>),
    OneOf(OneOf),
    /// A word break.
    Ignore,
}

/// Model of a [`MessageEvent`].
pub enum MessageEventModel {
    Message(MessageModel),
    Enumeration(EnumerationModel),
    Field(FieldModel),
    ReservedNums(Seq<Range<i32>>),
    ReservedNames(Seq<Seq<char>>),
    OneOf(OneOfModel),
    Ignore,
}

impl DeepView for MessageEvent {
    type V = MessageEventModel;

    open spec fn deep_view(&self) -> MessageEventModel {
        match self {
            MessageEvent::Message(message) => MessageEventModel::Message(message@),
            MessageEvent::Enumeration(enumeration) => MessageEventModel::Enumeration(enumeration@),
            MessageEvent::Field(field) => MessageEventModel::Field(field@),
            MessageEvent::ReservedNums(nums) => MessageEventModel::ReservedNums(nums@),
            MessageEvent::ReservedNames(names) => MessageEventModel::ReservedNames(
                names.deep_view(),
            ),
            MessageEvent::OneOf(one_of) => MessageEventModel::OneOf(one_of@),
            MessageEvent::Ignore => MessageEventModel::Ignore,
        }
    }
}

/// The message `m` after one more event of its body. A field, a oneof, a
/// nested message or an enum goes to the end of its list; a statement of
/// reserved numbers or names takes the place of what an earlier statement of
/// its kind reserved; a word break changes nothing.
pub open spec fn spec_apply_message_event(m: MessageModel, event: MessageEventModel) -> MessageModel {
    match event {
        MessageEventModel::Message(message) => MessageModel {
            messages: m.messages.push(message),
            ..m
        },
        MessageEventModel::Enumeration(enumeration) => MessageModel {
            enums: m.enums.push(enumeration),
            ..m
        },
        MessageEventModel::Field(field) => MessageModel { fields: m.fields.push(field), ..m },
        MessageEventModel::ReservedNums(nums) => MessageModel { reserved_nums: nums, ..m },
        MessageEventModel::ReservedNames(names) => MessageModel { reserved_names: names, ..m },
        MessageEventModel::OneOf(one_of) => MessageModel { oneofs: m.oneofs.push(one_of), ..m },
        MessageEventModel::Ignore => m,
    }
}

/// The message of the given name whose body holds `events`, in their order.
pub open spec fn spec_assemble_message(
    name: Seq<char>,
    events: Seq<MessageEventModel>,
) -> MessageModel
    decreases events.len(),
{
    if events.len() == 0 {
        empty_message(name)
    } else {
        spec_apply_message_event(spec_assemble_message(name, events.drop_last()), events.last())
    }
}

/// The parts of a message's model, each the model of the message's own part.
pub proof fn lemma_message_parts(m: Message)
    ensures
        m@ == (MessageModel {
            name: m.name@,
            fields: m.fields.deep_view(),
            oneofs: m.oneofs.deep_view(),
            reserved_nums: m.reserved_nums@,
            reserved_names: m.reserved_names.deep_view(),
            messages: m.messages.deep_view(),
            enums: m.enums.deep_view(),
        }),
{
    lemma_message_model(m);
}

/// Adds one event of its body to the message.
pub fn apply_message_event(message: &mut Message, event: MessageEvent)
    ensures
        final(message)@ == spec_apply_message_event(old(message)@, event.deep_view()),
{
    let ghost before = *message;
    proof {
        lemma_message_parts(before);
    }
    match event {
        MessageEvent::Message(nested) => {
            message.messages.push(nested);
            proof {
                lemma_push_model(before.messages, nested, message.messages);
            }
        },
        MessageEvent::Enumeration(enumeration) => {
            message.enums.push(enumeration);
            proof {
                lemma_push_model(before.enums, enumeration, message.enums);
            }
        },
        MessageEvent::Field(field) => {
            message.fields.push(field);
            proof {
                lemma_push_model(before.fields, field, message.fields);
            }
        },
        MessageEvent::ReservedNums(nums) => {
            message.reserved_nums = nums;
        },
        MessageEvent::ReservedNames(names) => {
            message.reserved_names = names;
        },
        MessageEvent::OneOf(one_of) => {
            message.oneofs.push(one_of);
            proof {
                lemma_push_model(before.oneofs, one_of, message.oneofs);
            }
        },
        MessageEvent::Ignore => {},
    }
    proof {
        lemma_message_parts(*message);
    }
}

/// Builds the message of the given name from the events of its body.
pub fn assemble_message(name: String, events: Vec<MessageEvent>) -> (message: Message)
    ensures
        message@ == spec_assemble_message(name@, events.deep_view()),
{
    let ghost all = events.deep_view();
    let mut message = Message::new(name);
    for event in it: events
        invariant
            it.seq() == events@,
            all == events.deep_view(),
            message@ == spec_assemble_message(name@, all.take(it.index())),
    {
        proof {
            assert(all.take(it.index() + 1).drop_last() =~= all.take(it.index()));
        }
        apply_message_event(&mut message, event);
    }
    assert(all.take(all.len() as int) =~= all);
    message
}

/// The event at `pos` of a message's body. The first of these that matches
/// decides: a statement of reserved numbers, a statement of reserved names, a
/// field, a nested message, an enum, a oneof, a word break.
pub open spec fn spec_message_event(s: Seq<u8>, pos: int) -> Option<(MessageEventModel, nat)>
    decreases rest(s, pos), 1nat,
{
    match spec_reserved_nums(s, pos) {
        Some((nums, n)) => Some((MessageEventModel::ReservedNums(nums), n)),
        None => match spec_reserved_names(s, pos) {
            Some((names, n)) => Some((MessageEventModel::ReservedNames(names), n)),
            None => match spec_message_field(s, pos, true) {
                Some((field, n)) => Some((MessageEventModel::Field(field), n)),
                None => match spec_message(s, pos) {
                    Some((message, n)) => Some((MessageEventModel::Message(message), n)),
                    None => match spec_enumerator(s, pos) {
                        Some((enumeration, n)) => Some(
                            (MessageEventModel::Enumeration(enumeration), n),
                        ),
                        None => match spec_one_of(s, pos) {
                            Some((one_of, n)) => Some((MessageEventModel::OneOf(one_of), n)),
                            None => match br_len(s, pos) {
                                Some(n) => Some((MessageEventModel::Ignore, n)),
                                None => None,
                            },
                        },
                    },
                },
            },
        },
    }
}

/// The events of a message's body from `pos` on: as many as follow one
/// another before the end of the input, each taking at least one byte.
pub open spec fn spec_message_events(s: Seq<u8>, pos: int) -> (Seq<MessageEventModel>, nat)
    decreases rest(s, pos), 2nat,
{
    if pos >= s.len() {
        (Seq::empty(), 0)
    } else {
        match spec_message_event(s, pos) {
            Some((first, n)) => if n > 0 {
                let (others, m) = spec_message_events(s, pos + n);
                (seq![first] + others, n + m)
            } else {
                (Seq::empty(), 0)
            },
            None => (Seq::empty(), 0),
        }
    }
}

/// The message at `pos`: `message`, at least one word break, the name, `{`,
/// the events of the body, `}`, and any number of `;`, with word breaks
/// allowed between them. The message holds what its events say, see
/// [`spec_assemble_message`].
pub open spec fn spec_message(s: Seq<u8>, pos: int) -> Option<(MessageModel, nat)>
    decreases rest(s, pos), 0nat,
{
    match skip_breaks1(s, pos + "message"@.len()) {
        Some(name_at) => {
            let open_at = skip_breaks(s, name_at + word_len(s, name_at));
            let events_at = skip_breaks(s, open_at + 1);
            if spec_tag(s, pos, "message"@) && spec_char_at(s, open_at, '{') {
                let (events, n) = spec_message_events(s, events_at);
                match spec_body_end(s, skip_breaks(s, events_at + n)) {
                    Some(end) => Some(
                        (spec_assemble_message(word_at(s, name_at), events), (end - pos) as nat),
                    ),
                    None => None,
                }
            } else {
                None
            }
        },
        None => None,
    }
}

/// Parses the event at `pos` of a message's body.
pub fn message_event(input: &[u8], pos: usize) -> (r: Option<(MessageEvent, usize)>)
    requires
        pos <= input.len(),
    ensures
        agrees(r, input@, pos, spec_message_event(input@, pos as int)),
    decreases input.len() - pos, 1nat,
{
    match reserved_nums(input, pos) {
        Some((nums, end)) => {
            return Some((MessageEvent::ReservedNums(nums), end));
        },
        None => {},
    }
    match reserved_names(input, pos) {
        Some((names, end)) => {
            return Some((MessageEvent::ReservedNames(names), end));
        },
        None => {},
    }
    match message_field(input, pos, true) {
        Some((field, end)) => {
            return Some((MessageEvent::Field(field), end));
        },
        None => {},
    }
    match message(input, pos) {
        Some((nested, end)) => {
            return Some((MessageEvent::Message(nested), end));
        },
        None => {},
    }
    match enumerator(input, pos) {
        Some((enumeration, end)) => {
            return Some((MessageEvent::Enumeration(enumeration), end));
        },
        None => {},
    }
    match one_of(input, pos) {
        Some((found, end)) => {
            return Some((MessageEvent::OneOf(found), end));
        },
        None => {},
    }
    match br(input, pos) {
        Some(end) => Some((MessageEvent::Ignore, end)),
        None => None,
    }
}

/// Parses the events of a message's body from `pos` on.
pub fn message_events(input: &[u8], pos: usize) -> (r: (Vec<MessageEvent>, usize))
    requires
        pos <= input.len(),
    ensures
        r.0.deep_view() == spec_message_events(input@, pos as int).0,
        r.1 == pos + spec_message_events(input@, pos as int).1,
        r.1 <= input.len(),
    decreases input.len() - pos, 2nat,
{
    let mut events: Vec<MessageEvent> = Vec::new();
    let mut p: usize = pos;
    proof {
        lemma_empty_model(events);
    }
    while p < input.len()
        invariant
            pos <= p <= input.len(),
            spec_message_events(input@, pos as int).0 == events.deep_view() + spec_message_events(
                input@,
                p as int,
            ).0,
            spec_message_events(input@, pos as int).1 == (p - pos) + spec_message_events(
                input@,
                p as int,
            ).1,
        ensures
            pos <= p <= input.len(),
            spec_message_events(input@, pos as int).0 == events.deep_view(),
            spec_message_events(input@, pos as int).1 == p - pos,
        decreases input.len() - p,
    {
        match message_event(input, p) {
            Some((event, end)) => {
                if end == p {
                    assert(events.deep_view() + Seq::empty() =~= events.deep_view());
                    break ;
                }
                let ghost before = events;
                events.push(event);
                proof {
                    lemma_push_model(before, event, events);
                    lemma_push_then_rest(
                        before.deep_view(),
                        event.deep_view(),
                        spec_message_events(input@, end as int).0,
                    );
                }
                p = end;
            },
            None => {
                assert(events.deep_view() + Seq::empty() =~= events.deep_view());
                break ;
            },
        }
    }
    proof {
        assert(events.deep_view() + Seq::empty() =~= events.deep_view());
    }
    (events, p)
}

/// Parses the message at `pos`.
pub fn message(input: &[u8], pos: usize) -> (r: Option<(Message, usize)>)
    requires
        pos <= input.len(),
    ensures
        agrees(r, input@, pos, spec_message(input@, pos as int)),
    decreases input.len() - pos, 0nat,
{
    let keyword_end: usize = match tag(input, pos, "message") {
        Some(end) => end,
        None => {
            return None;
        },
    };
    let name_at: usize = match breaks1(input, keyword_end) {
        Some(at) => at,
        None => {
            return None;
        },
    };
    let (name, name_end) = word(input, name_at);
    let open_at: usize = breaks(input, name_end);
    if !char_at(input, open_at, '{') {
        return None;
    }
    let events_at: usize = breaks(input, open_at + 1);
    let (events, events_end) = message_events(input, events_at);
    let close_at: usize = breaks(input, events_end);
    match body_end(input, close_at) {
        Some(end) => Some((assemble_message(name, events), end)),
        None => None,
    }
}

} // verus!
