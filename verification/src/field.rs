//! Field declarations: the rule keyword, the type, the name, the number, the
//! attributes, and the brace body of a group.

use crate::attribute::{first_value, flag, key_vals, lookup, spec_flag, spec_key_vals};
use crate::descriptor::{
    lemma_empty_model, lemma_group_model, lemma_push_model, lemma_push_then_rest, Field,
    FieldModel, FieldType, FieldTypeModel, Rule,
};
use crate::lexer::{
    agrees, br, br_len, breaks, breaks1, char_at, integer, rest, skip_breaks, skip_breaks1,
    spec_char_at, spec_integer, spec_tag, tag,
};
use crate::text::{word, word_at, word_len};
use vstd::prelude::*;

verus! {

/// The rule keyword at `pos`: `optional`, `repeated` or `required`.
#[verifier::opaque]
pub open spec fn spec_rule(s: Seq<u8>, pos: int) -> Option<(Rule, nat)> {
    if spec_tag(s, pos, "optional"@) {
        Some((Rule::Optional, "optional"@.len()))
    } else if spec_tag(s, pos, "repeated"@) {
        Some((Rule::Repeated, "repeated"@.len()))
    } else if spec_tag(s, pos, "required"@) {
        Some((Rule::Required, "required"@.len()))
    } else {
        None
    }
}

/// Parses the rule keyword at `pos`.
pub fn rule(input: &[u8], pos: usize) -> (r: Option<(Rule, usize)>)
    requires
        pos <= input.len(),
    ensures
        agrees(r, input@, pos, spec_rule(input@, pos as int)),
{
    proof {
        reveal(spec_rule);
    }
    match tag(input, pos, "optional") {
        Some(end) => {
            return Some((Rule::Optional, end));
        },
        None => {},
    }
    match tag(input, pos, "repeated") {
        Some(end) => {
            return Some((Rule::Repeated, end));
        },
        None => {},
    }
    match tag(input, pos, "required") {
        Some(end) => Some((Rule::Required, end)),
        None => None,
    }
}

/// The type keyword at `pos`: one of the scalar types, or `group`, whose
/// fields are not known before its body is read. A keyword is recognised
/// wherever its letters stand, whatever follows them.
#[verifier::opaque]
pub open spec fn spec_keyword_type(s: Seq<u8>, pos: int) -> Option<(FieldTypeModel, nat)> {
    if spec_tag(s, pos, "int32"@) {
        Some((FieldTypeModel::Int32, "int32"@.len()))
    } else if spec_tag(s, pos, "int64"@) {
        Some((FieldTypeModel::Int64, "int64"@.len()))
    } else if spec_tag(s, pos, "uint32"@) {
        Some((FieldTypeModel::Uint32, "uint32"@.len()))
    } else if spec_tag(s, pos, "uint64"@) {
        Some((FieldTypeModel::Uint64, "uint64"@.len()))
    } else if spec_tag(s, pos, "sint32"@) {
        Some((FieldTypeModel::Sint32, "sint32"@.len()))
    } else if spec_tag(s, pos, "sint64"@) {
        Some((FieldTypeModel::Sint64, "sint64"@.len()))
    } else if spec_tag(s, pos, "fixed32"@) {
        Some((FieldTypeModel::Fixed32, "fixed32"@.len()))
    } else if spec_tag(s, pos, "sfixed32"@) {
        Some((FieldTypeModel::Sfixed32, "sfixed32"@.len()))
    } else if spec_tag(s, pos, "fixed64"@) {
        Some((FieldTypeModel::Fixed64, "fixed64"@.len()))
    } else if spec_tag(s, pos, "sfixed64"@) {
        Some((FieldTypeModel::Sfixed64, "sfixed64"@.len()))
    } else if spec_tag(s, pos, "bool"@) {
        Some((FieldTypeModel::Bool, "bool"@.len()))
    } else if spec_tag(s, pos, "string"@) {
        Some((FieldTypeModel::String, "string"@.len()))
    } else if spec_tag(s, pos, "ref_counted_string"@) {
        Some((FieldTypeModel::RefCountedString, "ref_counted_string"@.len()))
    } else if spec_tag(s, pos, "bytes"@) {
        Some((FieldTypeModel::Bytes, "bytes"@.len()))
    } else if spec_tag(s, pos, "ref_counted_bytes"@) {
        Some((FieldTypeModel::RefCountedBytes, "ref_counted_bytes"@.len()))
    } else if spec_tag(s, pos, "float"@) {
        Some((FieldTypeModel::Float, "float"@.len()))
    } else if spec_tag(s, pos, "double"@) {
        Some((FieldTypeModel::Double, "double"@.len()))
    } else if spec_tag(s, pos, "group"@) {
        Some((FieldTypeModel::Group(Seq::empty()), "group"@.len()))
    } else {
        None
    }
}

/// Parses the type keyword at `pos`.
pub fn keyword_type(input: &[u8], pos: usize) -> (r: Option<(FieldType, usize)>)
    requires
        pos <= input.len(),
    ensures
        agrees(r, input@, pos, spec_keyword_type(input@, pos as int)),
{
    proof {
        reveal(spec_keyword_type);
    }
    match tag(input, pos, "int32") {
        Some(end) => {
            return Some((FieldType::Int32, end));
        },
        None => {},
    }
    match tag(input, pos, "int64") {
        Some(end) => {
            return Some((FieldType::Int64, end));
        },
        None => {},
    }
    match tag(input, pos, "uint32") {
        Some(end) => {
            return Some((FieldType::Uint32, end));
        },
        None => {},
    }
    match tag(input, pos, "uint64") {
        Some(end) => {
            return Some((FieldType::Uint64, end));
        },
        None => {},
    }
    match tag(input, pos, "sint32") {
        Some(end) => {
            return Some((FieldType::Sint32, end));
        },
        None => {},
    }
    match tag(input, pos, "sint64") {
        Some(end) => {
            return Some((FieldType::Sint64, end));
        },
        None => {},
    }
    match tag(input, pos, "fixed32") {
        Some(end) => {
            return Some((FieldType::Fixed32, end));
        },
        None => {},
    }
    match tag(input, pos, "sfixed32") {
        Some(end) => {
            return Some((FieldType::Sfixed32, end));
        },
        None => {},
    }
    match tag(input, pos, "fixed64") {
        Some(end) => {
            return Some((FieldType::Fixed64, end));
        },
        None => {},
    }
    match tag(input, pos, "sfixed64") {
        Some(end) => {
            return Some((FieldType::Sfixed64, end));
        },
        None => {},
    }
    match tag(input, pos, "bool") {
        Some(end) => {
            return Some((FieldType::Bool, end));
        },
        None => {},
    }
    match tag(input, pos, "string") {
        Some(end) => {
            return Some((FieldType::String, end));
        },
        None => {},
    }
    match tag(input, pos, "ref_counted_string") {
        Some(end) => {
            return Some((FieldType::RefCountedString, end));
        },
        None => {},
    }
    match tag(input, pos, "bytes") {
        Some(end) => {
            return Some((FieldType::Bytes, end));
        },
        None => {},
    }
    match tag(input, pos, "ref_counted_bytes") {
        Some(end) => {
            return Some((FieldType::RefCountedBytes, end));
        },
        None => {},
    }
    match tag(input, pos, "float") {
        Some(end) => {
            return Some((FieldType::Float, end));
        },
        None => {},
    }
    match tag(input, pos, "double") {
        Some(end) => {
            return Some((FieldType::Double, end));
        },
        None => {},
    }
    match tag(input, pos, "group") {
        Some(end) => {
            let fields: Vec<Field> = Vec::new();
            proof {
                lemma_group_model(fields);
                lemma_empty_model(fields);
            }
            Some((FieldType::Group(fields), end))
        },
        None => None,
    }
}

/// The type at `pos`. The first of these that matches decides: a type
/// keyword; `map<K, V>`; a name, taken as the name of a message or an enum. A
/// name may be empty, so there is a type at every position.
pub open spec fn spec_field_type(s: Seq<u8>, pos: int) -> Option<(FieldTypeModel, nat)>
    decreases rest(s, pos), 1nat,
{
    if spec_keyword_type(s, pos) is Some {
        spec_keyword_type(s, pos)
    } else if spec_map_field(s, pos) is Some {
        spec_map_field(s, pos)
    } else {
        Some((FieldTypeModel::MessageOrEnum(word_at(s, pos)), word_len(s, pos)))
    }
}

/// The map type at `pos`: `map`, `<`, the key's type, `,`, the value's type
/// and `>`, with word breaks allowed between them but not in front of `>`.
/// The key's type stands first in the result, the value's type second.
pub open spec fn spec_map_field(s: Seq<u8>, pos: int) -> Option<(FieldTypeModel, nat)>
    decreases rest(s, pos), 0nat,
{
    let open_at = skip_breaks(s, pos + "map"@.len());
    let key_at = skip_breaks(s, open_at + 1);
    if spec_tag(s, pos, "map"@) && spec_char_at(s, open_at, '<') {
        match spec_field_type(s, key_at) {
            Some((key, n)) => {
                let comma_at = skip_breaks(s, key_at + n);
                let value_at = skip_breaks(s, comma_at + 1);
                if spec_char_at(s, comma_at, ',') {
                    match spec_field_type(s, value_at) {
                        Some((value, m)) => if spec_char_at(s, value_at + m, '>') {
                            Some(
                                (
                                    FieldTypeModel::MapOf(Box::new(key), Box::new(value)),
                                    (value_at + m + 1 - pos) as nat,
                                ),
                            )
                        } else {
                            None
                        },
                        None => None,
                    }
                } else {
                    None
                }
            },
            None => None,
        }
    } else {
        None
    }
}

/// Parses the type at `pos`.
pub fn field_type(input: &[u8], pos: usize) -> (r: Option<(FieldType, usize)>)
    requires
        pos <= input.len(),
    ensures
        agrees(r, input@, pos, spec_field_type(input@, pos as int)),
    decreases input.len() - pos, 1nat,
{
    match keyword_type(input, pos) {
        Some(found) => {
            return Some(found);
        },
        None => {},
    }
    match map_field(input, pos) {
        Some(found) => {
            return Some(found);
        },
        None => {},
    }
    let (name, end) = word(input, pos);
    Some((FieldType::MessageOrEnum(name), end))
}

/// Parses the map type at `pos`.
pub fn map_field(input: &[u8], pos: usize) -> (r: Option<(FieldType, usize)>)
    requires
        pos <= input.len(),
    ensures
        agrees(r, input@, pos, spec_map_field(input@, pos as int)),
    decreases input.len() - pos, 0nat,
{
    let after_map: usize = match tag(input, pos, "map") {
        Some(end) => end,
        None => {
            return None;
        },
    };
    let open_at: usize = breaks(input, after_map);
    if !char_at(input, open_at, '<') {
        return None;
    }
    let key_at: usize = breaks(input, open_at + 1);
    let (key, key_end) = match field_type(input, key_at) {
        Some(found) => found,
        None => {
            return None;
        },
    };
    let comma_at: usize = breaks(input, key_end);
    if !char_at(input, comma_at, ',') {
        return None;
    }
    let value_at: usize = breaks(input, comma_at + 1);
    let (value, value_end) = match field_type(input, value_at) {
        Some(found) => found,
        None => {
            return None;
        },
    };
    if !char_at(input, value_end, '>') {
        return None;
    }
    Some((FieldType::MapOf(Box::new((key, value))), value_end + 1))
}

/// The field declaration at `pos` up to where its end is due: a rule keyword
/// (only where `with_rule` says that one may stand there), the type, at least
/// one word break, the name, `=`, the number and the attributes, with word
/// breaks allowed between any two of these and behind the last.
///
/// Without a rule keyword the rule is `Optional`. `default` is the value of
/// the first attribute of that name, as written; `packed` and `deprecated` are
/// `false` unless an attribute of that name says otherwise, and where the
/// first such attribute says neither `true` nor `false` there is no field.
#[verifier::opaque]
pub open spec fn spec_field_head(s: Seq<u8>, pos: int, with_rule: bool) -> Option<
    (FieldModel, nat),
> {
    let rule = if with_rule {
        spec_rule(s, pos)
    } else {
        None
    };
    let type_at = skip_breaks(
        s,
        match rule {
            Some((_, n)) => pos + n,
            None => pos,
        },
    );
    match spec_field_type(s, type_at) {
        Some((typ, n)) => match skip_breaks1(s, type_at + n) {
            Some(name_at) => {
                let eq_at = skip_breaks(s, name_at + word_len(s, name_at));
                let number_at = skip_breaks(s, eq_at + 1);
                match spec_integer(s, number_at) {
                    Some((number, m)) => {
                        let attrs_at = skip_breaks(s, number_at + m);
                        let (attrs, k) = spec_key_vals(s, attrs_at);
                        match (spec_flag(attrs, "packed"@), spec_flag(attrs, "deprecated"@)) {
                            (Some(packed), Some(deprecated)) => if spec_char_at(s, eq_at, '=') {
                                Some(
                                    (
                                        FieldModel {
                                            name: word_at(s, name_at),
                                            rule: match rule {
                                                Some((rule, _)) => rule,
                                                None => Rule::Optional,
                                            },
                                            typ,
                                            number,
                                            default: first_value(attrs, "default"@, 0),
                                            packed,
                                            deprecated,
                                        },
                                        (skip_breaks(s, attrs_at + k) - pos) as nat,
                                    ),
                                )
                            } else {
                                None
                            },
                            _ => None,
                        }
                    },
                    None => None,
                }
            },
            None => None,
        },
        None => None,
    }
}

/// The field declaration at `pos`: its head, see [`spec_field_head`], and then
/// `;` or, behind the type `group` alone, a brace body. The type `group` takes
/// the fields of its body, and none where `;` follows.
pub open spec fn spec_message_field(s: Seq<u8>, pos: int, with_rule: bool) -> Option<
    (FieldModel, nat),
>
    decreases rest(s, pos), 1nat,
{
    match spec_field_head(s, pos, with_rule) {
        Some((field, n)) => if spec_char_at(s, pos + n, ';') {
            Some((field, n + 1))
        } else if field.typ is Group {
            match spec_fields_in_braces(s, pos + n, true) {
                Some((fields, b)) => Some(
                    (FieldModel { typ: FieldTypeModel::Group(fields), ..field }, n + b),
                ),
                None => None,
            }
        } else {
            None
        },
        None => None,
    }
}

/// The brace body at `pos`: `{`, fields with one word break between each two,
/// and `}`, with word breaks allowed inside the braces.
pub open spec fn spec_fields_in_braces(s: Seq<u8>, pos: int, with_rule: bool) -> Option<
    (Seq<FieldModel>, nat),
>
    decreases rest(s, pos), 0nat,
{
    let list_at = skip_breaks(s, pos + 1);
    if spec_char_at(s, pos, '{') {
        let (fields, n) = spec_field_list(s, list_at, with_rule);
        let close_at = skip_breaks(s, list_at + n);
        if spec_char_at(s, close_at, '}') {
            Some((fields, (close_at + 1 - pos) as nat))
        } else {
            None
        }
    } else {
        None
    }
}

/// The fields from `pos` on, one word break between each two; none where no
/// field stands at `pos`.
pub open spec fn spec_field_list(s: Seq<u8>, pos: int, with_rule: bool) -> (Seq<FieldModel>, nat)
    decreases rest(s, pos), 3nat,
{
    match spec_message_field(s, pos, with_rule) {
        Some((first, n)) => {
            let (others, m) = spec_more_fields(s, pos + n, with_rule);
            (seq![first] + others, n + m)
        },
        None => (Seq::empty(), 0),
    }
}

/// The fields that follow a field which ends at `pos`: each behind one word
/// break. A word break that no field follows is not taken.
pub open spec fn spec_more_fields(s: Seq<u8>, pos: int, with_rule: bool) -> (Seq<FieldModel>, nat)
    decreases rest(s, pos), 2nat,
{
    match br_len(s, pos) {
        Some(b) => match spec_message_field(s, pos + b, with_rule) {
            Some((next, n)) => {
                let (others, m) = spec_more_fields(s, pos + b + n, with_rule);
                (seq![next] + others, b + n + m)
            },
            None => (Seq::empty(), 0),
        },
        None => (Seq::empty(), 0),
    }
}

/// Parses the head of the field declaration at `pos`.
pub fn field_head(input: &[u8], pos: usize, with_rule: bool) -> (r: Option<(Field, usize)>)
    requires
        pos <= input.len(),
    ensures
        agrees(r, input@, pos, spec_field_head(input@, pos as int, with_rule)),
{
    proof {
        reveal(spec_field_head);
    }
    let mut field_rule = Rule::Optional;
    let mut rule_end: usize = pos;
    if with_rule {
        match rule(input, pos) {
            Some((found, end)) => {
                field_rule = found;
                rule_end = end;
            },
            None => {},
        }
    }
    let type_at: usize = breaks(input, rule_end);
    let (typ, type_end) = match field_type(input, type_at) {
        Some(found) => found,
        None => {
            return None;
        },
    };
    let name_at: usize = match breaks1(input, type_end) {
        Some(at) => at,
        None => {
            return None;
        },
    };
    let (name, name_end) = word(input, name_at);
    let eq_at: usize = breaks(input, name_end);
    if !char_at(input, eq_at, '=') {
        return None;
    }
    let number_at: usize = breaks(input, eq_at + 1);
    let (number, number_end) = match integer(input, number_at) {
        Some(found) => found,
        None => {
            return None;
        },
    };
    let attrs_at: usize = breaks(input, number_end);
    let (attrs, attrs_end) = key_vals(input, attrs_at);
    let end: usize = breaks(input, attrs_end);
    let packed = match flag(&attrs, "packed") {
        Some(packed) => packed,
        None => {
            return None;
        },
    };
    let deprecated = match flag(&attrs, "deprecated") {
        Some(deprecated) => deprecated,
        None => {
            return None;
        },
    };
    let default = lookup(&attrs, "default");
    Some((Field { name, rule: field_rule, typ, number, default, packed, deprecated }, end))
}

/// Parses the field declaration at `pos`.
pub fn message_field(input: &[u8], pos: usize, with_rule: bool) -> (r: Option<(Field, usize)>)
    requires
        pos <= input.len(),
    ensures
        agrees(r, input@, pos, spec_message_field(input@, pos as int, with_rule)),
    decreases input.len() - pos, 1nat,
{
    let (field, end_at) = match field_head(input, pos, with_rule) {
        Some(found) => found,
        None => {
            return None;
        },
    };
    if char_at(input, end_at, ';') {
        return Some((field, end_at + 1));
    }
    if !is_group(&field) {
        return None;
    }
    match fields_in_braces(input, end_at, true) {
        Some((fields, end)) => Some((with_group_fields(field, fields), end)),
        None => None,
    }
}

/// Whether the field's type is `group`.
pub fn is_group(field: &Field) -> (r: bool)
    ensures
        r == (field@.typ is Group),
{
    match field.typ {
        FieldType::Group(_) => true,
        _ => false,
    }
}

/// The field with the type `group` of the given fields in place of its own
/// type.
pub fn with_group_fields(field: Field, fields: Vec<Field>) -> (r: Field)
    ensures
        r@ == (FieldModel { typ: FieldTypeModel::Group(fields.deep_view()), ..field@ }),
{
    proof {
        lemma_group_model(fields);
    }
    let Field { name, rule, typ: _, number, default, packed, deprecated } = field;
    Field { name, rule, typ: FieldType::Group(fields), number, default, packed, deprecated }
}

/// Parses the brace body at `pos`.
pub fn fields_in_braces(input: &[u8], pos: usize, with_rule: bool) -> (r: Option<
    (Vec<Field>, usize),
>)
    requires
        pos <= input.len(),
    ensures
        agrees(r, input@, pos, spec_fields_in_braces(input@, pos as int, with_rule)),
    decreases input.len() - pos, 0nat,
{
    if !char_at(input, pos, '{') {
        return None;
    }
    let list_at: usize = breaks(input, pos + 1);
    let (fields, list_end) = field_list(input, list_at, with_rule);
    let close_at: usize = breaks(input, list_end);
    if !char_at(input, close_at, '}') {
        return None;
    }
    Some((fields, close_at + 1))
}

/// Parses the fields from `pos` on, one word break between each two.
pub fn field_list(input: &[u8], pos: usize, with_rule: bool) -> (r: (Vec<Field>, usize))
    requires
        pos <= input.len(),
    ensures
        r.0.deep_view() == spec_field_list(input@, pos as int, with_rule).0,
        r.1 == pos + spec_field_list(input@, pos as int, with_rule).1,
        r.1 <= input.len(),
    decreases input.len() - pos, 3nat,
{
    let mut fields: Vec<Field> = Vec::new();
    proof {
        lemma_empty_model(fields);
    }
    let mut p: usize = match message_field(input, pos, with_rule) {
        Some((first, end)) => {
            let ghost before = fields;
            fields.push(first);
            proof {
                lemma_push_model(before, first, fields);
                assert(before.deep_view().push(first.deep_view()) =~= seq![first.deep_view()]);
            }
            end
        },
        None => {
            return (fields, pos);
        },
    };
    let ghost first_end = p;
    loop
        invariant
            pos <= first_end <= p <= input.len(),
            spec_field_list(input@, pos as int, with_rule).0 == fields.deep_view()
                + spec_more_fields(input@, p as int, with_rule).0,
            spec_field_list(input@, pos as int, with_rule).1 == (p - pos) + spec_more_fields(
                input@,
                p as int,
                with_rule,
            ).1,
        ensures
            pos <= p <= input.len(),
            spec_field_list(input@, pos as int, with_rule).0 == fields.deep_view(),
            spec_field_list(input@, pos as int, with_rule).1 == p - pos,
        decreases input.len() - p,
    {
        let next_at: usize = match br(input, p) {
            Some(at) => at,
            None => {
                assert(fields.deep_view() + Seq::empty() =~= fields.deep_view());
                break ;
            },
        };
        match message_field(input, next_at, with_rule) {
            Some((next, end)) => {
                let ghost before = fields;
                fields.push(next);
                proof {
                    lemma_push_model(before, next, fields);
                    lemma_push_then_rest(
                        before.deep_view(),
                        next.deep_view(),
                        spec_more_fields(input@, end as int, with_rule).0,
                    );
                }
                p = end;
            },
            None => {
                assert(fields.deep_view() + Seq::empty() =~= fields.deep_view());
                break ;
            },
        }
    }
    (fields, p)
}

} // verus!
