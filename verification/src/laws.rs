//! What holds of every message and every file that the parser returns.

use crate::descriptor::{
    EnumerationModel, ExtensionModel, FieldModel, FieldTypeModel, FileModel, MessageModel,
    OneOfModel,
};
use crate::field::{
    spec_field_head, spec_field_type, spec_fields_in_braces, spec_map_field, spec_message_field,
};
use crate::file::{spec_apply_event, spec_assemble_file, EventModel};
use crate::attribute::spec_key_val;
use crate::lexer::{run_len, skip_breaks, skip_breaks1, ByteClass};
use crate::message::{
    spec_apply_message_event, spec_assemble_message, spec_message, spec_message_events,
    MessageEventModel,
};
use crate::text::{
    is_white_space, lemma_trimmed, text_at, trim_end, trim_start, trimmed, word_at, word_len,
};
use vstd::prelude::*;

verus! {

/// The fields that `events` declare, in their order.
pub open spec fn declared_fields(events: Seq<MessageEventModel>) -> Seq<FieldModel>
    decreases events.len(),
{
    if events.len() == 0 {
        Seq::empty()
    } else {
        match events.last() {
            MessageEventModel::Field(field) => declared_fields(events.drop_last()).push(field),
            _ => declared_fields(events.drop_last()),
        }
    }
}

/// The oneofs that `events` declare, in their order.
pub open spec fn declared_oneofs(events: Seq<MessageEventModel>) -> Seq<OneOfModel>
    decreases events.len(),
{
    if events.len() == 0 {
        Seq::empty()
    } else {
        match events.last() {
            MessageEventModel::OneOf(one_of) => declared_oneofs(events.drop_last()).push(one_of),
            _ => declared_oneofs(events.drop_last()),
        }
    }
}

/// The nested messages that `events` declare, in their order.
pub open spec fn declared_messages(events: Seq<MessageEventModel>) -> Seq<MessageModel>
    decreases events.len(),
{
    if events.len() == 0 {
        Seq::empty()
    } else {
        match events.last() {
            MessageEventModel::Message(message) => declared_messages(events.drop_last()).push(
                message,
            ),
            _ => declared_messages(events.drop_last()),
        }
    }
}

/// The enums that `events` declare, in their order.
pub open spec fn declared_enums(events: Seq<MessageEventModel>) -> Seq<EnumerationModel>
    decreases events.len(),
{
    if events.len() == 0 {
        Seq::empty()
    } else {
        match events.last() {
            MessageEventModel::Enumeration(enumeration) => declared_enums(
                events.drop_last(),
            ).push(enumeration),
            _ => declared_enums(events.drop_last()),
        }
    }
}

/// How many of `events` are field declarations.
pub open spec fn field_count(events: Seq<MessageEventModel>) -> nat
    decreases events.len(),
{
    if events.len() == 0 {
        0
    } else if events.last() is Field {
        field_count(events.drop_last()) + 1
    } else {
        field_count(events.drop_last())
    }
}

/// Each list of a message holds what the body declares for it, in the order
/// of declaration, and nothing else: the fields are the field declarations,
/// as many as there are; the members of a oneof stand in the oneof's entry and
/// not among the fields.
pub proof fn lemma_message_lists(name: Seq<char>, events: Seq<MessageEventModel>)
    ensures
        spec_assemble_message(name, events).name == name,
        spec_assemble_message(name, events).fields == declared_fields(events),
        spec_assemble_message(name, events).fields.len() == field_count(events),
        spec_assemble_message(name, events).oneofs == declared_oneofs(events),
        spec_assemble_message(name, events).messages == declared_messages(events),
        spec_assemble_message(name, events).enums == declared_enums(events),
    decreases events.len(),
{
    if events.len() > 0 {
        lemma_message_lists(name, events.drop_last());
    }
}

/// The field declarations of two stretches of a body, one after the other,
/// are those of the first followed by those of the second.
pub proof fn lemma_declared_fields_concat(
    first: Seq<MessageEventModel>,
    second: Seq<MessageEventModel>,
)
    ensures
        declared_fields(first + second) == declared_fields(first) + declared_fields(second),
    decreases second.len(),
{
    if second.len() == 0 {
        assert(first + second =~= first);
        assert(declared_fields(first) + declared_fields(second) =~= declared_fields(first));
    } else {
        assert((first + second).drop_last() =~= first + second.drop_last());
        assert((first + second).last() == second.last());
        lemma_declared_fields_concat(first, second.drop_last());
        match second.last() {
            MessageEventModel::Field(field) => {
                assert((declared_fields(first) + declared_fields(second.drop_last())).push(field)
                    =~= declared_fields(first) + declared_fields(second.drop_last()).push(field));
            },
            _ => {},
        }
    }
}

/// A word break between two stretches of a body changes nothing of the
/// message.
pub proof fn lemma_break_changes_nothing(
    name: Seq<char>,
    before: Seq<MessageEventModel>,
    after: Seq<MessageEventModel>,
)
    ensures
        spec_assemble_message(name, before.push(MessageEventModel::Ignore) + after)
            == spec_assemble_message(name, before + after),
    decreases after.len(),
{
    let with_break = before.push(MessageEventModel::Ignore);
    if after.len() == 0 {
        assert(with_break + after =~= with_break);
        assert(before + after =~= before);
        assert(with_break.drop_last() =~= before);
    } else {
        assert((with_break + after).drop_last() =~= with_break + after.drop_last());
        assert((before + after).drop_last() =~= before + after.drop_last());
        lemma_break_changes_nothing(name, before, after.drop_last());
    }
}

/// A oneof gives the message exactly one more entry of oneofs, which holds
/// the oneof's members, and leaves the message's own fields as they are.
pub proof fn lemma_oneof_event(m: MessageModel, one_of: OneOfModel)
    ensures
        spec_apply_message_event(m, MessageEventModel::OneOf(one_of)).oneofs == m.oneofs.push(
            one_of,
        ),
        spec_apply_message_event(m, MessageEventModel::OneOf(one_of)).fields == m.fields,
{
}

/// Offset of the first event of the body of a message that begins at `pos`.
pub open spec fn body_at(s: Seq<u8>, pos: int) -> int {
    match skip_breaks1(s, pos + "message"@.len()) {
        Some(name_at) => skip_breaks(s, skip_breaks(s, name_at + word_len(s, name_at)) + 1),
        None => pos,
    }
}

/// The fields of a parsed message are the field declarations among the
/// events of its body, in their order, whatever stands between them.
pub proof fn lemma_parsed_message_fields(s: Seq<u8>, pos: int)
    requires
        spec_message(s, pos) is Some,
    ensures
        spec_message(s, pos).unwrap().0.fields == declared_fields(
            spec_message_events(s, body_at(s, pos)).0,
        ),
        spec_message(s, pos).unwrap().0.fields.len() == field_count(
            spec_message_events(s, body_at(s, pos)).0,
        ),
{
    let name_at = skip_breaks1(s, pos + "message"@.len())->0;
    lemma_message_lists(
        word_at(s, name_at),
        spec_message_events(s, body_at(s, pos)).0,
    );
}

/// A map type holds the type written first as its key and the type written
/// second as its value.
pub proof fn lemma_map_key_then_value(s: Seq<u8>, pos: int)
    requires
        spec_map_field(s, pos) is Some,
    ensures
        ({
            let key_at = skip_breaks(s, skip_breaks(s, pos + "map"@.len()) + 1);
            let key = spec_field_type(s, key_at);
            let value_at = skip_breaks(s, skip_breaks(s, key_at + key.unwrap().1) + 1);
            let value = spec_field_type(s, value_at);
            &&& key is Some
            &&& value is Some
            &&& key_at < value_at
            &&& spec_map_field(s, pos).unwrap().0 == FieldTypeModel::MapOf(
                Box::new(key.unwrap().0),
                Box::new(value.unwrap().0),
            )
        }),
{
}

/// A field of the type `group` that a brace body follows takes the fields of
/// that body, as many as the body holds, and ends where the body ends.
pub proof fn lemma_group_takes_body(s: Seq<u8>, pos: int, with_rule: bool)
    requires
        spec_field_head(s, pos, with_rule) is Some,
        spec_field_head(s, pos, with_rule).unwrap().0.typ is Group,
        spec_fields_in_braces(s, pos + spec_field_head(s, pos, with_rule).unwrap().1, true) is Some,
    ensures
        ({
            let (head, n) = spec_field_head(s, pos, with_rule)->0;
            let (fields, b) = spec_fields_in_braces(s, pos + n, true)->0;
            spec_message_field(s, pos, with_rule) == Some(
                (FieldModel { typ: FieldTypeModel::Group(fields), ..head }, n + b),
            )
        }),
{
}

/// The text between `=` and `]` of the attribute at `pos`, as written.
pub open spec fn written_value(s: Seq<u8>, pos: int) -> Seq<char> {
    let key_at = skip_breaks(s, pos + 1);
    let eq_at = skip_breaks(s, key_at + word_len(s, key_at));
    let value_at = skip_breaks(s, eq_at + 1);
    text_at(s, value_at, value_at + run_len(s, value_at, ByteClass::Value))
}

/// An attribute's value is kept as it is written: it is one stretch of the
/// text between `=` and `]`, character for character, quotes and backslashes
/// included; all that is left out is white space before it and behind it.
pub proof fn lemma_value_is_kept_as_written(s: Seq<u8>, pos: int)
    requires
        spec_key_val(s, pos) is Some,
    ensures
        ({
            let ((_, kept), _) = spec_key_val(s, pos).unwrap();
            let written = written_value(s, pos);
            exists|lo: int, hi: int|
                {
                    &&& 0 <= lo <= hi <= written.len()
                    &&& kept == #[trigger] written.subrange(lo, hi)
                    &&& forall|i: int| 0 <= i < lo ==> is_white_space(#[trigger] written[i])
                    &&& forall|i: int|
                        hi <= i < written.len() ==> is_white_space(#[trigger] written[i])
                }
        }),
{
    let written = written_value(s, pos);
    lemma_trimmed(written);
    let lo = trim_start(written, 0);
    let hi = trim_end(written, lo, written.len() as int);
    assert(trimmed(written) == written.subrange(lo, hi));
}

/// The import paths that `events` declare, in their order.
pub open spec fn declared_imports(events: Seq<EventModel>) -> Seq<Seq<char>>
    decreases events.len(),
{
    if events.len() == 0 {
        Seq::empty()
    } else {
        match events.last() {
            EventModel::Import(path) => declared_imports(events.drop_last()).push(path),
            _ => declared_imports(events.drop_last()),
        }
    }
}

/// The extensions that `events` declare: those of each extend block, block
/// after block.
pub open spec fn declared_extensions(events: Seq<EventModel>) -> Seq<ExtensionModel>
    decreases events.len(),
{
    if events.len() == 0 {
        Seq::empty()
    } else {
        match events.last() {
            EventModel::Extensions(extensions) => declared_extensions(events.drop_last())
                + extensions,
            _ => declared_extensions(events.drop_last()),
        }
    }
}

/// A file lists its imports in the order of the import statements and its
/// extensions block after block.
pub proof fn lemma_file_lists(events: Seq<EventModel>)
    ensures
        spec_assemble_file(events).import_paths == declared_imports(events),
        spec_assemble_file(events).extensions == declared_extensions(events),
    decreases events.len(),
{
    if events.len() > 0 {
        lemma_file_lists(events.drop_last());
    }
}

/// A syntax or package statement decides for the file unless a later one of
/// its kind follows.
pub proof fn lemma_last_statement_wins(d: FileModel, first: EventModel, second: EventModel)
    ensures
        first is Syntax && second is Syntax ==> spec_apply_event(
            spec_apply_event(d, first),
            second,
        ).syntax == second->Syntax_0,
        first is Package && second is Package ==> spec_apply_event(
            spec_apply_event(d, first),
            second,
        ).package == second->Package_0,
{
}

} // verus!
