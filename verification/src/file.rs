//! The statements of a file's top level, and the parser of a whole file.

use crate::descriptor::{
    empty_file, lemma_append_model, lemma_empty_model, lemma_push_model, lemma_push_then_rest,
    Enumeration, EnumerationModel, Extension, ExtensionModel, Field, FieldModel, FileDescriptor,
    FileModel, Message, MessageModel, Syntax,
};
use crate::field::{fields_in_braces, spec_fields_in_braces};
use crate::lexer::{
    agrees, br, br_len, breaks, breaks1, char_at, past, rest, run_len, scan, skip_breaks,
    skip_breaks1, spec_char_at, spec_past, spec_tag, tag, ByteClass,
};
use crate::message::{enumerator, message, spec_enumerator, spec_message};
use crate::text::{is_text, text_at, utf8_text, word, word_at, word_len};
use vstd::prelude::*;

verus! {

/// The syntax statement at `pos`: `syntax`, `=`, `"proto2"` or `"proto3"`, and
/// `;`, with word breaks allowed between them.
#[verifier::opaque]
pub open spec fn spec_syntax(s: Seq<u8>, pos: int) -> Option<(Syntax, nat)> {
    let eq_at = skip_breaks(s, pos + "syntax"@.len());
    let value_at = skip_breaks(s, eq_at + 1);
    let value = if spec_tag(s, value_at, "\"proto2\""@) {
        Some((Syntax::Proto2, "\"proto2\""@.len()))
    } else if spec_tag(s, value_at, "\"proto3\""@) {
        Some((Syntax::Proto3, "\"proto3\""@.len()))
    } else {
        None
    };
    match value {
        Some((syntax, n)) => {
            let end_at = skip_breaks(s, value_at + n);
            if spec_tag(s, pos, "syntax"@) && spec_char_at(s, eq_at, '=') && spec_char_at(
                s,
                end_at,
                ';',
            ) {
                Some((syntax, (end_at + 1 - pos) as nat))
            } else {
                None
            }
        },
        None => None,
    }
}

/// Parses the syntax statement at `pos`.
pub fn syntax(input: &[u8], pos: usize) -> (r: Option<(Syntax, usize)>)
    requires
        pos <= input.len(),
    ensures
        agrees(r, input@, pos, spec_syntax(input@, pos as int)),
{
    proof {
        reveal(spec_syntax);
    }
    let keyword_end: usize = match tag(input, pos, "syntax") {
        Some(end) => end,
        None => {
            return None;
        },
    };
    let eq_at: usize = breaks(input, keyword_end);
    if !char_at(input, eq_at, '=') {
        return None;
    }
    let value_at: usize = breaks(input, eq_at + 1);
    let (version, value_end) = match tag(input, value_at, "\"proto2\"") {
        Some(end) => (Syntax::Proto2, end),
        None => match tag(input, value_at, "\"proto3\"") {
            Some(end) => (Syntax::Proto3, end),
            None => {
                return None;
            },
        },
    };
    let end_at: usize = breaks(input, value_end);
    if !char_at(input, end_at, ';') {
        return None;
    }
    Some((version, end_at + 1))
}

/// The import statement at `pos`: `import`, at least one word break, a path
/// between double quotes, and `;`. The path is every byte up to the next `"`;
/// it must be well-formed UTF-8.
#[verifier::opaque]
pub open spec fn spec_import(s: Seq<u8>, pos: int) -> Option<(Seq<char>, nat)> {
    match skip_breaks1(s, pos + "import"@.len()) {
        Some(quote_at) => {
            let path_end = quote_at + 1 + run_len(s, quote_at + 1, ByteClass::Path);
            let end_at = skip_breaks(s, path_end + 1);
            if spec_tag(s, pos, "import"@) && spec_char_at(s, quote_at, '"') && spec_char_at(
                s,
                path_end,
                '"',
            ) && is_text(s, quote_at + 1, path_end) && spec_char_at(s, end_at, ';') {
                Some((text_at(s, quote_at + 1, path_end), (end_at + 1 - pos) as nat))
            } else {
                None
            }
        },
        None => None,
    }
}

/// Parses the import statement at `pos`.
pub fn import(input: &[u8], pos: usize) -> (r: Option<(String, usize)>)
    requires
        pos <= input.len(),
    ensures
        agrees(r, input@, pos, spec_import(input@, pos as int)),
{
    proof {
        reveal(spec_import);
    }
    let keyword_end: usize = match tag(input, pos, "import") {
        Some(end) => end,
        None => {
            return None;
        },
    };
    let quote_at: usize = match breaks1(input, keyword_end) {
        Some(at) => at,
        None => {
            return None;
        },
    };
    if !char_at(input, quote_at, '"') {
        return None;
    }
    let path_end: usize = scan(input, quote_at + 1, ByteClass::Path);
    if !char_at(input, path_end, '"') {
        return None;
    }
    let path = match utf8_text(input, quote_at + 1, path_end) {
        Some(path) => path,
        None => {
            return None;
        },
    };
    let end_at: usize = breaks(input, path_end + 1);
    if !char_at(input, end_at, ';') {
        return None;
    }
    Some((path, end_at + 1))
}

/// The package statement at `pos`: `package`, at least one word break, a
/// dotted name, and `;`.
#[verifier::opaque]
pub open spec fn spec_package(s: Seq<u8>, pos: int) -> Option<(Seq<char>, nat)> {
    match skip_breaks1(s, pos + "package"@.len()) {
        Some(name_at) => {
            let end_at = skip_breaks(s, name_at + word_len(s, name_at));
            if spec_tag(s, pos, "package"@) && spec_char_at(s, end_at, ';') {
                Some((word_at(s, name_at), (end_at + 1 - pos) as nat))
            } else {
                None
            }
        },
        None => None,
    }
}

/// Parses the package statement at `pos`.
pub fn package(input: &[u8], pos: usize) -> (r: Option<(String, usize)>)
    requires
        pos <= input.len(),
    ensures
        agrees(r, input@, pos, spec_package(input@, pos as int)),
{
    proof {
        reveal(spec_package);
    }
    let keyword_end: usize = match tag(input, pos, "package") {
        Some(end) => end,
        None => {
            return None;
        },
    };
    let name_at: usize = match breaks1(input, keyword_end) {
        Some(at) => at,
        None => {
            return None;
        },
    };
    let (name, name_end) = word(input, name_at);
    let end_at: usize = breaks(input, name_end);
    if !char_at(input, end_at, ';') {
        return None;
    }
    Some((name, end_at + 1))
}

/// One extension of `extendee` for each of `fields`, in their order.
pub open spec fn spec_extend_all(extendee: Seq<char>, fields: Seq<FieldModel>) -> Seq<
    ExtensionModel,
> {
    Seq::new(fields.len(), |i: int| ExtensionModel { extendee, field: fields[i] })
}

/// Makes one extension of `extendee` for each of `fields`.
pub fn extend_all(extendee: String, fields: Vec<Field>) -> (r: Vec<Extension>)
    ensures
        r.deep_view() == spec_extend_all(extendee@, fields.deep_view()),
{
    let ghost all = fields.deep_view();
    let mut extensions: Vec<Extension> = Vec::new();
    proof {
        lemma_empty_model(extensions);
    }
    for field in it: fields
        invariant
            it.seq() == fields@,
            all == fields.deep_view(),
            extensions.deep_view() == spec_extend_all(extendee@, all.take(it.index())),
    {
        let ghost before = extensions;
        let extension = Extension { extendee: extendee.clone(), field };
        extensions.push(extension);
        proof {
            lemma_push_model(before, extension, extensions);
            assert(extensions.deep_view() =~= spec_extend_all(
                extendee@,
                all.take(it.index() + 1),
            ));
        }
    }
    assert(all.take(all.len() as int) =~= all);
    extensions
}

/// The extend block at `pos`: `extend`, at least one word break, the dotted
/// name of the extended type, and a brace body of fields. Each field gives one
/// extension of that type.
#[verifier::opaque]
pub open spec fn spec_extensions(s: Seq<u8>, pos: int) -> Option<(Seq<ExtensionModel>, nat)> {
    match skip_breaks1(s, pos + "extend"@.len()) {
        Some(name_at) => {
            let body_at = skip_breaks(s, name_at + word_len(s, name_at));
            match spec_fields_in_braces(s, body_at, true) {
                Some((fields, n)) => if spec_tag(s, pos, "extend"@) {
                    Some(
                        (
                            spec_extend_all(word_at(s, name_at), fields),
                            (body_at + n - pos) as nat,
                        ),
                    )
                } else {
                    None
                },
                None => None,
            }
        },
        None => None,
    }
}

/// Parses the extend block at `pos`.
pub fn extensions(input: &[u8], pos: usize) -> (r: Option<(Vec<Extension>, usize)>)
    requires
        pos <= input.len(),
    ensures
        agrees(r, input@, pos, spec_extensions(input@, pos as int)),
{
    proof {
        reveal(spec_extensions);
    }
    let keyword_end: usize = match tag(input, pos, "extend") {
        Some(end) => end,
        None => {
            return None;
        },
    };
    let name_at: usize = match breaks1(input, keyword_end) {
        Some(at) => at,
        None => {
            return None;
        },
    };
    let (extendee, name_end) = word(input, name_at);
    let body_at: usize = breaks(input, name_end);
    match fields_in_braces(input, body_at, true) {
        Some((fields, end)) => Some((extend_all(extendee, fields), end)),
        None => None,
    }
}

/// Length of the option statement at `pos`: `option`, at least one word
/// break, and everything up to and including the next `;`, wherever that `;`
/// stands.
#[verifier::opaque]
pub open spec fn spec_option_ignore(s: Seq<u8>, pos: int) -> Option<nat> {
    match skip_breaks1(s, pos + "option"@.len()) {
        Some(body_at) => match spec_past(s, body_at, ";"@) {
            Some(n) => if spec_tag(s, pos, "option"@) {
                Some((body_at + n - pos) as nat)
            } else {
                None
            },
            None => None,
        },
        None => None,
    }
}

/// Skips the option statement at `pos`.
pub fn option_ignore(input: &[u8], pos: usize) -> (r: Option<usize>)
    requires
        pos <= input.len(),
    ensures
        match r {
            Some(end) => spec_option_ignore(input@, pos as int) == Some((end - pos) as nat) && pos
                <= end <= input.len(),
            None => spec_option_ignore(input@, pos as int) is None,
        },
{
    proof {
        reveal(spec_option_ignore);
    }
    let keyword_end: usize = match tag(input, pos, "option") {
        Some(end) => end,
        None => {
            return None;
        },
    };
    match breaks1(input, keyword_end) {
        Some(body_at) => past(input, body_at, ";"),
        None => None,
    }
}

/// Length of the service block at `pos`: `service`, at least one word break,
/// a name, `{`, and everything up to and including the next `}`. Braces
/// inside the block are not paired up: the first `}` ends it.
#[verifier::opaque]
pub open spec fn spec_service_ignore(s: Seq<u8>, pos: int) -> Option<nat> {
    match skip_breaks1(s, pos + "service"@.len()) {
        Some(name_at) => {
            let open_at = skip_breaks(s, name_at + word_len(s, name_at));
            match spec_past(s, open_at + 1, "}"@) {
                Some(n) => if spec_tag(s, pos, "service"@) && spec_char_at(s, open_at, '{') {
                    Some((open_at + 1 + n - pos) as nat)
                } else {
                    None
                },
                None => None,
            }
        },
        None => None,
    }
}

/// Skips the service block at `pos`.
pub fn service_ignore(input: &[u8], pos: usize) -> (r: Option<usize>)
    requires
        pos <= input.len(),
    ensures
        match r {
            Some(end) => spec_service_ignore(input@, pos as int) == Some((end - pos) as nat)
                && pos <= end <= input.len(),
            None => spec_service_ignore(input@, pos as int) is None,
        },
{
    proof {
        reveal(spec_service_ignore);
    }
    let keyword_end: usize = match tag(input, pos, "service") {
        Some(end) => end,
        None => {
            return None;
        },
    };
    let name_at: usize = match breaks1(input, keyword_end) {
        Some(at) => at,
        None => {
            return None;
        },
    };
    let (_, name_end) = word(input, name_at);
    let open_at: usize = breaks(input, name_end);
    if !char_at(input, open_at, '{') {
        return None;
    }
    past(input, open_at + 1, "}")
}

/// What stands at one place of a file's top level.
#[derive(Debug, PartialEq, Eq)]
pub enum Event {
    Syntax(Syntax),
    Import(String),
    Package(String),
    Message(Message),
    Enum(Enumeration),
    Extensions(Vec<Extension>),
    /// A word break, an option statement or a service block.
    Ignore,
}

/// Model of an [`Event`].
pub enum EventModel {
    Syntax(Syntax),
    Import(Seq<char>),
    Package(Seq<char>),
    Message(MessageModel),
    Enum(EnumerationModel),
    Extensions(Seq<ExtensionModel>),
    Ignore,
}

impl DeepView for Event {
    type V = EventModel;

    open spec fn deep_view(&self) -> EventModel {
        match self {
            Event::Syntax(syntax) => EventModel::Syntax(*syntax),
            Event::Import(path) => EventModel::Import(path@),
            Event::Package(name) => EventModel::Package(name@),
            Event::Message(message) => EventModel::Message(message@),
            Event::Enum(enumeration) => EventModel::Enum(enumeration@),
            Event::Extensions(extensions) => EventModel::Extensions(extensions.deep_view()),
            Event::Ignore => EventModel::Ignore,
        }
    }
}

/// The file `d` after one more event of its top level. An import, a message,
/// an enum or the extensions of an extend block go to the end of their list;
/// a syntax or package statement takes the place of an earlier one; what is
/// skipped changes nothing.
pub open spec fn spec_apply_event(d: FileModel, event: EventModel) -> FileModel {
    match event {
        EventModel::Syntax(syntax) => FileModel { syntax, ..d },
        EventModel::Import(path) => FileModel { import_paths: d.import_paths.push(path), ..d },
        EventModel::Package(package) => FileModel { package, ..d },
        EventModel::Message(message) => FileModel { messages: d.messages.push(message), ..d },
        EventModel::Enum(enumeration) => FileModel { enums: d.enums.push(enumeration), ..d },
        EventModel::Extensions(extensions) => FileModel {
            extensions: d.extensions + extensions,
            ..d
        },
        EventModel::Ignore => d,
    }
}

/// The file whose top level holds `events`, in their order.
pub open spec fn spec_assemble_file(events: Seq<EventModel>) -> FileModel
    decreases events.len(),
{
    if events.len() == 0 {
        empty_file()
    } else {
        spec_apply_event(spec_assemble_file(events.drop_last()), events.last())
    }
}

/// Adds one event of its top level to the file.
pub fn apply_event(descriptor: &mut FileDescriptor, event: Event)
    ensures
        final(descriptor)@ == spec_apply_event(old(descriptor)@, event.deep_view()),
{
    let ghost before = *descriptor;
    match event {
        Event::Syntax(syntax) => {
            descriptor.syntax = syntax;
        },
        Event::Import(path) => {
            descriptor.import_paths.push(path);
            proof {
                lemma_push_model(before.import_paths, path, descriptor.import_paths);
            }
        },
        Event::Package(package) => {
            descriptor.package = package;
        },
        Event::Message(message) => {
            descriptor.messages.push(message);
            proof {
                lemma_push_model(before.messages, message, descriptor.messages);
            }
        },
        Event::Enum(enumeration) => {
            descriptor.enums.push(enumeration);
            proof {
                lemma_push_model(before.enums, enumeration, descriptor.enums);
            }
        },
        Event::Extensions(extensions) => {
            let mut extensions = extensions;
            let ghost more = extensions;
            descriptor.extensions.append(&mut extensions);
            proof {
                lemma_append_model(before.extensions, more, descriptor.extensions);
            }
        },
        Event::Ignore => {},
    }
}

/// Builds the file from the events of its top level.
pub fn assemble_file(events: Vec<Event>) -> (descriptor: FileDescriptor)
    ensures
        descriptor@ == spec_assemble_file(events.deep_view()),
{
    let ghost all = events.deep_view();
    let mut descriptor = FileDescriptor::default();
    for event in it: events
        invariant
            it.seq() == events@,
            all == events.deep_view(),
            descriptor@ == spec_assemble_file(all.take(it.index())),
    {
        proof {
            assert(all.take(it.index() + 1).drop_last() =~= all.take(it.index()));
        }
        apply_event(&mut descriptor, event);
    }
    assert(all.take(all.len() as int) =~= all);
    descriptor
}

/// What is skipped at `pos`: an option statement, else a service block, else
/// a word break.
pub open spec fn spec_skipped(s: Seq<u8>, pos: int) -> Option<nat> {
    if spec_option_ignore(s, pos) is Some {
        spec_option_ignore(s, pos)
    } else if spec_service_ignore(s, pos) is Some {
        spec_service_ignore(s, pos)
    } else {
        br_len(s, pos)
    }
}

/// The event at `pos` of a file's top level. The first of these that matches
/// decides: a syntax statement, an import, a package statement, a message, an
/// enum, an extend block, an option statement, a service block, a word break.
pub open spec fn spec_event(s: Seq<u8>, pos: int) -> Option<(EventModel, nat)> {
    match spec_syntax(s, pos) {
        Some((syntax, n)) => Some((EventModel::Syntax(syntax), n)),
        None => match spec_import(s, pos) {
            Some((path, n)) => Some((EventModel::Import(path), n)),
            None => match spec_package(s, pos) {
                Some((package, n)) => Some((EventModel::Package(package), n)),
                None => match spec_message(s, pos) {
                    Some((message, n)) => Some((EventModel::Message(message), n)),
                    None => match spec_enumerator(s, pos) {
                        Some((enumeration, n)) => Some((EventModel::Enum(enumeration), n)),
                        None => match spec_extensions(s, pos) {
                            Some((extensions, n)) => Some(
                                (EventModel::Extensions(extensions), n),
                            ),
                            None => match spec_skipped(s, pos) {
                                Some(n) => Some((EventModel::Ignore, n)),
                                None => None,
                            },
                        },
                    },
                },
            },
        },
    }
}

/// Parses the event at `pos` of a file's top level.
pub fn event(input: &[u8], pos: usize) -> (r: Option<(Event, usize)>)
    requires
        pos <= input.len(),
    ensures
        agrees(r, input@, pos, spec_event(input@, pos as int)),
{
    match syntax(input, pos) {
        Some((found, end)) => {
            return Some((Event::Syntax(found), end));
        },
        None => {},
    }
    match import(input, pos) {
        Some((path, end)) => {
            return Some((Event::Import(path), end));
        },
        None => {},
    }
    match package(input, pos) {
        Some((name, end)) => {
            return Some((Event::Package(name), end));
        },
        None => {},
    }
    match message(input, pos) {
        Some((found, end)) => {
            return Some((Event::Message(found), end));
        },
        None => {},
    }
    match enumerator(input, pos) {
        Some((found, end)) => {
            return Some((Event::Enum(found), end));
        },
        None => {},
    }
    match extensions(input, pos) {
        Some((found, end)) => {
            return Some((Event::Extensions(found), end));
        },
        None => {},
    }
    match option_ignore(input, pos) {
        Some(end) => {
            return Some((Event::Ignore, end));
        },
        None => {},
    }
    match service_ignore(input, pos) {
        Some(end) => {
            return Some((Event::Ignore, end));
        },
        None => {},
    }
    match br(input, pos) {
        Some(end) => Some((Event::Ignore, end)),
        None => None,
    }
}

/// The events of a file's top level from `pos` on: as many as follow one
/// another before the end of the input, each taking at least one byte.
pub open spec fn spec_events(s: Seq<u8>, pos: int) -> (Seq<EventModel>, nat)
    decreases rest(s, pos),
{
    if pos >= s.len() {
        (Seq::empty(), 0)
    } else {
        match spec_event(s, pos) {
            Some((first, n)) => if n > 0 {
                let (others, m) = spec_events(s, pos + n);
                (seq![first] + others, n + m)
            } else {
                (Seq::empty(), 0)
            },
            None => (Seq::empty(), 0),
        }
    }
}

/// Parses the events of a file's top level from `pos` on.
pub fn events(input: &[u8], pos: usize) -> (r: (Vec<Event>, usize))
    requires
        pos <= input.len(),
    ensures
        r.0.deep_view() == spec_events(input@, pos as int).0,
        r.1 == pos + spec_events(input@, pos as int).1,
        r.1 <= input.len(),
{
    let mut found: Vec<Event> = Vec::new();
    let mut p: usize = pos;
    proof {
        lemma_empty_model(found);
    }
    while p < input.len()
        invariant
            pos <= p <= input.len(),
            spec_events(input@, pos as int).0 == found.deep_view() + spec_events(
                input@,
                p as int,
            ).0,
            spec_events(input@, pos as int).1 == (p - pos) + spec_events(input@, p as int).1,
        ensures
            pos <= p <= input.len(),
            spec_events(input@, pos as int).0 == found.deep_view(),
            spec_events(input@, pos as int).1 == p - pos,
        decreases input.len() - p,
    {
        match event(input, p) {
            Some((next, end)) => {
                if end == p {
                    assert(found.deep_view() + Seq::empty() =~= found.deep_view());
                    break ;
                }
                let ghost before = found;
                found.push(next);
                proof {
                    lemma_push_model(before, next, found);
                    lemma_push_then_rest(
                        before.deep_view(),
                        next.deep_view(),
                        spec_events(input@, end as int).0,
                    );
                }
                p = end;
            },
            None => {
                assert(found.deep_view() + Seq::empty() =~= found.deep_view());
                break ;
            },
        }
    }
    proof {
        assert(found.deep_view() + Seq::empty() =~= found.deep_view());
    }
    (found, p)
}

/// What the top level of `s` declares up to where its events stop, and the
/// offset at which they stop.
pub open spec fn spec_file_descriptor(s: Seq<u8>) -> (FileModel, nat) {
    (spec_assemble_file(spec_events(s, 0).0), spec_events(s, 0).1)
}

/// Parses the events at the front of `input` and returns what they declare
/// with the offset at which they stop. Input is left over where no event
/// stands at that offset.
pub fn file_descriptor(input: &[u8]) -> (r: (FileDescriptor, usize))
    ensures
        r.0@ == spec_file_descriptor(input@).0,
        r.1 == spec_file_descriptor(input@).1,
        r.1 <= input.len(),
{
    let (found, end) = events(input, 0);
    (assemble_file(found), end)
}

/// Why a file could not be parsed: no statement of the top level stands at
/// byte `offset`, where the statements before it end.
#[derive(Debug, Clone, Copy, PartialEq, Eq)]
pub struct ParseError {
    pub offset: usize,
}

impl FileDescriptor {
    /// Parses a whole schema file. It succeeds where the statements of the top
    /// level take the file to its last byte; otherwise nothing is returned but
    /// the offset at which they stop.
    pub fn parse(file: &[u8]) -> (r: Result<FileDescriptor, ParseError>)
        ensures
            match r {
                Ok(descriptor) => spec_file_descriptor(file@) == (descriptor@, file@.len()),
                Err(error) => error.offset == spec_file_descriptor(file@).1 && error.offset
                    < file@.len(),
            },
    {
        let (descriptor, end) = file_descriptor(file);
        if end == file.len() {
            Ok(descriptor)
        } else {
            Err(ParseError { offset: end })
        }
    }
}

} // verus!
