//! The descriptor tree of one schema file, and the mathematical model of each
//! node that the parser's contracts are stated over.
//!
//! Every executable type has a model type next to it. A model holds the same
//! data with `Seq` in place of `Vec` and `String`, all the way down, so that two
//! trees with equal models hold equal text and numbers at every level.

use std::ops::Range;
use vstd::prelude::*;

verus! {

/// Syntax version that a schema file declares.
#[derive(Debug, Clone, Copy, PartialEq, Eq)]
pub enum Syntax {
    Proto2,
    Proto3,
}

/// Multiplicity keyword in front of a field.
#[derive(Debug, Clone, Copy, PartialEq, Eq)]
pub enum Rule {
    Optional,
    Repeated,
    Required,
}

/// Type of a field. A user-defined type is kept by the name it was written
/// with; nothing here looks the name up.
#[derive(Debug, PartialEq, Eq)]
pub enum FieldType {
    Int32,
    Int64,
    Uint32,
    Uint64,
    Sint32,
    Sint64,
    Fixed32,
    Sfixed32,
    Fixed64,
    Sfixed64,
    Bool,
    String,
    RefCountedString,
    Bytes,
    RefCountedBytes,
    Float,
    Double,
    /// `group`, with the fields of its brace body.
    Group(Vec<Field>),
    /// `map<K, V>`: the key type first, the value type second.
    MapOf(Box<(FieldType, FieldType)>),
    /// A message or enum type, by the dotted name as written.
    MessageOrEnum(String),
}

/// One field declaration.
#[derive(Debug, PartialEq, Eq)]
pub struct Field {
    pub name: String,
    pub rule: Rule,
    pub typ: FieldType,
    pub number: i32,
    /// Text of the `default` attribute exactly as written, quotes included.
    pub default: Option<String>,
    pub packed: bool,
    pub deprecated: bool,
}

/// A `oneof` with its member fields.
#[derive(Debug, PartialEq, Eq)]
pub struct OneOf {
    pub name: String,
    pub fields: Vec<Field>,
}

/// One named number of an enum.
#[derive(Debug, PartialEq, Eq)]
pub struct EnumValue {
    pub name: String,
    pub number: i32,
}

/// An enum with its values in declaration order.
#[derive(Debug, PartialEq, Eq)]
pub struct Enumeration {
    pub name: String,
    pub values: Vec<EnumValue>,
}

/// A message with everything declared in its body, each list in declaration
/// order. Members of a `oneof` are listed under the `oneof` only.
#[derive(Debug, PartialEq, Eq)]
pub struct Message {
    pub name: String,
    pub fields: Vec<Field>,
    pub oneofs: Vec<OneOf>,
    /// Half-open ranges of reserved field numbers.
    pub reserved_nums: Vec<Range<i32>>,
    pub reserved_names: Vec<String>,
    pub messages: Vec<Message>,
    pub enums: Vec<Enumeration>,
}

/// One field of an `extend` block, with the name of the type it extends.
#[derive(Debug, PartialEq, Eq)]
pub struct Extension {
    pub extendee: String,
    pub field: Field,
}

/// Everything one schema file declares.
#[derive(Debug, PartialEq, Eq)]
pub struct FileDescriptor {
    pub import_paths: Vec<String>,
    pub package: String,
    pub syntax: Syntax,
    pub messages: Vec<Message>,
    pub enums: Vec<Enumeration>,
    pub extensions: Vec<Extension>,
}

/// Model of a [`FieldType`].
pub enum FieldTypeModel {
    Int32,
    Int64,
    Uint32,
    Uint64,
    Sint32,
    Sint64,
    Fixed32,
    Sfixed32,
    Fixed64,
    Sfixed64,
    Bool,
    String,
    RefCountedString,
    Bytes,
    RefCountedBytes,
    Float,
    Double,
    Group(Seq<FieldModel>),
    MapOf(Box<FieldTypeModel>, Box<FieldTypeModel>),
    MessageOrEnum(Seq<char>),
}

/// Model of a [`Field`].
pub struct FieldModel {
    pub name: Seq<char>,
    pub rule: Rule,
    pub typ: FieldTypeModel,
    pub number: i32,
    pub default: Option<Seq<char>>,
    pub packed: bool,
    pub deprecated: bool,
}

/// Model of a [`OneOf`].
pub struct OneOfModel {
    pub name: Seq<char>,
    pub fields: Seq<FieldModel>,
}

/// Model of an [`EnumValue`].
pub struct EnumValueModel {
    pub name: Seq<char>,
    pub number: i32,
}

/// Model of an [`Enumeration`].
pub struct EnumerationModel {
    pub name: Seq<char>,
    pub values: Seq<EnumValueModel>,
}

/// Model of a [`Message`].
pub struct MessageModel {
    pub name: Seq<char>,
    pub fields: Seq<FieldModel>,
    pub oneofs: Seq<OneOfModel>,
    pub reserved_nums: Seq<Range<i32>>,
    pub reserved_names: Seq<Seq<char>>,
    pub messages: Seq<MessageModel>,
    pub enums: Seq<EnumerationModel>,
}

/// Model of an [`Extension`].
pub struct ExtensionModel {
    pub extendee: Seq<char>,
    pub field: FieldModel,
}

/// Model of a [`FileDescriptor`].
pub struct FileModel {
    pub import_paths: Seq<Seq<char>>,
    pub package: Seq<char>,
    pub syntax: Syntax,
    pub messages: Seq<MessageModel>,
    pub enums: Seq<EnumerationModel>,
    pub extensions: Seq<ExtensionModel>,
}

/// The model of a field type: the same variant, with the model of what it holds.
pub open spec fn field_type_model(t: FieldType) -> FieldTypeModel
    decreases t,
{
    match t {
        FieldType::Int32 => FieldTypeModel::Int32,
        FieldType::Int64 => FieldTypeModel::Int64,
        FieldType::Uint32 => FieldTypeModel::Uint32,
        FieldType::Uint64 => FieldTypeModel::Uint64,
        FieldType::Sint32 => FieldTypeModel::Sint32,
        FieldType::Sint64 => FieldTypeModel::Sint64,
        FieldType::Fixed32 => FieldTypeModel::Fixed32,
        FieldType::Sfixed32 => FieldTypeModel::Sfixed32,
        FieldType::Fixed64 => FieldTypeModel::Fixed64,
        FieldType::Sfixed64 => FieldTypeModel::Sfixed64,
        FieldType::Bool => FieldTypeModel::Bool,
        FieldType::String => FieldTypeModel::String,
        FieldType::RefCountedString => FieldTypeModel::RefCountedString,
        FieldType::Bytes => FieldTypeModel::Bytes,
        FieldType::RefCountedBytes => FieldTypeModel::RefCountedBytes,
        FieldType::Float => FieldTypeModel::Float,
        FieldType::Double => FieldTypeModel::Double,
        FieldType::Group(fields) => FieldTypeModel::Group(
            Seq::new(
                fields@.len(),
                |i: int|
                    if 0 <= i < fields@.len() {
                        field_model(fields@[i])
                    } else {
                        arbitrary()
                    },
            ),
        ),
        FieldType::MapOf(kv) => FieldTypeModel::MapOf(
            Box::new(field_type_model(kv.0)),
            Box::new(field_type_model(kv.1)),
        ),
        FieldType::MessageOrEnum(name) => FieldTypeModel::MessageOrEnum(name@),
    }
}

/// The model of a field.
pub open spec fn field_model(f: Field) -> FieldModel
    decreases f,
{
    FieldModel {
        name: f.name@,
        rule: f.rule,
        typ: field_type_model(f.typ),
        number: f.number,
        default: match f.default {
            Some(text) => Some(text@),
            None => None,
        },
        packed: f.packed,
        deprecated: f.deprecated,
    }
}

/// The model of a message: nested messages are modelled in turn.
pub open spec fn message_model(m: Message) -> MessageModel
    decreases m,
{
    MessageModel {
        name: m.name@,
        fields: m.fields.deep_view(),
        oneofs: m.oneofs.deep_view(),
        reserved_nums: m.reserved_nums@,
        reserved_names: m.reserved_names.deep_view(),
        messages: Seq::new(
            m.messages@.len(),
            |i: int|
                if 0 <= i < m.messages@.len() {
                    message_model(m.messages@[i])
                } else {
                    arbitrary()
                },
        ),
        enums: m.enums.deep_view(),
    }
}

impl DeepView for Syntax {
    type V = Syntax;

    open spec fn deep_view(&self) -> Syntax {
        *self
    }
}

impl DeepView for Rule {
    type V = Rule;

    open spec fn deep_view(&self) -> Rule {
        *self
    }
}

impl View for FieldType {
    type V = FieldTypeModel;

    open spec fn view(&self) -> FieldTypeModel {
        field_type_model(*self)
    }
}

impl DeepView for FieldType {
    type V = FieldTypeModel;

    open spec fn deep_view(&self) -> FieldTypeModel {
        field_type_model(*self)
    }
}

impl View for Field {
    type V = FieldModel;

    open spec fn view(&self) -> FieldModel {
        field_model(*self)
    }
}

impl DeepView for Field {
    type V = FieldModel;

    open spec fn deep_view(&self) -> FieldModel {
        field_model(*self)
    }
}

impl View for OneOf {
    type V = OneOfModel;

    open spec fn view(&self) -> OneOfModel {
        OneOfModel { name: self.name@, fields: self.fields.deep_view() }
    }
}

impl DeepView for OneOf {
    type V = OneOfModel;

    open spec fn deep_view(&self) -> OneOfModel {
        self@
    }
}

impl View for EnumValue {
    type V = EnumValueModel;

    open spec fn view(&self) -> EnumValueModel {
        EnumValueModel { name: self.name@, number: self.number }
    }
}

impl DeepView for EnumValue {
    type V = EnumValueModel;

    open spec fn deep_view(&self) -> EnumValueModel {
        self@
    }
}

impl View for Enumeration {
    type V = EnumerationModel;

    open spec fn view(&self) -> EnumerationModel {
        EnumerationModel { name: self.name@, values: self.values.deep_view() }
    }
}

impl DeepView for Enumeration {
    type V = EnumerationModel;

    open spec fn deep_view(&self) -> EnumerationModel {
        self@
    }
}

impl View for Message {
    type V = MessageModel;

    open spec fn view(&self) -> MessageModel {
        message_model(*self)
    }
}

impl DeepView for Message {
    type V = MessageModel;

    open spec fn deep_view(&self) -> MessageModel {
        message_model(*self)
    }
}

impl View for Extension {
    type V = ExtensionModel;

    open spec fn view(&self) -> ExtensionModel {
        ExtensionModel { extendee: self.extendee@, field: self.field@ }
    }
}

impl DeepView for Extension {
    type V = ExtensionModel;

    open spec fn deep_view(&self) -> ExtensionModel {
        self@
    }
}

impl View for FileDescriptor {
    type V = FileModel;

    open spec fn view(&self) -> FileModel {
        FileModel {
            import_paths: self.import_paths.deep_view(),
            package: self.package@,
            syntax: self.syntax,
            messages: self.messages.deep_view(),
            enums: self.enums.deep_view(),
            extensions: self.extensions.deep_view(),
        }
    }
}

impl DeepView for FileDescriptor {
    type V = FileModel;

    open spec fn deep_view(&self) -> FileModel {
        self@
    }
}

/// A group's model holds the models of the group's fields, in order.
pub proof fn lemma_group_model(fields: Vec<Field>)
    ensures
        FieldType::Group(fields)@ == FieldTypeModel::Group(fields.deep_view()),
{
    let inner = FieldType::Group(fields)@->Group_0;
    assert(inner =~= fields.deep_view());
}

/// A message's model lists the models of its nested messages, in order.
pub proof fn lemma_message_model(m: Message)
    ensures
        m@.messages == m.messages.deep_view(),
{
    assert(m@.messages =~= m.messages.deep_view());
}

/// The model of a list that grew by one item at its end.
pub proof fn lemma_push_model<T: DeepView>(before: Vec<T>, item: T, after: Vec<T>)
    requires
        after@ == before@.push(item),
    ensures
        after.deep_view() == before.deep_view().push(item.deep_view()),
{
    assert(after.deep_view() =~= before.deep_view().push(item.deep_view()));
}

/// The model of a list that took the items of another at its end.
pub proof fn lemma_append_model<T: DeepView>(before: Vec<T>, more: Vec<T>, after: Vec<T>)
    requires
        after@ == before@ + more@,
    ensures
        after.deep_view() == before.deep_view() + more.deep_view(),
{
    assert(after.deep_view() =~= before.deep_view() + more.deep_view());
}

/// The model of a list without items.
pub proof fn lemma_empty_model<T: DeepView>(list: Vec<T>)
    requires
        list@.len() == 0,
    ensures
        list.deep_view() == Seq::<T::V>::empty(),
{
    assert(list.deep_view() =~= Seq::<T::V>::empty());
}

/// Putting `item` at the end of `head` and then `tail` behind it gives what
/// `head` followed by `item` and `tail` gives.
pub proof fn lemma_push_then_rest<A>(head: Seq<A>, item: A, tail: Seq<A>)
    ensures
        head.push(item) + tail == head + (seq![item] + tail),
{
    assert(head.push(item) + tail =~= head + (seq![item] + tail));
}

impl Message {
    /// A message of the given name with an empty body.
    pub fn new(name: String) -> (m: Message)
        ensures
            m@ == empty_message(name@),
    {
        let m = Message {
            name,
            fields: Vec::new(),
            oneofs: Vec::new(),
            reserved_nums: Vec::new(),
            reserved_names: Vec::new(),
            messages: Vec::new(),
            enums: Vec::new(),
        };
        proof {
            lemma_message_model(m);
            assert(m@.fields =~= Seq::empty());
            assert(m@.oneofs =~= Seq::empty());
            assert(m@.reserved_names =~= Seq::empty());
            assert(m@.messages =~= Seq::empty());
            assert(m@.enums =~= Seq::empty());
        }
        m
    }
}

/// The model of a message that declares nothing.
pub open spec fn empty_message(name: Seq<char>) -> MessageModel {
    MessageModel {
        name,
        fields: Seq::empty(),
        oneofs: Seq::empty(),
        reserved_nums: Seq::empty(),
        reserved_names: Seq::empty(),
        messages: Seq::empty(),
        enums: Seq::empty(),
    }
}

/// The model of a file that declares nothing: syntax `Proto2`, no package.
pub open spec fn empty_file() -> FileModel {
    FileModel {
        import_paths: Seq::empty(),
        package: Seq::empty(),
        syntax: Syntax::Proto2,
        messages: Seq::empty(),
        enums: Seq::empty(),
        extensions: Seq::empty(),
    }
}

impl Default for FileDescriptor {
    /// The descriptor of an empty file.
    fn default() -> (d: FileDescriptor)
        ensures
            d@ == empty_file(),
    {
        let d = FileDescriptor {
            import_paths: Vec::new(),
            package: String::new(),
            syntax: Syntax::Proto2,
            messages: Vec::new(),
            enums: Vec::new(),
            extensions: Vec::new(),
        };
        proof {
            assert(d@.import_paths =~= Seq::empty());
            assert(d@.messages =~= Seq::empty());
            assert(d@.enums =~= Seq::empty());
            assert(d@.extensions =~= Seq::empty());
        }
        d
    }
}

} // verus!
