use proto_parser::descriptor::{
    EnumValue, Field, FieldType, FileDescriptor, Message, Rule, Syntax,
};
use proto_parser::field::{
    field_head, field_list, field_type, fields_in_braces, is_group, keyword_type, map_field,
    message_field, rule, with_group_fields,
};
use proto_parser::file::{
    apply_event, assemble_file, event, events, extend_all, extensions, file_descriptor, import,
    option_ignore, package, service_ignore, syntax, Event, ParseError,
};
use proto_parser::message::{
    apply_message_event, assemble_message, body_end, enum_value, enum_values, enumerator,
    inclusive, message, message_event, message_events, name_list, num_range, one_of,
    reserved_item, reserved_items, reserved_name, reserved_names, reserved_nums, separators,
    MessageEvent,
};

fn plain(name: &str, typ: FieldType, number: i32) -> Field {
    Field {
        name: name.to_string(),
        rule: Rule::Optional,
        typ,
        number,
        default: None,
        packed: false,
        deprecated: false,
    }
}

#[test]
fn rule_keywords() {
    assert_eq!(Some((Rule::Optional, 8)), rule(b"optional x", 0));
    assert_eq!(Some((Rule::Repeated, 8)), rule(b"repeated x", 0));
    assert_eq!(Some((Rule::Required, 8)), rule(b"required x", 0));
    assert_eq!(None, rule(b"option x", 0));
}

#[test]
fn type_keywords() {
    let cases: Vec<(&str, FieldType)> = vec![
        ("int32", FieldType::Int32),
        ("int64", FieldType::Int64),
        ("uint32", FieldType::Uint32),
        ("uint64", FieldType::Uint64),
        ("sint32", FieldType::Sint32),
        ("sint64", FieldType::Sint64),
        ("fixed32", FieldType::Fixed32),
        ("sfixed32", FieldType::Sfixed32),
        ("fixed64", FieldType::Fixed64),
        ("sfixed64", FieldType::Sfixed64),
        ("bool", FieldType::Bool),
        ("string", FieldType::String),
        ("ref_counted_string", FieldType::RefCountedString),
        ("bytes", FieldType::Bytes),
        ("ref_counted_bytes", FieldType::RefCountedBytes),
        ("float", FieldType::Float),
        ("double", FieldType::Double),
        ("group", FieldType::Group(Vec::new())),
    ];
    for (text, typ) in cases {
        let padded = format!("  {} x", text);
        assert_eq!(
            Some((typ, 2 + text.len())),
            keyword_type(padded.as_bytes(), 2),
            "{}",
            text
        );
    }
    assert_eq!(None, keyword_type(b"int", 0));
    assert_eq!(None, keyword_type(b"Foo", 0));
}

#[test]
fn a_name_is_a_type_where_no_keyword_stands() {
    assert_eq!(
        Some((FieldType::MessageOrEnum("a.B".to_string()), 3)),
        field_type(b"a.B x", 0)
    );
    assert_eq!(
        Some((FieldType::MessageOrEnum("mapping".to_string()), 7)),
        field_type(b"mapping x", 0)
    );
    assert_eq!(
        Some((FieldType::MessageOrEnum(String::new()), 0)),
        field_type(b"= 1", 0)
    );
    // a keyword is taken wherever its letters stand
    assert_eq!(Some((FieldType::Int32, 5)), field_type(b"int32x", 0));
}

#[test]
fn map_types_keep_key_then_value() {
    assert_eq!(
        Some((
            FieldType::MapOf(Box::new((FieldType::String, FieldType::Int32))),
            18
        )),
        field_type(b"map<string, int32> b", 0)
    );
    assert_eq!(
        Some((
            FieldType::MapOf(Box::new((FieldType::Int32, FieldType::String))),
            25
        )),
        map_field(b"map < int32 /*k*/,string>", 0)
    );
    assert_eq!(
        Some((
            FieldType::MapOf(Box::new((
                FieldType::Uint64,
                FieldType::MapOf(Box::new((
                    FieldType::Bool,
                    FieldType::MessageOrEnum("a.B".to_string())
                )))
            ))),
            26
        )),
        map_field(b"map<uint64,map<bool, a.B>>", 0)
    );
    // no word break may stand in front of the closing bracket
    assert_eq!(None, map_field(b"map<string, int32 >", 0));
    assert_eq!(None, map_field(b"map<string int32>", 0));
    assert_eq!(None, map_field(b"string", 0));
}

#[test]
fn field_declarations() {
    assert_eq!(
        Some((plain("age", FieldType::Uint64, 1), 14)),
        message_field(b"uint64 age =1;", 0, true)
    );
    let mut expected = plain("x", FieldType::Int32, 7);
    expected.rule = Rule::Repeated;
    expected.packed = true;
    expected.deprecated = true;
    expected.default = Some("3".to_string());
    assert_eq!(
        Some((expected, 69)),
        message_field(
            b"repeated int32 x = 7 [packed=true] [default = 3][deprecated = true ];",
            0,
            true
        )
    );
    assert_eq!(
        Some((plain("", FieldType::MessageOrEnum("b".to_string()), 1), 15)),
        message_field(b"optional b = 1;", 0, true)
    );
    assert_eq!(None, message_field(b"int32 x = 1", 0, true));
    assert_eq!(None, message_field(b"int32 x 1;", 0, true));
    assert_eq!(None, message_field(b"int32x = 1;", 0, true));
    assert_eq!(None, message_field(b"int32 x = 2147483648;", 0, true));
    assert_eq!(None, message_field(b"int32 x = 0x10;", 0, true));
    assert_eq!(None, message_field(b"int32 x = -1;", 0, true));
}

#[test]
fn a_field_head_ends_where_the_end_of_the_field_is_due() {
    assert_eq!(
        Some((plain("x", FieldType::Int32, 1), 12)),
        field_head(b"int32 x = 1 ;", 0, true)
    );
    assert_eq!(
        Some((plain("g", FieldType::Group(Vec::new()), 2), 12)),
        field_head(b"group g = 2 { }", 0, true)
    );
}

#[test]
fn the_rule_keyword_is_read_only_where_it_may_stand() {
    let mut required = plain("x", FieldType::Int32, 1);
    required.rule = Rule::Required;
    assert_eq!(
        Some((required, 19)),
        message_field(b"required int32 x=1;", 0, true)
    );
    assert_eq!(None, message_field(b"required int32 x=1;", 0, false));
    assert_eq!(
        Some((plain("x", FieldType::Int32, 1), 10)),
        message_field(b"int32 x=1;", 0, false)
    );
}

#[test]
fn a_malformed_truth_value_is_no_field() {
    assert_eq!(None, message_field(b"int32 x = 1 [packed = maybe];", 0, true));
    assert_eq!(None, message_field(b"int32 x = 1 [deprecated = 1];", 0, true));
    assert_eq!(
        None,
        message_field(b"int32 x = 1 [packed=yes] [packed=true];", 0, true)
    );
    let msg = b"message A { optional int32 x = 1 [packed = maybe]; }";
    assert_eq!(
        Err(ParseError { offset: 0 }),
        FileDescriptor::parse(msg)
    );
}

#[test]
fn a_group_takes_the_fields_of_its_body() {
    let (field, end) = message_field(
        b"repeated group G = 1 { optional int32 a = 2;\n string b = 3; } x",
        0,
        true,
    )
    .unwrap();
    assert_eq!(61, end);
    assert!(is_group(&field));
    assert_eq!(
        FieldType::Group(vec![
            plain("a", FieldType::Int32, 2),
            plain("b", FieldType::String, 3)
        ]),
        field.typ
    );
    // without a body the group holds no fields
    let (bare, _) = message_field(b"optional group G = 1;", 0, true).unwrap();
    assert_eq!(FieldType::Group(Vec::new()), bare.typ);
    // a body behind another type is not taken
    assert_eq!(None, message_field(b"int32 x = 1 { int32 a = 2; }", 0, true));
    assert!(!is_group(&plain("x", FieldType::Int32, 1)));
    let rebuilt = with_group_fields(
        plain("g", FieldType::Group(Vec::new()), 4),
        vec![plain("a", FieldType::Bool, 5)],
    );
    assert_eq!(
        plain("g", FieldType::Group(vec![plain("a", FieldType::Bool, 5)]), 4),
        rebuilt
    );
}

#[test]
fn brace_bodies_hold_fields_one_word_break_apart() {
    assert_eq!(
        Some((
            vec![plain("a", FieldType::Int32, 1), plain("b", FieldType::Bool, 2)],
            27
        )),
        fields_in_braces(b"{ int32 a = 1; bool b = 2;}", 0, true)
    );
    assert_eq!(Some((Vec::new(), 3)), fields_in_braces(b"{ }", 0, true));
    // two fields need a word break between them
    assert_eq!(None, fields_in_braces(b"{int32 a=1;bool b=2;}", 0, true));
    assert_eq!(None, fields_in_braces(b"{ int32 a = 1;", 0, true));
    assert_eq!(None, fields_in_braces(b"int32 a = 1; }", 0, true));
    let (fields, end) = field_list(b"int32 a = 1; /* c */ bool b = 2;  }", 0, true);
    assert_eq!(2, fields.len());
    assert_eq!(32, end);
    let (none, end) = field_list(b"}", 0, true);
    assert!(none.is_empty());
    assert_eq!(0, end);
}

#[test]
fn reserved_numbers() {
    assert_eq!(Some((17..21, 8)), num_range(b"17 to 20;", 0));
    assert_eq!(None, num_range(b"17to 20", 0));
    assert_eq!(None, num_range(b"17 to20", 0));
    assert_eq!(None, num_range(b"17", 0));
    assert_eq!(Some((4..5, 1)), reserved_item(b"4,", 0));
    assert_eq!(Some((1..3, 6)), reserved_item(b"1 to 2", 0));
    assert_eq!(
        (vec![4..5, 15..16, 17..21, 30..31], 19),
        reserved_items(b"4, 15, 17 to 20 ,30;", 0)
    );
    // a comma that no item follows is not taken
    assert_eq!((vec![1..2], 1), reserved_items(b"1, ;", 0));
    assert_eq!(
        Some((vec![4..5, 15..16, 17..21, 30..31], 29)),
        reserved_nums(b"reserved 4, 15, 17 to 20, 30;", 0)
    );
    assert_eq!(Some((Vec::new(), 10)), reserved_nums(b"reserved ;", 0));
    assert_eq!(None, reserved_nums(b"reserved 1", 0));
    assert_eq!(None, reserved_nums(b"reserved1;", 0));
    assert_eq!(None, reserved_nums(b"reserved \"a\";", 0));
}

#[test]
fn the_end_of_a_reserved_range_saturates() {
    assert_eq!(2147483647..2147483647, inclusive(2147483647, 2147483647));
    assert_eq!(1..2147483647, inclusive(1, 2147483647));
    assert_eq!(1..2147483647, inclusive(1, 2147483646));
    assert_eq!(0..1, inclusive(0, 0));
    assert_eq!(
        Some((vec![2147483647..2147483647, 5..2147483647], 38)),
        reserved_nums(b"reserved 2147483647, 5 to 2147483647 ;x", 0)
    );
}

#[test]
fn reserved_names_with_commas_or_word_breaks() {
    let expected = vec!["foo".to_string(), "bar".to_string()];
    assert_eq!(
        Some((expected.clone(), 22)),
        reserved_names(b"reserved \"foo\", \"bar\";", 0)
    );
    assert_eq!(
        Some((expected.clone(), 21)),
        reserved_names(b"reserved \"foo\" \"bar\";", 0)
    );
    assert_eq!(
        Some((expected.clone(), 20)),
        reserved_names(b"reserved \"foo\"\"bar\";", 0)
    );
    assert_eq!(
        Some((expected, 33)),
        reserved_names(b"reserved \"foo\" ,, /* x */\n\"bar\" ;", 0)
    );
    assert_eq!(None, reserved_names(b"reserved ;", 0));
    assert_eq!(None, reserved_names(b"reserved \"foo\"", 0));
    assert_eq!(None, reserved_names(b"reserved \"fo o\";", 0));
    assert_eq!(Some(("a".to_string(), 6)), reserved_name(b"\"a\" , x", 0));
    assert_eq!(5, separators(b", ,, x", 0));
    assert_eq!((vec!["a".to_string()], 3), name_list(b"\"a\"x", 0));
}

#[test]
fn enums() {
    assert_eq!(
        Some((
            EnumValue {
                name: "A".to_string(),
                number: 16
            },
            10
        )),
        enum_value(b"A = 0x10; B", 0)
    );
    assert_eq!(None, enum_value(b"A = 0x80000000;", 0));
    assert_eq!(None, enum_value(b"A = -1;", 0));
    assert_eq!(None, enum_value(b"A = 1", 0));
    let (values, end) = enum_values(b"A=0;B=1; }", 0);
    assert_eq!(2, values.len());
    assert_eq!(9, end);
    let (found, end) = enumerator(b"enum E { A = 0; B = 0x7fffffff; } ;; x", 0).unwrap();
    assert_eq!("E", found.name);
    assert_eq!(
        vec![
            EnumValue {
                name: "A".to_string(),
                number: 0
            },
            EnumValue {
                name: "B".to_string(),
                number: 2147483647
            }
        ],
        found.values
    );
    assert_eq!(36, end);
    assert_eq!(None, enumerator(b"enum E { A = 0; ", 0));
    assert_eq!(None, enumerator(b"enumE { }", 0));
    assert_eq!(Some(4), body_end(b"} ;;x", 0));
    assert_eq!(None, body_end(b";}", 0));
}

#[test]
fn a_oneof_keeps_its_members_to_itself() {
    let msg = b"message A { int32 a = 1; oneof o { string b = 2; bool c = 3; } int32 d = 4; }";
    let (found, _) = message(msg, 0).unwrap();
    assert_eq!(
        vec![plain("a", FieldType::Int32, 1), plain("d", FieldType::Int32, 4)],
        found.fields
    );
    assert_eq!(1, found.oneofs.len());
    assert_eq!("o", found.oneofs[0].name);
    assert_eq!(
        vec![plain("b", FieldType::String, 2), plain("c", FieldType::Bool, 3)],
        found.oneofs[0].fields
    );
    // a member of a oneof has no rule keyword
    assert_eq!(None, one_of(b"oneof o { optional string b = 2; }", 0));
    assert!(FileDescriptor::parse(b"message A { oneof o { optional string b = 2; } }").is_err());
    let (empty, end) = one_of(b"oneof o { } x", 0).unwrap();
    assert!(empty.fields.is_empty());
    assert_eq!(12, end);
}

#[test]
fn fields_come_in_declaration_order_whatever_stands_between() {
    let plain_text = b"message M{int32 a=1;bool b=2;string c=3;}";
    let spaced = b"message M /* m */ {\n// first\n int32 a = 1 ;\n\n/* second */ bool b=2; // x\n\t string c = 3;\n}\n";
    let expected = vec![
        plain("a", FieldType::Int32, 1),
        plain("b", FieldType::Bool, 2),
        plain("c", FieldType::String, 3),
    ];
    assert_eq!(expected, message(plain_text, 0).unwrap().0.fields);
    assert_eq!(expected, message(spaced, 0).unwrap().0.fields);
}

#[test]
fn a_later_reserved_statement_replaces_an_earlier_one() {
    let msg = b"message M { reserved 1; reserved \"a\"; reserved 2 to 3; reserved \"b\", \"c\"; }";
    let (found, _) = message(msg, 0).unwrap();
    assert_eq!(vec![2..4], found.reserved_nums);
    assert_eq!(vec!["b".to_string(), "c".to_string()], found.reserved_names);
}

#[test]
fn message_events_and_assembly() {
    assert_eq!(
        Some((MessageEvent::Ignore, 2)),
        message_event(b"  }", 0)
    );
    assert_eq!(
        Some((MessageEvent::ReservedNums(vec![1..2]), 11)),
        message_event(b"reserved 1;", 0)
    );
    assert_eq!(None, message_event(b"}", 0));
    let (found, end) = message_events(b"int32 a = 1; enum E { } message N { } }", 0);
    assert_eq!(38, end);
    assert_eq!(4, found.len());
    let built = assemble_message("M".to_string(), found);
    assert_eq!("M", built.name);
    assert_eq!(1, built.fields.len());
    assert_eq!(1, built.enums.len());
    assert_eq!(1, built.messages.len());
    assert_eq!("N", built.messages[0].name);
    let mut target = Message::new("T".to_string());
    apply_message_event(&mut target, MessageEvent::Ignore);
    assert_eq!(Message::new("T".to_string()), target);
    apply_message_event(&mut target, MessageEvent::ReservedNames(vec!["x".to_string()]));
    assert_eq!(vec!["x".to_string()], target.reserved_names);
}

#[test]
fn nested_messages() {
    let msg = b"message A { message B { message C { } } int32 x = 1; };;";
    let (found, end) = message(msg, 0).unwrap();
    assert_eq!(msg.len(), end);
    assert_eq!("B", found.messages[0].name);
    assert_eq!("C", found.messages[0].messages[0].name);
    assert_eq!(1, found.fields.len());
    assert_eq!(None, message(b"message A { message B { }", 0));
    assert_eq!(None, message(b"messageA { }", 0));
}

#[test]
fn syntax_import_and_package_statements() {
    assert_eq!(Some((Syntax::Proto3, 18)), syntax(b"syntax = \"proto3\";", 0));
    assert_eq!(Some((Syntax::Proto2, 16)), syntax(b"syntax=\"proto2\";", 0));
    assert_eq!(None, syntax(b"syntax = \"proto4\";", 0));
    assert_eq!(None, syntax(b"syntax = proto3;", 0));
    assert_eq!(
        Some(("a/b.proto".to_string(), 19)),
        import(b"import \"a/b.proto\";", 0)
    );
    assert_eq!(Some((String::new(), 10)), import(b"import \"\";", 0));
    assert_eq!(None, import(b"import\"a\";", 0));
    assert_eq!(None, import(b"import \"a;", 0));
    assert_eq!(None, import(b"import \"\xff\";", 0));
    assert_eq!(
        Some(("foo.bar".to_string(), 17)),
        package(b"package foo.bar ;", 0)
    );
    assert_eq!(None, package(b"package foo bar;", 0));
}

#[test]
fn syntax_and_import_of_a_file() {
    let desc = FileDescriptor::parse(b"syntax = \"proto3\";\nimport \"x.proto\";\n").unwrap();
    assert_eq!(vec!["x.proto".to_string()], desc.import_paths);
    assert_eq!(Syntax::Proto3, desc.syntax);
}

#[test]
fn the_last_syntax_and_package_statement_decides() {
    let text = b"syntax = \"proto3\"; package a; import \"1\"; syntax = \"proto2\"; package b.c; import \"2\";";
    let desc = FileDescriptor::parse(text).unwrap();
    assert_eq!(Syntax::Proto2, desc.syntax);
    assert_eq!("b.c", desc.package);
    assert_eq!(vec!["1".to_string(), "2".to_string()], desc.import_paths);
}

#[test]
fn an_empty_file_declares_nothing() {
    let desc = FileDescriptor::parse(b"").unwrap();
    assert_eq!(FileDescriptor::default(), desc);
    assert_eq!(Syntax::Proto2, desc.syntax);
    assert_eq!("", desc.package);
    assert!(desc.import_paths.is_empty() && desc.messages.is_empty());
    assert!(desc.enums.is_empty() && desc.extensions.is_empty());
    assert_eq!(
        FileDescriptor::default(),
        FileDescriptor::parse(b" \n// only a comment\n/* and another */ ").unwrap()
    );
}

#[test]
fn extend_blocks_give_one_extension_for_each_field() {
    let (found, end) = extensions(b"extend a.B { optional bool x = 1; string y = 2; } z", 0).unwrap();
    assert_eq!(49, end);
    assert_eq!(2, found.len());
    assert_eq!("a.B", found[0].extendee);
    assert_eq!("a.B", found[1].extendee);
    assert_eq!("x", found[0].field.name);
    assert_eq!(plain("y", FieldType::String, 2), found[1].field);
    assert_eq!(None, extensions(b"extend a.B x", 0));
    let made = extend_all(
        "T".to_string(),
        vec![plain("a", FieldType::Bool, 1), plain("b", FieldType::Bool, 2)],
    );
    assert_eq!(2, made.len());
    assert_eq!("T", made[1].extendee);
    assert_eq!("b", made[1].field.name);
    assert!(extend_all("T".to_string(), Vec::new()).is_empty());
}

#[test]
fn options_and_services_are_skipped() {
    assert_eq!(Some(28), option_ignore(b"option optimize_for = SPEED; x", 0));
    assert_eq!(None, option_ignore(b"option optimize_for = SPEED", 0));
    assert_eq!(None, option_ignore(b"optional x;", 0));
    assert_eq!(Some(25), service_ignore(b"service S { rpc A (B) ; } x", 0));
    assert_eq!(None, service_ignore(b"service S { rpc A (B) ;", 0));
    assert_eq!(Some(11), service_ignore(b"service { }", 0));
    let text = b"option a = 1;\nservice S { rpc X (Y) returns (Z); }\nmessage M { }\n";
    let desc = FileDescriptor::parse(text).unwrap();
    assert_eq!(1, desc.messages.len());
    // an option ends at the first semicolon, a service at the first closing brace
    assert_eq!(Some(14), option_ignore(b"option a = \"x;y\";", 0));
    assert!(FileDescriptor::parse(b"option a = \"x;y\";").is_err());
    assert!(
        FileDescriptor::parse(b"service S { rpc X (Y) returns (Z) { option a = 1; } }").is_err()
    );
}

#[test]
fn top_level_events_and_assembly() {
    assert_eq!(Some((Event::Ignore, 1)), event(b" x", 0));
    assert_eq!(
        Some((Event::Package("p".to_string()), 10)),
        event(b"package p;", 0)
    );
    assert_eq!(None, event(b"x", 0));
    let (found, end) = events(b"package p; enum E { } x", 0);
    assert_eq!(22, end);
    assert_eq!(3, found.len());
    let desc = assemble_file(found);
    assert_eq!("p", desc.package);
    assert_eq!(1, desc.enums.len());
    let mut target = FileDescriptor::default();
    apply_event(&mut target, Event::Syntax(Syntax::Proto3));
    apply_event(&mut target, Event::Ignore);
    apply_event(&mut target, Event::Import("i".to_string()));
    assert_eq!(Syntax::Proto3, target.syntax);
    assert_eq!(vec!["i".to_string()], target.import_paths);
}

#[test]
fn a_file_fails_where_its_statements_stop() {
    let text = b"\n message Foo {}\n\n dfgdg\n";
    assert_eq!(Err(ParseError { offset: 19 }), FileDescriptor::parse(text));
    let (desc, end) = file_descriptor(text);
    assert_eq!(19, end);
    assert_eq!(1, desc.messages.len());
    assert_eq!(Err(ParseError { offset: 0 }), FileDescriptor::parse(b"x"));
    assert_eq!(
        Err(ParseError { offset: 11 }),
        FileDescriptor::parse(b"package a; // no line feed")
    );
    assert_eq!(
        Err(ParseError { offset: 0 }),
        FileDescriptor::parse(b"message A { int32 x = 99999999999; }")
    );
    let whole = b"message A { }";
    assert_eq!((1, whole.len()), {
        let (desc, end) = file_descriptor(whole);
        (desc.messages.len(), end)
    });
}
