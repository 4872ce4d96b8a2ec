use proto_parser::descriptor::{FieldType, FileDescriptor};
use proto_parser::file::option_ignore;
use proto_parser::message::{enumerator, message};

#[test]
fn test_message() {
    let msg = r#"message ReferenceData
    {
        repeated ScenarioInfo  scenarioSet = 1;
        repeated CalculatedObjectInfo calculatedObjectSet = 2;
        repeated RiskFactorList riskFactorListSet = 3;
        repeated RiskMaturityInfo riskMaturitySet = 4;
        repeated IndicatorInfo indicatorSet = 5;
        repeated RiskStrikeInfo riskStrikeSet = 6;
        repeated FreeProjectionList freeProjectionListSet = 7;
        repeated ValidationProperty ValidationSet = 8;
        repeated CalcProperties calcPropertiesSet = 9;
        repeated MaturityInfo maturitySet = 10;
    }"#;

    let mess = message(msg.as_bytes(), 0);
    if let Some((mess, _)) = mess {
        assert_eq!(10, mess.fields.len());
    }
}

#[test]
fn test_enum() {
    let msg = r#"enum PairingStatus {
                DEALPAIRED        = 0;
                INVENTORYORPHAN   = 1;
                CALCULATEDORPHAN  = 2;
                CANCELED          = 3;
    }"#;

    let enumeration = enumerator(msg.as_bytes(), 0);
    if let Some((mess, _)) = enumeration {
        assert_eq!(4, mess.values.len());
    }
}

#[test]
fn test_ignore() {
    let msg = r#"option optimize_for = SPEED;"#;

    match option_ignore(msg.as_bytes(), 0) {
        Some(_) => (),
        e => panic!("Expecting done {:?}", e),
    }
}

#[test]
fn test_import() {
    let msg = r#"syntax = "proto3";

    import "test_import_nested_imported_pb.proto";

    message ContainsImportedNested {
        optional ContainerForNested.NestedMessage m = 1;
        optional ContainerForNested.NestedEnum e = 2;
    }
    "#;
    let desc = FileDescriptor::parse(msg.as_bytes()).unwrap();
    assert_eq!(
        vec!["test_import_nested_imported_pb.proto"],
        desc.import_paths
    );
}

#[test]
fn test_package() {
    let msg = r#"
        package foo.bar;

    message ContainsImportedNested {
        optional ContainerForNested.NestedMessage m = 1;
        optional ContainerForNested.NestedEnum e = 2;
    }
    "#;
    let desc = FileDescriptor::parse(msg.as_bytes()).unwrap();
    assert_eq!("foo.bar".to_string(), desc.package);
}

#[test]
fn test_nested_message() {
    let msg = r#"message A
    {
        message B {
            repeated int32 a = 1;
            optional string b = 2;
        }
        optional b = 1;
    }"#;

    let mess = message(msg.as_bytes(), 0);
    if let Some((mess, _)) = mess {
        assert!(mess.messages.len() == 1);
    }
}

#[test]
fn test_map() {
    let msg = r#"message A
    {
        optional map<string, int32> b = 1;
    }"#;

    let mess = message(msg.as_bytes(), 0);
    if let Some((mess, _)) = mess {
        assert_eq!(1, mess.fields.len());
        match mess.fields[0].typ {
            FieldType::MapOf(ref f) => match &**f {
                &(FieldType::String, FieldType::Int32) => (),
                ref f => panic!("Expecting Map<String, Int32> found {:?}", f),
            },
            ref f => panic!("Expecting map, got {:?}", f),
        }
    } else {
        panic!("Could not parse map message");
    }
}

#[test]
fn test_oneof() {
    let msg = r#"message A
    {
        optional int32 a1 = 1;
        oneof a_oneof {
            string a2 = 2;
            int32 a3 = 3;
            bytes a4 = 4;
        }
        repeated bool a5 = 5;
    }"#;

    let mess = message(msg.as_bytes(), 0);
    if let Some((mess, _)) = mess {
        assert_eq!(1, mess.oneofs.len());
        assert_eq!(3, mess.oneofs[0].fields.len());
    }
}

#[test]
fn test_reserved() {
    let msg = r#"message Sample {
       reserved 4, 15, 17 to 20, 30;
       reserved "foo", "bar";
       uint64 age =1;
       bytes name =2;
    }"#;

    let mess = message(msg.as_bytes(), 0);
    if let Some((mess, _)) = mess {
        assert_eq!(vec![4..5, 15..16, 17..21, 30..31], mess.reserved_nums);
        assert_eq!(
            vec!["foo".to_string(), "bar".to_string()],
            mess.reserved_names
        );
        assert_eq!(2, mess.fields.len());
    } else {
        panic!("Could not parse reserved fields message");
    }
}

#[test]
fn test_default_value_int() {
    let msg = r#"message Sample {
            optional int32 x = 1 [default = 17];
        }"#;

    let mess = message(msg.as_bytes(), 0).unwrap().0;
    assert_eq!("17", mess.fields[0].default.as_ref().expect("default"));
}

#[test]
fn test_default_value_string() {
    let msg = r#"message Sample {
            optional string x = 1 [default = "ab\nc d\"g\'h\0\"z"];
        }"#;

    let mess = message(msg.as_bytes(), 0).unwrap().0;
    assert_eq!(
        r#""ab\nc d\"g\'h\0\"z""#,
        mess.fields[0].default.as_ref().expect("default")
    );
}

#[test]
fn test_default_value_bytes() {
    let msg = r#"message Sample {
            optional bytes x = 1 [default = "ab\nc d\xfeE\"g\'h\0\"z"];
        }"#;

    let mess = message(msg.as_bytes(), 0).unwrap().0;
    assert_eq!(
        r#""ab\nc d\xfeE\"g\'h\0\"z""#,
        mess.fields[0].default.as_ref().expect("default")
    );
}

#[test]
fn test_group() {
    let msg = r#"message MessageWithGroup {
            optional string aaa = 1;

            repeated group Identifier = 18 {
                optional int32 iii = 19;
                optional string sss = 20;
            }

            required int bbb = 3;
        }"#;
    let mess = message(msg.as_bytes(), 0).unwrap().0;

    assert_eq!("Identifier", mess.fields[1].name);
    if let FieldType::Group(ref group_fields) = mess.fields[1].typ {
        assert_eq!(2, group_fields.len());
    } else {
        panic!("expecting group");
    }

    assert_eq!("bbb", mess.fields[2].name);
}

#[test]
fn test_incorrect_file_descriptor() {
    let msg = r#"
            message Foo {}

            dfgdg
        "#;

    assert!(FileDescriptor::parse(msg.as_bytes()).is_err());
}

#[test]
fn test_extend() {
    let proto = r#"
            syntax = "proto2";

            extend google.protobuf.FileOptions {
                optional bool foo = 17001;
                optional string bar = 17002;
            }

            extend google.protobuf.MessageOptions {
                optional bool baz = 17003;
            }
        "#;

    let fd = FileDescriptor::parse(proto.as_bytes()).expect("fd");
    assert_eq!(3, fd.extensions.len());
    assert_eq!("google.protobuf.FileOptions", fd.extensions[0].extendee);
    assert_eq!("google.protobuf.FileOptions", fd.extensions[1].extendee);
    assert_eq!("google.protobuf.MessageOptions", fd.extensions[2].extendee);
    assert_eq!(17003, fd.extensions[2].field.number);
}
