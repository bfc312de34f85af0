use bsn_scene::BsnEntity;
use bsn_scene::BsnEntityConfig;
use bsn_scene::BsnEnum;
use bsn_scene::BsnField;
use bsn_scene::BsnScene;
use bsn_scene::BsnStruct;
use bsn_scene::BsnValue;
use bsn_scene::Cursor;
use bsn_scene::Parse;
use bsn_scene::ParseSceneError;
use bsn_scene::SchematicType;

const SCENE: &[u8] = br#"
Div:X { hello: 123 world: { key: 49 } } [
    Thing(1, 2)
    #SomeName(Thing(3) Marker @"scene.bsn")
    Some:Value
    Div { value: 7 }
]
"#;

fn b(s: &[u8]) -> Vec<u8> {
    s.to_vec()
}

#[test]
fn parse() {
    let bsn = BsnScene::parse(&mut Cursor::new(SCENE)).unwrap();
    let expected = BsnScene {
        root: BsnEntity {
            name: None,
            configs: vec![BsnEntityConfig::Schematic {
                type_path: b(b"Div"),
                schematic_type: SchematicType::Enum(BsnEnum {
                    variant: b(b"X"),
                    struct_type: BsnStruct::NamedFields(vec![
                        BsnField {
                            name: b(b"hello"),
                            value: BsnValue::Number(b(b"123")),
                        },
                        BsnField {
                            name: b(b"world"),
                            value: BsnValue::Struct(BsnStruct::NamedFields(vec![BsnField {
                                name: b(b"key"),
                                value: BsnValue::Number(b(b"49")),
                            }])),
                        },
                    ]),
                }),
            }],
            children: vec![
                BsnEntity {
                    name: None,
                    configs: vec![BsnEntityConfig::Schematic {
                        type_path: b(b"Thing"),
                        schematic_type: SchematicType::Struct(BsnStruct::Tuple(vec![
                            BsnValue::Number(b(b"1")),
                            BsnValue::Number(b(b"2")),
                        ])),
                    }],
                    children: Vec::new(),
                },
                BsnEntity {
                    name: Some(b(b"SomeName")),
                    configs: vec![
                        BsnEntityConfig::Schematic {
                            type_path: b(b"Thing"),
                            schematic_type: SchematicType::Struct(BsnStruct::Tuple(vec![
                                BsnValue::Number(b(b"3")),
                            ])),
                        },
                        BsnEntityConfig::Schematic {
                            type_path: b(b"Marker"),
                            schematic_type: SchematicType::Struct(BsnStruct::Tuple(Vec::new())),
                        },
                        BsnEntityConfig::Scene { path: b(b"scene.bsn") },
                    ],
                    children: Vec::new(),
                },
                BsnEntity {
                    name: None,
                    configs: vec![BsnEntityConfig::Schematic {
                        type_path: b(b"Some"),
                        schematic_type: SchematicType::Enum(BsnEnum {
                            variant: b(b"Value"),
                            struct_type: BsnStruct::Tuple(Vec::new()),
                        }),
                    }],
                    children: Vec::new(),
                },
                BsnEntity {
                    name: None,
                    configs: vec![BsnEntityConfig::Schematic {
                        type_path: b(b"Div"),
                        schematic_type: SchematicType::Struct(BsnStruct::NamedFields(vec![
                            BsnField {
                                name: b(b"value"),
                                value: BsnValue::Number(b(b"7")),
                            },
                        ])),
                    }],
                    children: Vec::new(),
                },
            ],
        },
    };
    assert_eq!(bsn, expected);
}

#[test]
fn empty_body_is_empty_tuple() {
    let bsn = BsnScene::parse_str(b"Marker").unwrap();
    let expected = BsnScene {
        root: BsnEntity {
            name: None,
            configs: vec![BsnEntityConfig::Schematic {
                type_path: b(b"Marker"),
                schematic_type: SchematicType::Struct(BsnStruct::Tuple(Vec::new())),
            }],
            children: Vec::new(),
        },
    };
    assert_eq!(bsn, expected);
}

#[test]
fn tuple_comma_required() {
    let err = BsnScene::parse_str(b"Thing(1 2)").unwrap_err();
    assert_eq!(err, ParseSceneError::TupleStructMissingComma);
}

#[test]
fn field_names_are_lowercase() {
    let err = BsnScene::parse_str(b"A { Field: 1 }").unwrap_err();
    assert_eq!(err, ParseSceneError::InvalidFieldCharacter(b'F'));
}

#[test]
fn generic_instances_cannot_be_enum_variants() {
    let err = BsnScene::parse_str(b"A<B>:X").unwrap_err();
    assert_eq!(err, ParseSceneError::GenericInstancesCannotBeEnumVariants);
}

#[test]
fn numbers_are_kept_as_written() {
    let bsn = BsnScene::parse_str(b"Thing(007, 120)").unwrap();
    let expected_configs = vec![BsnEntityConfig::Schematic {
        type_path: b(b"Thing"),
        schematic_type: SchematicType::Struct(BsnStruct::Tuple(vec![
            BsnValue::Number(b(b"007")),
            BsnValue::Number(b(b"120")),
        ])),
    }];
    assert_eq!(bsn.root.configs, expected_configs);
}

#[test]
fn strings_are_kept_byte_for_byte() {
    let bsn = BsnScene::parse_str(b"Thing(\"a b\\c \")").unwrap();
    let expected_configs = vec![BsnEntityConfig::Schematic {
        type_path: b(b"Thing"),
        schematic_type: SchematicType::Struct(BsnStruct::Tuple(vec![BsnValue::String(b(
            b"a b\\c ",
        ))])),
    }];
    assert_eq!(bsn.root.configs, expected_configs);
}

#[test]
fn whitespace_between_tokens_is_insignificant() {
    let tight = BsnScene::parse_str(b"Div{value:7}[Thing(1, 2)]").unwrap();
    let airy = BsnScene::parse_str(b"Div  {\n  value: \t 7\n }\r\n [\n  Thing( 1 ,  2 )\n ]").unwrap();
    assert_eq!(tight, airy);
}

#[test]
fn unexpected_trailing_byte_fails() {
    let err = BsnScene::parse_str(b"Marker ]").unwrap_err();
    assert_eq!(err, ParseSceneError::UnexpectedChar(b']'));
}

#[test]
fn type_paths_may_join_segments_and_generics() {
    let bsn = BsnScene::parse_str(b"ui::widgets::Div<Inner>").unwrap();
    let expected_configs = vec![BsnEntityConfig::Schematic {
        type_path: b(b"ui::widgets::Div<Inner>"),
        schematic_type: SchematicType::Struct(BsnStruct::Tuple(Vec::new())),
    }];
    assert_eq!(bsn.root.configs, expected_configs);
}

#[test]
fn unterminated_string_fails() {
    let err = BsnScene::parse_str(b"Thing(\"abc").unwrap_err();
    assert_eq!(
        err,
        ParseSceneError::ExpectedClosingChar { closing: b'"', found: b' ' }
    );
}

#[test]
fn empty_input_fails() {
    let err = BsnScene::parse_str(b"").unwrap_err();
    assert_eq!(err, ParseSceneError::NoCharError);
}
