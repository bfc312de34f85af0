use bsn_scene::BsnStruct;
use bsn_scene::BsnValue;
use bsn_scene::Div;
use bsn_scene::DivProps;
use bsn_scene::FromBsn;
use bsn_scene::FromBsnError;
use bsn_scene::Label;
use bsn_scene::LabelProps;
use bsn_scene::Prop;
use bsn_scene::Props;
use bsn_scene::Schematic;
use bsn_scene::BsnField;

fn b(s: &[u8]) -> Vec<u8> {
    s.to_vec()
}

#[test]
fn numbers_decode_by_value() {
    assert_eq!(u32::from_bsn(BsnValue::Number(b(b"123"))).unwrap(), 123);
    assert_eq!(u8::from_bsn(BsnValue::Number(b(b"255"))).unwrap(), 255);
    assert_eq!(u64::from_bsn(BsnValue::Number(b(b"18446744073709551615"))).unwrap(), u64::MAX);
    assert_eq!(u16::from_bsn(BsnValue::Number(b(b"007"))).unwrap(), 7);
}

#[test]
fn numbers_out_of_range_fail() {
    assert!(matches!(
        u8::from_bsn(BsnValue::Number(b(b"300"))),
        Err(FromBsnError::Custom(_))
    ));
    assert!(matches!(
        u64::from_bsn(BsnValue::Number(b(b"18446744073709551616"))),
        Err(FromBsnError::Custom(_))
    ));
    assert!(matches!(
        u32::from_bsn(BsnValue::Number(b(b""))),
        Err(FromBsnError::Custom(_))
    ));
}

#[test]
fn mismatched_shapes_fail() {
    assert_eq!(
        u32::from_bsn(BsnValue::String(b(b"123"))).unwrap_err(),
        FromBsnError::MismatchedType
    );
    assert_eq!(
        <Vec<u8> as FromBsn>::from_bsn(BsnValue::Number(b(b"1"))).unwrap_err(),
        FromBsnError::MismatchedType
    );
    assert_eq!(
        <() as FromBsn>::from_bsn(BsnValue::Number(b(b"1"))).unwrap_err(),
        FromBsnError::MismatchedType
    );
}

#[test]
fn strings_decode_to_their_bytes() {
    assert_eq!(
        <Vec<u8> as FromBsn>::from_bsn(BsnValue::String(b(b"hi there"))).unwrap(),
        b(b"hi there")
    );
}

#[test]
fn unit_decodes_from_the_empty_tuple() {
    <() as FromBsn>::from_bsn(BsnValue::Struct(BsnStruct::Tuple(Vec::new()))).unwrap();
}

#[test]
fn div_props_walk_named_fields() {
    let value = BsnValue::Struct(BsnStruct::NamedFields(vec![
        BsnField { name: b(b"width"), value: BsnValue::Number(b(b"3")) },
        BsnField { name: b(b"height"), value: BsnValue::Number(b(b"4")) },
    ]));
    let props = DivProps::from_bsn(value).unwrap();
    let div = Div::from_props(props).unwrap();
    assert_eq!(div, Div { width: 3, height: 4 });
}

#[test]
fn div_props_reject_unknown_fields() {
    let value = BsnValue::Struct(BsnStruct::NamedFields(vec![BsnField {
        name: b(b"depth"),
        value: BsnValue::Number(b(b"3")),
    }]));
    assert_eq!(
        DivProps::from_bsn(value).unwrap_err(),
        FromBsnError::UnexpectedField(b(b"depth"))
    );
}

#[test]
fn unset_fields_fall_back_to_defaults() {
    let props = DivProps::from_bsn(BsnValue::Struct(BsnStruct::Tuple(Vec::new()))).unwrap();
    let div = Div::from_props(props).unwrap();
    assert_eq!(div, Div { width: 0, height: 0 });
}

#[test]
fn merging_fills_only_unset_fields() {
    let mut first = DivProps { width: Prop::Value(1), height: Prop::Unset };
    let second = DivProps { width: Prop::Value(9), height: Prop::Value(2) };
    first.apply_props(&second);
    let div = Div::from_props(first).unwrap();
    assert_eq!(div, Div { width: 9, height: 2 });
}

#[test]
fn merging_with_the_default_changes_nothing() {
    let mut bag = DivProps { width: Prop::Value(1), height: Prop::Unset };
    bag.apply_props(&DivProps::default_props());
    assert_eq!(Div::from_props(bag).unwrap(), Div { width: 1, height: 0 });

    let mut empty = DivProps::default_props();
    let full = DivProps { width: Prop::Value(5), height: Prop::Value(6) };
    empty.apply_props(&full);
    assert_eq!(Div::from_props(empty).unwrap(), Div { width: 5, height: 6 });
}

#[test]
fn label_text_decodes_and_replaces_on_merge() {
    let value = BsnValue::Struct(BsnStruct::NamedFields(vec![BsnField {
        name: b(b"val"),
        value: BsnValue::String(b(b"hello")),
    }]));
    let mut props = LabelProps::from_bsn(value).unwrap();
    let second = LabelProps { val: Prop::Value(b(b"world")) };
    props.apply_props(&second);
    let label = Label::from_props(props).unwrap();
    assert_eq!(label, Label { val: b(b"world") });
}
