use bsn_scene::BsnScene;
use bsn_scene::DynProps;
use bsn_scene::FieldKind;
use bsn_scene::FieldShape;
use bsn_scene::FromBsnError;
use bsn_scene::RegistryEntry;
use bsn_scene::Scene;
use bsn_scene::SceneAsset;
use bsn_scene::SceneFromBsnError;
use bsn_scene::SceneTable;
use bsn_scene::SchematicRegistry;
use bsn_scene::registry::DynField;
use bsn_scene::registry::DynValue;

fn b(s: &[u8]) -> Vec<u8> {
    s.to_vec()
}

fn num_field(name: &[u8]) -> FieldShape {
    FieldShape { name: b(name), kind: FieldKind::Num }
}

fn entry(path: &[u8], short: &[u8], id: u64, fields: Vec<FieldShape>) -> RegistryEntry {
    RegistryEntry {
        type_path: b(path),
        short_name: b(short),
        type_id: id,
        has_schematic: true,
        fields,
    }
}

fn registry() -> SchematicRegistry {
    SchematicRegistry {
        entries: vec![
            entry(b"demo::P", b"P", 1, vec![num_field(b"a"), num_field(b"b")]),
            entry(b"demo::Foo", b"Foo", 2, vec![num_field(b"x"), num_field(b"y")]),
            entry(b"demo::Bar", b"Bar", 3, Vec::new()),
            entry(b"demo::Baz", b"Baz", 4, Vec::new()),
        ],
    }
}

fn empty_table() -> SceneTable {
    SceneTable { scenes: Vec::new() }
}

fn set(v: u64) -> Option<DynValue> {
    Some(DynValue::Num(v))
}

#[test]
fn merge_overlapping_configs_by_type_id() {
    let bsn = BsnScene::parse_str(b"(P { a: 1 } P { b: 2 })").unwrap();
    let scene = Scene::from_bsn(bsn, &registry(), &empty_table()).unwrap();
    assert_eq!(scene.root.schematics.len(), 1);
    let sch = &scene.root.schematics[0];
    assert_eq!(sch.type_id, 1);
    let expected = DynProps {
        fields: vec![
            DynField { name: b(b"a"), prop: set(1) },
            DynField { name: b(b"b"), prop: set(2) },
        ],
    };
    assert_eq!(sch.props, expected);
}

#[test]
fn subscene_inlining_donates_name_merges_bags_and_prepends_children() {
    let reg = registry();
    let inner_bsn = BsnScene::parse_str(b"#Inner(Foo { x: 1 }) [ Bar ]").unwrap();
    let inner = Scene::from_bsn(inner_bsn, &reg, &empty_table()).unwrap();
    let table = SceneTable { scenes: vec![SceneAsset { path: b(b"inner.bsn"), scene: inner }] };

    let outer_bsn = BsnScene::parse_str(b"(Foo { y: 2 } @\"inner.bsn\") [ Baz ]").unwrap();
    let outer = Scene::from_bsn(outer_bsn, &reg, &table).unwrap();

    assert_eq!(outer.root.name, Some(b(b"Inner")));
    assert_eq!(outer.root.schematics.len(), 1);
    let sch = &outer.root.schematics[0];
    assert_eq!(sch.type_id, 2);
    let expected = DynProps {
        fields: vec![
            DynField { name: b(b"x"), prop: set(1) },
            DynField { name: b(b"y"), prop: set(2) },
        ],
    };
    assert_eq!(sch.props, expected);
    assert_eq!(outer.root.children.len(), 2);
    assert_eq!(outer.root.children[0].schematics[0].type_id, 3);
    assert_eq!(outer.root.children[1].schematics[0].type_id, 4);
}

#[test]
fn own_name_is_kept_over_subscene_name() {
    let reg = registry();
    let inner_bsn = BsnScene::parse_str(b"#Inner(Foo { x: 1 })").unwrap();
    let inner = Scene::from_bsn(inner_bsn, &reg, &empty_table()).unwrap();
    let table = SceneTable { scenes: vec![SceneAsset { path: b(b"inner.bsn"), scene: inner }] };

    let outer_bsn = BsnScene::parse_str(b"#Outer(@\"inner.bsn\")").unwrap();
    let outer = Scene::from_bsn(outer_bsn, &reg, &table).unwrap();
    assert_eq!(outer.root.name, Some(b(b"Outer")));
}

#[test]
fn unregistered_type_path_fails() {
    let bsn = BsnScene::parse_str(b"Nope").unwrap();
    let err = Scene::from_bsn(bsn, &registry(), &empty_table()).unwrap_err();
    assert_eq!(err, SceneFromBsnError::UnregisteredTypePath { type_path: b(b"Nope") });
}

#[test]
fn missing_schematic_registration_fails() {
    let reg = SchematicRegistry {
        entries: vec![RegistryEntry {
            type_path: b(b"demo::Plain"),
            short_name: b(b"Plain"),
            type_id: 9,
            has_schematic: false,
            fields: Vec::new(),
        }],
    };
    let bsn = BsnScene::parse_str(b"Plain").unwrap();
    let err = Scene::from_bsn(bsn, &reg, &empty_table()).unwrap_err();
    assert_eq!(
        err,
        SceneFromBsnError::MissingSchematicRegistrationForValue { type_path: b(b"Plain") }
    );
}

#[test]
fn unknown_field_fails() {
    let bsn = BsnScene::parse_str(b"P { c: 3 }").unwrap();
    let err = Scene::from_bsn(bsn, &registry(), &empty_table()).unwrap_err();
    assert_eq!(
        err,
        SceneFromBsnError::FromBsnError(FromBsnError::UnexpectedField(b(b"c")))
    );
}

#[test]
fn missing_subscene_fails() {
    let bsn = BsnScene::parse_str(b"@\"nowhere.bsn\"").unwrap();
    let err = Scene::from_bsn(bsn, &registry(), &empty_table()).unwrap_err();
    assert_eq!(err, SceneFromBsnError::LoadSceneError { path: b(b"nowhere.bsn") });
}

#[test]
fn full_path_lookup_comes_before_short_name() {
    let bsn = BsnScene::parse_str(b"demo::P { a: 5 }").unwrap();
    let scene = Scene::from_bsn(bsn, &registry(), &empty_table()).unwrap();
    assert_eq!(scene.root.schematics[0].type_id, 1);
}

#[test]
fn empty_tuple_body_decodes_to_all_unset() {
    let bsn = BsnScene::parse_str(b"P").unwrap();
    let scene = Scene::from_bsn(bsn, &registry(), &empty_table()).unwrap();
    let expected = DynProps {
        fields: vec![
            DynField { name: b(b"a"), prop: None },
            DynField { name: b(b"b"), prop: None },
        ],
    };
    assert_eq!(scene.root.schematics[0].props, expected);
}
