use bsn_scene::AssetAction;
use bsn_scene::AssetMeta;
use bsn_scene::ProcessDependencyInfo;
use bsn_scene::ProcessedInfo;

#[test]
fn a_fresh_meta_has_the_current_version_and_no_hashes() {
    let meta: AssetMeta<(), ()> = AssetMeta::new(AssetAction::Load {
        loader: b"scene".to_vec(),
        settings: (),
    });
    assert_eq!(meta.meta_format_version, b"1.0".to_vec());
    assert!(meta.processed_info.is_none());
    assert!(meta.loader_settings().is_some());
}

#[test]
fn only_a_load_action_has_loader_settings() {
    let ignore: AssetMeta<(), ()> = AssetMeta::new(AssetAction::Ignore);
    assert!(ignore.loader_settings().is_none());
    let process: AssetMeta<(), ()> = AssetMeta::new(AssetAction::Process {
        processor: b"copy".to_vec(),
        settings: (),
    });
    assert!(process.loader_settings().is_none());
}

#[test]
fn processed_info_carries_its_hashes() {
    let mut meta: AssetMeta<(), ()> = AssetMeta::new(AssetAction::Ignore);
    meta.processed_info = Some(ProcessedInfo {
        hash: 11,
        full_hash: 22,
        process_dependencies: vec![ProcessDependencyInfo { full_hash: 33, path: b"dep.bsn".to_vec() }],
    });
    let info = meta.processed_info().as_ref().unwrap();
    assert_eq!(info.hash, 11);
    assert_eq!(info.full_hash, 22);
    assert_eq!(info.process_dependencies.len(), 1);
    assert_eq!(info.process_dependencies[0].full_hash, 33);
}
