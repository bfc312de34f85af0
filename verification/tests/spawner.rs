use bsn_scene::BsnScene;
use bsn_scene::ReapplyOutcome;
use bsn_scene::Scene;
use bsn_scene::SceneSpawner;
use bsn_scene::SceneTable;
use bsn_scene::SpawnScene;
use bsn_scene::FieldKind;
use bsn_scene::FieldShape;
use bsn_scene::RegistryEntry;
use bsn_scene::SchematicRegistry;

#[test]
fn waiters_drain_in_arrival_order() {
    let mut spawner = SceneSpawner::new(false);
    spawner.push_waiting(SpawnScene { entity: 10, handle: 7 });
    spawner.push_waiting(SpawnScene { entity: 11, handle: 7 });
    spawner.push_waiting(SpawnScene { entity: 12, handle: 9 });

    let drained = spawner.take_waiting(7);
    assert_eq!(
        drained,
        vec![
            SpawnScene { entity: 10, handle: 7 },
            SpawnScene { entity: 11, handle: 7 },
        ]
    );
    let drained_again = spawner.take_waiting(7);
    assert_eq!(drained_again, Vec::<SpawnScene>::new());
    let other = spawner.take_waiting(9);
    assert_eq!(other, vec![SpawnScene { entity: 12, handle: 9 }]);
}

#[test]
fn reload_drops_exactly_the_missing_roots() {
    let mut spawner = SceneSpawner::new(true);
    spawner.record_spawned(5, 1);
    spawner.record_spawned(5, 2);
    spawner.record_spawned(5, 3);
    spawner.record_spawned(8, 40);

    let roots = spawner.begin_reload(5);
    assert_eq!(roots, vec![1, 2, 3]);
    let outcomes = vec![ReapplyOutcome::Done, ReapplyOutcome::Missing, ReapplyOutcome::Failed];
    spawner.end_reload(5, &roots, &outcomes);

    let kept = spawner.begin_reload(5);
    assert_eq!(kept, vec![1, 3]);
    let untouched = spawner.begin_reload(8);
    assert_eq!(untouched, vec![40]);
}

#[test]
fn recording_a_root_twice_keeps_it_once() {
    let mut spawner = SceneSpawner::new(true);
    spawner.record_spawned(5, 1);
    spawner.record_spawned(5, 1);
    let roots = spawner.begin_reload(5);
    assert_eq!(roots, vec![1]);
}

#[test]
fn tracking_is_off_without_change_watching() {
    let mut spawner = SceneSpawner::new(false);
    spawner.record_spawned(5, 1);
    let roots = spawner.begin_reload(5);
    assert_eq!(roots, Vec::<u64>::new());
}

#[test]
fn queued_commands_are_a_set() {
    let mut spawner = SceneSpawner::new(false);
    spawner.queue_command(3);
    spawner.queue_command(3);
    spawner.queue_command(4);
    assert_eq!(spawner.queued_commands, vec![3, 4]);
}

#[test]
fn queue_keeps_requests_in_order() {
    let mut spawner = SceneSpawner::new(false);
    spawner.queue(SpawnScene { entity: 1, handle: 2 });
    spawner.queue(SpawnScene { entity: 3, handle: 2 });
    assert_eq!(
        spawner.queued,
        vec![SpawnScene { entity: 1, handle: 2 }, SpawnScene { entity: 3, handle: 2 }]
    );
}

#[test]
fn reapplying_a_scene_leaves_the_component_set_unchanged() {
    let reg = SchematicRegistry {
        entries: vec![
            RegistryEntry {
                type_path: b"demo::P".to_vec(),
                short_name: b"P".to_vec(),
                type_id: 1,
                has_schematic: true,
                fields: vec![FieldShape { name: b"a".to_vec(), kind: FieldKind::Num }],
            },
            RegistryEntry {
                type_path: b"demo::Bar".to_vec(),
                short_name: b"Bar".to_vec(),
                type_id: 3,
                has_schematic: true,
                fields: Vec::new(),
            },
        ],
    };
    let bsn = BsnScene::parse_str(b"(P { a: 1 } Bar)").unwrap();
    let scene = Scene::from_bsn(bsn, &reg, &SceneTable { scenes: Vec::new() }).unwrap();

    let mut components: Vec<u64> = vec![99];
    scene.root.apply_ids(&mut components);
    let after_first = components.clone();
    scene.root.apply_ids(&mut components);
    assert_eq!(components, after_first);
    assert_eq!(components, vec![99, 1, 3]);
}
