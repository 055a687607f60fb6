use bevoids::animation::next_frame;
use bevoids::asset_map::{
    atlas_info, AssetEntry, AssetEvent, AssetMap, AssetNotice, AtlasAssetMap, AtlasDefinition, AtlasInfo,
    AtlasLoad, FontAssetMap, TextureAssetMap, TextureSize,
};
use bevoids::asteroids::{controllers_of, explosion_despawns, live_controllers, pick_random_asset, shadows_of, AsteroidMaterialError, AsteroidMaterials, Textures};
use bevoids::paths::normalise_path;
use bevoids::embedded::{directory_listing, embedded_in_directory, EmbeddedAssetPlugin};
use bevoids::controls::{control_actions, ControlActions, ControlKeys, FlameAction, Thrust, ThrusterSound, Turn, TurnSpeed};
use bevoids::hit_test::{claim_hits, first_hits};
use bevoids::scoreboard::{AddScoreEvent, ScoreBoard, ScoreBoardComponent};
use bevoids::settings::Window;
use bevoids::shadows::{wrap_displacements, ShadowPlacement};
use bevoids::spawner::{timed_spawn, AsteroidCounter, AsteroidsSpawner, SpawnerAction, TimedSpawn};
use bevoids::text::{decimal_string, padded_decimal};

#[test]
fn spawner_gives_a_breather_after_the_field_is_cleared() {
    let mut spawner = AsteroidsSpawner::new();
    assert_eq!(spawner.step(false, false), SpawnerAction::Idle);
    assert_eq!(spawner.step(false, true), SpawnerAction::SpawnAndSpeedUp);
    assert_eq!(spawner.step(true, false), SpawnerAction::StartBreather);
    assert!(spawner.paused());
    assert_eq!(spawner.step(true, false), SpawnerAction::Wait);
    assert_eq!(spawner.step(true, true), SpawnerAction::ResumeAndSpawn);
    assert!(!spawner.paused());
}

#[test]
fn paused_spawner_with_asteroids_idles() {
    let mut spawner = AsteroidsSpawner::new();
    assert_eq!(spawner.step(true, true), SpawnerAction::StartBreather);
    assert_eq!(spawner.step(false, true), SpawnerAction::Idle);
    assert!(spawner.paused());
}

#[test]
fn timed_spawns() {
    assert_eq!(timed_spawn(None), TimedSpawn::SpawnAndStartTimer);
    assert_eq!(timed_spawn(Some(true)), TimedSpawn::SpawnAndRestart);
    assert_eq!(timed_spawn(Some(false)), TimedSpawn::Wait);
}

#[test]
fn asteroid_counter_tracks_cleared_field() {
    let mut c = AsteroidCounter::new();
    assert!(c.field_cleared());
    c.record_spawned();
    c.record_spawned();
    assert!(!c.field_cleared());
    c.record_shot();
    c.record_shot();
    assert!(c.field_cleared());
    assert_eq!((c.spawned(), c.shot()), (2, 2));
}

#[test]
fn first_hit_per_laser() {
    let hits = vec![
        vec![false, true, true],
        vec![false, false, false],
        vec![true, false, true],
    ];
    assert_eq!(first_hits(&hits), vec![(0, 1), (2, 0)]);
    assert_eq!(first_hits(&vec![]), vec![]);
}

#[test]
fn each_asteroid_is_claimed_once() {
    // targets 0 and 1 are views of controller 7, target 2 of controller 9
    let hits = vec![vec![true, true, false], vec![true, false, true], vec![false, true, false]];
    let ids = vec![0, 1, 2];
    let ctrl = vec![7, 7, 9];
    assert_eq!(claim_hits(&hits, &ids, &ctrl, 1), (vec![0, 1], vec![7, 9]));
    assert_eq!(claim_hits(&hits, &ids, &ctrl, 0), (vec![], vec![]));
    assert_eq!(claim_hits(&hits, &ids, &ctrl, 2), (vec![0, 1], vec![7, 9]));
}

#[test]
fn animation_wraps_and_signals() {
    assert_eq!(next_frame(0, 3), (1, false));
    assert_eq!(next_frame(2, 3), (0, true));
    assert_eq!(next_frame(0, 1), (0, true));
}

#[test]
fn shadow_offsets() {
    let all = ShadowPlacement::all();
    assert_eq!(all.len(), 8);
    assert_eq!(all[0].offset(), (-1, 1));
    assert_eq!(ShadowPlacement::MaxW_MinH.offset(), (1, -1));
    let mut offsets: Vec<(i8, i8)> = all.iter().map(|p| p.offset()).collect();
    let mut wraps = wrap_displacements();
    offsets.sort();
    wraps.sort();
    assert_eq!(offsets, wraps);
}

#[test]
fn scoreboards() {
    let mut b = ScoreBoardComponent::reset();
    assert_eq!(b.to_string(), "Score: 0");
    b.update(&vec![AddScoreEvent(20), AddScoreEvent(22)]);
    assert_eq!(b.score(), 42);
    assert_eq!(b.to_string(), "Score: 42");
    let mut old = ScoreBoard::new();
    old.add_points(99);
    assert_eq!(old.to_string(), "Score: 99");
}

#[test]
fn number_text() {
    assert_eq!(decimal_string(0), "0");
    assert_eq!(decimal_string(90210), "90210");
    assert_eq!(padded_decimal(7, 3), "  7");
    assert_eq!(padded_decimal(12345, 3), "12345");
}

#[test]
fn asset_map_tracks_loading() {
    let mut fonts: FontAssetMap = AssetMap::requested_plain(&vec![(1, 100), (2, 200)]);
    assert_eq!(fonts.len(), 2);
    assert!(!fonts.is_empty());
    assert!(!fonts.ready());
    assert_eq!(fonts.handle_of(&2), Some(200));
    assert_eq!(fonts.handle_of(&3), None);
    assert_eq!(fonts.mark_loaded(200, ()), Some(AssetEntry { key: 2, handle: 200, request: (), loaded: Some(()) }));
    assert_eq!(fonts.iter().len(), 1);
    assert_eq!(fonts.mark_loaded(999, ()), None);
    assert_eq!(fonts.mark_loaded(100, ()).map(|e| e.key), Some(1));
    assert!(fonts.ready());
    assert_eq!(fonts.key_of_handle(100), Some(1));
}

#[test]
fn texture_map_only_returns_loaded_textures() {
    let mut tex = TextureAssetMap::with_texture_paths(&vec![(5, 50)]);
    assert_eq!(tex.get(&5), None);
    tex.mark_loaded(50, TextureSize { width: 64, height: 32 });
    assert_eq!(tex.get(&5), Some((50, TextureSize { width: 64, height: 32 })));
}

#[test]
fn atlas_keeps_its_requested_definition() {
    let grid = AtlasDefinition::Grid { columns: 9, rows: 1 };
    let mut atlas: AtlasAssetMap =
        AtlasAssetMap::with_texture_paths(&vec![(0, 9, grid), (1, 11, AtlasDefinition::Grid { columns: 2, rows: 2 })]);
    assert_eq!(atlas.get(&0), None);
    let load = AtlasLoad { atlas: 10, texture_size: TextureSize { width: 900, height: 100 } };
    let notices = atlas.monitor(&vec![AssetEvent::Created { handle: 9, info: load }]);
    let expected = AtlasInfo { atlas: 10, texture_size: TextureSize { width: 900, height: 100 }, definition: grid };
    assert_eq!(notices.len(), 1);
    match notices[0] {
        AssetNotice::Loaded(e) => {
            assert_eq!(e.key, 0);
            assert_eq!(atlas_info(&e), Some(expected));
        }
        AssetNotice::Removed(_) => panic!("expected a load notice"),
    }
    assert_eq!(atlas.get(&0), Some((9, expected)));
    assert_eq!(atlas.get(&1), None);
    assert!(!atlas.ready());
}

#[test]
fn shot_controllers_are_unique() {
    let events = vec![11, 12, 13, 11];
    let shadow_of = vec![None, Some(11), Some(20), None];
    assert_eq!(controllers_of(&events, &shadow_of), vec![11, 20]);
}

#[test]
fn random_asset_skips_last() {
    for _ in 0..100 {
        assert!(pick_random_asset(12) < 11);
    }
    assert_eq!(pick_random_asset(2), 0);
}

#[test]
fn material_pool() {
    let mut pool = AsteroidMaterials::new();
    assert_eq!(pool.pop(), Err(AsteroidMaterialError::NoMaterialsAvailable));
    pool.add(1, (10, 20));
    pool.add(2, (30, 40));
    assert_eq!(pool.pop(), Ok((2, (30, 40))));
    pool.push(2);
    // Popping and handing back keeps the same materials.
    assert_eq!(pool.len(), 2);
    let (m, _) = pool.pop().unwrap();
    assert_eq!(pool.len(), 1);
    pool.push(m);
    assert_eq!(pool.len(), 2);
    pool.push(77);
    let mut seen = vec![];
    while let Ok((m, _)) = pool.pop() {
        seen.push(m);
    }
    seen.sort();
    assert_eq!(seen, vec![1, 2]);
}

#[test]
fn textures_collect_sizes() {
    let mut t = Textures::new(1, 2, 3, vec![4, 5]);
    assert!(!t.has_size_for_all());
    for h in [1u64, 2, 3, 4] {
        t.capture_size(h, Some((8, 8)));
    }
    t.capture_size(5, None);
    assert!(!t.has_size_for_all());
    t.capture_size(5, Some((16, 16)));
    assert!(t.has_size_for_all());
    assert_eq!(t.get_size(5), Some((16, 16)));
    assert_eq!(t.get_size(6), None);
}

#[test]
fn embedded_listing() {
    let names = vec!["gfx/a.png".to_string(), "sounds/b.wav".to_string(), "gfx/c.png".to_string()];
    assert_eq!(embedded_in_directory(&names, "gfx/"), vec!["gfx/a.png".to_string(), "gfx/c.png".to_string()]);
    assert_eq!(embedded_in_directory(&names, ""), names);
    let _plugin: EmbeddedAssetPlugin<u8> = EmbeddedAssetPlugin::new();
    let _same: EmbeddedAssetPlugin<u8> = EmbeddedAssetPlugin::default();
}

#[test]
fn directory_lists_embedded_then_disk_once() {
    let names = vec!["gfx/a.png".to_string(), "sounds/b.wav".to_string(), "gfx/c.png".to_string()];
    let disk = vec!["gfx/c.png".to_string(), "gfx/d.png".to_string(), "gfx/d.png".to_string()];
    assert_eq!(
        directory_listing(&names, "gfx/", disk),
        vec!["gfx/a.png".to_string(), "gfx/c.png".to_string(), "gfx/d.png".to_string()]
    );
    assert_eq!(directory_listing(&names, "music/", vec![]), Vec::<String>::new());
    // The same path written otherwise is listed once.
    let disk = vec!["a/b".to_string(), "a//b".to_string(), "a/./b/".to_string(), "./a/b".to_string()];
    assert_eq!(directory_listing(&vec![], "", disk), vec!["a/b".to_string(), "./a/b".to_string()]);
}

#[test]
fn paths_in_plain_form() {
    assert_eq!(normalise_path("a//b/"), "a/b");
    assert_eq!(normalise_path("/./x/../y"), "/x/../y");
    assert_eq!(normalise_path("./a/./b"), "./a/b");
    assert_eq!(normalise_path("//"), "/");
    assert_eq!(normalise_path("."), ".");
    assert_eq!(normalise_path(""), "");
}

#[test]
fn only_live_controllers_explode() {
    let hit = controllers_of(&vec![5, 7, 9], &vec![None, Some(5), None]);
    assert_eq!(hit, vec![5, 9]);
    assert_eq!(live_controllers(&hit, &vec![9, 3]), vec![9]);
    assert_eq!(live_controllers(&hit, &vec![]), Vec::<u64>::new());
}

#[test]
fn explosion_despawns_controllers_with_their_shadows() {
    let shadows = vec![(10, 1), (11, 2), (12, 1), (13, 3)];
    assert_eq!(shadows_of(1, &shadows), vec![10, 12]);
    assert_eq!(shadows_of(4, &shadows), Vec::<u64>::new());
    assert_eq!(explosion_despawns(&vec![2, 1], &shadows), vec![2, 11, 1, 10, 12]);
    assert_eq!(explosion_despawns(&vec![], &shadows), Vec::<u64>::new());
}

fn keys() -> ControlKeys {
    ControlKeys {
        fire_just_pressed: false,
        left_pressed: false,
        right_pressed: false,
        fast_turn_pressed: false,
        thrust_pressed: false,
        thrust_just_pressed: false,
        thrust_just_released: false,
    }
}

#[test]
fn steering_decisions() {
    assert_eq!(
        control_actions(keys()),
        ControlActions {
            fire: false,
            turn: Turn::Straight,
            thrust: Thrust::Decelerate,
            sound: ThrusterSound::Unchanged,
            flame: FlameAction::Unchanged,
        }
    );
    let a = control_actions(ControlKeys { fire_just_pressed: true, left_pressed: true, right_pressed: true, ..keys() });
    assert!(a.fire);
    assert_eq!(a.turn, Turn::Left(TurnSpeed::Slow));
    let a = control_actions(ControlKeys { right_pressed: true, fast_turn_pressed: true, ..keys() });
    assert_eq!(a.turn, Turn::Right(TurnSpeed::Fast));
    let a = control_actions(ControlKeys { thrust_pressed: true, thrust_just_pressed: true, ..keys() });
    assert_eq!((a.thrust, a.sound, a.flame), (Thrust::Accelerate, ThrusterSound::StartLoop, FlameAction::Spawn));
    let a = control_actions(ControlKeys { thrust_pressed: true, ..keys() });
    assert_eq!((a.thrust, a.sound, a.flame), (Thrust::Accelerate, ThrusterSound::Pan, FlameAction::Unchanged));
    let a = control_actions(ControlKeys { thrust_just_released: true, ..keys() });
    assert_eq!((a.thrust, a.sound, a.flame), (Thrust::Decelerate, ThrusterSound::Stop, FlameAction::DespawnAll));
}

#[test]
fn window_settings() {
    let w = Window { width: 1024, height: 800 };
    assert_eq!((w.width, w.height), (1024, 800));
}

#[test]
fn monitoring_asset_events() {
    let mut tex = TextureAssetMap::with_texture_paths(&vec![(1, 10), (2, 20)]);
    let size = TextureSize { width: 4, height: 4 };
    let notices = tex.monitor(&vec![
        AssetEvent::Created { handle: 20, info: size },
        AssetEvent::Removed { handle: 10 },
        AssetEvent::Created { handle: 99, info: size },
        AssetEvent::Modified { handle: 10, info: size },
    ]);
    assert_eq!(
        notices,
        vec![
            AssetNotice::Loaded(AssetEntry { key: 2, handle: 20, request: (), loaded: Some(size) }),
            AssetNotice::Removed(1),
            AssetNotice::Loaded(AssetEntry { key: 1, handle: 10, request: (), loaded: Some(size) }),
        ]
    );
    assert!(tex.ready());
    assert_eq!(tex.get(&1), Some((10, size)));
    let fonts: FontAssetMap = AssetMap::with_font_paths(&vec![(7, 70)]);
    assert_eq!(fonts.get(&7), Some(70));
    assert_eq!(fonts.iter().len(), 0);
}
