// Scenario tests for the stepper, the savestate manager and the reports.

use replay_core::Engine;
use replay_core::EngineError;
use replay_core::GameWindow;
use replay_core::InstanceReport;
use replay_core::InstanceReportWindow;
use replay_core::Replay;
use replay_core::RendererState;
use replay_core::RoomDef;
use replay_core::SaveState;
use replay_core::SceneChange;
use replay_core::ScriptOutcome;
use replay_core::SpriteDesc;

fn rooms() -> Vec<RoomDef> {
    vec![
        RoomDef { speed: 30, layout: vec![(1, 0, 0), (2, 16, 16)] },
        RoomDef { speed: 60, layout: vec![(7, 5, 5)] },
    ]
}

fn sprites() -> Vec<SpriteDesc> {
    vec![SpriteDesc { width: 2, height: 2, origin_x: 0, origin_y: 0 }]
}

fn fresh_engine(seed: u64) -> Engine {
    Engine::new(rooms(), sprites(), seed).unwrap()
}

fn enter_first_room(engine: &mut Engine) {
    assert!(engine.id_headroom());
    engine.request_scene_change(SceneChange::Room(0));
    let (applied, _) = engine.advance_frame(ScriptOutcome::Completed).unwrap();
    assert_eq!(applied, Some(SceneChange::Room(0)));
}

// A coarse observable fingerprint of the simulation state: ids, positions,
// depths, one dynamic field, fresh boxes, and the generator state.
fn fingerprint(engine: &mut Engine) -> Vec<(i32, i64, i64, i32, Option<i64>, i64, i64)> {
    let sp = sprites();
    let mut out = Vec::new();
    let mut iter = engine.store.iter_drawing_order();
    while let Some(h) = iter.next() {
        engine.store.update_bbox(h, &sp);
        let inst = engine.store.get(h);
        out.push((
            inst.id,
            inst.x,
            inst.y,
            inst.depth,
            engine.store.get_field_array(h, 1, 0),
            inst.bbox_left,
            inst.bbox_bottom,
        ));
    }
    out
}

#[test]
fn engine_rejects_empty_room_table() {
    assert!(Engine::new(Vec::new(), sprites(), 1).is_none());
}

#[test]
fn engine_rejects_malformed_sprites() {
    let bad = vec![SpriteDesc { width: -1, height: 2, origin_x: 0, origin_y: 0 }];
    assert!(Engine::new(rooms(), bad, 1).is_none());
}

#[test]
fn room_change_loads_layout() {
    let mut engine = fresh_engine(1);
    enter_first_room(&mut engine);
    assert_eq!(engine.room_id, 0);
    assert_eq!(engine.room_speed, 30);
    let mut iter = engine.store.iter_drawing_order();
    let h1 = iter.next().unwrap();
    let h2 = iter.next().unwrap();
    assert_eq!(iter.next(), None);
    assert_eq!(engine.store.get(h1).object_index, 1);
    assert_eq!(engine.store.get(h2).object_index, 2);
    assert_eq!(engine.store.get(h2).x, 16);
    assert_eq!(engine.store.get(h2).xstart, 16);
}

#[test]
fn unknown_room_is_fatal() {
    let mut engine = fresh_engine(1);
    assert!(engine.id_headroom());
    engine.request_scene_change(SceneChange::Room(9));
    let err = engine.advance_frame(ScriptOutcome::Completed).unwrap_err();
    assert_eq!(err, EngineError::SceneLoadFailure(9));
    assert!(engine.halted);
}

#[test]
fn script_abort_is_fatal_and_not_retried() {
    let mut engine = fresh_engine(1);
    assert!(engine.id_headroom());
    let err = engine.advance_frame(ScriptOutcome::Abort).unwrap_err();
    assert_eq!(err, EngineError::ScriptAbort);
    assert!(engine.halted);
}

#[test]
fn end_halts_the_run() {
    let mut engine = fresh_engine(1);
    assert!(engine.id_headroom());
    engine.request_scene_change(SceneChange::End);
    let (applied, _) = engine.advance_frame(ScriptOutcome::Completed).unwrap();
    assert_eq!(applied, Some(SceneChange::End));
    assert!(engine.halted);
}

#[test]
fn persistent_instance_survives_room_change() {
    let mut engine = fresh_engine(1);
    enter_first_room(&mut engine);
    let h = engine.store.allocate(42);
    let mut inst = engine.store.get(h).duplicate();
    inst.persistent = true;
    engine.store.put(h, inst);
    let kept_id = engine.store.get(h).id;
    assert!(engine.id_headroom());
    engine.request_scene_change(SceneChange::Room(1));
    engine.advance_frame(ScriptOutcome::Completed).unwrap();
    // the persistent instance is still there; the old room's others are gone
    assert!(engine.store.get_by_id(kept_id).is_some());
    let mut count = 0;
    let mut iter = engine.store.iter_drawing_order();
    while let Some(_) = iter.next() {
        count += 1;
    }
    assert_eq!(count, 2); // the persistent one plus room 1's single spawn
}

#[test]
fn restart_clears_state_but_never_reuses_ids() {
    let mut engine = fresh_engine(1);
    enter_first_room(&mut engine);
    let mut iter = engine.store.iter_drawing_order();
    let h = iter.next().unwrap();
    let old_id = engine.store.get(h).id;
    assert!(engine.id_headroom());
    engine.request_scene_change(SceneChange::Restart);
    engine.advance_frame(ScriptOutcome::Completed).unwrap();
    assert_eq!(engine.room_id, 0);
    // every instance of the fresh first room carries a brand-new id
    assert!(engine.store.get_by_id(old_id).is_none());
    let mut iter2 = engine.store.iter_drawing_order();
    while let Some(h2) = iter2.next() {
        assert!(engine.store.get(h2).id > old_id);
    }
}

#[test]
fn events_are_consumed_at_the_frame_boundary() {
    let mut engine = fresh_engine(1);
    assert!(engine.id_headroom());
    engine.push_event(replay_core::Event::KeyPress(32));
    engine.push_event(replay_core::Event::KeyRelease(32));
    let (_, consumed) = engine.advance_frame(ScriptOutcome::Completed).unwrap();
    assert_eq!(consumed.len(), 2);
    let (_, consumed2) = engine.advance_frame(ScriptOutcome::Completed).unwrap();
    assert_eq!(consumed2.len(), 0);
}

#[test]
fn replaying_the_same_run_twice_is_identical() {
    // fixed seed, fixed recorded input: two replays end in the same store
    let script = [
        Some(SceneChange::Room(0)),
        None,
        Some(SceneChange::Room(1)),
        None,
        Some(SceneChange::Room(0)),
    ];
    let mut prints = Vec::new();
    for _ in 0..2 {
        let mut engine = fresh_engine(555);
        for sc in script.iter() {
            if let Some(sc) = sc {
                engine.request_scene_change(*sc);
            }
            assert!(engine.id_headroom());
            engine.advance_frame(ScriptOutcome::Completed).unwrap();
            // a scripting layer would draw here; the draws are part of the run
            engine.rng.next();
        }
        prints.push((fingerprint(&mut engine), engine.rng.next()));
    }
    assert_eq!(prints[0], prints[1]);
}

#[test]
fn capture_restore_roundtrip_preserves_observables() {
    let mut engine = fresh_engine(42);
    enter_first_room(&mut engine);
    let h = engine.store.iter_drawing_order().next().unwrap();
    engine.store.set_field_array(h, 1, 0, 9);
    let mut replay = Replay::new(0, 42);
    replay.record_frame(30, Vec::new(), None, None);
    let renderer = RendererState { data: vec![1, 2, 3] };

    let before = fingerprint(&mut engine);
    let state = SaveState::capture(&engine, &replay, &renderer);
    let (rep, ren) = state.restore(&mut engine).unwrap();

    assert_eq!(fingerprint(&mut engine), before);
    assert_eq!(rep.frame_count(), 1);
    assert_eq!(rep.seed(), 42);
    assert_eq!(engine.rng.current_seed(), 42);
    assert_eq!(ren.data, vec![1, 2, 3]);
}

#[test]
fn savestate_is_isolated_from_later_mutation() {
    let mut engine = fresh_engine(4);
    enter_first_room(&mut engine);
    let replay = Replay::new(0, 4);
    let renderer = RendererState { data: Vec::new() };
    let state = SaveState::capture(&engine, &replay, &renderer);
    // mutate the live engine heavily after the capture
    let h = engine.store.iter_drawing_order().next().unwrap();
    engine.store.set_position(h, -100, -100);
    engine.store.set_field_array(h, 8, 0, 1);
    engine.rng.next();
    // the snapshot still restores the captured values
    state.restore(&mut engine).unwrap();
    let h2 = engine.store.iter_drawing_order().next().unwrap();
    assert_eq!(engine.store.get(h2).x, 0);
    assert_eq!(engine.store.get_field_array(h2, 8, 0), None);
}

#[test]
fn incompatible_savestate_fails_before_mutating() {
    let mut donor = Engine::new(
        vec![RoomDef { speed: 30, layout: Vec::new() }, rooms().remove(1)],
        sprites(),
        1,
    )
    .unwrap();
    assert!(donor.id_headroom());
    donor.request_scene_change(SceneChange::Room(1));
    donor.advance_frame(ScriptOutcome::Completed).unwrap();
    assert_eq!(donor.room_id, 1);
    let state = SaveState::capture(&donor, &Replay::new(0, 1), &RendererState { data: Vec::new() });

    // a target engine whose room table no longer has a room 1
    let mut target = Engine::new(vec![RoomDef { speed: 30, layout: Vec::new() }], sprites(), 2)
        .unwrap();
    let before_seed = target.rng.current_seed();
    let err = state.restore(&mut target).unwrap_err();
    assert_eq!(err, EngineError::SavestateCorrupt);
    assert_eq!(target.rng.current_seed(), before_seed);
    assert_eq!(target.store.slot_count(), 0);
}

#[test]
fn record_and_rewind_scenario() {
    // seed 12345; three frames of empty input at speed 30; a savestate taken
    // after frame 2 rewinds the log to two frames and keeps the seed
    let mut engine = fresh_engine(12345);
    let mut replay = Replay::new(0, engine.rng.current_seed());
    let renderer = RendererState { data: Vec::new() };
    let mut state = None;
    for frame in 0..3 {
        assert!(engine.id_headroom());
        let (_, consumed) = engine.advance_frame(ScriptOutcome::Completed).unwrap();
        replay.record_frame(30, consumed, None, None);
        if frame == 1 {
            state = Some(SaveState::capture(&engine, &replay, &renderer));
        }
    }
    assert_eq!(replay.frame_count(), 3);
    let (rewound, _) = state.unwrap().restore(&mut engine).unwrap();
    assert_eq!(rewound.frame_count(), 2);
    assert_eq!(engine.rng.current_seed(), 12345);
}

#[test]
fn instance_report_reflects_field_values() {
    let mut engine = fresh_engine(1);
    enter_first_room(&mut engine);
    let h = engine.store.iter_drawing_order().next().unwrap();
    engine.store.set_position(h, 7, 8);
    let id = engine.store.get(h).id;
    let report = InstanceReport::new(&mut engine.store, &engine.sprites, id).unwrap();
    assert_eq!(report.id, id);
    assert_eq!(report.instance.x, 7);
    assert_eq!(report.instance.y, 8);
    assert_eq!(report.instance.object_index, 1);
    assert!(report.instance.bbox_updated);
}

#[test]
fn instance_report_absent_for_destroyed_instance() {
    let mut engine = fresh_engine(1);
    enter_first_room(&mut engine);
    let h = engine.store.iter_drawing_order().next().unwrap();
    let id = engine.store.get(h).id;
    engine.store.destroy(h);
    assert!(InstanceReport::new(&mut engine.store, &engine.sprites, id).is_none());
}

#[test]
fn context_menu_lists_hovered_instances_in_drawing_order() {
    let sp = sprites();
    let mut engine = fresh_engine(1);
    enter_first_room(&mut engine);
    // both instances at the same spot, distinct depths; a third far away
    let mut iter = engine.store.iter_drawing_order();
    let h1 = iter.next().unwrap();
    let h2 = iter.next().unwrap();
    engine.store.set_position(h1, 0, 0);
    engine.store.set_position(h2, 0, 0);
    engine.store.set_depth(h2, -1);
    let h3 = engine.store.allocate(9);
    engine.store.place(h3, 500, 500);
    let window = GameWindow::new();
    let options = window.context_menu_instances(&mut engine.store, &sp, 0, 0);
    let id1 = engine.store.get(h1).id;
    let id2 = engine.store.get(h2).id;
    assert_eq!(options, vec![(2, id2), (1, id1)]);
}

#[test]
fn game_window_tracks_view_rectangle() {
    let mut window = GameWindow::new();
    assert_eq!((window.x, window.y, window.w, window.h), (0, 0, 0, 0));
    window.set_view(8, 24, 640, 480);
    assert_eq!((window.x, window.y, window.w, window.h), (8, 24, 640, 480));
}

#[test]
fn watcher_window_queues_only_thumbnail_sized_sprites() {
    let mut engine = fresh_engine(1);
    enter_first_room(&mut engine);
    let h = engine.store.iter_drawing_order().next().unwrap();
    let mut inst = engine.store.get(h).duplicate();
    inst.sprite_index = 0;
    engine.store.put(h, inst);
    let id = engine.store.get(h).id;
    let report = InstanceReport::new(&mut engine.store, &engine.sprites, id).unwrap();

    let small = SpriteDesc { width: 2, height: 2, origin_x: 0, origin_y: 0 };
    let large = SpriteDesc { width: 100, height: 100, origin_x: 0, origin_y: 0 };
    let mut watcher = InstanceReportWindow::new();
    assert!(watcher.instance_window(Some(&report), Some(&small), false));
    assert_eq!(watcher.instance_images, vec![0]);
    // an oversized sprite is not queued; a requested close reports closed
    assert!(!watcher.instance_window(Some(&report), Some(&large), true));
    assert_eq!(watcher.instance_images, vec![0]);
    watcher.clear_images();
    assert!(watcher.instance_images.is_empty());
    assert!(watcher.instance_window(None, None, false));
    assert!(watcher.instance_images.is_empty());
}

#[test]
fn frame_reseed_override_resets_the_generator() {
    let mut engine = fresh_engine(10);
    engine.rng.next();
    let frame = replay_core::ReplayFrame {
        speed: 30,
        events: Vec::new(),
        new_seed: Some(10),
        new_mouse: None,
    };
    engine.apply_frame_overrides(&frame);
    assert_eq!(engine.rng.current_seed(), 10);
    let mut fresh = replay_core::Rng::new(10);
    assert_eq!(engine.rng.next(), fresh.next());
    // a frame without an override leaves the generator alone
    let plain = replay_core::ReplayFrame {
        speed: 30,
        events: Vec::new(),
        new_seed: None,
        new_mouse: None,
    };
    let expect = fresh.next();
    engine.apply_frame_overrides(&plain);
    assert_eq!(engine.rng.next(), expect);
}
