// Unit and property tests for the store, fields, bounding boxes, the
// generator and the replay log.

use replay_core::Field;
use replay_core::InstanceStore;
use replay_core::Replay;
use replay_core::Rng;
use replay_core::SpriteDesc;

fn sprite_table() -> Vec<SpriteDesc> {
    vec![
        SpriteDesc { width: 4, height: 2, origin_x: 1, origin_y: 0 },
        SpriteDesc { width: 2, height: 2, origin_x: 0, origin_y: 0 },
    ]
}

#[test]
fn rng_same_seed_same_draws() {
    let mut a = Rng::new(987654321);
    let mut b = Rng::new(987654321);
    for _ in 0..100 {
        assert_eq!(a.next(), b.next());
    }
    assert_eq!(a.current_seed(), 987654321);
}

#[test]
fn rng_seed_resets_stream() {
    let mut a = Rng::new(7);
    let first = a.next();
    a.next();
    a.next();
    a.seed(7);
    assert_eq!(a.next(), first);
    assert_eq!(a.current_seed(), 7);
}

#[test]
fn allocate_assigns_distinct_monotonic_ids() {
    let mut store = InstanceStore::new();
    let h1 = store.allocate(0);
    let h2 = store.allocate(0);
    let id1 = store.get(h1).id;
    let id2 = store.get(h2).id;
    assert!(id2 > id1);
}

#[test]
fn destroyed_id_is_retired() {
    // allocate two instances of the same object type; destroy the first;
    // a third allocation reuses neither prior id, the destroyed one included
    let mut store = InstanceStore::new();
    let h1 = store.allocate(3);
    let h2 = store.allocate(3);
    let id1 = store.get(h1).id;
    let id2 = store.get(h2).id;
    store.destroy(h1);
    assert!(store.get_by_id(id1).is_none());
    let h3 = store.allocate(3);
    let id3 = store.get(h3).id;
    assert_ne!(id3, id1);
    assert_ne!(id3, id2);
}

#[test]
fn get_by_id_finds_live_instance() {
    let mut store = InstanceStore::new();
    let h1 = store.allocate(5);
    let id1 = store.get(h1).id;
    let found = store.get_by_id(id1).unwrap();
    assert_eq!(store.get(found).object_index, 5);
    assert!(store.get_by_id(id1 + 1000).is_none());
}

#[test]
fn update_bbox_is_idempotent() {
    let sprites = sprite_table();
    let mut store = InstanceStore::new();
    let h = store.allocate(0);
    let mut inst = store.get(h).duplicate();
    inst.sprite_index = 0;
    store.put(h, inst);
    store.set_position(h, 10, 20);
    store.update_bbox(h, &sprites);
    let first = (
        store.get(h).bbox_left,
        store.get(h).bbox_right,
        store.get(h).bbox_top,
        store.get(h).bbox_bottom,
    );
    store.update_bbox(h, &sprites);
    let second = (
        store.get(h).bbox_left,
        store.get(h).bbox_right,
        store.get(h).bbox_top,
        store.get(h).bbox_bottom,
    );
    assert_eq!(first, second);
}

#[test]
fn bbox_formula_unrotated() {
    // sprite 4x2 with origin (1, 0) at (10, 20), unscaled
    let sprites = sprite_table();
    let mut store = InstanceStore::new();
    let h = store.allocate(0);
    let mut inst = store.get(h).duplicate();
    inst.sprite_index = 0;
    inst.x = 10;
    inst.y = 20;
    store.put(h, inst);
    store.update_bbox(h, &sprites);
    assert_eq!(store.get(h).bbox_left, 9);
    assert_eq!(store.get(h).bbox_right, 13);
    assert_eq!(store.get(h).bbox_top, 20);
    assert_eq!(store.get(h).bbox_bottom, 22);
    assert!(store.get(h).bbox_updated);
}

#[test]
fn bbox_quarter_turn_trades_axes() {
    let sprites = sprite_table();
    let mut store = InstanceStore::new();
    let h = store.allocate(0);
    let mut inst = store.get(h).duplicate();
    inst.sprite_index = 0;
    inst.x = 10;
    inst.y = 20;
    inst.image_angle = 90;
    store.put(h, inst);
    store.update_bbox(h, &sprites);
    assert_eq!(store.get(h).bbox_left, 10);
    assert_eq!(store.get(h).bbox_right, 12);
    assert_eq!(store.get(h).bbox_top, 19);
    assert_eq!(store.get(h).bbox_bottom, 23);
}

#[test]
fn bbox_negative_scale_flips_extent() {
    let sprites = sprite_table();
    let mut store = InstanceStore::new();
    let h = store.allocate(0);
    let mut inst = store.get(h).duplicate();
    inst.sprite_index = 0;
    inst.x = 10;
    inst.y = 20;
    inst.image_xscale = -1;
    store.put(h, inst);
    store.update_bbox(h, &sprites);
    assert_eq!(store.get(h).bbox_left, 7);
    assert_eq!(store.get(h).bbox_right, 11);
}

#[test]
fn bbox_missing_sprite_degrades_to_point() {
    // a dangling sprite index is recovered locally, never fatal
    let sprites = sprite_table();
    let mut store = InstanceStore::new();
    let h = store.allocate(0);
    let mut inst = store.get(h).duplicate();
    inst.sprite_index = 99;
    inst.x = -5;
    inst.y = 8;
    store.put(h, inst);
    store.update_bbox(h, &sprites);
    assert_eq!(store.get(h).bbox_left, -5);
    assert_eq!(store.get(h).bbox_right, -5);
    assert_eq!(store.get(h).bbox_top, 8);
    assert_eq!(store.get(h).bbox_bottom, 8);
}

#[test]
fn drawing_order_by_depth_then_creation() {
    // with depths {0, -1}, the depth -1 instance is yielded first
    let mut store = InstanceStore::new();
    let h1 = store.allocate(0);
    let h2 = store.allocate(0);
    store.set_depth(h1, 0);
    store.set_depth(h2, -1);
    let mut iter = store.iter_drawing_order();
    assert_eq!(iter.next(), Some(h2));
    assert_eq!(iter.next(), Some(h1));
    assert_eq!(iter.next(), None);
}

#[test]
fn drawing_order_never_yields_destroyed_handle() {
    let mut store = InstanceStore::new();
    let h1 = store.allocate(0);
    let h2 = store.allocate(0);
    let h3 = store.allocate(0);
    store.destroy(h2);
    let mut iter = store.iter_drawing_order();
    let mut seen = Vec::new();
    while let Some(h) = iter.next() {
        seen.push(h);
    }
    assert_eq!(seen, vec![h1, h3]);
}

#[test]
fn drawing_order_ties_break_by_creation() {
    let mut store = InstanceStore::new();
    let h1 = store.allocate(0);
    let h2 = store.allocate(0);
    let h3 = store.allocate(0);
    store.set_depth(h1, 5);
    store.set_depth(h2, 5);
    store.set_depth(h3, -2);
    let mut iter = store.iter_drawing_order();
    assert_eq!(iter.next(), Some(h3));
    assert_eq!(iter.next(), Some(h1));
    assert_eq!(iter.next(), Some(h2));
    assert_eq!(iter.next(), None);
}

#[test]
fn field_single_roundtrip() {
    let mut store = InstanceStore::new();
    let h = store.allocate(0);
    assert!(store.get_field(h, 17).is_none());
    store.set_field(h, 17, Field::Single(42));
    match store.get_field(h, 17) {
        Some(Field::Single(v)) => assert_eq!(*v, 42),
        _ => panic!("expected a single scalar"),
    }
}

#[test]
fn field_array_indices_are_independent() {
    // writing index 5 alters no other index's unset status
    let mut store = InstanceStore::new();
    let h = store.allocate(0);
    store.set_field_array(h, 3, 5, 777);
    for idx in 0..5 {
        assert_eq!(store.get_field_array(h, 3, idx), None);
    }
    assert_eq!(store.get_field_array(h, 3, 5), Some(777));
}

#[test]
fn field_unset_index_is_not_zero() {
    let mut store = InstanceStore::new();
    let h = store.allocate(0);
    store.set_field_array(h, 9, 2, 0);
    // index 2 holds an explicit zero; index 1 is unset: the two differ
    assert_eq!(store.get_field_array(h, 9, 2), Some(0));
    assert_eq!(store.get_field_array(h, 9, 1), None);
}

#[test]
fn field_single_promotes_to_array_index_zero() {
    let mut store = InstanceStore::new();
    let h = store.allocate(0);
    store.set_field(h, 4, Field::Single(11));
    assert_eq!(store.get_field_array(h, 4, 0), Some(11));
    store.set_field_array(h, 4, 6, 12);
    assert_eq!(store.get_field_array(h, 4, 0), Some(11));
    assert_eq!(store.get_field_array(h, 4, 6), Some(12));
}

#[test]
fn alarms_are_sparse_and_independent() {
    let mut store = InstanceStore::new();
    let h = store.allocate(0);
    assert_eq!(store.get_alarm(h, 0), None);
    store.set_alarm(h, 0, 30);
    store.set_alarm(h, 11, 1);
    assert_eq!(store.get_alarm(h, 0), Some(30));
    assert_eq!(store.get_alarm(h, 11), Some(1));
    assert_eq!(store.get_alarm(h, 5), None);
}

#[test]
fn replay_counts_frames_in_order() {
    let mut replay = Replay::new(0, 99);
    assert_eq!(replay.frame_count(), 0);
    replay.record_frame(30, Vec::new(), None, None);
    replay.record_frame(60, Vec::new(), Some(5), Some((3, 4)));
    assert_eq!(replay.frame_count(), 2);
    assert_eq!(replay.get_frame(0).speed, 30);
    assert_eq!(replay.get_frame(1).speed, 60);
    assert_eq!(replay.get_frame(1).new_seed, Some(5));
    assert_eq!(replay.get_frame(1).new_mouse, Some((3, 4)));
    assert_eq!(replay.seed(), 99);
}

#[test]
fn replay_startup_recorded_once() {
    let mut replay = Replay::new(0, 1);
    assert!(replay.record_startup(vec![replay_core::Event::KeyPress(32)]));
    // a second call is rejected and changes nothing
    assert!(!replay.record_startup(vec![replay_core::Event::KeyPress(65)]));
    assert_eq!(replay.startup_events().len(), 1);
    assert!(matches!(replay.startup_events()[0], replay_core::Event::KeyPress(32)));
}

#[test]
fn replay_startup_rejected_after_first_frame() {
    let mut replay = Replay::new(0, 1);
    replay.record_frame(30, Vec::new(), None, None);
    assert!(!replay.record_startup(Vec::new()));
}

#[test]
fn replay_duplicate_is_deep() {
    let mut replay = Replay::new(123, 456);
    replay.record_frame(30, vec![replay_core::Event::MouseMove(1, 2)], None, None);
    let copy = replay.duplicate();
    replay.record_frame(30, Vec::new(), None, None);
    assert_eq!(copy.frame_count(), 1);
    assert_eq!(replay.frame_count(), 2);
    assert_eq!(copy.seed(), 456);
    assert_eq!(copy.start_time(), 123);
}
