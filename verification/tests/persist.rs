// Tests for the persisted replay layout: canonical bytes, both round-trip
// directions, and rejection of malformed records.

use replay_core::Event;
use replay_core::Replay;
use replay_core::codec;

fn sample_replay() -> Replay {
    let mut replay = Replay::new(77, 12345);
    replay.record_startup(vec![Event::KeyPress(32), Event::MouseMove(-5, 9)]);
    replay.record_frame(30, vec![Event::KeyRelease(32)], None, None);
    replay.record_frame(60, Vec::new(), Some(999), Some((-1, 2)));
    replay.record_frame(30, vec![Event::MousePress(1), Event::MouseRelease(1)], None, None);
    replay
}

#[test]
fn save_then_load_yields_the_same_log() {
    let replay = sample_replay();
    let bytes = codec::encode(&replay);
    let loaded = codec::decode(&bytes).unwrap();
    assert_eq!(loaded.seed(), replay.seed());
    assert_eq!(loaded.start_time(), replay.start_time());
    assert_eq!(loaded.frame_count(), replay.frame_count());
    assert_eq!(loaded.startup_events(), replay.startup_events());
    for i in 0..replay.frame_count() {
        let a = loaded.get_frame(i);
        let b = replay.get_frame(i);
        assert_eq!(a.speed, b.speed);
        assert_eq!(a.events, b.events);
        assert_eq!(a.new_seed, b.new_seed);
        assert_eq!(a.new_mouse, b.new_mouse);
    }
}

#[test]
fn load_then_save_is_byte_identical() {
    let bytes = codec::encode(&sample_replay());
    let loaded = codec::decode(&bytes).unwrap();
    let resaved = codec::encode(&loaded);
    assert_eq!(resaved, bytes);
}

#[test]
fn empty_log_has_fixed_layout() {
    // seed, time, startup flag, startup count, frame count
    let bytes = codec::encode(&Replay::new(0, 5));
    assert_eq!(bytes.len(), 8 + 8 + 1 + 8 + 8);
    assert_eq!(&bytes[0..8], &[5, 0, 0, 0, 0, 0, 0, 0]);
    let loaded = codec::decode(&bytes).unwrap();
    assert_eq!(loaded.seed(), 5);
    assert_eq!(loaded.frame_count(), 0);
}

#[test]
fn truncated_record_is_rejected() {
    let mut bytes = codec::encode(&sample_replay());
    bytes.pop();
    assert!(codec::decode(&bytes).is_none());
}

#[test]
fn trailing_bytes_are_rejected() {
    let mut bytes = codec::encode(&sample_replay());
    bytes.push(0);
    assert!(codec::decode(&bytes).is_none());
}

#[test]
fn bad_startup_flag_is_rejected() {
    let mut bytes = codec::encode(&sample_replay());
    bytes[16] = 7;
    assert!(codec::decode(&bytes).is_none());
}

#[test]
fn empty_input_is_rejected() {
    assert!(codec::decode(&Vec::new()).is_none());
}
