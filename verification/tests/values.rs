use rkbx_link::anlz::Beat;
use rkbx_link::change::ChangeTrackedValue;
use rkbx_link::memory::{MemoryError, Pointer, ReadError};
use rkbx_link::output::{Notification, Target};
use rkbx_link::protocol::{BeatAnchor, Fault};
use rkbx_link::reading::TimingDataRaw;
use rkbx_link::single::Single;
use rkbx_link::track::{BeatGrid, TrackTracker, TrackTrackerResult, TrackingDataTracker};

fn single(x: f32) -> Single {
    Single { bits: x.to_bits() }
}

const NUMBERS: [f32; 14] = [
    0.0,
    -0.0,
    1.0,
    -1.0,
    120.0,
    1.5e-45,
    -1.5e-45,
    f32::MAX,
    f32::MIN,
    f32::INFINITY,
    f32::NEG_INFINITY,
    f32::NAN,
    0.1,
    128.01,
];

#[test]
fn numbers_compare_as_they_should() {
    for a in NUMBERS {
        for b in NUMBERS {
            assert_eq!(single(a) == single(b), a == b, "{a} {b}");
            assert_eq!(single(a).at_least(single(b)), a >= b, "{a} {b}");
        }
    }
    let negative_nan = Single { bits: 0xffc0_0001 };
    assert!(negative_nan != negative_nan);
    assert!(!negative_nan.at_least(negative_nan));
    assert_eq!(Single::zero().bits, 0.0f32.to_bits());
    assert_eq!(Single::default_tempo().bits, 120.0f32.to_bits());
}

#[test]
fn changes_are_noticed() {
    let mut v = ChangeTrackedValue::new(5);
    assert!(!v.set(5));
    assert!(v.set(6));
    assert_eq!(v.value, 6);
    assert!(!v.set(6));
    let mut s = ChangeTrackedValue::new(String::new());
    assert!(s.set("a".to_string()));
    assert!(!s.set("a".to_string()));
    assert_eq!(s.value, "a");
}

#[test]
fn zeros_are_equal_and_nan_never_is() {
    let mut v = ChangeTrackedValue::new(single(0.0));
    assert!(!v.set(single(-0.0)));
    assert_eq!(v.value.bits, 0);
    assert!(v.set(single(f32::NAN)));
    assert!(v.set(single(f32::NAN)));
}

fn read_failed(at: usize, reason: &str) -> ReadError {
    ReadError {
        pointer: Some(Pointer { offsets: vec![1, 2], final_offset: 3 }),
        address: at,
        error: MemoryError::ReadMemoryFailed(reason.to_string()),
    }
}

#[test]
fn errors_are_compared_by_content() {
    assert!(read_failed(7, "x") == read_failed(7, "x"));
    assert!(read_failed(7, "x") != read_failed(8, "x"));
    assert!(read_failed(7, "x") != read_failed(7, "y"));
    let mut other = read_failed(7, "x");
    other.pointer = None;
    assert!(read_failed(7, "x") != other);
    other.pointer = Some(Pointer { offsets: vec![1], final_offset: 3 });
    assert!(read_failed(7, "x") != other);
    other.pointer = Some(Pointer { offsets: vec![1, 2], final_offset: 4 });
    assert!(read_failed(7, "x") != other);
    assert!(MemoryError::ProcessNotFound == MemoryError::ProcessNotFound);
    assert!(MemoryError::ProcessNotFound != MemoryError::ModuleNotFound);
    assert!(
        MemoryError::SnapshotFailed("a".to_string()) != MemoryError::WriteMemoryFailed("a".to_string())
    );
}

fn beat(n: u16, tempo: u16, time: u32) -> Beat {
    Beat { beat_number: n, tempo, time }
}

fn grid(beats: &[Beat]) -> BeatGrid {
    let seconds = beats.iter().map(|b| single(b.time as f32 / 1000.)).collect();
    BeatGrid::new(beats.to_vec(), seconds)
}

#[test]
fn times_are_measured_from_the_beat_before() {
    let g = grid(&[beat(1, 12000, 1000), beat(2, 12100, 1500), beat(3, 12200, 2000)]);
    let at = |t: f32| g.anchor(single(t)).unwrap();
    assert_eq!(at(1.7), BeatAnchor { beat: 1, tempo: 12100, time: 1500 });
    // A time that is that of a beat is measured from the one before.
    assert_eq!(at(1.5), BeatAnchor { beat: 0, tempo: 12000, time: 1000 });
    // Before the first beat, and at it, from the first.
    assert_eq!(at(-3.0), BeatAnchor { beat: 0, tempo: 12000, time: 1000 });
    assert_eq!(at(1.0), BeatAnchor { beat: 0, tempo: 12000, time: 1000 });
    // Behind the last beat from the last, and so if the time is no number.
    assert_eq!(at(99.0), BeatAnchor { beat: 2, tempo: 12200, time: 2000 });
    assert_eq!(at(f32::NAN), BeatAnchor { beat: 2, tempo: 12200, time: 2000 });
}

#[test]
fn beats_are_counted_from_zero_within_a_bar() {
    for (number, expected) in [(1, 0), (2, 1), (3, 2), (4, 3), (5, 0), (0, 3), (65532, 3)] {
        let g = grid(&[beat(number, 1, 0)]);
        assert_eq!(g.anchor(single(1.0)).unwrap().beat, expected);
    }
}

#[test]
fn grids_without_an_anchor_are_faults() {
    assert_eq!(grid(&[]).anchor(single(1.0)), Err(Fault::EmptyBeatGrid));
    let g = grid(&[beat(65533, 1, 0)]);
    assert_eq!(g.anchor(single(1.0)), Err(Fault::BeatNumberOverflow));
}

fn result(beat: f32, original_bpm: f32, bpm: f32, position: i64) -> TrackTrackerResult {
    TrackTrackerResult {
        beat: single(beat),
        original_bpm: single(original_bpm),
        timing_data_raw: TimingDataRaw { current_bpm: single(bpm), sample_position: position },
    }
}

#[test]
fn only_changes_are_told_and_in_order() {
    let mut t = TrackingDataTracker::new();
    let batch = t.take_in(&result(1.5, 120.0, 121.0, 44100), Target::Deck(2));
    assert_eq!(batch.len(), 4);
    assert!(matches!(batch[0], Notification::Beat(b, Target::Deck(2)) if b == single(1.5)));
    assert!(matches!(batch[1], Notification::Time(44100, Target::Deck(2))));
    assert!(matches!(batch[2], Notification::Bpm(b, Target::Deck(2)) if b == single(121.0)));
    assert!(matches!(batch[3], Notification::OriginalBpm(b, Target::Deck(2)) if b == single(120.0)));
    assert!(t.take_in(&result(1.5, 120.0, 121.0, 44100), Target::Deck(2)).is_empty());
    let batch = t.take_in(&result(1.5, 120.0, 122.0, 44100), Target::Master);
    assert_eq!(batch.len(), 1);
    assert!(matches!(batch[0], Notification::Bpm(b, Target::Master) if b == single(122.0)));
    // Zeros were told at the start, so to speak.
    let mut t = TrackingDataTracker::new();
    assert!(t.take_in(&result(-0.0, 0.0, 0.0, 0), Target::Master).is_empty());
}

#[test]
fn nan_is_told_each_time() {
    let mut t = TrackingDataTracker::new();
    for _ in 0..2 {
        let batch = t.take_in(&result(f32::NAN, 0.0, 0.0, 0), Target::Master);
        assert_eq!(batch.len(), 1);
        assert!(matches!(batch[0], Notification::Beat(_, Target::Master)));
    }
}

#[test]
fn missing_tempo_is_filled_in() {
    let td = TimingDataRaw { current_bpm: single(-0.0), sample_position: 5 }.with_tempo();
    assert_eq!(td.current_bpm.bits, 120.0f32.to_bits());
    assert_eq!(td.sample_position, 5);
    let td = TimingDataRaw { current_bpm: single(99.5), sample_position: 5 }.with_tempo();
    assert_eq!(td.current_bpm.bits, 99.5f32.to_bits());
}

#[test]
fn nothing_is_known_of_a_fresh_deck() {
    let t = TrackTracker::new();
    assert!(!t.track_changed);
    assert!(t.beatgrid.is_none());
}
