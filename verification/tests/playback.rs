use ambiencer::AmbError;
use ambiencer::DecodeOutcome;
use ambiencer::Gain;
use ambiencer::Segment;
use ambiencer::Sink;
use ambiencer::Sound;
use ambiencer::Track;

const SEC: u64 = 1_000_000_000;

fn queued(track: &Track) -> &Vec<Segment> {
    match &track.sink {
        Sink::Simple(c) => &c.queue,
        Sink::Spatial(c, _) => &c.queue,
    }
}

fn looping(track: &Track) -> bool {
    match &track.sink {
        Sink::Simple(c) => c.looping,
        Sink::Spatial(c, _) => c.looping,
    }
}

fn track_with(durations_ns: &[u64]) -> Track {
    let mut track = Track::new(true).unwrap();
    for (i, d) in durations_ns.iter().enumerate() {
        let path = format!("assets/clip_{}.flac", i);
        let sound = Sound::new(path, DecodeOutcome::Decoded { length_ns: *d }).unwrap();
        track.add(sound);
    }
    track
}

#[test]
fn track_length() {
    let mut track = Track::new(true).unwrap();
    track
        .add_from_path(
            "assets/birds_loop_1.flac".to_string(),
            DecodeOutcome::Decoded { length_ns: 20 * SEC },
        )
        .unwrap();
    track
        .add_from_path(
            "assets/birds_loop_1.flac".to_string(),
            DecodeOutcome::Decoded { length_ns: 20 * SEC },
        )
        .unwrap();
    let len = track.length();
    assert_eq!(len, 40 * SEC);
}

#[test]
fn replayed_clip_doubles_length() {
    let sound = Sound::new(
        "assets/birds_loop_1.flac".to_string(),
        DecodeOutcome::Decoded { length_ns: 20 * SEC },
    )
    .unwrap();
    let single = sound.length();
    let rewound = Sound::new(
        "assets/birds_loop_1.flac".to_string(),
        DecodeOutcome::Decoded { length_ns: 20 * SEC },
    )
    .unwrap();
    let mut track = Track::new(true).unwrap();
    track.add(sound);
    track.add(rewound);
    assert_eq!(track.length(), 2 * single);
    assert_eq!(track.count(), 2);
}

#[test]
fn play_for_exact_fill() {
    let mut track = track_with(&[3 * SEC, 5 * SEC]);
    track.play_for(6 * SEC).unwrap();
    let q = queued(&track);
    assert_eq!(q.len(), 2);
    assert_eq!(q[0], Segment { clip_index: 0, audible_ns: 3 * SEC });
    assert_eq!(q[1], Segment { clip_index: 1, audible_ns: 3 * SEC });
    let sum: u64 = q.iter().map(|s| s.audible_ns).sum();
    assert_eq!(sum, 6 * SEC);
}

#[test]
fn play_for_wraps_past_total() {
    let mut track = track_with(&[2 * SEC, 3 * SEC]);
    track.play_for(12 * SEC).unwrap();
    let q = queued(&track);
    assert_eq!(q.len(), 5);
    assert_eq!(q[0], Segment { clip_index: 0, audible_ns: 2 * SEC });
    assert_eq!(q[1], Segment { clip_index: 1, audible_ns: 3 * SEC });
    assert_eq!(q[2], Segment { clip_index: 0, audible_ns: 2 * SEC });
    assert_eq!(q[3], Segment { clip_index: 1, audible_ns: 3 * SEC });
    assert_eq!(q[4], Segment { clip_index: 0, audible_ns: 2 * SEC });
    let sum: u64 = q.iter().map(|s| s.audible_ns).sum();
    assert_eq!(sum, 12 * SEC);
}

#[test]
fn play_for_zero_enqueues_nothing() {
    let mut track = track_with(&[3 * SEC]);
    track.play_for(0).unwrap();
    assert!(queued(&track).is_empty());
}

#[test]
fn play_for_empty_track_fails_fast() {
    let mut track = Track::new(true).unwrap();
    let r = track.play_for(5 * SEC);
    assert_eq!(r, Err(AmbError::EmptyTrack));
    assert!(queued(&track).is_empty());
    // The failure is an idempotent no-op on the channel.
    let r2 = track.play_for(5 * SEC);
    assert_eq!(r2, Err(AmbError::EmptyTrack));
    assert!(queued(&track).is_empty());
}

#[test]
fn single_long_clip_truncates_first() {
    let mut track = track_with(&[10 * SEC]);
    track.play_for(4 * SEC).unwrap();
    let q = queued(&track);
    assert_eq!(q.len(), 1);
    assert_eq!(q[0], Segment { clip_index: 0, audible_ns: 4 * SEC });
}

#[test]
fn play_for_budget_equal_to_total() {
    let mut track = track_with(&[3 * SEC, 5 * SEC]);
    track.play_for(8 * SEC).unwrap();
    let q = queued(&track);
    assert_eq!(q.len(), 2);
    assert_eq!(q[1], Segment { clip_index: 1, audible_ns: 5 * SEC });
}

#[test]
fn play_indefinitely_enqueues_cycle_and_loops() {
    let mut track = track_with(&[2 * SEC, 3 * SEC]);
    track.play_indefinitely().unwrap();
    let q = queued(&track);
    assert_eq!(q.len(), 2);
    assert_eq!(q[0], Segment { clip_index: 0, audible_ns: 2 * SEC });
    assert_eq!(q[1], Segment { clip_index: 1, audible_ns: 3 * SEC });
    assert!(looping(&track));
}

#[test]
fn play_indefinitely_empty_track_fails() {
    let mut track = Track::new(true).unwrap();
    assert_eq!(track.play_indefinitely(), Err(AmbError::EmptyTrack));
    assert!(queued(&track).is_empty());
    assert!(!looping(&track));
}

#[test]
fn next_overflow_clip_finds_first_that_does_not_fit() {
    let track = track_with(&[3 * SEC, 5 * SEC]);
    let s = track.next_overflow_clip(4 * SEC).unwrap();
    assert_eq!(s.length_ns, 5 * SEC);
    let s0 = track.next_overflow_clip(0).unwrap();
    assert_eq!(s0.length_ns, 3 * SEC);
}

#[test]
fn next_overflow_clip_wraps_and_commits_nothing() {
    let track = track_with(&[3 * SEC, 5 * SEC]);
    // Budget of 9 s wraps the 8 s cycle: 1 s is left, so the first
    // clip of the second pass is the one that does not fit.
    let s = track.next_overflow_clip(9 * SEC).unwrap();
    assert_eq!(s.length_ns, 3 * SEC);
    assert!(queued(&track).is_empty());
}

#[test]
fn next_overflow_clip_empty_track_fails() {
    let track = Track::new(true).unwrap();
    assert!(matches!(track.next_overflow_clip(SEC), Err(AmbError::EmptyTrack)));
}

#[test]
fn volume_scalings_compose_multiplicatively() {
    let mut twice = Track::new(true).unwrap();
    twice.set_volume(Gain::new(3, 2)).unwrap();
    let v_twice = twice.set_volume(Gain::new(5, 4)).unwrap();
    let mut once = Track::new(true).unwrap();
    let v_once = once.set_volume(Gain::new(3, 2).mul(&Gain::new(5, 4))).unwrap();
    assert_eq!(v_twice, v_once);
    assert_eq!(twice.volume, once.volume);
    assert_eq!(twice.volume, Gain::new(15, 8));
}

#[test]
fn set_volume_rejects_invalid_gain() {
    let mut track = track_with(&[3 * SEC]);
    let before = track.volume;
    assert_eq!(track.set_volume(Gain::new(1, 0)), Err(AmbError::InvalidGain));
    assert_eq!(track.set_volume(Gain::new(-2, 3)), Err(AmbError::InvalidGain));
    assert_eq!(track.volume, before);
}

#[test]
fn sound_volume_is_value_semantics() {
    let sound = Sound::new("a".to_string(), DecodeOutcome::Decoded { length_ns: SEC }).unwrap();
    let louder = sound.set_volume(Gain::new(3, 2));
    assert_eq!(louder.volume, Gain::new(3, 2));
    assert_eq!(louder.length_ns, SEC);
    let softer = louder.set_volume(Gain::new(1, 2));
    assert_eq!(softer.volume, Gain::new(3, 4));
}

#[test]
fn sound_decode_failures_surface_unmodified() {
    assert!(matches!(
        Sound::new("a".to_string(), DecodeOutcome::Unreadable),
        Err(AmbError::AssetUnreadable)
    ));
    assert!(matches!(
        Sound::new("a".to_string(), DecodeOutcome::Malformed),
        Err(AmbError::DecodeFailed)
    ));
    let mut track = Track::new(true).unwrap();
    assert_eq!(
        track.add_from_path("a".to_string(), DecodeOutcome::Unreadable),
        Err(AmbError::AssetUnreadable)
    );
    assert_eq!(track.count(), 0);
}

#[test]
fn track_new_reports_backend_unavailable() {
    assert!(matches!(Track::new(false), Err(AmbError::BackendUnavailable)));
}

#[test]
fn set_position_switches_to_spatial() {
    let mut track = track_with(&[3 * SEC]);
    assert!(matches!(track.sink, Sink::Simple(_)));
    let p = track.set_position(5, true).unwrap();
    assert_eq!(p, 5);
    assert_eq!(track.position, 5);
    assert!(matches!(track.sink, Sink::Spatial(_, 5)));
}

#[test]
fn set_position_centered_on_simple_is_noop() {
    let mut track = track_with(&[3 * SEC]);
    track.play_for(SEC).unwrap();
    let p = track.set_position(0, true).unwrap();
    assert_eq!(p, 0);
    assert!(matches!(track.sink, Sink::Simple(_)));
    // The pending queue survives: the channel was not reallocated.
    assert_eq!(queued(&track).len(), 1);
}

#[test]
fn set_position_backend_failure_keeps_old_channel() {
    let mut track = track_with(&[3 * SEC]);
    track.play_for(SEC).unwrap();
    assert_eq!(track.set_position(5, false), Err(AmbError::BackendUnavailable));
    assert!(matches!(track.sink, Sink::Simple(_)));
    assert_eq!(queued(&track).len(), 1);
    assert_eq!(track.position, 0);
}

#[test]
fn reset_position_always_returns_to_simple() {
    let mut track = track_with(&[3 * SEC]);
    track.set_position(7, true).unwrap();
    assert!(matches!(track.sink, Sink::Spatial(_, 7)));
    track.reset_position(true).unwrap();
    assert!(matches!(track.sink, Sink::Simple(_)));
    assert_eq!(track.position, 0);
    // Resetting an already centered track changes nothing.
    track.reset_position(true).unwrap();
    assert!(matches!(track.sink, Sink::Simple(_)));
    assert_eq!(track.position, 0);
}

#[test]
fn reset_position_backend_failure_keeps_spatial_state() {
    let mut track = track_with(&[3 * SEC]);
    track.set_position(7, true).unwrap();
    assert_eq!(track.reset_position(false), Err(AmbError::BackendUnavailable));
    assert!(matches!(track.sink, Sink::Spatial(_, 7)));
    assert_eq!(track.position, 7);
}

#[test]
fn error_descriptions_are_nonempty() {
    let errs = [
        AmbError::AssetUnreadable,
        AmbError::DecodeFailed,
        AmbError::EmptyTrack,
        AmbError::InvalidGain,
        AmbError::BackendUnavailable,
        AmbError::DeviceLost,
        AmbError::StageActivationFailed { track_index: 2 },
    ];
    for e in errs {
        assert!(!e.describe().is_empty());
    }
}
