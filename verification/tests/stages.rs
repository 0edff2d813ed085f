use ambiencer::AmbError;
use ambiencer::DecodeOutcome;
use ambiencer::FadeIn;
use ambiencer::FadeOut;
use ambiencer::Fill;
use ambiencer::Gain;
use ambiencer::Project;
use ambiencer::Sink;
use ambiencer::Sound;
use ambiencer::Stage;
use ambiencer::StageState;
use ambiencer::Track;
use ambiencer::TransitionMode;
use ambiencer::TransitionPipeline;

const SEC: u64 = 1_000_000_000;

fn track_of_length(total_ns: u64) -> Track {
    let mut track = Track::new(true).unwrap();
    let sound =
        Sound::new("assets/loop.flac".to_string(), DecodeOutcome::Decoded { length_ns: total_ns })
            .unwrap();
    track.add(sound);
    track
}

fn two_track_stage(mode: TransitionMode) -> Stage {
    let tracks = vec![track_of_length(10 * SEC), track_of_length(15 * SEC)];
    Stage::new(tracks, TransitionPipeline::new(0, 0), mode)
}

fn queue_len(track: &Track) -> usize {
    match &track.sink {
        Sink::Simple(c) => c.queue.len(),
        Sink::Spatial(c, _) => c.queue.len(),
    }
}

#[test]
fn complete_to_zero_waits_for_slowest_track() {
    let stage = two_track_stage(TransitionMode::CompleteToZero);
    assert_eq!(stage.length(), 15 * SEC);
    assert!(!stage.transition_due(10 * SEC));
    assert!(!stage.transition_due(15 * SEC - 1));
    assert!(stage.transition_due(15 * SEC));
}

#[test]
fn track_after_track_hands_off_at_own_cycle_end() {
    let stage = two_track_stage(TransitionMode::TrackAfterTrack);
    assert_eq!(stage.track_handoff_at(0), 10 * SEC);
    assert_eq!(stage.track_handoff_at(1), 15 * SEC);
    // The first track's handoff is independent of the other track.
    let other = Stage::new(
        vec![track_of_length(10 * SEC), track_of_length(99 * SEC)],
        TransitionPipeline::new(0, 0),
        TransitionMode::TrackAfterTrack,
    );
    assert_eq!(other.track_handoff_at(0), 10 * SEC);
    // Under this mode the stage's own length is its fastest track's.
    assert_eq!(stage.length(), 10 * SEC);
}

#[test]
fn stage_lifecycle_runs_in_order() {
    let mut stage = two_track_stage(TransitionMode::CompleteToZero);
    assert_eq!(stage.state(), StageState::NotStarted);
    stage.activate(&vec![true, true]).unwrap();
    assert_eq!(stage.state(), StageState::Playing);
    for t in &stage.tracks {
        assert_eq!(t.live_gain, t.volume);
    }
    // The steady-state fill keeps every channel fed while playing.
    stage.fill_tracks(5 * SEC).unwrap();
    for t in &stage.tracks {
        assert_eq!(queue_len(t), 1);
    }
    assert!(!stage.begin_transition(14 * SEC));
    assert_eq!(stage.state(), StageState::Playing);
    assert!(stage.begin_transition(15 * SEC));
    assert_eq!(stage.state(), StageState::TransitioningOut);
    for t in &stage.tracks {
        assert_eq!(t.live_gain, Gain::new(0, 1));
    }
    stage.finish();
    assert_eq!(stage.state(), StageState::Ended);
    for t in &stage.tracks {
        assert_eq!(queue_len(t), 0);
    }
}

#[test]
fn stage_activation_failure_tears_down_started_tracks() {
    let mut stage = two_track_stage(TransitionMode::CompleteToZero);
    let r = stage.activate(&vec![true, false]);
    assert_eq!(r, Err(AmbError::StageActivationFailed { track_index: 1 }));
    assert_eq!(stage.state(), StageState::NotStarted);
    // The already started track was torn down: silent, nothing queued.
    assert_eq!(stage.tracks[0].live_gain, Gain::new(0, 1));
    assert_eq!(queue_len(&stage.tracks[0]), 0);
    // The denied track was never touched.
    assert_eq!(stage.tracks[1].live_gain, Gain::new(1, 1));
}

#[test]
fn device_loss_ends_stage_immediately() {
    let mut stage = two_track_stage(TransitionMode::CompleteToZero);
    stage.activate(&vec![true, true]).unwrap();
    let e = stage.device_lost();
    assert_eq!(e, AmbError::DeviceLost);
    assert_eq!(stage.state(), StageState::Ended);
    for t in &stage.tracks {
        assert_eq!(queue_len(t), 0);
    }
}

#[test]
fn pipeline_steps_follow_their_contracts() {
    let pipeline = TransitionPipeline::new(SEC, SEC);
    let mut track = track_of_length(4 * SEC);
    track.set_volume(Gain::new(3, 2)).unwrap();
    pipeline.fade_in(&mut track);
    assert_eq!(track.live_gain, Gain::new(3, 2));
    pipeline.fill(&mut track, 6 * SEC).unwrap();
    assert_eq!(queue_len(&track), 2);
    pipeline.fade_out(&mut track);
    assert_eq!(track.live_gain, Gain::new(0, 1));
    assert_eq!(track.volume, Gain::new(3, 2));
}

#[test]
fn project_advances_one_stage_at_a_time() {
    let stages = vec![
        two_track_stage(TransitionMode::CompleteToZero),
        two_track_stage(TransitionMode::TrackAfterTrack),
    ];
    let mut project = Project::new("dawn".to_string(), "dawn.amb".to_string(), stages);
    assert_eq!(project.stage_count(), 2);
    assert_eq!(project.current_index(), 0);
    assert!(project.advance());
    assert_eq!(project.current_index(), 1);
    assert!(!project.advance());
    assert_eq!(project.current_index(), 1);
}
