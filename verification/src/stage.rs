//! A set of concurrently playing tracks sharing one lifecycle, and
//! the fade-in / fill / fade-out pipeline that governs how one stage's
//! tracks start, sustain, and hand off to the next stage's.

use vstd::prelude::*;

use crate::errors::AmbError;
use crate::gain::Gain;
use crate::track::fill_spec;
use crate::track::spec_total;
use crate::track::Track;

verus! {

/// How a stage hands off to the next one: track by track the moment
/// each track's own clip cycle finishes (stages may overlap in time),
/// or only once every track has finished and the stage has fully
/// silenced (stages never overlap).
#[derive(Clone, Copy, Debug, PartialEq, Eq, Structural)]
pub enum TransitionMode {
    TrackAfterTrack,
    CompleteToZero,
}

/// The lifecycle of a stage; at any instant it is in exactly one of
/// these states.
#[derive(Clone, Copy, Debug, PartialEq, Eq, Structural)]
pub enum StageState {
    NotStarted,
    Playing,
    TransitioningOut,
    Ended,
}

/// Extension point for the fade-in step: ramps a track's live gain
/// from silence up to its base volume, leaving the playlist, base
/// volume, position and channel untouched.
pub trait FadeIn {
    fn fade_in(&self, track: &mut Track)
        requires
            old(track).wf(),
        ensures
            final(track).wf(),
            final(track).live_gain == old(track).volume,
            final(track).volume == old(track).volume,
            final(track).position == old(track).position,
            final(track).elements@ == old(track).elements@,
            final(track).sink == old(track).sink,
    ;
}

/// Extension point for the steady-state fill step: keeps a track's
/// channel fed by enqueuing the cyclic duration-bounded fill for the
/// given budget.
pub trait Fill {
    fn fill(&self, track: &mut Track, dur_ns: u64) -> (r: Result<(), AmbError>)
        requires
            old(track).wf(),
            old(track).elements@.len() > 0 && dur_ns > 0 ==> spec_total(old(track).elements@) > 0,
        ensures
            final(track).wf(),
            final(track).same_shape(*old(track)),
            old(track).elements@.len() == 0 <==> r == Err::<(), AmbError>(AmbError::EmptyTrack),
            old(track).elements@.len() == 0 ==> *final(track) == *old(track),
            old(track).elements@.len() > 0 ==> (r is Ok && final(track).sink.queued() == old(
                track,
            ).sink.queued() + fill_spec(old(track).elements@, dur_ns as int)),
    ;
}

/// Extension point for the fade-out step: ramps a track's live gain
/// down to silence, leaving everything else untouched.
pub trait FadeOut {
    fn fade_out(&self, track: &mut Track)
        requires
            old(track).wf(),
        ensures
            final(track).wf(),
            final(track).live_gain == (Gain { num: 0, den: 1 }),
            final(track).volume == old(track).volume,
            final(track).position == old(track).position,
            final(track).elements@ == old(track).elements@,
            final(track).sink == old(track).sink,
    ;
}

/// The stock fade-in / fill / fade-out strategy, selected per stage at
/// construction: ramp times are data for the backend; a ramp of zero
/// is a ramp-free start or stop.
#[derive(Clone, Copy, Debug, PartialEq, Eq, Structural)]
pub struct TransitionPipeline {
    pub ramp_in_ns: u64,
    pub ramp_out_ns: u64,
}

impl TransitionPipeline {
    pub fn new(ramp_in_ns: u64, ramp_out_ns: u64) -> (r: TransitionPipeline)
        ensures
            r.ramp_in_ns == ramp_in_ns,
            r.ramp_out_ns == ramp_out_ns,
    {
        TransitionPipeline { ramp_in_ns, ramp_out_ns }
    }
}

impl FadeIn for TransitionPipeline {
    fn fade_in(&self, track: &mut Track) {
        track.live_gain = track.volume;
    }
}

impl Fill for TransitionPipeline {
    fn fill(&self, track: &mut Track, dur_ns: u64) -> (r: Result<(), AmbError>) {
        track.play_for(dur_ns)
    }
}

impl FadeOut for TransitionPipeline {
    fn fade_out(&self, track: &mut Track) {
        track.live_gain = Gain::zero();
    }
}

/// The largest track length from index `i` on; zero past the end.
pub open spec fn max_total_from(ts: Seq<Track>, i: int) -> int
    decreases ts.len() - i,
{
    if i < 0 || i >= ts.len() {
        0
    } else {
        let cur = spec_total(ts[i].elements@);
        let rest = max_total_from(ts, i + 1);
        if cur >= rest {
            cur
        } else {
            rest
        }
    }
}

/// The smallest track length from index `i` on; zero past the end.
pub open spec fn min_total_from(ts: Seq<Track>, i: int) -> int
    decreases ts.len() - i,
{
    if i < 0 || i >= ts.len() {
        0
    } else if i == ts.len() - 1 {
        spec_total(ts[i].elements@)
    } else {
        let cur = spec_total(ts[i].elements@);
        let rest = min_total_from(ts, i + 1);
        if cur <= rest {
            cur
        } else {
            rest
        }
    }
}

/// The index of the first track whose channel allocation was denied;
/// the sequence's length when none was.
pub open spec fn first_denied(oks: Seq<bool>, i: int) -> int
    decreases oks.len() - i,
{
    if i < 0 || i >= oks.len() {
        i
    } else if !oks[i] {
        i
    } else {
        first_denied(oks, i + 1)
    }
}

/// The track has been faded in from its state `o`: its live gain has
/// reached its base volume and nothing else moved.
pub open spec fn faded_in_from(t: Track, o: Track) -> bool {
    &&& t.live_gain == o.volume
    &&& t.volume == o.volume
    &&& t.position == o.position
    &&& t.elements@ == o.elements@
    &&& t.sink == o.sink
}

/// The track has been faded out from its state `o`: its live gain has
/// fallen to silence and nothing else moved.
pub open spec fn faded_out_from(t: Track, o: Track) -> bool {
    &&& t.live_gain == (Gain { num: 0, den: 1 })
    &&& t.volume == o.volume
    &&& t.position == o.position
    &&& t.elements@ == o.elements@
    &&& t.sink == o.sink
}

/// The track's channel has been released from its state `o`: nothing
/// is enqueued or cycling and the live gain is silence, while the
/// playlist, base volume, position and channel mode survive.
pub open spec fn released_from(t: Track, o: Track) -> bool {
    &&& t.sink.queued().len() == 0
    &&& !t.sink.is_looping()
    &&& t.live_gain == (Gain { num: 0, den: 1 })
    &&& t.volume == o.volume
    &&& t.position == o.position
    &&& t.elements@ == o.elements@
    &&& (t.sink is Simple <==> o.sink is Simple)
    &&& t.sink.pan() == o.sink.pan()
}

/// A set of concurrently playing tracks sharing a lifecycle and a
/// transition policy to the next stage.
pub struct Stage {
    pub tracks: Vec<Track>,
    pub pipeline: TransitionPipeline,
    pub mode: TransitionMode,
    pub state: StageState,
}

impl Stage {
    pub open spec fn wf(self) -> bool {
        forall|i: int| 0 <= i < self.tracks@.len() ==> (#[trigger] self.tracks@[i]).wf()
    }

    /// The stage-level target duration: under `CompleteToZero` the
    /// stage waits for its slowest track, under `TrackAfterTrack` the
    /// first handoff comes at its fastest track's cycle end.
    pub open spec fn spec_length(self) -> int {
        if self.tracks@.len() == 0 {
            0
        } else {
            match self.mode {
                TransitionMode::CompleteToZero => max_total_from(self.tracks@, 0),
                TransitionMode::TrackAfterTrack => min_total_from(self.tracks@, 0),
            }
        }
    }

    pub fn new(tracks: Vec<Track>, pipeline: TransitionPipeline, mode: TransitionMode) -> (r:
        Stage)
        ensures
            r.tracks@ == tracks@,
            r.pipeline == pipeline,
            r.mode == mode,
            r.state is NotStarted,
    {
        Stage { tracks, pipeline, mode, state: StageState::NotStarted }
    }

    pub fn state(&self) -> (r: StageState)
        ensures
            r == self.state,
    {
        self.state
    }

    /// The stage's target duration in nanoseconds (see `spec_length`).
    pub fn length(&self) -> (r: u64)
        requires
            self.wf(),
        ensures
            r == self.spec_length(),
    {
        let n = self.tracks.len();
        if n == 0 {
            return 0;
        }
        let ghost ts = self.tracks@;
        let mut best: u64 = self.tracks[0].length();
        let mut i: usize = 1;
        proof {
            lemma_total_nonneg_tracks(ts, 0);
            assert(ts.take(1)[0] == ts[0]);
            assert(max_total_from(ts.take(1), 1) == 0);
            assert(max_total_from(ts.take(1), 0) == spec_total(ts[0].elements@));
            assert(min_total_from(ts.take(1), 0) == spec_total(ts[0].elements@));
        }
        match self.mode {
            TransitionMode::CompleteToZero => {
                while i < n
                    invariant
                        1 <= i <= n,
                        n == ts.len(),
                        ts == self.tracks@,
                        self.wf(),
                        best == max_total_from(ts.take(i as int), 0),
                    decreases n - i,
                {
                    let cur = self.tracks[i].length();
                    if cur > best {
                        best = cur;
                    }
                    proof {
                        lemma_max_take_step(ts, i as int);
                    }
                    i = i + 1;
                }
                proof {
                    assert(ts.take(n as int) =~= ts);
                }
                best
            },
            TransitionMode::TrackAfterTrack => {
                while i < n
                    invariant
                        1 <= i <= n,
                        n == ts.len(),
                        ts == self.tracks@,
                        self.wf(),
                        best == min_total_from(ts.take(i as int), 0),
                    decreases n - i,
                {
                    let cur = self.tracks[i].length();
                    if cur < best {
                        best = cur;
                    }
                    proof {
                        lemma_min_take_step(ts, i as int);
                    }
                    i = i + 1;
                }
                proof {
                    assert(ts.take(n as int) =~= ts);
                }
                best
            },
        }
    }

    /// Whether the stage's transition condition has been met after
    /// `elapsed_ns` of playing time.
    pub fn transition_due(&self, elapsed_ns: u64) -> (r: bool)
        requires
            self.wf(),
        ensures
            r == (elapsed_ns >= self.spec_length()),
    {
        elapsed_ns >= self.length()
    }

    /// Starts the stage: fades every track in and moves to `Playing`.
    /// `alloc_ok` reports, per track, whether the backend could
    /// allocate its channel. If any allocation was denied, activation
    /// of the whole stage fails with the first denied track's index,
    /// every track already started is torn down before the error
    /// propagates (no partial audio is left playing), and the stage
    /// stays in `NotStarted`.
    pub fn activate(&mut self, alloc_ok: &Vec<bool>) -> (r: Result<(), AmbError>)
        requires
            old(self).wf(),
            old(self).state is NotStarted,
            alloc_ok@.len() == old(self).tracks@.len(),
        ensures
            final(self).wf(),
            final(self).mode == old(self).mode,
            final(self).pipeline == old(self).pipeline,
            final(self).tracks@.len() == old(self).tracks@.len(),
            (forall|k: int| 0 <= k < alloc_ok@.len() ==> alloc_ok@[k]) ==> (r is Ok
                && final(self).state is Playing
                && (forall|k: int|
                    0 <= k < old(self).tracks@.len() ==> #[trigger] faded_in_from(
                        final(self).tracks@[k],
                        old(self).tracks@[k],
                    ))),
            !(forall|k: int| 0 <= k < alloc_ok@.len() ==> alloc_ok@[k]) ==> (r == Err::<
                (),
                AmbError,
            >(
                AmbError::StageActivationFailed {
                    track_index: first_denied(alloc_ok@, 0) as usize,
                },
            )
                && final(self).state is NotStarted
                && (forall|k: int|
                    0 <= k < first_denied(alloc_ok@, 0) ==> #[trigger] released_from(
                        final(self).tracks@[k],
                        old(self).tracks@[k],
                    ))
                && (forall|k: int|
                    first_denied(alloc_ok@, 0) <= k < old(self).tracks@.len()
                        ==> final(self).tracks@[k] == old(self).tracks@[k])),
    {
        let n = self.tracks.len();
        let mut i: usize = 0;
        while i < n
            invariant
                n == self.tracks@.len(),
                self.tracks@.len() == old(self).tracks@.len(),
                alloc_ok@.len() == old(self).tracks@.len(),
                0 <= i <= n,
                self.wf(),
                self.state == old(self).state,
                old(self).state is NotStarted,
                self.mode == old(self).mode,
                self.pipeline == old(self).pipeline,
                forall|k: int| 0 <= k < i ==> alloc_ok@[k],
                forall|k: int|
                    0 <= k < i ==> #[trigger] faded_in_from(
                        self.tracks@[k],
                        old(self).tracks@[k],
                    ),
                forall|k: int| i <= k < n ==> self.tracks@[k] == old(self).tracks@[k],
            decreases n - i,
        {
            if alloc_ok[i] {
                self.pipeline.fade_in(&mut self.tracks[i]);
                i = i + 1;
            } else {
                let mut j: usize = 0;
                while j < i
                    invariant
                        0 <= j <= i < n,
                        n == self.tracks@.len(),
                        self.tracks@.len() == old(self).tracks@.len(),
                        alloc_ok@.len() == old(self).tracks@.len(),
                        self.wf(),
                        self.state == old(self).state,
                        old(self).state is NotStarted,
                        self.mode == old(self).mode,
                        self.pipeline == old(self).pipeline,
                        forall|k: int| 0 <= k < i ==> alloc_ok@[k],
                        !alloc_ok@[i as int],
                        forall|k: int|
                            0 <= k < j ==> #[trigger] released_from(
                                self.tracks@[k],
                                old(self).tracks@[k],
                            ),
                        forall|k: int|
                            j <= k < i ==> #[trigger] faded_in_from(
                                self.tracks@[k],
                                old(self).tracks@[k],
                            ),
                        forall|k: int| i <= k < n ==> self.tracks@[k] == old(self).tracks@[k],
                    decreases i - j,
                {
                    let ghost pre = self.tracks@;
                    let t = &mut self.tracks[j];
                    t.release();
                    proof {
                        assert(faded_in_from(pre[j as int], old(self).tracks@[j as int]));
                        assert(released_from(self.tracks@[j as int], old(self).tracks@[j as int]));
                    }
                    j = j + 1;
                }
                proof {
                    lemma_first_denied_at(alloc_ok@, i as int, 0);
                }
                return Err(AmbError::StageActivationFailed { track_index: i });
            }
        }
        self.state = StageState::Playing;
        Ok(())
    }

    /// The steady-state fill step: keeps every track's channel fed by
    /// enqueuing each track's cyclic duration-bounded fill for the
    /// given budget, so playback never runs dry while the stage
    /// plays. Tracks are non-empty once a stage is playing.
    pub fn fill_tracks(&mut self, dur_ns: u64) -> (r: Result<(), AmbError>)
        requires
            old(self).wf(),
            old(self).state is Playing,
            forall|k: int|
                0 <= k < old(self).tracks@.len() ==> (#[trigger] old(
                    self,
                ).tracks@[k]).elements@.len() > 0,
            dur_ns > 0 ==> forall|k: int|
                0 <= k < old(self).tracks@.len() ==> spec_total(
                    (#[trigger] old(self).tracks@[k]).elements@,
                ) > 0,
        ensures
            final(self).wf(),
            r is Ok,
            final(self).state == old(self).state,
            final(self).mode == old(self).mode,
            final(self).pipeline == old(self).pipeline,
            final(self).tracks@.len() == old(self).tracks@.len(),
            forall|k: int|
                0 <= k < old(self).tracks@.len() ==> ((#[trigger] final(self).tracks@[k]).sink.queued()
                    == old(self).tracks@[k].sink.queued() + fill_spec(
                    old(self).tracks@[k].elements@,
                    dur_ns as int,
                ) && final(self).tracks@[k].same_shape(old(self).tracks@[k])),
    {
        let n = self.tracks.len();
        let mut i: usize = 0;
        while i < n
            invariant
                n == self.tracks@.len(),
                self.tracks@.len() == old(self).tracks@.len(),
                0 <= i <= n,
                self.wf(),
                self.state == old(self).state,
                self.mode == old(self).mode,
                self.pipeline == old(self).pipeline,
                forall|k: int|
                    0 <= k < n ==> (#[trigger] old(self).tracks@[k]).elements@.len() > 0,
                dur_ns > 0 ==> forall|k: int|
                    0 <= k < n ==> spec_total((#[trigger] old(self).tracks@[k]).elements@) > 0,
                forall|k: int|
                    0 <= k < i ==> ((#[trigger] self.tracks@[k]).sink.queued() == old(
                        self,
                    ).tracks@[k].sink.queued() + fill_spec(
                        old(self).tracks@[k].elements@,
                        dur_ns as int,
                    ) && self.tracks@[k].same_shape(old(self).tracks@[k])),
                forall|k: int| i <= k < n ==> self.tracks@[k] == old(self).tracks@[k],
            decreases n - i,
        {
            match self.pipeline.fill(&mut self.tracks[i], dur_ns) {
                Ok(_) => {},
                Err(e) => {
                    proof {
                        assert(false);
                    }
                    return Err(e);
                },
            }
            i = i + 1;
        }
        Ok(())
    }

    /// Moves the stage from `Playing` to `TransitioningOut` once its
    /// transition condition is met after `elapsed_ns` of playing
    /// time, fading every track out; reports whether it did. Nothing
    /// changes when the condition is not yet met or the stage is not
    /// playing.
    pub fn begin_transition(&mut self, elapsed_ns: u64) -> (r: bool)
        requires
            old(self).wf(),
        ensures
            final(self).wf(),
            r == (old(self).state is Playing && elapsed_ns >= old(self).spec_length()),
            !r ==> *final(self) == *old(self),
            r ==> (final(self).state is TransitioningOut
                && final(self).mode == old(self).mode
                && final(self).pipeline == old(self).pipeline
                && final(self).tracks@.len() == old(self).tracks@.len()
                && (forall|k: int|
                    0 <= k < old(self).tracks@.len() ==> #[trigger] faded_out_from(
                        final(self).tracks@[k],
                        old(self).tracks@[k],
                    ))),
    {
        if !(self.state == StageState::Playing) {
            return false;
        }
        if !self.transition_due(elapsed_ns) {
            return false;
        }
        let n = self.tracks.len();
        let mut i: usize = 0;
        while i < n
            invariant
                n == self.tracks@.len(),
                self.tracks@.len() == old(self).tracks@.len(),
                0 <= i <= n,
                self.wf(),
                self.state == old(self).state,
                self.mode == old(self).mode,
                self.pipeline == old(self).pipeline,
                forall|k: int|
                    0 <= k < i ==> #[trigger] faded_out_from(
                        self.tracks@[k],
                        old(self).tracks@[k],
                    ),
                forall|k: int| i <= k < n ==> self.tracks@[k] == old(self).tracks@[k],
            decreases n - i,
        {
            self.pipeline.fade_out(&mut self.tracks[i]);
            i = i + 1;
        }
        self.state = StageState::TransitioningOut;
        true
    }

    /// Ends the transition: every track's channel is drained and
    /// released and the stage reaches `Ended`.
    pub fn finish(&mut self)
        requires
            old(self).wf(),
            old(self).state is TransitioningOut,
        ensures
            final(self).wf(),
            final(self).state is Ended,
            final(self).mode == old(self).mode,
            final(self).pipeline == old(self).pipeline,
            final(self).tracks@.len() == old(self).tracks@.len(),
            forall|k: int|
                0 <= k < old(self).tracks@.len() ==> #[trigger] released_from(
                    final(self).tracks@[k],
                    old(self).tracks@[k],
                ),
    {
        self.release_all();
        self.state = StageState::Ended;
    }

    /// Reports the loss of the audio device: the stage moves straight
    /// to `Ended` without completing a fade-out, all channels are
    /// released, and the error to surface is returned.
    pub fn device_lost(&mut self) -> (r: AmbError)
        requires
            old(self).wf(),
        ensures
            r == AmbError::DeviceLost,
            final(self).wf(),
            final(self).state is Ended,
            final(self).mode == old(self).mode,
            final(self).pipeline == old(self).pipeline,
            final(self).tracks@.len() == old(self).tracks@.len(),
            forall|k: int|
                0 <= k < old(self).tracks@.len() ==> #[trigger] released_from(
                    final(self).tracks@[k],
                    old(self).tracks@[k],
                ),
    {
        self.release_all();
        self.state = StageState::Ended;
        AmbError::DeviceLost
    }

    /// Drains and releases every track's channel.
    fn release_all(&mut self)
        requires
            old(self).wf(),
        ensures
            final(self).wf(),
            final(self).state == old(self).state,
            final(self).mode == old(self).mode,
            final(self).pipeline == old(self).pipeline,
            final(self).tracks@.len() == old(self).tracks@.len(),
            forall|k: int|
                0 <= k < old(self).tracks@.len() ==> #[trigger] released_from(
                    final(self).tracks@[k],
                    old(self).tracks@[k],
                ),
    {
        let n = self.tracks.len();
        let mut i: usize = 0;
        while i < n
            invariant
                n == self.tracks@.len(),
                self.tracks@.len() == old(self).tracks@.len(),
                0 <= i <= n,
                self.wf(),
                self.state == old(self).state,
                self.mode == old(self).mode,
                self.pipeline == old(self).pipeline,
                forall|k: int|
                    0 <= k < i ==> #[trigger] released_from(
                        self.tracks@[k],
                        old(self).tracks@[k],
                    ),
                forall|k: int| i <= k < n ==> self.tracks@[k] == old(self).tracks@[k],
            decreases n - i,
        {
            let t = &mut self.tracks[i];
            t.release();
            i = i + 1;
        }
    }

    /// Under `TrackAfterTrack`, the instant at which the given track
    /// hands off to its successor in the next stage: the end of its
    /// own clip cycle, independent of every other track's state.
    pub fn track_handoff_at(&self, i: usize) -> (r: u64)
        requires
            self.wf(),
            i < self.tracks@.len(),
        ensures
            r == spec_total(self.tracks@[i as int].elements@),
    {
        self.tracks[i].length()
    }
}

proof fn lemma_max_take_step(ts: Seq<Track>, i: int)
    requires
        0 <= i < ts.len(),
    ensures
        max_total_from(ts.take(i + 1), 0) == if spec_total(ts[i].elements@) >= max_total_from(
            ts.take(i),
            0,
        ) {
            spec_total(ts[i].elements@)
        } else {
            max_total_from(ts.take(i), 0)
        },
{
    lemma_max_take_rec(ts, i, 0);
}

proof fn lemma_max_take_rec(ts: Seq<Track>, i: int, j: int)
    requires
        0 <= j <= i < ts.len(),
    ensures
        max_total_from(ts.take(i + 1), j) == if spec_total(ts[i].elements@) >= max_total_from(
            ts.take(i),
            j,
        ) {
            spec_total(ts[i].elements@)
        } else {
            max_total_from(ts.take(i), j)
        },
    decreases i - j,
{
    if j == i {
        assert(max_total_from(ts.take(i + 1), j + 1) == 0);
        assert(max_total_from(ts.take(i), j) == 0);
        lemma_total_nonneg_tracks(ts, i);
    } else {
        lemma_max_take_rec(ts, i, j + 1);
    }
}

proof fn lemma_min_take_step(ts: Seq<Track>, i: int)
    requires
        1 <= i < ts.len(),
    ensures
        min_total_from(ts.take(i + 1), 0) == if spec_total(ts[i].elements@) <= min_total_from(
            ts.take(i),
            0,
        ) {
            spec_total(ts[i].elements@)
        } else {
            min_total_from(ts.take(i), 0)
        },
{
    lemma_min_take_rec(ts, i, 0);
}

proof fn lemma_min_take_rec(ts: Seq<Track>, i: int, j: int)
    requires
        0 <= j < i < ts.len(),
    ensures
        min_total_from(ts.take(i + 1), j) == if spec_total(ts[i].elements@) <= min_total_from(
            ts.take(i),
            j,
        ) {
            spec_total(ts[i].elements@)
        } else {
            min_total_from(ts.take(i), j)
        },
    decreases i - j,
{
    if j == i - 1 {
        assert(min_total_from(ts.take(i + 1), i) == spec_total(ts.take(i + 1)[i].elements@));
        assert(min_total_from(ts.take(i), j) == spec_total(ts.take(i)[j].elements@));
    } else {
        lemma_min_take_rec(ts, i, j + 1);
    }
}

proof fn lemma_total_nonneg_tracks(ts: Seq<Track>, i: int)
    requires
        0 <= i < ts.len(),
    ensures
        spec_total(ts[i].elements@) >= 0,
{
    crate::track::lemma_total_from_nonneg(ts[i].elements@, 0);
}

proof fn lemma_first_denied_at(oks: Seq<bool>, i: int, j: int)
    requires
        0 <= j <= i < oks.len(),
        !oks[i],
        forall|k: int| j <= k < i ==> oks[k],
    ensures
        first_denied(oks, j) == i,
    decreases i - j,
{
    if j < i {
        lemma_first_denied_at(oks, i, j + 1);
    }
}

/// Law: under `CompleteToZero` the stage's target duration is no
/// shorter than any of its tracks, so transitioning out cannot begin
/// before every track's fill has elapsed.
pub proof fn lemma_complete_to_zero_waits_for_all(s: Stage, i: int)
    requires
        s.mode is CompleteToZero,
        0 <= i < s.tracks@.len(),
    ensures
        s.spec_length() >= spec_total(s.tracks@[i].elements@),
{
    lemma_max_from_ge(s.tracks@, 0, i);
}

proof fn lemma_max_from_ge(ts: Seq<Track>, j: int, i: int)
    requires
        0 <= j <= i < ts.len(),
    ensures
        max_total_from(ts, j) >= spec_total(ts[i].elements@),
    decreases i - j,
{
    if j < i {
        lemma_max_from_ge(ts, j + 1, i);
    }
}

} // verus!
