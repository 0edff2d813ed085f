//! An ordered, cyclable playlist of sounds rendered to one output
//! channel, with duration-bounded cyclic filling.

use vstd::prelude::*;

use crate::errors::AmbError;
use crate::gain::Gain;
use crate::sound::DecodeOutcome;
use crate::sound::Sound;

verus! {

/// One enqueued piece of audio: the playlist entry it came from and
/// how much of it is audible (the full length, or a truncated leading
/// fraction on the entry that would overshoot the time budget).
#[derive(Clone, Copy, Debug, PartialEq, Eq, Structural)]
pub struct Segment {
    pub clip_index: usize,
    pub audible_ns: u64,
}

/// The state this core keeps of one exclusive backend output channel:
/// the segments enqueued on it and whether it is to keep cycling after
/// the queue runs out.
pub struct Channel {
    pub queue: Vec<Segment>,
    pub looping: bool,
}

impl Channel {
    pub fn new() -> (r: Channel)
        ensures
            r.queue@ == Seq::<Segment>::empty(),
            !r.looping,
    {
        Channel { queue: Vec::new(), looping: false }
    }
}

/// The two backend channel kinds do not share an interface, so they
/// are a closed tagged variant: a centered (simple) channel, or a
/// spatial one carrying its stereo pan coordinate.
pub enum Sink {
    Simple(Channel),
    Spatial(Channel, i64),
}

impl Sink {
    /// The segments currently enqueued, whichever the channel kind.
    pub open spec fn queued(self) -> Seq<Segment> {
        match self {
            Sink::Simple(c) => c.queue@,
            Sink::Spatial(c, _) => c.queue@,
        }
    }

    pub open spec fn is_looping(self) -> bool {
        match self {
            Sink::Simple(c) => c.looping,
            Sink::Spatial(c, _) => c.looping,
        }
    }

    /// The stereo pan coordinate; a simple channel is centered.
    pub open spec fn pan(self) -> int {
        match self {
            Sink::Simple(_) => 0,
            Sink::Spatial(_, p) => p as int,
        }
    }

    /// Same channel kind, coordinate and looping flag.
    pub open spec fn same_mode(self, other: Sink) -> bool {
        &&& (self is Simple <==> other is Simple)
        &&& self.pan() == other.pan()
        &&& self.is_looping() == other.is_looping()
    }

    /// Marks whether the channel is to keep cycling after its queue
    /// runs out.
    pub fn set_looping(&mut self, looping: bool)
        ensures
            final(self).queued() == old(self).queued(),
            final(self).is_looping() == looping,
            *final(self) is Simple <==> *old(self) is Simple,
            final(self).pan() == old(self).pan(),
    {
        match self {
            Sink::Simple(c) => c.looping = looping,
            Sink::Spatial(c, _) => c.looping = looping,
        }
    }

    /// Drops everything enqueued and stops cycling, as the backend
    /// does when a channel is drained and released.
    pub fn clear(&mut self)
        ensures
            final(self).queued() == Seq::<Segment>::empty(),
            !final(self).is_looping(),
            *final(self) is Simple <==> *old(self) is Simple,
            final(self).pan() == old(self).pan(),
    {
        match self {
            Sink::Simple(c) => {
                c.queue = Vec::new();
                c.looping = false;
            },
            Sink::Spatial(c, _) => {
                c.queue = Vec::new();
                c.looping = false;
            },
        }
    }

    /// Enqueues one segment, dispatching on the channel kind.
    pub fn append(&mut self, seg: Segment)
        ensures
            final(self).queued() == old(self).queued().push(seg),
            final(self).same_mode(*old(self)),
    {
        match self {
            Sink::Simple(c) => c.queue.push(seg),
            Sink::Spatial(c, _) => c.queue.push(seg),
        }
    }
}

/// Sum of the play lengths of the sounds from index `i` on.
pub open spec fn total_from(els: Seq<Sound>, i: int) -> int
    decreases els.len() - i,
{
    if i < 0 || i >= els.len() {
        0
    } else {
        els[i].length_ns + total_from(els, i + 1)
    }
}

/// Sum of the play lengths of all the sounds: the track's length.
pub open spec fn spec_total(els: Seq<Sound>) -> int {
    total_from(els, 0)
}

pub proof fn lemma_total_from_nonneg(els: Seq<Sound>, i: int)
    ensures
        total_from(els, i) >= 0,
    decreases els.len() - i,
{
    if 0 <= i < els.len() {
        lemma_total_from_nonneg(els, i + 1);
    }
}

pub proof fn lemma_total_from_push(els: Seq<Sound>, c: Sound, i: int)
    requires
        0 <= i <= els.len(),
    ensures
        total_from(els.push(c), i) == total_from(els, i) + c.length_ns,
    decreases els.len() - i,
{
    if i < els.len() {
        lemma_total_from_push(els, c, i + 1);
    } else {
        assert(total_from(els.push(c), i) == els.push(c)[i].length_ns + total_from(
            els.push(c),
            i + 1,
        ));
    }
}

/// One full pass over the playlist from index `i` on, each sound
/// enqueued whole.
pub open spec fn cycle_from(els: Seq<Sound>, i: int) -> Seq<Segment>
    decreases els.len() - i,
{
    if i < 0 || i >= els.len() {
        Seq::empty()
    } else {
        seq![Segment { clip_index: i as usize, audible_ns: els[i].length_ns }] + cycle_from(
            els,
            i + 1,
        )
    }
}

/// The within-one-pass fill from index `i` with time budget `d`: whole
/// sounds while they fit, then the leading fraction of the first sound
/// that would overshoot.
pub open spec fn fill_once(els: Seq<Sound>, i: int, d: int) -> Seq<Segment>
    decreases els.len() - i,
{
    if i < 0 || i >= els.len() {
        Seq::empty()
    } else if d <= els[i].length_ns {
        seq![Segment { clip_index: i as usize, audible_ns: d as u64 }]
    } else {
        seq![Segment { clip_index: i as usize, audible_ns: els[i].length_ns }] + fill_once(
            els,
            i + 1,
            d - els[i].length_ns,
        )
    }
}

/// The cyclic duration-bounded fill: full passes while the budget
/// exceeds the playlist's total length, then one within-pass fill of
/// the remainder. Empty for a budget of zero.
pub open spec fn fill_spec(els: Seq<Sound>, d: int) -> Seq<Segment>
    decreases d,
{
    if els.len() == 0 || spec_total(els) <= 0 || d <= 0 {
        Seq::empty()
    } else if d > spec_total(els) {
        cycle_from(els, 0) + fill_spec(els, d - spec_total(els))
    } else {
        fill_once(els, 0, d)
    }
}

/// The audible time of a queue of segments.
pub open spec fn sum_audible(segs: Seq<Segment>) -> int
    decreases segs.len(),
{
    if segs.len() == 0 {
        0
    } else {
        segs[0].audible_ns + sum_audible(segs.drop_first())
    }
}

pub proof fn lemma_sum_audible_concat(a: Seq<Segment>, b: Seq<Segment>)
    ensures
        sum_audible(a + b) == sum_audible(a) + sum_audible(b),
    decreases a.len(),
{
    if a.len() == 0 {
        assert(a + b =~= b);
    } else {
        assert((a + b).drop_first() =~= a.drop_first() + b);
        lemma_sum_audible_concat(a.drop_first(), b);
    }
}

pub proof fn lemma_cycle_from_sum(els: Seq<Sound>, i: int)
    requires
        0 <= i <= els.len(),
    ensures
        sum_audible(cycle_from(els, i)) == total_from(els, i),
        cycle_from(els, i).len() == els.len() - i,
    decreases els.len() - i,
{
    if i < els.len() {
        lemma_cycle_from_sum(els, i + 1);
        let head = seq![Segment { clip_index: i as usize, audible_ns: els[i].length_ns }];
        assert(cycle_from(els, i) == head + cycle_from(els, i + 1));
        assert(sum_audible(head.drop_first()) == 0);
        assert(sum_audible(head) == els[i].length_ns);
        lemma_sum_audible_concat(head, cycle_from(els, i + 1));
    }
}

pub proof fn lemma_fill_once_sum(els: Seq<Sound>, i: int, d: int)
    requires
        0 <= i < els.len(),
        1 <= d <= total_from(els, i),
        d <= u64::MAX,
    ensures
        sum_audible(fill_once(els, i, d)) == d,
        fill_once(els, i, d).len() >= 1,
    decreases els.len() - i,
{
    if d <= els[i].length_ns {
        let s = seq![Segment { clip_index: i as usize, audible_ns: d as u64 }];
        assert(s.drop_first().len() == 0);
        assert(sum_audible(s.drop_first()) == 0);
        assert(sum_audible(s) == d);
    } else {
        lemma_total_from_nonneg(els, i + 1);
        assert(i + 1 < els.len()) by {
            if i + 1 >= els.len() {
                assert(total_from(els, i + 1) == 0);
            }
        }
        lemma_fill_once_sum(els, i + 1, d - els[i].length_ns);
        let head = seq![Segment { clip_index: i as usize, audible_ns: els[i].length_ns }];
        assert(sum_audible(head.drop_first()) == 0);
        assert(sum_audible(head) == els[i].length_ns);
        lemma_sum_audible_concat(head, fill_once(els, i + 1, d - els[i].length_ns));
    }
}

/// Law: for a non-empty playlist of positive total length and any
/// positive time budget `d`, the cyclic fill enqueues segments whose
/// summed audible time is exactly `d`.
pub proof fn lemma_fill_spec_sum(els: Seq<Sound>, d: int)
    requires
        els.len() > 0,
        spec_total(els) >= 1,
        1 <= d <= u64::MAX,
    ensures
        sum_audible(fill_spec(els, d)) == d,
        fill_spec(els, d).len() >= 1,
    decreases d,
{
    if d > spec_total(els) {
        lemma_cycle_from_sum(els, 0);
        lemma_fill_spec_sum(els, d - spec_total(els));
        lemma_sum_audible_concat(cycle_from(els, 0), fill_spec(els, d - spec_total(els)));
    } else {
        lemma_fill_once_sum(els, 0, d);
    }
}

/// Law: appending the same sound twice — as when one loaded clip is
/// replayed back to back through fresh rewound sources — grows the
/// track's total length by exactly twice that sound's fixed duration.
pub proof fn lemma_replayed_append_doubles_length(els: Seq<Sound>, c: Sound)
    ensures
        spec_total(els.push(c).push(c)) == spec_total(els) + 2 * c.length_ns,
{
    lemma_total_from_push(els, c, 0);
    lemma_total_from_push(els.push(c), c, 0);
}

/// Law: a budget beyond the playlist's total length makes the fill
/// wrap: more segments are enqueued than the playlist has sounds, and
/// the first pass enqueues every sound whole, yet the audible sum is
/// still exactly `d`.
pub proof fn lemma_fill_spec_wraps(els: Seq<Sound>, d: int)
    requires
        els.len() > 0,
        spec_total(els) >= 1,
        d > spec_total(els),
        d <= u64::MAX,
    ensures
        fill_spec(els, d).len() > els.len(),
        fill_spec(els, d).take(els.len() as int) == cycle_from(els, 0),
        sum_audible(fill_spec(els, d)) == d,
{
    lemma_cycle_from_sum(els, 0);
    lemma_fill_spec_sum(els, d - spec_total(els));
    lemma_fill_spec_sum(els, d);
    assert((cycle_from(els, 0) + fill_spec(els, d - spec_total(els))).take(els.len() as int)
        =~= cycle_from(els, 0));
}

/// The index of the first sound, in the walk from index `i` with time
/// budget `d`, that the budget does not strictly exceed: the sound at
/// which a duration-bounded fill would truncate.
pub open spec fn overflow_once(els: Seq<Sound>, i: int, d: int) -> int
    decreases els.len() - i,
{
    if i < 0 || i >= els.len() {
        0
    } else if d <= els[i].length_ns {
        i
    } else {
        overflow_once(els, i + 1, d - els[i].length_ns)
    }
}

/// The playlist index at which the cyclic walk with time budget `d`
/// would stop: the first sound that would not fit whole.
pub open spec fn overflow_index(els: Seq<Sound>, d: int) -> int
    decreases d,
{
    if els.len() == 0 || spec_total(els) <= 0 || d <= 0 {
        0
    } else if d > spec_total(els) {
        overflow_index(els, d - spec_total(els))
    } else {
        overflow_once(els, 0, d)
    }
}

pub proof fn lemma_overflow_once_bounds(els: Seq<Sound>, i: int, d: int)
    requires
        0 <= i < els.len(),
        1 <= d <= total_from(els, i),
    ensures
        i <= overflow_once(els, i, d) < els.len(),
    decreases els.len() - i,
{
    if d > els[i].length_ns {
        lemma_total_from_nonneg(els, i + 1);
        assert(i + 1 < els.len()) by {
            if i + 1 >= els.len() {
                assert(total_from(els, i + 1) == 0);
            }
        }
        lemma_overflow_once_bounds(els, i + 1, d - els[i].length_ns);
    }
}

pub proof fn lemma_overflow_index_bounds(els: Seq<Sound>, d: int)
    requires
        els.len() > 0,
        spec_total(els) >= 1,
    ensures
        0 <= overflow_index(els, d) < els.len(),
    decreases d,
{
    if d <= 0 {
    } else if d > spec_total(els) {
        lemma_overflow_index_bounds(els, d - spec_total(els));
    } else {
        lemma_overflow_once_bounds(els, 0, d);
    }
}

proof fn lemma_overflow_once_matches_fill(els: Seq<Sound>, i: int, d: int)
    requires
        els.len() <= usize::MAX,
        0 <= i < els.len(),
        1 <= d <= total_from(els, i),
        d <= u64::MAX,
    ensures
        fill_once(els, i, d).len() >= 1,
        fill_once(els, i, d).last().clip_index == overflow_once(els, i, d),
    decreases els.len() - i,
{
    if d <= els[i].length_ns {
    } else {
        lemma_total_from_nonneg(els, i + 1);
        assert(i + 1 < els.len()) by {
            if i + 1 >= els.len() {
                assert(total_from(els, i + 1) == 0);
            }
        }
        lemma_overflow_once_matches_fill(els, i + 1, d - els[i].length_ns);
        let head = seq![Segment { clip_index: i as usize, audible_ns: els[i].length_ns }];
        let rest = fill_once(els, i + 1, d - els[i].length_ns);
        assert((head + rest).last() == rest.last());
    }
}

/// Law: the two sibling walks agree. For any non-empty playlist of
/// positive total length and positive budget `d`, the sound that
/// `next_overflow_clip` names is exactly the one on which the cyclic
/// fill of `play_for` truncates: the last enqueued segment's entry.
pub proof fn lemma_overflow_matches_fill(els: Seq<Sound>, d: int)
    requires
        els.len() <= usize::MAX,
        els.len() > 0,
        spec_total(els) >= 1,
        1 <= d <= u64::MAX,
    ensures
        fill_spec(els, d).len() >= 1,
        fill_spec(els, d).last().clip_index == overflow_index(els, d),
    decreases d,
{
    if d > spec_total(els) {
        lemma_overflow_matches_fill(els, d - spec_total(els));
        lemma_cycle_from_sum(els, 0);
        let tail = fill_spec(els, d - spec_total(els));
        assert((cycle_from(els, 0) + tail).last() == tail.last());
    } else {
        lemma_overflow_once_matches_fill(els, 0, d);
    }
}

/// An ordered, cyclable playlist of sounds rendered through one
/// output channel, owning its base volume and stereo position.
pub struct Track {
    /// The output channel this track is bound to.
    pub sink: Sink,
    /// The base volume, independent of any backend-level live gain
    /// that may vary during a stage transition.
    pub volume: Gain,
    /// The backend-level live gain a stage ramps during fade-in and
    /// fade-out; zero before fade-in and after fade-out.
    pub live_gain: Gain,
    /// Stereo pan coordinate; zero means centered (simple mode).
    pub position: i64,
    /// The playlist, cycled through during filling.
    pub elements: Vec<Sound>,
}

impl Track {
    /// Well-formedness: the summed playlist length fits the time type,
    /// and a centered channel carries no leftover pan coordinate.
    pub open spec fn wf(self) -> bool {
        &&& spec_total(self.elements@) <= u64::MAX
        &&& (self.sink is Simple ==> self.position == 0)
    }

    /// Everything but the channel queue: playlist, volume, live gain,
    /// position and channel mode agree.
    pub open spec fn same_shape(self, other: Track) -> bool {
        &&& self.volume == other.volume
        &&& self.live_gain == other.live_gain
        &&& self.position == other.position
        &&& self.elements@ == other.elements@
        &&& self.sink.same_mode(other.sink)
    }

    /// Creates a track bound to a fresh centered channel; `alloc_ok`
    /// reports whether the backend could allocate that channel.
    pub fn new(alloc_ok: bool) -> (r: Result<Track, AmbError>)
        ensures
            alloc_ok ==> (r matches Ok(t)
                && t.sink is Simple
                && t.sink.queued() == Seq::<Segment>::empty()
                && !t.sink.is_looping()
                && t.volume == (Gain { num: 1, den: 1 })
                && t.live_gain == (Gain { num: 1, den: 1 })
                && t.position == 0
                && t.elements@ == Seq::<Sound>::empty()
                && t.wf()),
            !alloc_ok ==> r == Err::<Track, AmbError>(AmbError::BackendUnavailable),
    {
        if !alloc_ok {
            return Err(AmbError::BackendUnavailable);
        }
        Ok(Track {
            sink: Sink::Simple(Channel::new()),
            volume: Gain::one(),
            live_gain: Gain::one(),
            position: 0,
            elements: Vec::new(),
        })
    }

    /// Appends a sound to the end of the loop sequence.
    pub fn add(&mut self, elem: Sound)
        requires
            old(self).wf(),
            spec_total(old(self).elements@) + elem.length_ns <= u64::MAX,
        ensures
            final(self).elements@ == old(self).elements@.push(elem),
            final(self).volume == old(self).volume,
            final(self).live_gain == old(self).live_gain,
            final(self).position == old(self).position,
            final(self).sink == old(self).sink,
            final(self).wf(),
    {
        proof {
            lemma_total_from_push(self.elements@, elem, 0);
        }
        self.elements.push(elem);
    }

    /// Builds a sound from a path and a decode outcome, and appends it.
    /// The decode failure, if any, is surfaced unmodified and the
    /// track is left untouched.
    pub fn add_from_path(&mut self, filepath: String, decode: DecodeOutcome) -> (r: Result<
        (),
        AmbError,
    >)
        requires
            old(self).wf(),
            decode matches DecodeOutcome::Decoded { length_ns } ==> spec_total(
                old(self).elements@,
            ) + length_ns <= u64::MAX,
        ensures
            decode matches DecodeOutcome::Decoded { length_ns } ==> (r is Ok
                && final(self).elements@.len() == old(self).elements@.len() + 1
                && final(self).elements@.drop_last() == old(self).elements@
                && final(self).elements@.last().path@ == filepath@
                && final(self).elements@.last().volume == (Gain { num: 1, den: 1 })
                && final(self).elements@.last().length_ns == length_ns),
            decode is Unreadable ==> r == Err::<(), AmbError>(AmbError::AssetUnreadable)
                && *final(self) == *old(self),
            decode is Malformed ==> r == Err::<(), AmbError>(AmbError::DecodeFailed)
                && *final(self) == *old(self),
            final(self).volume == old(self).volume,
            final(self).live_gain == old(self).live_gain,
            final(self).position == old(self).position,
            final(self).sink == old(self).sink,
            final(self).wf(),
    {
        match Sound::new(filepath, decode) {
            Ok(s) => {
                self.add(s);
                proof {
                    assert(final(self).elements@.drop_last() =~= old(self).elements@);
                }
                Ok(())
            },
            Err(e) => Err(e),
        }
    }

    /// The track's total length: the sum of its sounds' durations,
    /// zero when the playlist is empty.
    pub fn length(&self) -> (r: u64)
        requires
            self.wf(),
        ensures
            r == spec_total(self.elements@),
    {
        let ghost els = self.elements@;
        let n = self.elements.len();
        let mut sum: u64 = 0;
        let mut i: usize = 0;
        proof {
            lemma_total_from_nonneg(els, 0);
        }
        while i < n
            invariant
                n == els.len(),
                0 <= i <= n,
                self.wf(),
                els == self.elements@,
                sum + total_from(els, i as int) == spec_total(els),
                spec_total(els) <= u64::MAX,
            decreases n - i,
        {
            proof {
                lemma_total_from_nonneg(els, i + 1);
            }
            sum = sum + self.elements[i].length_ns;
            i = i + 1;
        }
        sum
    }

    /// How many sounds the playlist holds.
    pub fn count(&self) -> (r: usize)
        ensures
            r == self.elements@.len(),
    {
        self.elements.len()
    }

    /// Rescales subsequent playback: the base volume becomes the old
    /// base volume times `vol`, exactly, and the new effective base
    /// volume is returned. A non-finite or negative `vol` is rejected
    /// as `InvalidGain` with no side effect.
    pub fn set_volume(&mut self, vol: Gain) -> (r: Result<Gain, AmbError>)
        requires
            vol.is_valid() ==> i64::MIN <= old(self).volume.num * vol.num <= i64::MAX,
            vol.is_valid() ==> old(self).volume.den * vol.den <= u64::MAX,
        ensures
            !vol.is_valid() ==> r == Err::<Gain, AmbError>(AmbError::InvalidGain) && *final(self)
                == *old(self),
            vol.is_valid() ==> (r matches Ok(g)
                && g == final(self).volume
                && final(self).volume.num == old(self).volume.num * vol.num
                && final(self).volume.den == old(self).volume.den * vol.den),
            final(self).live_gain == old(self).live_gain,
            final(self).position == old(self).position,
            final(self).elements@ == old(self).elements@,
            final(self).sink == old(self).sink,
    {
        if !vol.valid() {
            return Err(AmbError::InvalidGain);
        }
        self.volume = self.volume.mul(&vol);
        Ok(self.volume)
    }

    /// Moves the track's stereo position. Moving away from center (or
    /// moving while already spatial) reallocates the channel in
    /// spatial mode, which discards its pending queue; `alloc_ok`
    /// reports whether the backend could allocate the new channel, and
    /// on failure the old channel and state are kept.
    pub fn set_position(&mut self, pos: i64, alloc_ok: bool) -> (r: Result<i64, AmbError>)
        requires
            old(self).wf(),
        ensures
            (old(self).sink is Simple && pos == 0) ==> (r == Ok::<i64, AmbError>(0) && *final(self)
                == *old(self)),
            (!(old(self).sink is Simple && pos == 0) && !alloc_ok) ==> (r == Err::<i64, AmbError>(
                AmbError::BackendUnavailable,
            ) && *final(self) == *old(self)),
            (!(old(self).sink is Simple && pos == 0) && alloc_ok) ==> (r == Ok::<i64, AmbError>(pos)
                && final(self).sink is Spatial
                && final(self).sink.pan() == pos
                && final(self).sink.queued() == Seq::<Segment>::empty()
                && !final(self).sink.is_looping()
                && final(self).position == pos),
            final(self).volume == old(self).volume,
            final(self).live_gain == old(self).live_gain,
            final(self).elements@ == old(self).elements@,
            final(self).wf(),
    {
        match &self.sink {
            Sink::Simple(_) => {
                if pos == 0 {
                    return Ok(0);
                }
                if !alloc_ok {
                    return Err(AmbError::BackendUnavailable);
                }
                self.sink = Sink::Spatial(Channel::new(), pos);
                self.position = pos;
                Ok(pos)
            },
            Sink::Spatial(_, _) => {
                if !alloc_ok {
                    return Err(AmbError::BackendUnavailable);
                }
                self.sink = Sink::Spatial(Channel::new(), pos);
                self.position = pos;
                Ok(pos)
            },
        }
    }

    /// Returns the track to centered rendering. On success the track
    /// is never left in spatial mode nor bound to stale coordinates:
    /// the channel is simple again and the position is zero. Leaving
    /// spatial mode reallocates the channel, which discards its
    /// pending queue; on allocation failure nothing changes.
    pub fn reset_position(&mut self, alloc_ok: bool) -> (r: Result<(), AmbError>)
        requires
            old(self).wf(),
        ensures
            old(self).sink is Simple ==> (r is Ok && *final(self) == *old(self)),
            (old(self).sink is Spatial && alloc_ok) ==> (r is Ok
                && final(self).sink is Simple
                && final(self).sink.queued() == Seq::<Segment>::empty()
                && !final(self).sink.is_looping()
                && final(self).position == 0),
            (old(self).sink is Spatial && !alloc_ok) ==> (r == Err::<(), AmbError>(
                AmbError::BackendUnavailable,
            ) && *final(self) == *old(self)),
            r is Ok ==> !(final(self).sink is Spatial) && final(self).position == 0,
            final(self).volume == old(self).volume,
            final(self).live_gain == old(self).live_gain,
            final(self).elements@ == old(self).elements@,
            final(self).wf(),
    {
        match &self.sink {
            Sink::Simple(_) => Ok(()),
            Sink::Spatial(_, _) => {
                if !alloc_ok {
                    return Err(AmbError::BackendUnavailable);
                }
                self.sink = Sink::Simple(Channel::new());
                self.position = 0;
                Ok(())
            },
        }
    }

    /// Tears the track down: the channel queue is drained, cycling
    /// stops and the live gain falls to silence, so no audio is left
    /// playing. The playlist, base volume and position survive.
    pub fn release(&mut self)
        requires
            old(self).wf(),
        ensures
            final(self).sink.queued() == Seq::<Segment>::empty(),
            !final(self).sink.is_looping(),
            final(self).live_gain == (Gain { num: 0, den: 1 }),
            final(self).sink is Simple <==> old(self).sink is Simple,
            final(self).sink.pan() == old(self).sink.pan(),
            final(self).volume == old(self).volume,
            final(self).position == old(self).position,
            final(self).elements@ == old(self).elements@,
            final(self).wf(),
    {
        self.sink.clear();
        self.live_gain = Gain::zero();
    }

    /// Enqueues one full pass over the playlist, each sound whole.
    fn enqueue_cycle(&mut self)
        requires
            old(self).wf(),
        ensures
            final(self).sink.queued() == old(self).sink.queued() + cycle_from(
                old(self).elements@,
                0,
            ),
            final(self).same_shape(*old(self)),
            final(self).wf(),
    {
        let ghost els = self.elements@;
        let ghost qs = self.sink.queued();
        let n = self.elements.len();
        let mut i: usize = 0;
        while i < n
            invariant
                0 <= i <= n,
                n == els.len(),
                self.elements@ == els,
                self.wf(),
                self.sink.queued() + cycle_from(els, i as int) == qs + cycle_from(els, 0),
                self.sink.same_mode(old(self).sink),
                self.volume == old(self).volume,
                self.live_gain == old(self).live_gain,
                self.position == old(self).position,
                qs == old(self).sink.queued(),
            decreases n - i,
        {
            let seg = Segment { clip_index: i, audible_ns: self.elements[i].length_ns };
            let ghost qbefore = self.sink.queued();
            self.sink.append(seg);
            proof {
                assert(cycle_from(els, i as int) == seq![seg] + cycle_from(els, i + 1));
                assert(qbefore.push(seg) =~= qbefore + seq![seg]);
                assert((qbefore + seq![seg]) + cycle_from(els, i + 1) =~= qbefore + (seq![seg]
                    + cycle_from(els, i + 1)));
            }
            i = i + 1;
        }
        proof {
            assert(cycle_from(els, n as int).len() == 0);
            assert(self.sink.queued() + cycle_from(els, n as int) =~= self.sink.queued());
        }
    }

    /// The cyclic duration-bounded fill. Starting from the first
    /// sound, it enqueues whole sounds in cyclic (wrap-around) order,
    /// and on the sound that would overshoot the remaining budget it
    /// enqueues only the leading fraction and stops, so the enqueued
    /// audible time is exactly `dur_ns`. A zero budget enqueues
    /// nothing; an empty track fails fast with `EmptyTrack` and leaves
    /// the channel untouched.
    pub fn play_for(&mut self, dur_ns: u64) -> (r: Result<(), AmbError>)
        requires
            old(self).wf(),
            old(self).elements@.len() > 0 && dur_ns > 0 ==> spec_total(old(self).elements@) > 0,
        ensures
            old(self).elements@.len() == 0 <==> r == Err::<(), AmbError>(AmbError::EmptyTrack),
            old(self).elements@.len() == 0 ==> *final(self) == *old(self),
            old(self).elements@.len() > 0 ==> (r is Ok && final(self).sink.queued() == old(
                self,
            ).sink.queued() + fill_spec(old(self).elements@, dur_ns as int)),
            old(self).elements@.len() > 0 && dur_ns > 0 ==> sum_audible(
                fill_spec(old(self).elements@, dur_ns as int),
            ) == dur_ns,
            final(self).same_shape(*old(self)),
            final(self).wf(),
    {
        if self.elements.len() == 0 {
            return Err(AmbError::EmptyTrack);
        }
        proof {
            if dur_ns > 0 {
                lemma_fill_spec_sum(self.elements@, dur_ns as int);
            }
        }
        let ghost els = self.elements@;
        let ghost q0 = self.sink.queued();
        if dur_ns == 0 {
            proof {
                assert(q0 + fill_spec(els, 0) =~= q0);
            }
            return Ok(());
        }
        let total = self.length();
        let mut remaining: u64 = dur_ns;
        while remaining > total
            invariant
                els == self.elements@,
                els.len() > 0,
                self.wf(),
                total == spec_total(els),
                total >= 1,
                remaining >= 1,
                remaining <= u64::MAX,
                self.sink.queued() + fill_spec(els, remaining as int) == q0 + fill_spec(
                    els,
                    dur_ns as int,
                ),
                self.sink.same_mode(old(self).sink),
                self.volume == old(self).volume,
                self.live_gain == old(self).live_gain,
                self.position == old(self).position,
                q0 == old(self).sink.queued(),
            decreases remaining,
        {
            let ghost qs = self.sink.queued();
            self.enqueue_cycle();
            proof {
                assert(fill_spec(els, remaining as int) == cycle_from(els, 0) + fill_spec(
                    els,
                    remaining - total,
                ));
                assert((qs + cycle_from(els, 0)) + fill_spec(els, remaining - total) =~= qs + (
                cycle_from(els, 0) + fill_spec(els, remaining - total)));
            }
            remaining = remaining - total;
        }
        // Now 1 <= remaining <= total: one within-pass fill remains.
        proof {
            assert(fill_spec(els, remaining as int) == fill_once(els, 0, remaining as int));
        }
        let n = self.elements.len();
        let mut i: usize = 0;
        loop
            invariant_except_break
                els == self.elements@,
                n == els.len(),
                0 <= i < n,
                self.wf(),
                1 <= remaining <= total_from(els, i as int),
                self.sink.queued() + fill_once(els, i as int, remaining as int) == q0 + fill_spec(
                    els,
                    dur_ns as int,
                ),
                self.sink.same_mode(old(self).sink),
                self.volume == old(self).volume,
                self.live_gain == old(self).live_gain,
                self.position == old(self).position,
            ensures
                els == self.elements@,
                self.wf(),
                self.sink.queued() == q0 + fill_spec(els, dur_ns as int),
                self.sink.same_mode(old(self).sink),
                self.volume == old(self).volume,
                self.live_gain == old(self).live_gain,
                self.position == old(self).position,
            decreases n - i,
        {
            let len_i = self.elements[i].length_ns;
            let ghost qbefore = self.sink.queued();
            if remaining <= len_i {
                let seg = Segment { clip_index: i, audible_ns: remaining };
                self.sink.append(seg);
                proof {
                    assert(fill_once(els, i as int, remaining as int) == seq![seg]);
                    assert(qbefore.push(seg) =~= qbefore + seq![seg]);
                }
                break ;
            } else {
                let seg = Segment { clip_index: i, audible_ns: len_i };
                self.sink.append(seg);
                proof {
                    assert(fill_once(els, i as int, remaining as int) == seq![seg] + fill_once(
                        els,
                        i + 1,
                        remaining - len_i,
                    ));
                    assert(qbefore.push(seg) =~= qbefore + seq![seg]);
                    assert((qbefore + seq![seg]) + fill_once(els, i + 1, remaining - len_i)
                        =~= qbefore + (seq![seg] + fill_once(els, i + 1, remaining - len_i)));
                    lemma_total_from_nonneg(els, i + 2);
                    assert(i + 1 < n) by {
                        if i + 1 >= n {
                            assert(total_from(els, i + 1) == 0);
                        }
                    }
                }
                remaining = remaining - len_i;
                i = i + 1;
            }
        }
        Ok(())
    }

    /// Plays the full sound cycle without a duration bound: one whole
    /// pass is enqueued and the channel is marked to keep cycling
    /// until stage-level teardown. An empty track fails fast with
    /// `EmptyTrack` and leaves the channel untouched.
    pub fn play_indefinitely(&mut self) -> (r: Result<(), AmbError>)
        requires
            old(self).wf(),
        ensures
            old(self).elements@.len() == 0 <==> r == Err::<(), AmbError>(AmbError::EmptyTrack),
            old(self).elements@.len() == 0 ==> *final(self) == *old(self),
            old(self).elements@.len() > 0 ==> (r is Ok
                && final(self).sink.queued() == old(self).sink.queued() + cycle_from(
                old(self).elements@,
                0,
            )
                && final(self).sink.is_looping()),
            final(self).sink is Simple <==> old(self).sink is Simple,
            final(self).sink.pan() == old(self).sink.pan(),
            final(self).volume == old(self).volume,
            final(self).live_gain == old(self).live_gain,
            final(self).position == old(self).position,
            final(self).elements@ == old(self).elements@,
            final(self).wf(),
    {
        if self.elements.len() == 0 {
            return Err(AmbError::EmptyTrack);
        }
        self.enqueue_cycle();
        self.sink.set_looping(true);
        Ok(())
    }

    /// The sibling of `play_for` used to align stage transitions to a
    /// clip edge: the identical cyclic walk, but instead of truncating
    /// and enqueuing it stops and returns the first sound that would
    /// not fit whole in the budget, without committing any audio.
    pub fn next_overflow_clip(&self, dur_ns: u64) -> (r: Result<&Sound, AmbError>)
        requires
            self.wf(),
            self.elements@.len() > 0 && dur_ns > 0 ==> spec_total(self.elements@) > 0,
        ensures
            self.elements@.len() == 0 <==> r == Err::<&Sound, AmbError>(AmbError::EmptyTrack),
            self.elements@.len() > 0 ==> 0 <= overflow_index(self.elements@, dur_ns as int)
                < self.elements@.len(),
            self.elements@.len() > 0 ==> (r matches Ok(s) && *s == self.elements@[overflow_index(
                self.elements@,
                dur_ns as int,
            )]),
    {
        if self.elements.len() == 0 {
            return Err(AmbError::EmptyTrack);
        }
        proof {
            if dur_ns > 0 {
                lemma_overflow_index_bounds(self.elements@, dur_ns as int);
            }
        }
        let ghost els = self.elements@;
        if dur_ns == 0 {
            return Ok(&self.elements[0]);
        }
        let total = self.length();
        let mut remaining: u64 = dur_ns;
        while remaining > total
            invariant
                els == self.elements@,
                els.len() > 0,
                self.wf(),
                total == spec_total(els),
                total >= 1,
                remaining >= 1,
                overflow_index(els, remaining as int) == overflow_index(els, dur_ns as int),
            decreases remaining,
        {
            remaining = remaining - total;
        }
        proof {
            assert(overflow_index(els, remaining as int) == overflow_once(els, 0, remaining as int));
        }
        let n = self.elements.len();
        let mut i: usize = 0;
        while remaining > self.elements[i].length_ns
            invariant
                els == self.elements@,
                n == els.len(),
                0 <= i < n,
                self.wf(),
                1 <= remaining <= total_from(els, i as int),
                overflow_once(els, i as int, remaining as int) == overflow_index(
                    els,
                    dur_ns as int,
                ),
            decreases n - i,
        {
            proof {
                lemma_total_from_nonneg(els, i + 2);
                assert(i + 1 < n) by {
                    if i + 1 >= n {
                        assert(total_from(els, i + 1) == 0);
                    }
                }
            }
            remaining = remaining - self.elements[i].length_ns;
            i = i + 1;
        }
        Ok(&self.elements[i])
    }
}

} // verus!
