//! A single decodable audio asset with a fixed duration and a gain.

use vstd::prelude::*;

use crate::errors::AmbError;
use crate::gain::Gain;

verus! {

/// What the audio backend reported when it was asked to decode an
/// asset. Decoding itself is outside this core; a caller performs it
/// and hands the outcome in as plain data.
#[derive(Clone, Copy, Debug, PartialEq, Eq, Structural)]
pub enum DecodeOutcome {
    /// The asset decoded; its total play length in nanoseconds.
    Decoded { length_ns: u64 },
    /// The asset could not be opened or read.
    Unreadable,
    /// The asset was read but the decoder rejected it.
    Malformed,
}

/// An immutable reference to a decodable asset plus a scalar gain.
/// The duration is fixed at construction; the gain is only ever
/// rescaled by producing a new value, so a sound already queued for
/// playback keeps the parameters it was queued with.
pub struct Sound {
    /// Opaque handle to the decodable content.
    pub path: String,
    /// Scalar gain applied on top of the owning track's volume.
    pub volume: Gain,
    /// Total play length in nanoseconds, computed once when decoded.
    pub length_ns: u64,
}

impl Sound {
    /// Builds a sound from an asset path and the outcome of decoding
    /// that path. Construction succeeds exactly when decoding did, and
    /// surfaces the decode failure unmodified otherwise.
    pub fn new(path: String, decode: DecodeOutcome) -> (r: Result<Sound, AmbError>)
        ensures
            decode matches DecodeOutcome::Decoded { length_ns } ==> (r matches Ok(s)
                && s.path@ == path@
                && s.length_ns == length_ns
                && s.volume == (Gain { num: 1, den: 1 })),
            decode is Unreadable <==> r == Err::<Sound, AmbError>(AmbError::AssetUnreadable),
            decode is Malformed <==> r == Err::<Sound, AmbError>(AmbError::DecodeFailed),
    {
        match decode {
            DecodeOutcome::Decoded { length_ns } => Ok(Sound {
                path,
                volume: Gain::one(),
                length_ns,
            }),
            DecodeOutcome::Unreadable => Err(AmbError::AssetUnreadable),
            DecodeOutcome::Malformed => Err(AmbError::DecodeFailed),
        }
    }

    /// The fixed play duration, in nanoseconds.
    pub fn length(&self) -> (r: u64)
        ensures
            r == self.length_ns,
    {
        self.length_ns
    }

    /// Returns a new sound whose gain is the old gain scaled by `vol`;
    /// the receiver is consumed, so previously queued playback keeps
    /// the gain it was queued with. Duration and path are untouched.
    pub fn set_volume(self, vol: Gain) -> (r: Sound)
        requires
            self.volume.num * vol.num <= i64::MAX,
            self.volume.num * vol.num >= i64::MIN,
            self.volume.den * vol.den <= u64::MAX,
        ensures
            r.path@ == self.path@,
            r.length_ns == self.length_ns,
            r.volume.num == self.volume.num * vol.num,
            r.volume.den == self.volume.den * vol.den,
    {
        let volume = self.volume.mul(&vol);
        Sound { path: self.path, volume, length_ns: self.length_ns }
    }
}

} // verus!
