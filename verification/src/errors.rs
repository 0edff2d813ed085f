//! The error kinds that construction and playback can surface.

use vstd::prelude::*;

verus! {

/// Every failure the composition core can report. Construction-time
/// errors (`AssetUnreadable`, `DecodeFailed`, `EmptyTrack`) abort the
/// specific call; playback errors (`BackendUnavailable`, `DeviceLost`)
/// are surfaced to the orchestrating caller without retry.
#[derive(Clone, Copy, Debug, PartialEq, Eq, Structural)]
pub enum AmbError {
    /// The asset could not be opened or read.
    AssetUnreadable,
    /// The asset was read but could not be decoded.
    DecodeFailed,
    /// A playback operation was asked of a track that holds no clips.
    EmptyTrack,
    /// A volume scaling that is not a finite, non-negative gain.
    InvalidGain,
    /// The backend could not (re)allocate an output channel.
    BackendUnavailable,
    /// The audio device was lost during playback.
    DeviceLost,
    /// Stage activation failed while fading in the given track.
    StageActivationFailed { track_index: usize },
}

impl AmbError {
    /// A short human-readable name for the error.
    pub fn describe(&self) -> (r: &'static str)
        ensures
            r@.len() > 0,
    {
        proof {
            reveal_strlit("asset unreadable");
            reveal_strlit("decode failed");
            reveal_strlit("empty track");
            reveal_strlit("invalid gain");
            reveal_strlit("backend unavailable");
            reveal_strlit("device lost");
            reveal_strlit("stage activation failed");
        }
        match self {
            AmbError::AssetUnreadable => "asset unreadable",
            AmbError::DecodeFailed => "decode failed",
            AmbError::EmptyTrack => "empty track",
            AmbError::InvalidGain => "invalid gain",
            AmbError::BackendUnavailable => "backend unavailable",
            AmbError::DeviceLost => "device lost",
            AmbError::StageActivationFailed { .. } => "stage activation failed",
        }
    }
}

} // verus!
