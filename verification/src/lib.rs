//! Core of an ambient-soundscape composer: clips, cyclically filled
//! tracks, and staged transitions, with the audio backend kept outside.

pub mod errors;
pub mod gain;
pub mod project;
pub mod sound;
pub mod stage;
pub mod track;

pub use errors::AmbError;
pub use gain::Gain;
pub use project::Project;
pub use sound::DecodeOutcome;
pub use sound::Sound;
pub use stage::FadeIn;
pub use stage::FadeOut;
pub use stage::Fill;
pub use stage::Stage;
pub use stage::StageState;
pub use stage::TransitionMode;
pub use stage::TransitionPipeline;
pub use track::Channel;
pub use track::Segment;
pub use track::Sink;
pub use track::Track;
