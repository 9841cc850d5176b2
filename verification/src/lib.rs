//! Scoring and exhaustive precomputation for a code-breaking game played with
//! colored pegs.
//!
//! A secret [`pattern::Pattern`] is held by a [`game::Game`], which scores
//! guesses as a [`guesser::Feedback`] of exact and misplaced matches. The
//! [`guesser`] module enumerates every pattern of a given size in a fixed
//! order and tabulates the feedback of every pair of them.
//!
//! The mathematical meaning of a feedback lives in [`scoring`], that of the
//! enumeration order in [`counter`]; the executable code is proved against
//! both.

pub mod counter;
pub mod game;
pub mod guesser;
pub mod pattern;
pub mod scoring;
