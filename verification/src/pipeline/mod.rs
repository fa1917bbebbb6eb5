//! Pieces of the generation pipeline around the model calls: the plan hash,
//! the review sprite sheet, tooling feedback and progress text.
pub mod feedback;
pub mod hash;
pub mod job;
pub mod progress;
pub mod sprite;
