//! Offline-resilient submission pipeline for a rate-limited bookmarking API:
//! response classification, a durable retry queue with exponential backoff,
//! and the decision logic of the background scheduler and the submission
//! orchestrator.

pub mod backoff;
pub mod bookmark;
pub mod clock;
pub mod pinboard;
pub mod queue;
pub mod session;
pub mod text;
pub mod theme;
pub mod title;
pub mod token;
pub mod worker;
