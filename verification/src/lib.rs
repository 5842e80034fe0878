//! Core of a pan/zoom image viewer: a bounded least-recently-used cache of
//! decoded images, the load orchestration around it, the per-image view state
//! (active key, lazily derived render resource, transform), and the policy
//! filter for dropped files.

pub mod cache;
pub mod files;
pub mod transform;
pub mod viewer;
