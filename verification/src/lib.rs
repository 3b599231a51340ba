//! Core logic of the English speaking-practice companion: voice-activity
//! segmentation, session bookkeeping, report rendering and the small text
//! formats the app keeps on disk.
pub mod text;
pub mod paths;
pub mod clock;
pub mod title;
pub mod feedback;
pub mod session;
pub mod vad;
pub mod transcribe;
pub mod control;
pub mod ollama;
