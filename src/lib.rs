//! Pose-estimation output pipeline and session replay.
//!
//! Real quantities are fixed-point integers with `geometry::SCALE` units per
//! pixel or per unit of confidence. A model output is decoded into candidates
//! (`decode`), overlapping candidates are suppressed (`nms`), the most
//! confident pose becomes a named skeleton (`skeleton`), frames are recorded
//! into a session (`storage`), and a session is replayed as an ordered, paced
//! stream of commands (`protocol`).

pub mod cli;
pub mod decode;
pub mod geometry;
pub mod media;
pub mod nms;
pub mod protocol;
pub mod skeleton;
pub mod storage;
