//! Planning library for stitching timestamped JPEG frame captures into videos.
//!
//! The library holds the decision logic of the tool: which subdirectories of a
//! base directory are event directories, which of their files are frame files
//! and in what order they play, what frame rate a sequence of capture
//! timestamps suggests, and exactly which argument list the external encoder
//! is to be invoked with. All filesystem access and the encoder subprocess
//! itself live outside the library; the library works on plain values handed
//! in and proves what it returns.

pub mod text;
pub mod timestamp;
pub mod rate;
pub mod frames;
pub mod events;
pub mod plan;
