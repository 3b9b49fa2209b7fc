//! Backend for a small image-file manager: resolving the per-user
//! `Images` and `Output` directories, seeding the images directory from a
//! bundled resource folder at startup, listing the image files it holds,
//! and copying a file to a caller-chosen destination.
//!
//! The library holds the logic — path arithmetic, the extension
//! allow-list, the seeding plan, and the copy workflow's decisions — as
//! verified functions over plain values. The host shell performs the
//! actual file-system calls and feeds their outcomes back in.
pub mod copying;
pub mod fsmodel;
pub mod images;
pub mod paths;
pub mod seeding;
