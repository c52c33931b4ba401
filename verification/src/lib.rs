//! Builds a multi-size ICO container from square source images.
//!
//! For each requested icon size the smallest source that is at least as large
//! is scaled down to that size, compressed as PNG and packed, in the requested
//! order, into one container: a header, a directory with one entry per frame
//! and the payloads.

pub mod builder;
pub mod codec;
pub mod container;
pub mod error;
pub mod frame;
pub mod select;
pub mod sizes;
pub mod source;

pub use builder::{build_container, IcoBuilder};
pub use codec::FilterType;
pub use container::{assemble, read_directory, read_payload, DirEntry};
pub use error::Error;
pub use frame::{create_ico_frame, create_ico_frames, encode_ico_frame, IcoFrame};
pub use select::{find_next_bigger_icon, select_index};
pub use sizes::IconSizes;
pub use source::{decode_icon, decode_icons, is_square, SourceFile, SourceImage};
