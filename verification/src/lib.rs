//! Verified core of an image viewer: gallery navigation, keyboard shortcuts,
//! version checks, animation timing and the byte-level encoders the viewer
//! relies on.

pub mod animation;
pub mod assoc;
pub mod crop;
pub mod gallery;
pub mod imaging;
pub mod input;
pub mod paths;
pub mod platform;
pub mod sort;
pub mod text;
pub mod toolbar;
pub mod updater;
pub mod version;
