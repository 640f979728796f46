//! The platform layer of a block-building game: a verified library of its
//! data formats, buffers, checksums and platform bookkeeping.
pub mod be_bytes;
pub mod constants;
pub mod facing;
pub mod java;
pub mod main_app;
pub mod nbt;
pub mod nbt_format;
pub mod network;
pub mod profile;
pub mod storage;
pub mod text;
pub mod util;
pub mod xbox;
