//! Content acquisition, verification, dependency resolution and extraction
//! rules of the OpenVoxel launcher, stated and proved over plain values.

pub mod account;
pub mod archive;
pub mod catalog;
pub mod compare;
pub mod dedup;
pub mod digest;
pub mod fabric;
pub mod fetch;
pub mod java;
pub mod json;
pub mod library;
pub mod mods;
pub mod number;
pub mod options;
pub mod paths;
pub mod play;
pub mod prompt;
pub mod resolver;
pub mod signin;
pub mod split;
pub mod text;
pub mod version;
