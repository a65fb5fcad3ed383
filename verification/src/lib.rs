pub mod graph;
pub mod sync_summary;
pub mod tracking;
pub mod sync_result;
pub mod text;
pub mod diff;
pub mod sync;
pub mod memory;
pub mod upgrade;
pub mod walk;
pub mod tag_paths;
pub mod config;
pub mod ident;
pub mod spk_storage;
pub mod meta;
pub mod misc;
pub mod laws;
