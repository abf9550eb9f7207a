//! Verified core of the Veldspar voxel game: chunk coordinates and storage,
//! region files and their format migrations, the server's console commands
//! and world bookkeeping, and the pure helpers of the client's renderer and UI.

pub mod coords;
pub mod chunk;
pub mod chunk_store;
pub mod decimal;
pub mod text;
pub mod float_text;
pub mod strings;
pub mod seq_facts;
pub mod assoc;
pub mod numeric;
pub mod atlas;
pub mod commands;
pub mod glyphs;
pub mod compression;
pub mod format;
pub mod versioning;
pub mod region;
pub mod persistence;
pub mod server_world;
pub mod server;
pub mod chunk_manager;
pub mod net;
pub mod events;
pub mod jobs;
pub mod client;
