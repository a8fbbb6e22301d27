//! Pack-to-configuration pipeline and self-update decisions of a hook sound
//! player: registry lookup, manifest translation into events, merging across
//! packs, the files a pack install fetches, sound selection, and version
//! comparison.
pub mod category;
pub mod config;
pub mod config_file;
pub mod error;
pub mod events;
pub mod install;
pub mod paths;
pub mod registry;
pub mod text;
pub mod updater;
pub mod version;
