//! Prompt Pocket: the logic of a local Markdown prompt store and of its
//! two-way synchronisation with a WebDAV or GitHub remote.
pub mod text;
pub mod markdown;
pub mod clock;
pub mod meta;
pub mod content;
pub mod store;
pub mod percent;
pub mod sync;
pub mod webdav;
pub mod github;
pub mod config;
pub mod files;
pub mod desktop;
pub mod state;
