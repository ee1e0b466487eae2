//! Host-side logic of a WebAssembly plugin runtime for a Minecraft server:
//! block-position packing, the shadow copies of players and levels that
//! plugins read and write, the change sets exchanged with the server, the
//! block-state registry, and the tables of event and command names.
pub mod api;
pub mod strings;
pub mod messages;
pub mod registry;
pub mod bindings;
pub mod universe;
pub mod event;
pub mod plugin;
