//! Encrypted keyboard, pointer and clipboard bridging between two desktops.
//!
//! The library holds every decision of the bridge: wire formats, the handoff
//! state machine, configuration and pairing text, transfer bookkeeping and the
//! rules that say which input may be injected. Sockets, files, D-Bus and
//! kernel devices live in the application around it.
pub mod adapter;
pub mod backend;
pub mod clipboard;
pub mod clipboard_sync;
pub mod codes;
pub mod config;
pub mod discovery;
pub mod endpoint;
pub mod file_bundle;
pub mod file_paths;
pub mod file_session;
pub mod file_transfer;
pub mod handoff;
pub mod handoff_demo;
pub mod libei_capture;
pub mod libei_inject;
pub mod linux_input;
pub mod pairing;
pub mod pinch;
pub mod portal;
pub mod portal_persistence;
pub mod portal_probe;
pub mod portal_spike;
pub mod protocol;
mod random;
pub mod remote_spike;
pub mod seamless;
pub mod text;
pub mod transport;
pub mod wire;
