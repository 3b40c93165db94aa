//! The logic of an IRC client for the Fedora, RHEL and Rocky Linux
//! communities: channel names, settings files, chat state and the reaction
//! to server messages.
pub mod text;
pub mod channels;
pub mod config;
pub mod order;
pub mod channel_map;
pub mod session;
pub mod panels;
pub mod network;
pub mod laws;
