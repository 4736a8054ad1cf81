//! Peer-to-peer file sharing: wire formats, transfer sessions, profiles and screens.

pub mod addr;
pub mod cli;
pub mod double;
pub mod net;
pub mod order;
pub mod path;
pub mod profiles;
pub mod text;
pub mod ui;
