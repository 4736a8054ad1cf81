//! Networking: public-endpoint discovery, wire formats and transfer sessions.

pub mod codec;
pub mod commands;
pub mod datagram;
pub mod journal;
pub mod messages;
pub mod names;
pub mod packet_manager;
pub mod packet_messages;
pub mod receiving;
pub mod stun;
pub mod transfer;
