//! The screens: what they hold, how they answer to events, and what they show.

pub mod components;
pub mod events;
pub mod geometry;
pub mod history;
pub mod local_ips;
pub mod screen;
pub mod state;
pub mod style;
pub mod view;
