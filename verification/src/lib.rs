//! Core of a scrolling, tiling window manager: the strip layout engine, the
//! command semantics that reshape a strip, and the event-driven model that
//! keeps windows, workspaces and displays consistent.

pub mod animation;
pub mod binpack;
pub mod commands;
pub mod config;
pub mod displays;
pub mod ecs;
pub mod errors;
pub mod events;
pub mod floating;
pub mod geometry;
pub mod laws;
pub mod layout;
pub mod manager;
pub mod processes;
pub mod ratio;
pub mod setup;
pub mod systems;
pub mod text;
pub mod ticks;

pub mod world;
pub mod triggers;
