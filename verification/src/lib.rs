//! Verified core of an X11 window overview for i3.

pub mod app;
pub mod atoms;
pub mod cache;
pub mod capture;
pub mod cli;
pub mod config;
pub mod daemon;
pub mod i3;
pub mod input;
pub mod layout;
pub mod overlay;
pub mod pixels;
pub mod render;
pub mod single;
pub mod text;
pub mod windows;
pub mod x11;
