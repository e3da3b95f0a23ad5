//! CryoLock: the verified core of a Wayland session locker.

pub mod app;
pub mod auth;
pub mod config;
pub mod dpms;
pub mod font;
pub mod pixels;
pub mod render;
pub mod secret;
pub mod text;

