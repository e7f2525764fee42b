//! The logic of Equinox, a wallpaper manager for GNOME, KDE Plasma and XFCE.

pub mod applier;
pub mod autostart;
mod chance;
pub mod config;
pub mod daemon;
pub mod date;
pub mod dbus;
pub mod helper;
pub mod history;
pub mod http;
pub mod i18n;
pub mod json;
pub mod laws;
pub mod path;
pub mod plasma;
pub mod queue;
pub mod schedule;
pub mod service;
pub mod source;
pub mod sources;
pub mod storage;
pub mod storage_laws;
pub mod store_laws;
pub mod supervisor;
pub mod tasklog;
pub mod text;
pub mod trim_laws;
pub mod ui;
pub mod xfce;
