//! Verified core of a Hyprland desktop shell.

// Text, numbers, paths and JSON.
pub mod json;
pub mod jsonc;
pub mod num;
pub mod paths;
pub mod text;

// Configuration and theming.
pub mod config;
pub mod theme;

// Bar modules and their data.
pub mod audio;
pub mod bar;
pub mod battery;
pub mod hypr;
pub mod mpris;
pub mod network;
pub mod sysfs;
pub mod weather;

// Popups, services and commands.
pub mod ipc;
pub mod launcher;
pub mod notifications;
pub mod session;
pub mod tray;
pub mod wallpaper;
pub mod watch;
