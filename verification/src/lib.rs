pub mod text;
pub mod decimal;
pub mod color;
pub mod config;
pub mod themefile;
pub mod models;
pub mod ipc;
pub mod hyprland;
pub mod daemon;
pub mod note;
pub mod capture;
pub mod cli;
