pub mod capture;
pub mod cli;
pub mod config;
pub mod daemon;
pub mod desktop;
pub mod editor;
pub mod paths;
pub mod settings;
pub mod shortcut;
pub mod text;
