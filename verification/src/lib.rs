//! Verified core of a fan controller for the FanConnect II external fan headers of the ASUS ROG
//! Strix RTX 2080 Ti: the settings file, the controller's registers, the control loop's
//! decisions, finding the controller, and the files and texts around them.

pub mod text;
pub mod config;
pub mod config_laws;
pub mod fanconnect;
mod bus;
pub mod daemon;
pub mod locate;
pub mod gpu;
pub mod status;
pub mod cli;
pub mod service_files;
pub mod icon;
pub mod changelog;
pub mod panel;
pub mod live;
