//! Verified logic of a usbipd-win front end: reading the device list that
//! usbipd's PowerShell module prints, finding the usbipd-win installation in
//! the uninstall registry and choosing its devices script, building the
//! command lines of usbipd and wsl, and reading the WSL distribution list.
pub mod command_error;
pub mod commands;
pub mod error;
pub mod runner;
pub mod text;
pub mod usb_device;
pub mod usbipd;
pub mod wsl;
