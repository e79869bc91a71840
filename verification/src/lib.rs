//! Backup, verification, archiving and restore of iOS devices: the rules that
//! decide what a backup run does, stated as contracts and proved.

pub mod archive;
pub mod backup;
pub mod binary64;
pub mod catalog;
pub mod cli;
pub mod commands;
pub mod crypto;
pub mod dates;
pub mod destinations;
pub mod error;
pub mod json;
pub mod keychain;
pub mod libimobiledevice;
pub mod lock;
pub mod memory;
pub mod notify;
pub mod paths;
pub mod plists;
pub mod precheck;
pub mod progress;
pub mod restore;
pub mod rows;
pub mod text;
pub mod tools;
pub mod verify;
pub mod workflow;

pub use error::CradleError;
