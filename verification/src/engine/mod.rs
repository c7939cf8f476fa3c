//! Backends that translate service specs into native init systems.

pub mod systemd;
pub mod supervisord;
pub mod plist_doc;
pub mod launchd;
pub mod health;
pub mod native;
pub mod registry;
pub mod translator;
pub mod host;
