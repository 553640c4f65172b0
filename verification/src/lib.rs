//! Management of an in-memory filesystem mount (a ramdisk) at a target
//! directory: choosing the mount and unmount operations to perform,
//! rewriting the persistent mount-table file without disturbing foreign
//! entries, and keeping the live mount and the persisted record consistent.

pub mod config;
pub mod error;
pub mod fs_type;
pub mod lifecycle;
pub mod table;

pub use config::{CargoRamdiskConfig, MountConfig, RemountConfig, Subcommands, UnmountConfig};
pub use error::RamdiskError;
pub use fs_type::MountType;
