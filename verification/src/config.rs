//! The configuration surface of the tool: the resolved settings of the
//! top-level command and of each subcommand, after argument parsing. The
//! front-end that parses flags stays outside the library; these types carry
//! only plain, validated values.

use vstd::prelude::*;

use crate::fs_type::MountType;

verus! {

/// The resolved top-level configuration: a mount of `fs` at `target`,
/// persisted into the table file at `fstab_location` when `save_fstab` is
/// set — unless a subcommand overrides the operation.
pub struct CargoRamdiskConfig {
    pub fs: MountType,
    pub target: String,
    pub save_fstab: bool,
    pub fstab_location: String,
    pub subcommand: Option<Subcommands>,
}

/// The resolved settings of the mount subcommand.
pub struct MountConfig {
    pub fs: MountType,
    pub target: String,
}

/// The resolved settings of the remount subcommand.
pub struct RemountConfig {
    pub fs: MountType,
    pub target: String,
}

/// The resolved settings of the unmount subcommand.
pub struct UnmountConfig {
    pub target: String,
}

/// The subcommand chosen on the command line.
pub enum Subcommands {
    Mount(MountConfig),
    Remount(RemountConfig),
    Unmount(UnmountConfig),
}

impl From<CargoRamdiskConfig> for MountConfig {
    /// A top-level invocation without a subcommand is a mount.
    fn from(conf: CargoRamdiskConfig) -> (r: Self)
        ensures
            r == (MountConfig { fs: conf.fs, target: conf.target }),
    {
        Self { fs: conf.fs, target: conf.target }
    }
}

impl vstd::std_specs::convert::FromSpecImpl<CargoRamdiskConfig> for MountConfig {
    open spec fn obeys_from_spec() -> bool {
        true
    }

    open spec fn from_spec(conf: CargoRamdiskConfig) -> Self {
        MountConfig { fs: conf.fs, target: conf.target }
    }
}

impl From<&RemountConfig> for MountConfig {
    /// The mount half of a remount: the same kind at the same target.
    fn from(config: &RemountConfig) -> (r: Self)
        ensures
            r == (MountConfig { fs: config.fs, target: config.target }),
    {
        Self { fs: config.fs, target: config.target.clone() }
    }
}

impl vstd::std_specs::convert::FromSpecImpl<&RemountConfig> for MountConfig {
    open spec fn obeys_from_spec() -> bool {
        true
    }

    open spec fn from_spec(config: &RemountConfig) -> Self {
        MountConfig { fs: config.fs, target: config.target }
    }
}

impl From<&RemountConfig> for UnmountConfig {
    /// The unmount half of a remount: the same target.
    fn from(config: &RemountConfig) -> (r: Self)
        ensures
            r == (UnmountConfig { target: config.target }),
    {
        Self { target: config.target.clone() }
    }
}

impl vstd::std_specs::convert::FromSpecImpl<&RemountConfig> for UnmountConfig {
    open spec fn obeys_from_spec() -> bool {
        true
    }

    open spec fn from_spec(config: &RemountConfig) -> Self {
        UnmountConfig { target: config.target }
    }
}

} // verus!
