//! Resolution, unlock decisions and option classification for mounting a
//! multi-device bcachefs filesystem.

pub mod options;
pub mod resolve;
pub mod unlock;
pub mod mount;

pub use options::{
    flag_for_token, parse_mount_options, MS_DIRSYNC, MS_LAZYTIME, MS_MANDLOCK, MS_NOATIME,
    MS_NODEV, MS_NODIRATIME, MS_NOEXEC, MS_NOSUID, MS_RDONLY, MS_RELATIME, MS_REMOUNT,
    MS_STRICTATIME, MS_SYNCHRONOUS,
};
pub use resolve::{
    explicit_probe_step, identity_of_device, parse_identity, resolution_plan,
    resolve_by_identity, resolve_explicit, select_members, split_colons, DeviceRecord,
    MountError, ProbeStep, ResolvePlan, ResolvedFilesystem, ScannedDevice, Superblock,
};
pub use unlock::{
    after_passphrase_file, after_policy, begin_unlock, UnlockAction, UnlockPolicy, UnlockState,
};
pub use mount::{mount, mount_status, plan_mount, Cli, MountCall};
