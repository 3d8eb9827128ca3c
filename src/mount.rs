use vstd::prelude::*;
use vstd::string::*;
use crate::options::{flags_of, join_on, option_tokens, parse_mount_options, unknown_of};
use crate::resolve::MountError;
use crate::unlock::UnlockPolicy;

verus! {

/// The settings of one invocation of the mount command.
#[derive(Clone, Debug)]
pub struct Cli {
    /// File holding the passphrase; tried before the unlock policy.
    pub passphrase_file: Option<String>,
    /// What to do where the filesystem is encrypted and the passphrase file
    /// did not unlock it.
    pub unlock_policy: UnlockPolicy,
    /// A device path, a colon-joined device list, or `UUID=<uuid>`.
    pub dev: String,
    /// Where to mount; without it every step but the mount itself is taken.
    pub mountpoint: Option<String>,
    /// Comma-separated mount options.
    pub options: String,
    /// Whether output is colored.
    pub colorize: bool,
    /// How verbose the log is.
    pub verbose: u8,
}

/// The arguments of one privileged mount call.
#[derive(Clone, Debug)]
pub struct MountCall {
    /// The member devices joined with colons.
    pub source: String,
    pub target: String,
    pub fstype: String,
    pub flags: u64,
    /// The filesystem-specific options, if any.
    pub data: Option<String>,
}

/// `c` is the mount call for these devices, target and options.
pub open spec fn is_mount_call(c: MountCall, device: Seq<char>, target: Seq<char>, options: Seq<char>) -> bool {
    let u = unknown_of(option_tokens(options));
    &&& c.source@ == device
    &&& c.target@ == target
    &&& c.fstype@ == "bcachefs"@
    &&& c.flags == flags_of(option_tokens(options))
    &&& (c.data is None <==> u.len() == 0)
    &&& (c.data matches Some(d) ==> d@ == join_on(u, ','))
}

/// The call that mounts the bcachefs filesystem on `device` (member paths
/// joined with colons) at `target`, with the options classified into mount
/// flags and filesystem-specific data.
pub fn mount(device: String, target: String, options: &str) -> (r: MountCall)
    ensures
        is_mount_call(r, device@, target@, options@),
{
    let (data, flags) = parse_mount_options(options);
    MountCall { source: device, target, fstype: String::from_str("bcachefs"), flags, data }
}

/// The mount call to make, if any: none without a mount point or with an empty
/// one (a dry run, after resolution and unlocking have been done all the same).
pub fn plan_mount(devices: String, mountpoint: &Option<String>, options: &str) -> (r: Option<
    MountCall,
>)
    ensures
        (mountpoint is None || mountpoint->0@.len() == 0) <==> r is None,
        r matches Some(c) ==> is_mount_call(c, devices@, mountpoint->0@, options@),
{
    match mountpoint {
        Some(m) => {
            if m.as_str().unicode_len() == 0 {
                None
            } else {
                Some(mount(devices, String::from_str(m.as_str()), options))
            }
        },
        None => None,
    }
}

/// The outcome of the mount call from its return value and the system error
/// number it left.
pub fn mount_status(ret: i32, errno: i32) -> (r: Result<(), MountError>)
    ensures
        ret == 0 ==> r == Ok::<(), MountError>(()),
        ret != 0 ==> r == Err::<(), MountError>(MountError::MountFailed(errno)),
{
    if ret == 0 {
        Ok(())
    } else {
        Err(MountError::MountFailed(errno))
    }
}

} // verus!
