use vstd::prelude::*;
use vstd::string::*;
use crate::options::text_eq;
use crate::resolve::{MountError, Superblock};

verus! {

/// How to obtain the key of an encrypted filesystem when no passphrase file
/// unlocked it.
#[derive(Clone, Copy, Debug, PartialEq, Eq, Structural)]
pub enum UnlockPolicy {
    /// Do not prompt; the mount fails.
    Fail,
    /// Wait until the key becomes available.
    Wait,
    /// Prompt the user for the passphrase.
    Ask,
}

impl UnlockPolicy {
    /// Reads a policy from its name: `fail`, `wait` or `ask`.
    pub fn from_text(s: &str) -> (r: Option<UnlockPolicy>)
        ensures
            s@ == "fail"@ <==> r == Some(UnlockPolicy::Fail),
            s@ == "wait"@ <==> r == Some(UnlockPolicy::Wait),
            s@ == "ask"@ <==> r == Some(UnlockPolicy::Ask),
            r is None <==> (s@ != "fail"@ && s@ != "wait"@ && s@ != "ask"@),
    {
        proof {
            reveal_strlit("fail");
            reveal_strlit("wait");
            reveal_strlit("ask");
            assert("fail"@[0] != "wait"@[0]);
            assert("fail"@.len() != "ask"@.len());
            assert("wait"@.len() != "ask"@.len());
        }
        if text_eq(s, "fail") {
            Some(UnlockPolicy::Fail)
        } else if text_eq(s, "wait") {
            Some(UnlockPolicy::Wait)
        } else if text_eq(s, "ask") {
            Some(UnlockPolicy::Ask)
        } else {
            None
        }
    }
}

#[derive(Clone, Copy, Debug, PartialEq, Eq, Structural)]
pub enum UnlockState {
    /// No key is needed.
    Unencrypted,
    /// A key is needed and has not been obtained yet.
    NeedsKey,
    /// The key was obtained.
    Unlocked,
}

/// What the caller does next to unlock the filesystem.
#[derive(Clone, Copy, Debug, PartialEq, Eq, Structural)]
pub enum UnlockAction {
    /// Nothing more: the filesystem is in this terminal state.
    Done(UnlockState),
    /// Derive the key from the passphrase file and report whether it worked.
    TryPassphraseFile,
    /// Wait for the key to become available and report whether it did.
    WaitForKey,
    /// Prompt for the passphrase, derive the key, and report whether it worked.
    AskPassphrase,
    /// Give up with this error.
    Abort(MountError),
}

/// The action that an unlock policy calls for.
pub open spec fn policy_action(p: UnlockPolicy) -> UnlockAction {
    match p {
        UnlockPolicy::Fail => UnlockAction::Abort(MountError::LockedFilesystem),
        UnlockPolicy::Wait => UnlockAction::WaitForKey,
        UnlockPolicy::Ask => UnlockAction::AskPassphrase,
    }
}

fn apply_policy(p: UnlockPolicy) -> (r: UnlockAction)
    ensures
        r == policy_action(p),
{
    match p {
        UnlockPolicy::Fail => UnlockAction::Abort(MountError::LockedFilesystem),
        UnlockPolicy::Wait => UnlockAction::WaitForKey,
        UnlockPolicy::Ask => UnlockAction::AskPassphrase,
    }
}

/// The first unlock step for a filesystem with this representative superblock:
/// nothing where it is not encrypted and locked; else the passphrase file where
/// one was given, or the policy.
pub fn begin_unlock(sb: Superblock, has_passphrase_file: bool, policy: UnlockPolicy) -> (r:
    UnlockAction)
    ensures
        !sb.encrypted_and_locked ==> r == UnlockAction::Done(UnlockState::Unencrypted),
        sb.encrypted_and_locked && has_passphrase_file ==> r == UnlockAction::TryPassphraseFile,
        sb.encrypted_and_locked && !has_passphrase_file ==> r == policy_action(policy),
{
    if !sb.encrypted_and_locked {
        UnlockAction::Done(UnlockState::Unencrypted)
    } else if has_passphrase_file {
        UnlockAction::TryPassphraseFile
    } else {
        apply_policy(policy)
    }
}

/// The step after trying the passphrase file: done where it unlocked the key;
/// else its failure is set aside and the policy decides.
pub fn after_passphrase_file(succeeded: bool, policy: UnlockPolicy) -> (r: UnlockAction)
    ensures
        succeeded ==> r == UnlockAction::Done(UnlockState::Unlocked),
        !succeeded ==> r == policy_action(policy),
{
    if succeeded {
        UnlockAction::Done(UnlockState::Unlocked)
    } else {
        apply_policy(policy)
    }
}

/// The end of the unlock sequence, after waiting or prompting: no step follows,
/// so the policy is carried out at most once.
pub fn after_policy(succeeded: bool) -> (r: Result<UnlockState, MountError>)
    ensures
        succeeded ==> r == Ok::<UnlockState, MountError>(UnlockState::Unlocked),
        !succeeded ==> r == Err::<UnlockState, MountError>(MountError::LockedFilesystem),
{
    if succeeded {
        Ok(UnlockState::Unlocked)
    } else {
        Err(MountError::LockedFilesystem)
    }
}

} // verus!
