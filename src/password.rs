//! Unlocking an encrypted filesystem: reading a password at the console and
//! deciding, after each attempt to open the filesystem, what comes next.
//!
//! The first attempt is made without a password; up to `UNLOCK_ATTEMPTS`
//! prompted attempts follow while the filesystem answers that a key is
//! required.

use vstd::prelude::*;

use crate::os::OsKey;

verus! {

/// The number of prompted attempts.
pub const UNLOCK_ATTEMPTS: u32 = 10;

/// The error number with which the filesystem asks for a key.
pub open spec fn spec_enokey() -> i32 {
    126
}

/// Relies on `syscall::ENOKEY`, the error number of "required key not available".
#[verifier::external_body]
fn enokey() -> (r: i32)
    ensures
        r == spec_enokey(),
{
    syscall::ENOKEY
}

/// What the console shows after a keystroke at the password prompt.
#[derive(Clone, Copy, Debug, PartialEq, Eq, Structural)]
pub enum PromptEcho {
    /// Nothing changes.
    Nothing,
    /// A character was added: show a `*`.
    Star,
    /// The last character was removed: erase one `*`.
    Erase,
    /// The password is complete.
    Submit,
}

/// What to do after an attempt to open the filesystem failed.
#[derive(Clone, Copy, Debug, PartialEq, Eq, Structural)]
pub enum UnlockStep {
    /// Prompt for attempt number `n`.
    Retry(u32),
    /// Every attempt was refused.
    Exhausted,
    /// The filesystem could not be opened for another reason, with this error number.
    Fatal(i32),
}

/// Handles one keystroke at the prompt: Backspace and Delete remove the last
/// character, a character is added, Enter submits, and any other key is
/// ignored.
pub fn password_key(password: &mut Vec<char>, key: OsKey) -> (r: PromptEcho)
    ensures
        match key {
            OsKey::Backspace | OsKey::Delete => if old(password)@.len() > 0 {
                r == PromptEcho::Erase && final(password)@ == old(password)@.drop_last()
            } else {
                r == PromptEcho::Nothing && final(password)@ == old(password)@
            },
            OsKey::Char(c) => r == PromptEcho::Star && final(password)@ == old(password)@.push(c),
            OsKey::Enter => r == PromptEcho::Submit && final(password)@ == old(password)@,
            _ => r == PromptEcho::Nothing && final(password)@ == old(password)@,
        },
{
    match key {
        OsKey::Backspace | OsKey::Delete => {
            if password.len() > 0 {
                password.pop();
                PromptEcho::Erase
            } else {
                PromptEcho::Nothing
            }
        },
        OsKey::Char(c) => {
            password.push(c);
            PromptEcho::Star
        },
        OsKey::Enter => PromptEcho::Submit,
        _ => PromptEcho::Nothing,
    }
}

/// The password to try: none when nothing was typed.
pub fn submitted(password: Vec<char>) -> (r: Option<Vec<char>>)
    ensures
        password@.len() == 0 ==> r is None,
        password@.len() > 0 ==> (r matches Some(p) && p@ == password@),
{
    if password.len() == 0 {
        None
    } else {
        Some(password)
    }
}

/// Decides what follows a failed attempt number `attempt` (zero for the
/// first, unprompted, one) that ended with error number `errno`.
pub fn unlock_step(attempt: u32, errno: i32) -> (r: UnlockStep)
    requires
        attempt <= UNLOCK_ATTEMPTS,
    ensures
        errno != spec_enokey() ==> r == UnlockStep::Fatal(errno),
        errno == spec_enokey() && attempt < UNLOCK_ATTEMPTS ==> r == UnlockStep::Retry((attempt + 1) as u32),
        errno == spec_enokey() && attempt == UNLOCK_ATTEMPTS ==> r == UnlockStep::Exhausted,
{
    if errno != enokey() {
        UnlockStep::Fatal(errno)
    } else if attempt < UNLOCK_ATTEMPTS {
        UnlockStep::Retry(attempt + 1)
    } else {
        UnlockStep::Exhausted
    }
}

} // verus!
