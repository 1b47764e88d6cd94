//! How console programs are started that only help the driver.

use vstd::prelude::*;

verus! {

/// The flag of process creation that keeps a console program from opening a
/// console window.
pub const CREATE_NO_WINDOW_FLAG: u32 = 0x0800_0000;

/// What a console program that the driver owns is started for.
#[derive(Clone, Copy, Debug, PartialEq, Eq, Structural)]
pub enum OwnedConsoleChildRole {
    BrowserProcessTreeCleanup,
    PathProbe,
    Installer,
    RecordingFfmpeg,
    RecordingFfprobe,
}

/// The flags with which a console program is created: whatever its role, it
/// opens no window.
pub fn creation_flags(_role: OwnedConsoleChildRole) -> (flags: u32)
    ensures
        flags == CREATE_NO_WINDOW_FLAG,
{
    CREATE_NO_WINDOW_FLAG
}

} // verus!
