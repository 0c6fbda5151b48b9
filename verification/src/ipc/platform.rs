//! Where the helper and its socket live on each platform.

use crate::text;
use vstd::prelude::*;

verus! {

/// Shared Unix group for agent <-> helper IPC sockets and runtime directory.
pub const IPC_GROUP_NAME: &'static str = "hecate-ipc";

/// The platforms that differ in paths or permissions. On all of them but Windows `/`
/// alone separates the components of a path.
#[derive(Debug, Clone, Copy, PartialEq, Eq, Structural)]
pub enum Platform {
    Linux,
    MacOs,
    Windows,
    /// A Unix that is neither Linux nor macOS.
    OtherUnix,
    /// Neither a Unix nor Windows.
    Other,
}

impl Platform {
    /// Whether the platform has Unix permissions and groups.
    pub open spec fn unix(self) -> bool {
        self is Linux || self is MacOs || self is OtherUnix
    }

    /// Whether the platform has Unix permissions and groups.
    pub fn is_unix(self) -> (r: bool)
        ensures
            r == self.unix(),
    {
        match self {
            Platform::Linux | Platform::MacOs | Platform::OtherUnix => true,
            Platform::Windows | Platform::Other => false,
        }
    }
}

/// Default Unix socket / named-pipe path for the desktop helper.
pub fn default_socket_path(platform: Platform) -> (r: &'static str)
    ensures
        r@ == match platform {
            Platform::Linux => "/run/hecate-lampad/desktop.sock"@,
            Platform::MacOs => "/var/run/hecate-lampad/desktop.sock"@,
            Platform::Windows => "\\\\.\\pipe\\hecate-lampad-desktop"@,
            Platform::OtherUnix | Platform::Other => "/tmp/hecate-lampad-desktop.sock"@,
        },
{
    match platform {
        Platform::Linux => "/run/hecate-lampad/desktop.sock",
        Platform::MacOs => "/var/run/hecate-lampad/desktop.sock",
        Platform::Windows => "\\\\.\\pipe\\hecate-lampad-desktop",
        Platform::OtherUnix | Platform::Other => "/tmp/hecate-lampad-desktop.sock",
    }
}

/// The places where the helper binary may be installed.
pub open spec fn candidates(platform: Platform) -> Seq<Seq<char>> {
    if platform is Windows {
        seq![
            "C:\\Program Files\\hecate-lampad-desktop\\hecate-lampad-desktop.exe"@,
            "C:\\Program Files\\hecate-lampad\\hecate-lampad-desktop.exe"@,
        ]
    } else {
        seq!["/usr/bin/hecate-lampad-desktop"@, "/usr/local/bin/hecate-lampad-desktop"@]
    }
}

/// The places where the helper binary may be installed.
pub fn helper_binary_candidates(platform: Platform) -> (r: [&'static str; 2])
    ensures
        text::slice_texts(r@) == candidates(platform),
{
    if let Platform::Windows = platform {
        [
            "C:\\Program Files\\hecate-lampad-desktop\\hecate-lampad-desktop.exe",
            "C:\\Program Files\\hecate-lampad\\hecate-lampad-desktop.exe",
        ]
    } else {
        ["/usr/bin/hecate-lampad-desktop", "/usr/local/bin/hecate-lampad-desktop"]
    }
}

/// Whether the helper package is installed, given the paths that were found to
/// exist: one of the places for its binary is among them.
pub fn helper_package_installed(platform: Platform, existing: &[String]) -> (r: bool)
    ensures
        r == exists|i: int|
            0 <= i < candidates(platform).len() && text::texts(existing@).contains(
                #[trigger] candidates(platform)[i],
            ),
{
    let places = helper_binary_candidates(platform);
    for i in 0..2
        invariant
            text::slice_texts(places@) == candidates(platform),
            forall|j: int|
                0 <= j < i ==> !text::texts(existing@).contains(
                    #[trigger] candidates(platform)[j],
                ),
    {
        assert(candidates(platform)[i as int] == places@[i as int]@);
        if text::lists(existing, places[i]) {
            return true;
        }
    }
    false
}

} // verus!
