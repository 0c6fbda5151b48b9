//! The order of work when the token file is written and when the socket is opened
//! to the peer: what to do next, given how the last action went.

use super::platform::Platform;
use vstd::prelude::*;

verus! {

/// Mode of the token file: its owner may read and write it, its group may read it.
pub const TOKEN_MODE: u32 = 0o640;

/// Mode of the socket: its owner and its group may read and write it.
pub const SOCKET_MODE: u32 = 0o660;

/// The user id that leaves a file's owner as it is.
pub const KEEP_OWNER: u32 = 0xffff_ffff;

/// Something to be done to the file.
#[derive(Debug, Clone, Copy, PartialEq, Eq, Structural)]
pub enum FileAction {
    /// Create the parent directory and those above it.
    CreateParent,
    /// Find out whether there is something at the path, a dangling link included.
    Probe,
    /// Remove what is at the path.
    Remove,
    /// Open a file for writing that did not exist before, with the given mode where
    /// there is one. With `no_follow` a link in its place is not followed.
    CreateNew { initial_mode: Option<u32>, no_follow: bool },
    /// Write the token.
    Write,
    /// Wait until the file is on disk.
    Sync,
    /// Set the file's mode.
    SetMode { mode: u32 },
    /// Hand the file to the shared group.
    SetGroup,
    /// Restrict the file to the system, administrators and its owner.
    RestrictAcl,
    /// Report success.
    Done,
    /// Report the failure of the last action.
    Fail,
}

impl FileAction {
    /// Whether the work is over.
    pub open spec fn is_last(self) -> bool {
        self is Done || self is Fail
    }

    /// Whether the work goes on if the action fails.
    pub open spec fn may_fail(self) -> bool {
        self is Probe || self is Remove || self is SetGroup
    }

    /// How many actions may follow.
    pub open spec fn rank(self) -> nat {
        match self {
            FileAction::CreateParent => 9,
            FileAction::Probe => 8,
            FileAction::Remove => 7,
            FileAction::CreateNew { .. } => 6,
            FileAction::Write => 5,
            FileAction::Sync => 4,
            FileAction::SetMode { .. } => 3,
            FileAction::SetGroup => 2,
            FileAction::RestrictAcl => 1,
            FileAction::Done => 0,
            FileAction::Fail => 0,
        }
    }

    /// What follows an action that went well, or not. A [`FileAction::Probe`] goes
    /// well if it finds something.
    pub open spec fn after(self, platform: Platform, ok: bool) -> FileAction {
        if !ok && !self.may_fail() && !self.is_last() {
            FileAction::Fail
        } else {
            match self {
                FileAction::CreateParent => FileAction::Probe,
                FileAction::Probe if ok => FileAction::Remove,
                FileAction::Probe | FileAction::Remove => FileAction::CreateNew {
                    initial_mode: if platform.unix() {
                        Some(TOKEN_MODE)
                    } else {
                        None
                    },
                    no_follow: platform.unix() || platform is Windows,
                },
                FileAction::CreateNew { .. } => FileAction::Write,
                FileAction::Write => FileAction::Sync,
                FileAction::Sync => if platform.unix() {
                    FileAction::SetMode { mode: TOKEN_MODE }
                } else if platform is Windows {
                    FileAction::RestrictAcl
                } else {
                    FileAction::Done
                },
                FileAction::SetMode { .. } => FileAction::SetGroup,
                FileAction::SetGroup => FileAction::Done,
                FileAction::RestrictAcl => FileAction::Done,
                FileAction::Done => FileAction::Done,
                FileAction::Fail => FileAction::Fail,
            }
        }
    }

    /// The actions from this one to the last, if each goes as `ok` says.
    pub open spec fn run(self, platform: Platform, ok: spec_fn(FileAction) -> bool) -> Seq<
        FileAction,
    >
        decreases self.rank(),
    {
        if self.is_last() {
            seq![self]
        } else {
            seq![self] + self.after(platform, ok(self)).run(platform, ok)
        }
    }

    /// What follows an action that went well, or not.
    pub fn next(self, platform: Platform, ok: bool) -> (r: FileAction)
        ensures
            r == self.after(platform, ok),
    {
        match self {
            FileAction::CreateParent => if ok {
                FileAction::Probe
            } else {
                FileAction::Fail
            },
            FileAction::Probe => if ok {
                FileAction::Remove
            } else {
                create_new(platform)
            },
            FileAction::Remove => create_new(platform),
            FileAction::CreateNew { .. } => if ok {
                FileAction::Write
            } else {
                FileAction::Fail
            },
            FileAction::Write => if ok {
                FileAction::Sync
            } else {
                FileAction::Fail
            },
            FileAction::Sync => if !ok {
                FileAction::Fail
            } else if platform.is_unix() {
                FileAction::SetMode { mode: TOKEN_MODE }
            } else if let Platform::Windows = platform {
                FileAction::RestrictAcl
            } else {
                FileAction::Done
            },
            FileAction::SetMode { .. } => if ok {
                FileAction::SetGroup
            } else {
                FileAction::Fail
            },
            FileAction::SetGroup => FileAction::Done,
            FileAction::RestrictAcl => if ok {
                FileAction::Done
            } else {
                FileAction::Fail
            },
            FileAction::Done => FileAction::Done,
            FileAction::Fail => FileAction::Fail,
        }
    }
}

/// Open the token file for writing, as the platform allows.
fn create_new(platform: Platform) -> (r: FileAction)
    ensures
        r == FileAction::Remove.after(platform, true),
{
    if platform.is_unix() {
        FileAction::CreateNew { initial_mode: Some(TOKEN_MODE), no_follow: true }
    } else if let Platform::Windows = platform {
        FileAction::CreateNew { initial_mode: None, no_follow: true }
    } else {
        FileAction::CreateNew { initial_mode: None, no_follow: false }
    }
}

/// The first action when the token file is written.
pub fn begin_token_write(has_parent: bool) -> (r: FileAction)
    ensures
        r == if has_parent {
            FileAction::CreateParent
        } else {
            FileAction::Probe
        },
{
    if has_parent {
        FileAction::CreateParent
    } else {
        FileAction::Probe
    }
}

/// The first action when the socket is opened to the peer. Only Unix has anything
/// to do.
pub fn begin_socket_permissions(platform: Platform) -> (r: FileAction)
    ensures
        r == if platform.unix() {
            FileAction::SetMode { mode: SOCKET_MODE }
        } else {
            FileAction::Done
        },
{
    if platform.is_unix() {
        FileAction::SetMode { mode: SOCKET_MODE }
    } else {
        FileAction::Done
    }
}

/// What handing a file to the shared group takes.
#[derive(Debug, Clone, Copy, PartialEq, Eq, Structural)]
pub enum GroupChange {
    /// There is no such group: nothing.
    Leave,
    /// The path cannot be handed to the system, as it holds a zero byte.
    InvalidPath,
    /// Set the file's owner and group.
    Chown { uid: u32, gid: u32 },
}

/// What handing the file at `path` to the shared group takes, given the group's id,
/// or `None` where the group does not exist.
pub fn ipc_group_change(gid: Option<u32>, path: &[u8]) -> (r: GroupChange)
    ensures
        r == match gid {
            None => GroupChange::Leave,
            Some(_) if path@.contains(0) => GroupChange::InvalidPath,
            Some(g) => GroupChange::Chown { uid: KEEP_OWNER, gid: g },
        },
{
    let group: u32 = match gid {
        None => {
            return GroupChange::Leave;
        },
        Some(g) => g,
    };
    for i in 0..path.len()
        invariant
            gid == Some(group),
            forall|j: int| 0 <= j < i ==> path@[j] != 0,
    {
        if path[i] == 0 {
            assert(path@.contains(path@[i as int]));
            return GroupChange::InvalidPath;
        }
    }
    GroupChange::Chown { uid: KEEP_OWNER, gid: group }
}

// ---------------------------------------------------------------------------
// Laws
// ---------------------------------------------------------------------------

/// Whether the mode lets nobody in but the owner and the group.
pub open spec fn closed_to_others(mode: u32) -> bool {
    mode % 8 == 0
}

/// World access remains denied: no mode that a run sets, for the token file or the
/// socket, lets in anybody but the owner and the group.
pub proof fn law_world_denied(
    platform: Platform,
    start: FileAction,
    ok: spec_fn(FileAction) -> bool,
    i: int,
)
    requires
        start == FileAction::CreateParent || start == FileAction::Probe || start
            == (FileAction::SetMode { mode: SOCKET_MODE }) || start == FileAction::Done,
        0 <= i < start.run(platform, ok).len(),
    ensures
        start.run(platform, ok)[i] matches FileAction::CreateNew { initial_mode: Some(mode), .. }
            ==> closed_to_others(mode),
        start.run(platform, ok)[i] matches FileAction::SetMode { mode } ==> closed_to_others(mode),
{
    lemma_modes_of_run(platform, start, ok, i);
}

/// Whether an action sets no mode, or one that is closed to others.
spec fn sets_closed_mode(a: FileAction) -> bool {
    match a {
        FileAction::CreateNew { initial_mode: Some(mode), .. } => closed_to_others(mode),
        FileAction::SetMode { mode } => closed_to_others(mode),
        _ => true,
    }
}

proof fn lemma_modes_of_run(
    platform: Platform,
    start: FileAction,
    ok: spec_fn(FileAction) -> bool,
    i: int,
)
    requires
        sets_closed_mode(start),
        0 <= i < start.run(platform, ok).len(),
    ensures
        sets_closed_mode(start.run(platform, ok)[i]),
    decreases start.rank(),
{
    if !start.is_last() && i > 0 {
        let next = start.after(platform, ok(start));
        assert(start.run(platform, ok)[i] == next.run(platform, ok)[i - 1]);
        lemma_modes_of_run(platform, next, ok, i - 1);
    }
}

/// The token goes nowhere but into a new file: wherever a run writes, the action
/// before it created the file, and went well.
pub proof fn law_written_to_new_file(
    platform: Platform,
    start: FileAction,
    ok: spec_fn(FileAction) -> bool,
    i: int,
)
    requires
        start == FileAction::CreateParent || start == FileAction::Probe,
        0 <= i < start.run(platform, ok).len(),
        start.run(platform, ok)[i] is Write,
    ensures
        i > 0,
        start.run(platform, ok)[i - 1] is CreateNew,
        ok(start.run(platform, ok)[i - 1]),
        platform.unix() || platform is Windows ==> start.run(platform, ok)[i - 1]->no_follow,
{
    lemma_write_follows_create(platform, start, ok, i);
}

/// Whether an action that creates a file does not follow links where the platform
/// can refuse to.
spec fn refuses_links(platform: Platform, a: FileAction) -> bool {
    a is CreateNew && (platform.unix() || platform is Windows) ==> a->no_follow
}

proof fn lemma_write_follows_create(
    platform: Platform,
    start: FileAction,
    ok: spec_fn(FileAction) -> bool,
    i: int,
)
    requires
        !(start is Write),
        refuses_links(platform, start),
        0 <= i < start.run(platform, ok).len(),
        start.run(platform, ok)[i] is Write,
    ensures
        i > 0,
        start.run(platform, ok)[i - 1] is CreateNew,
        ok(start.run(platform, ok)[i - 1]),
        refuses_links(platform, start.run(platform, ok)[i - 1]),
    decreases start.rank(),
{
    if !start.is_last() && i > 0 {
        let next = start.after(platform, ok(start));
        assert(start.run(platform, ok)[i] == next.run(platform, ok)[i - 1]);
        if next is Write {
            if i > 1 {
                lemma_writes_once(platform, next, ok, i - 1);
            }
        } else {
            lemma_write_follows_create(platform, next, ok, i - 1);
            assert(start.run(platform, ok)[i - 1] == next.run(platform, ok)[i - 2]);
        }
    }
}

/// No action comes twice: later actions have a lower rank.
proof fn lemma_writes_once(
    platform: Platform,
    start: FileAction,
    ok: spec_fn(FileAction) -> bool,
    i: int,
)
    requires
        0 < i < start.run(platform, ok).len(),
    ensures
        start.run(platform, ok)[i].rank() < start.rank(),
    decreases start.rank(),
{
    if !start.is_last() {
        let next = start.after(platform, ok(start));
        assert(start.run(platform, ok)[i] == next.run(platform, ok)[i - 1]);
        if i > 1 {
            lemma_writes_once(platform, next, ok, i - 1);
        }
    }
}

/// A run ends, and reports success exactly if everything it did went well but for
/// finding, removing and handing to the group.
pub proof fn law_success_means_done(
    platform: Platform,
    start: FileAction,
    ok: spec_fn(FileAction) -> bool,
)
    requires
        !(start is Fail),
    ensures
        start.run(platform, ok).len() > 0,
        start.run(platform, ok).last().is_last(),
        start.run(platform, ok).last() is Done <==> forall|i: int|
            0 <= i < start.run(platform, ok).len() ==> {
                let a = #[trigger] start.run(platform, ok)[i];
                ok(a) || a.may_fail() || a is Done
            },
    decreases start.rank(),
{
    let all = start.run(platform, ok);
    if !start.is_last() {
        let next = start.after(platform, ok(start));
        let later = next.run(platform, ok);
        assert(all == seq![start] + later);
        assert(all[0] == start);
        if next is Fail {
            assert(later == seq![next]);
            assert(all.last() is Fail);
        } else {
            law_success_means_done(platform, next, ok);
            assert(all.last() == later.last());
            assert forall|i: int| 0 <= i < later.len() implies #[trigger] later[i] == all[i + 1] by {}
            assert forall|i: int| 0 < i < all.len() implies #[trigger] all[i] == later[i - 1] by {}
        }
    }
}

} // verus!
