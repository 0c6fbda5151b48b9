//! What the protocol comes to, in terms of the bytes and characters that callers hand
//! in and get back.

use super::error;
use super::error::{DesktopIpcError, DesktopIpcErrorView};
use super::frame;
use super::frame::{Reading, ReaderView, StepView};
use super::platform;
use super::platform::Platform;
use super::token;
use super::token_file::FileAction;
use super::token_path;
use super::token_path_laws;
use crate::text;
use crate::text_facts;
use vstd::prelude::*;

verus! {

// ---------------------------------------------------------------------------
// Frames
// ---------------------------------------------------------------------------

/// The number that the four bytes from `at` spell, the lowest first.
pub open spec fn number_at(s: Seq<u8>, at: int) -> int {
    s[at] + 256 * s[at + 1] + 65_536 * s[at + 2] + 16_777_216 * s[at + 3]
}

/// A frame is the header's length, the header, the payload's length and the payload,
/// byte for byte; lengths are spelled with the lowest byte first.
pub proof fn law_frame_byte_for_byte(header: Seq<u8>, payload: Seq<u8>)
    requires
        header.len() < 0x1_0000_0000,
        payload.len() < 0x1_0000_0000,
    ensures
        ({
            let f = frame::frame(header, payload);
            let h = header.len() as int;
            &&& f.len() == 8 + h + payload.len()
            &&& number_at(f, 0) == h
            &&& forall|i: int| 0 <= i < h ==> f[4 + i] == #[trigger] header[i]
            &&& number_at(f, 4 + h) == payload.len()
            &&& forall|i: int| 0 <= i < payload.len() ==> f[8 + h + i] == #[trigger] payload[i]
        }),
{
    let f = frame::frame(header, payload);
    let h = header.len() as int;
    let first = frame::le_bytes(header.len());
    let second = frame::le_bytes(payload.len());
    frame::lemma_le_bytes_spell(header.len());
    frame::lemma_le_bytes_spell(payload.len());
    assert(f[0] == first[0] && f[1] == first[1] && f[2] == first[2] && f[3] == first[3]);
    assert(f[4 + h] == second[0] && f[5 + h] == second[1] && f[6 + h] == second[2] && f[7 + h]
        == second[3]);
}

/// A length can be written exactly if it is below 2^32.
pub proof fn law_written_lengths(len: nat)
    ensures
        frame::fits(len) <==> len < 0x1_0000_0000,
{
}

/// What a reader makes of a stream: it waits until a length is there, refuses headers
/// beyond 16 MiB and payloads beyond 64 MiB as soon as it knows of them, waits for the
/// rest, and then has the very bytes that stand between and behind the lengths.
pub proof fn law_stream_byte_for_byte(stream: Seq<u8>)
    ensures
        ({
            let out = ReaderView::HeaderLength.fed(stream);
            let h = number_at(stream, 0);
            let p = number_at(stream, 4 + h);
            let n = stream.len();
            if n < 4 {
                out is Truncated
            } else if h > 16 * 1024 * 1024 {
                out == Reading::Refused(DesktopIpcErrorView::Protocol("header too large"@))
            } else if n < 8 + h {
                out is Truncated
            } else if p > 64 * 1024 * 1024 {
                out == Reading::Refused(DesktopIpcErrorView::Protocol("payload too large"@))
            } else if n < 8 + h + p {
                out is Truncated
            } else {
                out == (Reading::Frame {
                    header: stream.subrange(4, 4 + h),
                    payload: stream.subrange(8 + h, 8 + h + p),
                    rest: stream.skip(8 + h + p),
                })
            }
        }),
{
    frame::law_reader_follows_format(stream);
    let h = number_at(stream, 0);
    if stream.len() >= 4 {
        assert(frame::le_number(stream) == h);
        if stream.len() >= 8 + h {
            let after = stream.skip(4 + h);
            let p = number_at(stream, 4 + h);
            assert(after[0] == stream[4 + h] && after[1] == stream[5 + h] && after[2] == stream[6
                + h] && after[3] == stream[7 + h]);
            assert(frame::le_number(after) == p);
            if stream.len() >= 8 + h + p {
                assert(after.subrange(4, 4 + p) == stream.subrange(8 + h, 8 + h + p));
                assert(after.skip(4 + p) == stream.skip(8 + h + p));
            }
        }
    }
}

/// A reader never asks for more than it accepts: what it wants next is at most 64 MiB.
pub proof fn law_reader_wants_no_more(reader: ReaderView, chunk: Seq<u8>)
    ensures
        reader.after(chunk) matches Ok(StepView::Continue(next)) ==> next.wanted() <= 64 * 1024
            * 1024,
{
}

// ---------------------------------------------------------------------------
// Tokens
// ---------------------------------------------------------------------------

/// A stored token is there exactly if the file was read and holds something besides
/// white space. It is then all of the text but the white space at its ends.
pub proof fn law_stored_token_is_middle(contents: Option<Seq<char>>)
    ensures
        token::stored_token(contents) is Ok <==> contents is Some && exists|i: int|
            0 <= i < contents->0.len() && !text::white_space(#[trigger] contents->0[i]),
        token::stored_token(contents) is Ok ==> exists|lo: int, hi: int|
            text_facts::is_middle(contents->0, token::stored_token(contents)->Ok_0, lo, hi),
        token::stored_token(contents) is Err ==> token::stored_token(contents)->Err_0
            is HelperUnavailable,
{
    if contents is Some {
        let c = contents->0;
        text_facts::law_trimmed_is_middle(c);
        let (lo, hi) = choose|lo: int, hi: int|
            text_facts::is_middle(c, text::trimmed(c), lo, hi);
        assert(text_facts::is_middle(c, text::trimmed(c), lo, hi));
        if lo < hi {
            assert(!text::white_space(c[lo]));
        }
        if exists|i: int| 0 <= i < c.len() && !text::white_space(#[trigger] c[i]) {
            let i = choose|i: int| 0 <= i < c.len() && !text::white_space(#[trigger] c[i]);
            assert(lo <= i < hi);
        }
        if token::stored_token(contents) is Ok {
            assert(token::stored_token(contents)->Ok_0 == text::trimmed(c));
        }
    }
}

// ---------------------------------------------------------------------------
// Errors
// ---------------------------------------------------------------------------

/// Which errors a helper can cause, by the code it reports, and that nothing of what
/// it says is lost but where there is no helper to speak of.
pub proof fn law_remote_error_by_code(code: Seq<char>, message: Seq<char>)
    ensures
        ({
            let e = error::remote_error(code, message);
            let away = code == "helper_unavailable"@ || code == "unauthorized"@;
            let nobody = code == "no_active_gui_session"@;
            let display = code == "display_unsupported"@;
            &&& e is HelperUnavailable <==> away
            &&& e is NoActiveGuiSession <==> nobody
            &&& e is DisplayUnsupported <==> display
            &&& e is Remote <==> !away && !nobody && !display
            &&& e matches DesktopIpcErrorView::NoActiveGuiSession(m) ==> m == message
            &&& e matches DesktopIpcErrorView::DisplayUnsupported(m) ==> m == message
            &&& e matches DesktopIpcErrorView::Remote(m) ==> m == code + seq![':', ' '] + message
        }),
{
    reveal_strlit(": ");
    assert(": "@ == seq![':', ' ']);
    lemma_codes_differ();
}

/// The codes that are told apart differ.
proof fn lemma_codes_differ()
    ensures
        "helper_unavailable"@ != "no_active_gui_session"@,
        "helper_unavailable"@ != "display_unsupported"@,
        "unauthorized"@ != "no_active_gui_session"@,
        "unauthorized"@ != "display_unsupported"@,
        "no_active_gui_session"@ != "display_unsupported"@,
{
    reveal_strlit("helper_unavailable");
    reveal_strlit("unauthorized");
    reveal_strlit("no_active_gui_session");
    reveal_strlit("display_unsupported");
    assert("helper_unavailable"@[0] == 'h');
    assert("unauthorized"@[0] == 'u');
    assert("no_active_gui_session"@[0] == 'n');
    assert("display_unsupported"@[0] == 'd');
}

/// Each error stands for the failure of the same name, with the same text.
pub proof fn law_errors_keep_their_meaning(e: DesktopIpcError)
    ensures
        match e {
            DesktopIpcError::HelperUnavailable => e@ is HelperUnavailable,
            DesktopIpcError::NoActiveGuiSession(s) => e@
                == DesktopIpcErrorView::NoActiveGuiSession(s@),
            DesktopIpcError::DisplayUnsupported(s) => e@
                == DesktopIpcErrorView::DisplayUnsupported(s@),
            DesktopIpcError::InvalidResponse(s) => e@ == DesktopIpcErrorView::InvalidResponse(s@),
            DesktopIpcError::Io(io) => e@ == DesktopIpcErrorView::Io(io),
            DesktopIpcError::Protocol(s) => e@ == DesktopIpcErrorView::Protocol(s@),
            DesktopIpcError::Remote(s) => e@ == DesktopIpcErrorView::Remote(s@),
        },
{
}

/// A message ends in the text that the error carries, all of it.
pub proof fn law_message_ends_in_text(e: DesktopIpcError, message: Seq<char>)
    requires
        e.is_message(message),
    ensures
        match e {
            DesktopIpcError::NoActiveGuiSession(s) => s@.is_suffix_of(message),
            DesktopIpcError::DisplayUnsupported(s) => s@.is_suffix_of(message),
            DesktopIpcError::InvalidResponse(s) => s@.is_suffix_of(message),
            DesktopIpcError::Protocol(s) => s@.is_suffix_of(message),
            DesktopIpcError::Remote(s) => s@ == message,
            _ => true,
        },
{
    match e {
        DesktopIpcError::NoActiveGuiSession(s) => lemma_ends_in("no_active_gui_session: "@, s@),
        DesktopIpcError::DisplayUnsupported(s) => lemma_ends_in("display_unsupported: "@, s@),
        DesktopIpcError::InvalidResponse(s) => lemma_ends_in("invalid response: "@, s@),
        DesktopIpcError::Protocol(s) => lemma_ends_in("ipc protocol error: "@, s@),
        _ => {},
    }
}

/// What comes last is a suffix.
proof fn lemma_ends_in(a: Seq<char>, b: Seq<char>)
    ensures
        b.is_suffix_of(a + b),
{
    assert((a + b).subrange(a.len() as int, (a + b).len() as int) == b);
}

// ---------------------------------------------------------------------------
// Platforms
// ---------------------------------------------------------------------------

/// Where the helper's binary may be, on Windows and elsewhere; and which platforms
/// count as Unix.
pub proof fn law_platforms(platform: Platform)
    ensures
        platform.unix() <==> platform == Platform::Linux || platform == Platform::MacOs || platform
            == Platform::OtherUnix,
        platform::candidates(platform).len() == 2,
        platform == Platform::Windows ==> platform::candidates(platform) == seq![
            "C:\\Program Files\\hecate-lampad-desktop\\hecate-lampad-desktop.exe"@,
            "C:\\Program Files\\hecate-lampad\\hecate-lampad-desktop.exe"@,
        ],
        platform != Platform::Windows ==> platform::candidates(platform) == seq![
            "/usr/bin/hecate-lampad-desktop"@,
            "/usr/local/bin/hecate-lampad-desktop"@,
        ],
{
}

// ---------------------------------------------------------------------------
// The token file
// ---------------------------------------------------------------------------

/// Neighbours in a run: the second is what follows the first.
proof fn lemma_neighbours(
    platform: Platform,
    start: FileAction,
    ok: spec_fn(FileAction) -> bool,
    i: int,
)
    requires
        0 <= i,
        i + 1 < start.run(platform, ok).len(),
    ensures
        ({
            let all = start.run(platform, ok);
            &&& all[i + 1] == all[i].after(platform, ok(all[i]))
            &&& !(all[i] is Done) && !(all[i] is Fail)
            &&& all[i + 1] is Done || all[i + 1] is Fail <==> i + 2 == all.len()
        }),
    decreases start.rank(),
{
    let all = start.run(platform, ok);
    let next = start.after(platform, ok(start));
    let later = next.run(platform, ok);
    assert(all == seq![start] + later);
    assert(later[0] == next);
    if i > 0 {
        lemma_neighbours(platform, next, ok, i - 1);
        assert(all[i] == later[i - 1] && all[i + 1] == later[i]);
    } else {
        assert(next.is_last() <==> later.len() == 1) by {
            if !next.is_last() {
                let third = next.after(platform, ok(next));
                assert(third.run(platform, ok).len() > 0);
            }
        }
    }
}

/// When each action is taken. A file is removed only if it was found; created once
/// what was there is gone, or was not there; written to only if it was created;
/// and so on. A failure that is not one of finding, removing or handing to the group
/// ends the run at once, and nothing else does but its being complete.
pub proof fn law_when_each_action_is_taken(
    platform: Platform,
    start: FileAction,
    ok: spec_fn(FileAction) -> bool,
    i: int,
)
    requires
        0 <= i,
        i + 1 < start.run(platform, ok).len(),
    ensures
        ({
            let a = start.run(platform, ok)[i];
            let b = start.run(platform, ok)[i + 1];
            let unix = platform is Linux || platform is MacOs || platform is OtherUnix;
            &&& b is Fail <==> !ok(a) && !(a is Probe) && !(a is Remove) && !(a is SetGroup)
            &&& b is Fail || b is Done <==> i + 2 == start.run(platform, ok).len()
            &&& b is Probe <==> a is CreateParent && ok(a)
            &&& b is Remove <==> a is Probe && ok(a)
            &&& b is CreateNew <==> a is Remove || (a is Probe && !ok(a))
            &&& b is Write <==> a is CreateNew && ok(a)
            &&& b is Sync <==> a is Write && ok(a)
            &&& b is SetMode <==> a is Sync && ok(a) && unix
            &&& b is RestrictAcl <==> a is Sync && ok(a) && platform is Windows
            &&& b is SetGroup <==> a is SetMode && ok(a)
            &&& b is Done <==> {
                ||| a is SetGroup
                ||| a is RestrictAcl && ok(a)
                ||| a is Sync && ok(a) && platform is Other
            }
            &&& !(b is CreateParent)
        }),
{
    lemma_neighbours(platform, start, ok, i);
}

/// The modes: a token file is created with mode 0640 on Unix and none elsewhere, set
/// to 0640 again, and not through a link where the platform can tell.
pub proof fn law_token_file_modes(
    platform: Platform,
    start: FileAction,
    ok: spec_fn(FileAction) -> bool,
    i: int,
)
    requires
        start is CreateParent || start is Probe,
        0 <= i < start.run(platform, ok).len(),
    ensures
        ({
            let a = start.run(platform, ok)[i];
            let unix = platform is Linux || platform is MacOs || platform is OtherUnix;
            &&& a matches FileAction::SetMode { mode } ==> mode == 0o640
            &&& a matches FileAction::CreateNew { initial_mode, no_follow } ==> {
                &&& initial_mode == if unix {
                    Some(0o640u32)
                } else {
                    None
                }
                &&& no_follow == (unix || platform is Windows)
            }
        }),
{
    if i > 0 {
        lemma_neighbours(platform, start, ok, i - 1);
    }
}

/// The socket of a Unix is set to mode 0660 and handed to the group; nothing is
/// created, written or removed.
pub proof fn law_socket_only_opened(
    platform: Platform,
    ok: spec_fn(FileAction) -> bool,
    i: int,
)
    requires
        0 <= i < (FileAction::SetMode { mode: 0o660 }).run(platform, ok).len(),
    ensures
        ({
            let a = (FileAction::SetMode { mode: 0o660 }).run(platform, ok)[i];
            &&& i == 0 <==> a is SetMode
            &&& a is SetMode || a is SetGroup || a is Done || a is Fail
        }),
{
    let start = FileAction::SetMode { mode: 0o660 };
    reveal_with_fuel(FileAction::run, 4);
    let all = start.run(platform, ok);
    if i > 0 {
        lemma_neighbours(platform, start, ok, i - 1);
        if i > 1 {
            lemma_neighbours(platform, start, ok, i - 2);
            assert(!(all[i - 1] is SetMode)) by {
                if all[i - 1] is SetMode {
                    assert(all[i - 2] is Sync);
                    if i > 2 {
                        lemma_neighbours(platform, start, ok, i - 3);
                    }
                }
            }
        }
    }
}

/// Whether from `i` on the file is created, the token written and the disk waited for,
/// and then on Unix the mode set, on Windows the file restricted, and each went well.
pub open spec fn token_left_at(
    platform: Platform,
    ok: spec_fn(FileAction) -> bool,
    all: Seq<FileAction>,
    i: int,
) -> bool {
    &&& 0 <= i < all.len() - 3
    &&& all[i] is CreateNew && ok(all[i])
    &&& all[i + 1] is Write && ok(all[i + 1])
    &&& all[i + 2] is Sync && ok(all[i + 2])
    &&& platform is Linux || platform is MacOs || platform is OtherUnix ==> all[i + 3] is SetMode
        && ok(all[i + 3])
    &&& platform is Windows ==> all[i + 3] is RestrictAcl && ok(all[i + 3])
}

/// A run that reports success has left the token in a new file, on disk and closed to
/// others as far as the platform can.
pub proof fn law_success_leaves_token(
    platform: Platform,
    start: FileAction,
    ok: spec_fn(FileAction) -> bool,
)
    requires
        start is CreateParent || start is Probe,
        start.run(platform, ok).last() is Done,
    ensures
        exists|i: int| token_left_at(platform, ok, start.run(platform, ok), i),
    decreases start.rank(),
{
    let all = start.run(platform, ok);
    let next = start.after(platform, ok(start));
    let later = next.run(platform, ok);
    assert(all == seq![start] + later);
    assert(later.len() > 0);
    assert(all.last() == later.last());
    if start is CreateParent {
        if next is Fail {
            assert(later == seq![next]);
        }
        law_success_leaves_token(platform, next, ok);
        let i = choose|i: int| token_left_at(platform, ok, later, i);
        assert(all[i + 1] == later[i] && all[i + 2] == later[i + 1] && all[i + 3] == later[i + 2]
            && all[i + 4] == later[i + 3]);
        assert(token_left_at(platform, ok, all, i + 1));
    } else {
        lemma_created_run(platform, ok);
        let tail = FileAction::Remove.after(platform, true).run(platform, ok);
        if ok(start) {
            assert(later == seq![next] + tail);
            assert(all == seq![start, next] + tail);
            assert(token_left_at(platform, ok, all, 2));
        } else {
            assert(later == tail);
            assert(token_left_at(platform, ok, all, 1));
        }
    }
}

/// From the creation of the file to a reported success.
proof fn lemma_created_run(platform: Platform, ok: spec_fn(FileAction) -> bool)
    ensures
        FileAction::Remove.after(platform, true).run(platform, ok).len() > 0,
        FileAction::Remove.after(platform, true).run(platform, ok).last() is Done ==> token_left_at(
            platform,
            ok,
            FileAction::Remove.after(platform, true).run(platform, ok),
            0,
        ),
{
    reveal_with_fuel(FileAction::run, 7);
    let create = FileAction::Remove.after(platform, true);
    let write = create.after(platform, ok(create));
    let sync = write.after(platform, ok(write));
    let secure = sync.after(platform, ok(sync));
    let group = secure.after(platform, ok(secure));
    assert(create.run(platform, ok) == seq![create] + write.run(platform, ok));
    if write is Write {
        assert(write.run(platform, ok) == seq![write] + sync.run(platform, ok));
        if sync is Sync {
            assert(sync.run(platform, ok) == seq![sync] + secure.run(platform, ok));
            if !secure.is_last() {
                assert(secure.run(platform, ok) == seq![secure] + group.run(platform, ok));
            }
        }
    }
}

// ---------------------------------------------------------------------------
// The token file's place
// ---------------------------------------------------------------------------

/// The last component is a file name exactly if there is one behind the lead and it
/// is not `..`.
pub proof fn law_file_name_is_last_component(path: Seq<char>)
    ensures
        ({
            let below = token_path_laws::counted(path.skip(token_path::lead(path)));
            token_path::has_file_name(path) <==> below.len() > 0 && below.last() != seq!['.', '.']
        }),
{
    let rest = path.skip(token_path::lead(path));
    let all = token_path::named(path);
    token_path_laws::lemma_counted_trimmed(rest);
    token_path_laws::lemma_tail_trimmed_shape(rest);
    token_path_laws::lemma_counted_last(all);
    token_path_laws::lemma_counted_empty();
    if all.len() == 0 {
        assert(all == Seq::<char>::empty());
    }
}

/// A file in a directory has the file of the given name in that directory for its
/// sibling, where the directory is written to its last character: it ends neither in
/// `/` nor in `/.`.
pub proof fn law_token_beside_file(dir: Seq<char>, file: Seq<char>, name: Seq<char>)
    requires
        token_path_laws::is_file_name(file),
        dir.len() > 0 ==> dir.last() != '/',
        dir.len() > 1 && dir.last() == '.' ==> dir[dir.len() - 2] != '/',
    ensures
        token_path::sibling(dir + seq!['/'] + file, name) == dir + seq!['/'] + name,
        token_path::sibling(file, name) == name,
{
    assert(dir + seq!['/'] + file == dir.push('/') + file);
    assert(dir + seq!['/'] + name == dir.push('/') + name);
    let piece = token_path::last_piece(dir);
    token_path::lemma_last_slash(dir);
    if piece == seq!['.'] {
        let k = token_path::last_slash(dir);
        assert(piece.len() == dir.len() - (k + 1));
        assert(piece.len() == 1);
        assert(dir.last() == piece[0]);
        if dir.len() > 1 {
            assert(dir[dir.len() - 2] == '/');
        }
        assert(dir == seq!['.']);
    }
    token_path_laws::law_sibling_in_same_directory(dir, file, name);
    token_path_laws::lemma_directory_of_name(file);
    assert(token_path::inside(Seq::empty(), name) == name);
}

/// Separators and `.` components behind a file's name make no difference.
pub proof fn law_token_ignores_tail(path: Seq<char>, name: Seq<char>)
    requires
        token_path::has_file_name(path),
    ensures
        token_path::sibling(path + seq!['/'], name) == token_path::sibling(path, name),
        token_path::sibling(path + seq!['/', '.'], name) == token_path::sibling(path, name),
{
    lemma_tail_adds_nothing(path, Seq::empty());
    lemma_tail_adds_nothing(path, seq!['.']);
    assert(path + seq!['/'] == path.push('/') + Seq::<char>::empty());
    assert(path + seq!['/', '.'] == path.push('/') + seq!['.']);
}

/// A last component that is empty or `.` adds nothing.
proof fn lemma_tail_adds_nothing(path: Seq<char>, piece: Seq<char>)
    requires
        token_path::has_file_name(path),
        piece.len() == 0 || piece == seq!['.'],
    ensures
        token_path::named(path.push('/') + piece) == token_path::named(path),
        token_path::directory_of(path.push('/') + piece) == token_path::directory_of(path),
{
    let more = path.push('/') + piece;
    let n = token_path::lead(path);
    assert(path.len() > 0) by {
        if path.len() == 0 {
            assert(path.skip(n) == path);
        }
    }
    token_path_laws::lemma_lead_of_file(path, piece);
    assert(more.skip(n) == path.skip(n).push('/') + piece);
    assert(!piece.contains('/'));
    token_path_laws::lemma_pieces_of_file(path.skip(n), piece);
    assert(more.take(n) == path.take(n));
}

/// Behind a path that is empty, the root, or ends in `..` the name is added.
pub proof fn law_token_below_directory(path: Seq<char>, name: Seq<char>)
    requires
        path.len() >= 2,
        path[path.len() - 1] == '.',
        path[path.len() - 2] == '.',
        path.len() > 2 ==> path[path.len() - 3] == '/',
    ensures
        token_path::sibling(path, name) == path + seq!['/'] + name,
        token_path::sibling(Seq::empty(), name) == name,
        token_path::sibling(seq!['/'], name) == seq!['/'] + name,
{
    let n = token_path::lead(path);
    let rest = path.skip(n);
    let dots = seq!['.', '.'];
    let at = rest.len() - 3;
    assert(rest.len() >= 2) by {
        if rest.len() < 2 {
            assert(path.len() == 2 && n == 1);
        }
    }
    assert(rest[rest.len() - 1] == '.' && rest[rest.len() - 2] == '.');
    if at >= 0 {
        assert(rest[at] == path[path.len() - 3]);
    }
    token_path_laws::lemma_last_slash_at(rest, at);
    assert(token_path::last_piece(rest) == dots);
    assert(token_path::tail_trimmed(rest) == rest);
    assert(path + seq!['/'] + name == path.push('/') + name);
    let none = Seq::<char>::empty();
    assert(none.skip(0) == none && seq!['/'].skip(1) == none);
    assert(none + name == name);
}

/// Below the program data directory: the path begins with that directory's, and goes
/// on with at most a separator, `hecate-lampad`, a separator and `ipc.token`.
pub proof fn law_token_below_program_data(r: Seq<char>, base: Seq<char>)
    requires
        token_path::is_below_program_data(r, base),
    ensures
        base.is_prefix_of(r),
        token_path::ends_in(r, "hecate-lampad"@, "ipc.token"@),
        r.len() <= base.len() + "hecate-lampad"@.len() + "ipc.token"@.len() + 2,
{
    let dir_name = "hecate-lampad"@;
    let file_name = "ipc.token"@;
    reveal_strlit("hecate-lampad");
    let dir = choose|dir: Seq<char>| #[trigger]
        token_path::is_joined(dir, base, token_path::TOKEN_DIR_NAME@) && token_path::is_joined(
            r,
            dir,
            token_path::TOKEN_FILE_NAME@,
        );
    assert(dir.take(base.len() as int) == base);
    assert(r.take(dir.len() as int) == dir);
    assert(r.take(base.len() as int) == dir.take(base.len() as int));
    assert(dir.last() == dir_name[dir_name.len() - 1]);
    assert(dir_name[dir_name.len() - 1] == 'd');
    let at = dir.len() - dir_name.len();
    assert(dir.subrange(at, dir.len() as int) == dir_name);
    let tail = r.subrange(at, r.len() as int);
    if r == dir.push('/') + file_name {
        assert(tail == dir_name.push('/') + file_name);
    } else {
        assert(tail == dir_name.push('\\') + file_name);
    }
}

} // verus!
