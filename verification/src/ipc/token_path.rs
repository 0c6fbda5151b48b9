//! Where the token file is.

use super::platform::Platform;
use crate::text;
use vstd::prelude::*;

verus! {

/// The name of the token file.
pub const TOKEN_FILE_NAME: &'static str = "ipc.token";

/// The directory below the machine's program data that holds the token file on
/// Windows.
pub const TOKEN_DIR_NAME: &'static str = "hecate-lampad";

/// The machine's program data directory on Windows where none is configured.
pub const DEFAULT_PROGRAM_DATA: &'static str = "C:\\ProgramData";

// ---------------------------------------------------------------------------
// Sibling files, by the rules of Unix paths
// ---------------------------------------------------------------------------

/// The place of the last `/`, or -1 where there is none.
pub open spec fn last_slash(s: Seq<char>) -> int
    decreases s.len(),
{
    if s.len() == 0 {
        -1
    } else if s.last() == '/' {
        s.len() - 1
    } else {
        last_slash(s.drop_last())
    }
}

/// What follows the last `/`.
pub open spec fn last_piece(s: Seq<char>) -> Seq<char> {
    s.skip(last_slash(s) + 1)
}

/// What precedes the last `/`; nothing where there is none.
pub open spec fn before_last(s: Seq<char>) -> Seq<char> {
    if last_slash(s) < 0 {
        Seq::empty()
    } else {
        s.take(last_slash(s))
    }
}

/// How many characters in front belong to no named component: a root, or a `.`
/// that the path begins with.
pub open spec fn lead(path: Seq<char>) -> int {
    if path.len() > 0 && path[0] == '/' {
        1
    } else if path.len() > 0 && path[0] == '.' && (path.len() == 1 || path[1] == '/') {
        1
    } else {
        0
    }
}

/// The components without those at the end that are empty or `.`.
pub open spec fn tail_trimmed(body: Seq<char>) -> Seq<char>
    decreases body.len(),
{
    if body.len() > 0 && (last_piece(body).len() == 0 || last_piece(body) == seq!['.']) {
        proof {
            lemma_last_slash(body);
        }
        tail_trimmed(before_last(body))
    } else {
        body
    }
}

/// A file of the given name in a directory.
pub open spec fn inside(dir: Seq<char>, name: Seq<char>) -> Seq<char> {
    if dir.len() > 0 && dir.last() != '/' {
        dir.push('/') + name
    } else {
        dir + name
    }
}

/// The named components, up to the last that is neither empty nor `.`.
pub open spec fn named(path: Seq<char>) -> Seq<char> {
    tail_trimmed(path.skip(lead(path)))
}

/// Whether the last component is a file name.
pub open spec fn has_file_name(path: Seq<char>) -> bool {
    named(path).len() > 0 && last_piece(named(path)) != seq!['.', '.']
}

/// The directory of a path that has a file name.
pub open spec fn directory_of(path: Seq<char>) -> Seq<char> {
    path.take(lead(path)) + tail_trimmed(before_last(named(path)))
}

/// The path with its file name replaced; where its last component is no file
/// name, the path with the name added.
pub open spec fn sibling(path: Seq<char>, name: Seq<char>) -> Seq<char> {
    if has_file_name(path) {
        inside(directory_of(path), name)
    } else {
        inside(path, name)
    }
}

/// The last `/` is within the text, and is one.
pub proof fn lemma_last_slash(s: Seq<char>)
    ensures
        -1 <= last_slash(s) < s.len(),
        last_slash(s) >= 0 ==> s[last_slash(s)] == '/',
        forall|i: int| last_slash(s) < i < s.len() ==> s[i] != '/',
    decreases s.len(),
{
    if s.len() > 0 && s.last() != '/' {
        lemma_last_slash(s.drop_last());
        assert forall|i: int| last_slash(s) < i < s.len() implies s[i] != '/' by {
            if i < s.len() - 1 {
                assert(s.drop_last()[i] == s[i]);
            }
        }
    }
}

/// Where the last `/` is among the first `len` characters, or `None`.
fn find_last_slash(chars: &Vec<char>, start: usize, len: usize) -> (r: Option<usize>)
    requires
        start <= len <= chars@.len(),
    ensures
        match r {
            Some(i) => start <= i < len && last_slash(chars@.subrange(start as int, len as int))
                == i - start,
            None => last_slash(chars@.subrange(start as int, len as int)) == -1,
        },
{
    let mut k: usize = len;
    while k > start
        invariant
            start <= k <= len,
            len <= chars@.len(),
            last_slash(chars@.subrange(start as int, len as int)) == last_slash(
                chars@.subrange(start as int, k as int),
            ),
        decreases k,
    {
        let ghost part = chars@.subrange(start as int, k as int);
        assert(part.drop_last() == chars@.subrange(start as int, k - 1));
        assert(part.last() == chars@[k - 1]);
        if chars[k - 1] == '/' {
            return Some(k - 1);
        }
        k = k - 1;
    }
    None
}

/// The end of the components from `start` to `len` without those at the end that
/// are empty or `.`.
fn trimmed_len(chars: &Vec<char>, start: usize, len: usize) -> (r: usize)
    requires
        start <= len <= chars@.len(),
    ensures
        start <= r <= len,
        tail_trimmed(chars@.subrange(start as int, len as int)) == chars@.subrange(
            start as int,
            r as int,
        ),
{
    let mut end: usize = len;
    while end > start
        invariant
            start <= end <= len,
            len <= chars@.len(),
            tail_trimmed(chars@.subrange(start as int, len as int)) == tail_trimmed(
                chars@.subrange(start as int, end as int),
            ),
        decreases end,
    {
        let ghost part = chars@.subrange(start as int, end as int);
        let slash = find_last_slash(chars, start, end);
        let piece: usize = match slash {
            Some(i) => i + 1,
            None => start,
        };
        assert(last_piece(part) == chars@.subrange(piece as int, end as int));
        let idle = piece == end || (end - piece == 1 && chars[piece] == '.');
        proof {
            if end - piece == 1 {
                assert(last_piece(part)[0] == chars@[piece as int]);
                assert(chars@[piece as int] == '.' ==> last_piece(part) == seq!['.']);
            }
        }
        if !idle {
            return end;
        }
        end = match slash {
            Some(i) => i,
            None => start,
        };
        assert(before_last(part) == chars@.subrange(start as int, end as int));
    }
    assert(chars@.subrange(start as int, end as int) == Seq::<char>::empty());
    end
}

/// A file of the given name in a directory.
fn file_in(dir: &str, name: &str) -> (r: String)
    ensures
        r@ == inside(dir@, name@),
{
    let n: usize = dir.unicode_len();
    let mut r = String::new();
    r.append(dir);
    if n > 0 && dir.get_char(n - 1) != '/' {
        r.push('/');
    }
    r.append(name);
    assert(r@ == inside(dir@, name@));
    r
}

/// The path with its file name replaced.
fn with_file_name(path: &str, name: &str) -> (r: String)
    ensures
        r@ == sibling(path@, name@),
{
    let chars = text::chars_of(path);
    let n: usize = chars.len();
    let start: usize = if n > 0 && (chars[0] == '/' || (chars[0] == '.' && (n == 1 || chars[1]
        == '/'))) {
        1
    } else {
        0
    };
    assert(start == lead(path@));
    assert(path@.skip(start as int) == chars@.subrange(start as int, n as int));
    let end: usize = trimmed_len(&chars, start, n);
    let ghost body = chars@.subrange(start as int, end as int);
    let slash = find_last_slash(&chars, start, end);
    let piece: usize = match slash {
        Some(i) => i + 1,
        None => start,
    };
    assert(last_piece(body) == chars@.subrange(piece as int, end as int));
    if end == start || (end - piece == 2 && chars[piece] == '.' && chars[piece + 1] == '.') {
        proof {
            if end != start {
                assert(last_piece(body) == seq!['.', '.']);
            }
        }
        return file_in(path, name);
    }
    assert(last_piece(body) != seq!['.', '.']) by {
        if last_piece(body) == seq!['.', '.'] {
            assert(last_piece(body).len() == 2);
            assert(last_piece(body)[0] == chars@[piece as int]);
            assert(last_piece(body)[1] == chars@[piece + 1]);
        }
    }
    let upto: usize = match slash {
        Some(i) => i,
        None => start,
    };
    assert(before_last(body) == chars@.subrange(start as int, upto as int));
    let cut: usize = trimmed_len(&chars, start, upto);
    assert(path@.take(start as int) + chars@.subrange(start as int, cut as int) == path@.subrange(
        0,
        cut as int,
    ));
    file_in(path.substring_char(0, cut), name)
}

// ---------------------------------------------------------------------------
// Joined paths
// ---------------------------------------------------------------------------

/// Whether the text is a single component on every platform.
pub open spec fn is_component(name: Seq<char>) -> bool {
    &&& name.len() > 0
    &&& name[0] != '?'
    &&& name != seq!['.']
    &&& name != seq!['.', '.']
    &&& forall|i: int|
        0 <= i < name.len() ==> (#[trigger] name[i]) != '/' && name[i] != '\\' && name[i] != ':'
}

/// Whether the path may be a verbatim Windows path, which begins with `\\?\`.
pub open spec fn may_be_verbatim(base: Seq<char>) -> bool {
    &&& base.len() >= 3
    &&& base[0] == '\\' || base[0] == '/'
    &&& base[1] == '\\' || base[1] == '/'
    &&& base[2] == '?'
}

/// Whether `r` is `part` below `base`, by the rules of one platform or another: a
/// separator of either kind goes between them, but none does at the start, behind
/// `/`, and possibly behind `\` or `:`.
pub open spec fn is_joined(r: Seq<char>, base: Seq<char>, part: Seq<char>) -> bool {
    if base.len() == 0 || base.last() == '/' {
        r == base + part
    } else if base.last() == '\\' {
        r == base + part || r == base.push('/') + part
    } else if base.last() == ':' {
        r == base + part || r == base.push('/') + part || r == base.push('\\') + part
    } else {
        r == base.push('/') + part || r == base.push('\\') + part
    }
}

/// Whether `r` ends in the component `dir`, a separator of either kind and `part`.
pub open spec fn ends_in(r: Seq<char>, dir: Seq<char>, part: Seq<char>) -> bool {
    (dir.push('/') + part).is_suffix_of(r) || (dir.push('\\') + part).is_suffix_of(r)
}

/// `std::path::Path::join`: the component below the path, so that the result ends in
/// it, and before it, behind a separator, in the component that the path ended in.
/// Which separator goes between them depends on the machine; the contract leaves that
/// open. Of a verbatim Windows path, whose components are put together anew, it says
/// no more than how the result ends.
#[verifier::external_body]
fn join_path(base: &str, part: &str) -> (r: String)
    requires
        is_component(part@),
    ensures
        !may_be_verbatim(base@) ==> is_joined(r@, base@, part@),
        part@.is_suffix_of(r@),
        forall|dir: Seq<char>|
            is_component(dir) && #[trigger] dir.is_suffix_of(base@) ==> ends_in(r@, dir, part@),
{
    std::path::Path::new(base).join(part).to_string_lossy().into_owned()
}

// ---------------------------------------------------------------------------
// The token file
// ---------------------------------------------------------------------------

/// Whether `r` is the token file below the machine's program data directory.
pub open spec fn is_below_program_data(r: Seq<char>, base: Seq<char>) -> bool {
    exists|dir: Seq<char>| #[trigger]
        is_joined(dir, base, TOKEN_DIR_NAME@) && is_joined(r, dir, TOKEN_FILE_NAME@)
}

/// The path of the token file: beside the socket, or on Windows below the
/// machine's program data directory, whose configured place is `program_data`.
pub fn ipc_token_path(
    platform: Platform,
    socket_path: &str,
    program_data: Option<&str>,
) -> (r: String)
    ensures
        !(platform is Windows) ==> r@ == sibling(socket_path@, TOKEN_FILE_NAME@),
        platform is Windows ==> ({
            let base = match program_data {
                Some(p) => p@,
                None => DEFAULT_PROGRAM_DATA@,
            };
            &&& !may_be_verbatim(base) ==> is_below_program_data(r@, base)
            &&& ends_in(r@, TOKEN_DIR_NAME@, TOKEN_FILE_NAME@)
        }),
{
    if let Platform::Windows = platform {
        let base: &str = match program_data {
            Some(p) => p,
            None => DEFAULT_PROGRAM_DATA,
        };
        proof {
            reveal_strlit("hecate-lampad");
            reveal_strlit("ipc.token");
            assert(TOKEN_FILE_NAME@.len() == 9);
            assert(is_component(TOKEN_FILE_NAME@));
            assert(is_component(TOKEN_DIR_NAME@));
        }
        let dir = join_path(base, TOKEN_DIR_NAME);
        let r = join_path(dir.as_str(), TOKEN_FILE_NAME);
        proof {
            if !may_be_verbatim(base@) {
                lemma_joined_not_verbatim(dir@, base@, TOKEN_DIR_NAME@);
                assert(is_joined(dir@, base@, TOKEN_DIR_NAME@));
            }
        }
        r
    } else {
        with_file_name(socket_path, TOKEN_FILE_NAME)
    }
}

/// Joining a component does not make a path verbatim.
proof fn lemma_joined_not_verbatim(r: Seq<char>, base: Seq<char>, part: Seq<char>)
    requires
        !may_be_verbatim(base),
        is_component(part),
        is_joined(r, base, part),
    ensures
        !may_be_verbatim(r),
{
    if may_be_verbatim(r) {
        let n = base.len() as int;
        assert forall|i: int| 0 <= i < n implies r[i] == base[i] by {}
        assert(n < 3);
        assert(part[0] == r[n] || part[0] == r[n + 1]);
    }
}

} // verus!
