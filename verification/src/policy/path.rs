//! Lexical path rules: normal forms, traversal, and which directories are
//! allowed to work in.

use super::error;
use super::error::{PolicyError, PolicyErrorView};
use super::path_meaning;
use super::shell;
use super::shell::allowlist_has_wildcard;
use crate::text;
use vstd::prelude::*;

verus! {

// ---------------------------------------------------------------------------
// The rules
// ---------------------------------------------------------------------------

/// `s` with Windows separators made Unix ones.
pub open spec fn unified(s: Seq<char>) -> Seq<char> {
    text::replaced(s, '\\', '/')
}

/// `s` with Unix separators and without a Windows verbatim (`\\?\`) or device
/// (`\\.\`) prefix. What then begins with `UNC/` names a network share.
pub open spec fn namespace_stripped(s: Seq<char>) -> Seq<char> {
    let u = unified(s);
    let v = if seq!['/', '/', '?', '/'].is_prefix_of(u) || seq!['/', '/', '.', '/'].is_prefix_of(
        u,
    ) {
        u.skip(4)
    } else {
        u
    };
    if seq!['U', 'N', 'C', '/'].is_prefix_of(v) {
        seq!['/', '/'] + v.skip(4)
    } else {
        v
    }
}

/// A path without surrounding white space, namespace prefix and trailing
/// separators. The root directory stays as it is.
pub open spec fn normalized(path: Seq<char>) -> Seq<char> {
    let u = namespace_stripped(text::trimmed(path));
    if u == seq!['/'] {
        u
    } else {
        text::trimmed_end_of(u, '/')
    }
}

/// The component that leads to the parent directory.
pub open spec fn parent_dir() -> Seq<char> {
    seq!['.', '.']
}

/// The component, or the whole path, that stands for the directory itself.
pub open spec fn current_dir() -> Seq<char> {
    seq!['.']
}

/// Whether the path as written has a `..` component, by either separator.
pub open spec fn traverses(path: Seq<char>) -> bool {
    text::split(path, seq!['/', '\\']).contains(parent_dir())
}

/// The components of a path with Unix separators, empty ones included.
pub open spec fn components(path: Seq<char>) -> Seq<Seq<char>> {
    text::split(path, seq!['/'])
}

/// Whether a component moves nowhere.
pub open spec fn is_idle(component: Seq<char>) -> bool {
    component.len() == 0 || component == current_dir()
}

/// The components that move somewhere.
pub open spec fn moves(path: Seq<char>) -> Seq<Seq<char>> {
    components(path).filter(|c: Seq<char>| !is_idle(c))
}

/// The path spelled by its moving components alone, absolute if it was.
pub open spec fn collapsed(path: Seq<char>) -> Seq<char> {
    let relative = text::joined(moves(path), '/');
    if path.len() > 0 && path[0] == '/' {
        seq!['/'] + relative
    } else {
        relative
    }
}

/// The normal form of a path, if it has no `..` component. A dot alone stays.
pub open spec fn normal_form(path: Seq<char>) -> Result<Seq<char>, PolicyErrorView> {
    if traverses(path) || components(normalized(path)).contains(parent_dir()) {
        Err(PolicyErrorView::PathTraversal { path })
    } else if text::trimmed(path) == current_dir() {
        Ok(current_dir())
    } else {
        Ok(collapsed(normalized(path)))
    }
}

/// The form in which a path is matched: its normal form, but `.` for a path such as
/// `./` that is there and moves nowhere.
pub open spec fn matching_form(path: Seq<char>) -> Result<Seq<char>, PolicyErrorView> {
    match normal_form(path) {
        Ok(n) => if n.len() == 0 && normalized(path).len() > 0 {
            Ok(current_dir())
        } else {
            Ok(n)
        },
        Err(e) => Err(e),
    }
}

/// Whether a path begins with a drive letter.
pub open spec fn drive_path(path: Seq<char>) -> bool {
    path.len() >= 2 && ('A' <= path[0] <= 'Z' || 'a' <= path[0] <= 'z') && path[1] == ':'
}

/// Whether the path is the directory or below it.
pub open spec fn is_within(path: Seq<char>, dir: Seq<char>) -> bool {
    path == dir || dir.push('/').is_prefix_of(path)
}

/// Whether a matching form starts out from the current directory: neither from the
/// root nor from a drive.
pub open spec fn is_relative(path: Seq<char>) -> bool {
    path.len() > 0 && path[0] != '/' && !drive_path(path)
}

/// Whether a directory is allowed by a root, both in matching form: it is the root
/// or below it. All relative paths are below `.`, and all paths below `/`. A drive
/// letter on either side makes the match blind to ASCII case.
pub open spec fn root_admits(root: Seq<char>, cwd: Seq<char>) -> bool {
    &&& root.len() > 0
    &&& cwd.len() > 0
    &&& {
        ||| root == current_dir() && is_relative(cwd)
        ||| root == seq!['/']
        ||| if drive_path(cwd) || drive_path(root) {
            is_within(text::ascii_lowered(cwd), text::ascii_lowered(root))
        } else {
            is_within(cwd, root)
        }
    }
}

/// Whether an allowed root admits a working directory, both as written. A path
/// without a matching form neither admits nor is admitted.
pub open spec fn admits(root: Seq<char>, cwd: Seq<char>) -> bool {
    match (matching_form(cwd), matching_form(root)) {
        (Ok(c), Ok(r)) => root_admits(r, c),
        _ => false,
    }
}

/// Whether a root admits a working directory by what was written or by its normal
/// form `plain`.
pub open spec fn admits_either(root: Seq<char>, cwd: Seq<char>, plain: Seq<char>) -> bool {
    admits(root, cwd) || admits(root, plain)
}

/// The verdict on a working directory under an allowlist of roots.
pub open spec fn cwd_verdict(cwd: Seq<char>, allowed: Seq<Seq<char>>) -> Result<
    (),
    PolicyErrorView,
> {
    if traverses(cwd) {
        Err(PolicyErrorView::PathTraversal { path: cwd })
    } else if shell::wildcard(allowed) {
        Ok(())
    } else if allowed.len() == 0 {
        Err(PolicyErrorView::CwdNotAllowed { cwd: normalized(cwd) })
    } else {
        match normal_form(cwd) {
            Err(e) => Err(e),
            Ok(c) => if exists|i: int|
                0 <= i < allowed.len() && admits_either(#[trigger] allowed[i], cwd, c) {
                Ok(())
            } else {
                Err(PolicyErrorView::CwdNotAllowed { cwd: c })
            },
        }
    }
}

/// The outcome of finding a normal form, with strings as sequences of characters.
pub open spec fn form(r: Result<String, PolicyError>) -> Result<Seq<char>, PolicyErrorView> {
    match r {
        Ok(s) => Ok(s@),
        Err(e) => Err(e@),
    }
}

// ---------------------------------------------------------------------------
// The checks
// ---------------------------------------------------------------------------

/// Strip Windows verbatim/device prefixes (`\\?\C:\...`, `\\.\`, UNC) so
/// canonicalize() results still match operator allowlists.
fn strip_windows_namespace_prefix(path: &str) -> (r: String)
    ensures
        r@ == namespace_stripped(path@),
{
    let whole = text::replace(path, '\\', '/');
    proof {
        reveal_strlit("//?/");
        reveal_strlit("//./");
        reveal_strlit("UNC/");
        reveal_strlit("//");
        assert("//?/"@ == seq!['/', '/', '?', '/']);
        assert("//./"@ == seq!['/', '/', '.', '/']);
        assert("UNC/"@ == seq!['U', 'N', 'C', '/']);
        assert("//"@ == seq!['/', '/']);
    }
    let stripped = match text::strip_prefix(whole.as_str(), "//?/") {
        Some(rest) => rest,
        None => match text::strip_prefix(whole.as_str(), "//./") {
            Some(rest) => rest,
            None => whole.as_str(),
        },
    };
    match text::strip_prefix(stripped, "UNC/") {
        Some(share) => text::concat("//", share),
        None => stripped.to_owned(),
    }
}

/// A path for allowlist checks: without surrounding white space, Windows
/// namespace prefix and trailing separators, and with Unix separators.
pub fn normalize_path(path: &str) -> (r: String)
    ensures
        r@ == normalized(path@),
{
    let bare = text::trim(path);
    if bare.is_empty() {
        proof {
            assert(namespace_stripped(bare@) == Seq::<char>::empty());
        }
        return String::new();
    }
    // Accept both Unix and Windows separators in allowlist checks.
    let whole = strip_windows_namespace_prefix(bare);
    proof {
        reveal_strlit("/");
        assert("/"@ == seq!['/']);
    }
    if text::same_text(whole.as_str(), "/") {
        return "/".to_owned();
    }
    text::trim_end_of(whole.as_str(), '/').to_owned()
}

/// Whether one of `list` is the component `..`.
fn has_parent_dir(list: &Vec<&str>) -> (r: bool)
    ensures
        r == text::slice_texts(list@).contains(parent_dir()),
{
    proof {
        reveal_strlit("..");
        assert(".."@ == parent_dir());
    }
    for i in 0..list.len()
        invariant
            ".."@ == parent_dir(),
            forall|j: int| 0 <= j < i ==> text::slice_texts(list@)[j] != parent_dir(),
    {
        assert(text::slice_texts(list@)[i as int] == list@[i as int]@);
        if text::same_text(list[i], "..") {
            return true;
        }
    }
    false
}

/// Reject path components that escape via `..`.
pub fn reject_path_traversal(path: &str) -> (r: Result<(), PolicyError>)
    ensures
        error::verdict(r) == if traverses(path@) {
            Err(PolicyErrorView::PathTraversal { path: path@ })
        } else {
            Ok::<(), PolicyErrorView>(())
        },
{
    let pieces = text::split_on(path, &['/', '\\']);
    assert(['/', '\\']@ == seq!['/', '\\']);
    if has_parent_dir(&pieces) {
        return Err(PolicyError::PathTraversal { path: path.to_owned() });
    }
    Ok(())
}

/// Lexically collapse `.` and reject unresolved `..` that escape the path.
pub fn normalize_path_no_traversal(path: &str) -> (r: Result<String, PolicyError>)
    ensures
        form(r) == normal_form(path@),
{
    reject_path_traversal(path)?;
    proof {
        reveal_strlit(".");
        reveal_strlit("/");
        assert("."@ == current_dir());
        assert("/"@ == seq!['/']);
    }
    let bare = text::trim(path);
    if text::same_text(bare, ".") {
        proof {
            lemma_current_dir_has_no_parent(path@);
        }
        return Ok(".".to_owned());
    }
    let whole = normalize_path(path);
    let all = text::split_on(whole.as_str(), &['/']);
    assert(['/']@ == seq!['/']);
    if has_parent_dir(&all) {
        return Err(PolicyError::PathTraversal { path: path.to_owned() });
    }
    let mut parts: Vec<&str> = Vec::new();
    let ghost pieces = text::slice_texts(all@);
    let ghost keep = |c: Seq<char>| !is_idle(c);
    assert(text::slice_texts(parts@) == Seq::<Seq<char>>::empty());
    assert(pieces.take(0) == Seq::<Seq<char>>::empty());
    reveal(Seq::filter);
    for i in 0..all.len()
        invariant
            "."@ == current_dir(),
            pieces == text::slice_texts(all@),
            keep == (|c: Seq<char>| !is_idle(c)),
            text::slice_texts(parts@) == pieces.take(i as int).filter(keep),
    {
        reveal(Seq::filter);
        let component: &str = all[i];
        let ghost kept = text::slice_texts(parts@);
        assert(pieces.take(i + 1).drop_last() == pieces.take(i as int));
        assert(pieces.take(i + 1).last() == component@);
        if !component.is_empty() && !text::same_text(component, ".") {
            parts.push(component);
            assert(text::slice_texts(parts@) == kept.push(component@));
        }
    }
    assert(pieces.take(all.len() as int) == pieces);
    let relative = text::join(&parts, '/');
    if text::starts_with(whole.as_str(), "/") {
        assert(seq!['/'].is_prefix_of(whole@) <==> whole@.len() > 0 && whole@[0] == '/');
        Ok(text::concat("/", relative.as_str()))
    } else {
        assert(seq!['/'].is_prefix_of(whole@) <==> whole@.len() > 0 && whole@[0] == '/');
        Ok(relative)
    }
}

/// The path `.` with white space around it has no `..` component.
proof fn lemma_current_dir_has_no_parent(path: Seq<char>)
    requires
        text::trimmed(path) == current_dir(),
    ensures
        normalized(path) == current_dir(),
        !components(normalized(path)).contains(parent_dir()),
{
    let u = namespace_stripped(current_dir());
    assert(unified(current_dir()) == current_dir());
    assert(u == current_dir());
    assert(text::trimmed_end_of(u, '/') == u);
    assert(current_dir().drop_last() == Seq::<char>::empty());
    reveal_with_fuel(text::split, 2);
    assert(seq!['/'].contains('.') == false);
    let pieces = components(current_dir());
    assert(pieces.len() == 1);
    assert(pieces[0].len() == 1);
}

/// The form in which a path is matched.
fn to_matching_form(path: &str) -> (r: Result<String, PolicyError>)
    ensures
        form(r) == matching_form(path@),
{
    let plain = normalize_path_no_traversal(path)?;
    if plain.as_str().is_empty() && !normalize_path(path).as_str().is_empty() {
        proof {
            reveal_strlit(".");
            assert("."@ == current_dir());
        }
        return Ok(".".to_owned());
    }
    Ok(plain)
}

/// Whether a path begins with a drive letter.
fn looks_like_windows_path(path: &str) -> (r: bool)
    ensures
        r == drive_path(path@),
{
    if path.unicode_len() < 2 {
        return false;
    }
    let letter = path.get_char(0);
    (('A' <= letter && letter <= 'Z') || ('a' <= letter && letter <= 'z')) && path.get_char(1)
        == ':'
}

/// Whether the path is the directory or below it.
fn lies_within(path: &str, dir: &str) -> (r: bool)
    ensures
        r == is_within(path@, dir@),
{
    let below = text::concat(dir, "/");
    proof {
        reveal_strlit("/");
        assert(below@ == dir@.push('/'));
    }
    text::same_text(path, dir) || text::starts_with(path, below.as_str())
}

/// Whether an allowed root admits a working directory.
pub fn cwd_matches_allowed(cwd: &str, allowed_root: &str) -> (r: bool)
    ensures
        r == admits(allowed_root@, cwd@),
        r ==> matching_form(allowed_root@) is Ok && matching_form(cwd@) is Ok && ({
            let root = matching_form(allowed_root@)->Ok_0;
            let form = matching_form(cwd@)->Ok_0;
            ||| root == seq!['/']
            ||| root == seq!['.'] && form[0] != '/' && !path_meaning::on_a_drive(form)
            ||| path_meaning::goes_on_from_in_any_case(form, root)
        }),
{
    proof {
        path_meaning::law_admitted_by_characters(allowed_root@, cwd@);
    }
    let cwd = match to_matching_form(cwd) {
        Ok(c) => c,
        Err(_) => {
            return false;
        },
    };
    let allowed = match to_matching_form(allowed_root) {
        Ok(a) => a,
        Err(_) => {
            return false;
        },
    };
    if allowed.as_str().is_empty() || cwd.as_str().is_empty() {
        return false;
    }
    proof {
        reveal_strlit(".");
        reveal_strlit("/");
        assert("."@ == current_dir());
        assert("/"@ == seq!['/']);
    }
    if text::same_text(allowed.as_str(), ".") && cwd.as_str().get_char(0) != '/'
        && !looks_like_windows_path(cwd.as_str()) {
        return true;
    }
    if text::same_text(allowed.as_str(), "/") {
        return true;
    }
    if looks_like_windows_path(cwd.as_str()) || looks_like_windows_path(allowed.as_str()) {
        let cwd_folded = text::to_ascii_lower(cwd.as_str());
        let allowed_folded = text::to_ascii_lower(allowed.as_str());
        lies_within(cwd_folded.as_str(), allowed_folded.as_str())
    } else {
        lies_within(cwd.as_str(), allowed.as_str())
    }
}

/// Check cwd against allowlist. Empty allowlist denies all paths (deny-by-default).
/// Subdirectories of an allowed root are permitted. Wildcard `*` allows any cwd
/// that has no `..` component. A root may match the cwd as written or its normal form.
pub fn check_cwd_policy(cwd: &str, allowed: &[String]) -> (r: Result<(), PolicyError>)
    ensures
        error::verdict(r) == cwd_verdict(cwd@, text::texts(allowed@)),
{
    reject_path_traversal(cwd)?;
    if allowlist_has_wildcard(allowed) {
        return Ok(());
    }
    if allowed.len() == 0 {
        return Err(PolicyError::CwdNotAllowed { cwd: normalize_path(cwd) });
    }
    let ghost roots = text::texts(allowed@);
    let plain = normalize_path_no_traversal(cwd)?;
    for i in 0..allowed.len()
        invariant
            roots == text::texts(allowed@),
            roots.len() > 0,
            !traverses(cwd@),
            normal_form(cwd@) == Ok::<Seq<char>, PolicyErrorView>(plain@),
            forall|j: int| 0 <= j < i ==> !admits_either(#[trigger] roots[j], cwd@, plain@),
    {
        assert(roots[i as int] == allowed@[i as int]@);
        if cwd_matches_allowed(cwd, allowed[i].as_str()) || cwd_matches_allowed(
            plain.as_str(),
            allowed[i].as_str(),
        ) {
            assert(admits_either(roots[i as int], cwd@, plain@));
            return Ok(());
        }
    }
    Err(PolicyError::CwdNotAllowed { cwd: plain })
}

} // verus!
