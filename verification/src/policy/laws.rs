//! What holds of the policy rules as a whole.

use super::env;
use super::error::PolicyErrorView;
use super::path;
use super::path_laws;
use super::shell;
use crate::text;
use crate::text_facts;
use vstd::prelude::*;

verus! {

// ---------------------------------------------------------------------------
// Running binaries
// ---------------------------------------------------------------------------

/// Arguments pass exactly if there are any and none holds a shell metacharacter.
pub proof fn law_argv_accepted(argv: Seq<Seq<char>>)
    ensures
        shell::argv_verdict(argv) is Ok <==> argv.len() > 0 && forall|i: int|
            0 <= i < argv.len() ==> !shell::tainted(#[trigger] argv[i]),
{
    if exists|i: int| 0 <= i < argv.len() && shell::tainted(#[trigger] argv[i]) {
        let i = choose|i: int| 0 <= i < argv.len() && shell::tainted(#[trigger] argv[i]);
        lemma_first_tainted(argv, i);
    }
}

/// If some argument up to `i` is tainted, there is a first one.
proof fn lemma_first_tainted(argv: Seq<Seq<char>>, i: int)
    requires
        0 <= i < argv.len(),
        shell::tainted(argv[i]),
    ensures
        exists|j: int| shell::first_tainted(argv, j),
    decreases i,
{
    if forall|j: int| 0 <= j < i ==> !shell::tainted(#[trigger] argv[j]) {
        assert(shell::first_tainted(argv, i));
    } else {
        let j = choose|j: int| 0 <= j < i && shell::tainted(#[trigger] argv[j]);
        lemma_first_tainted(argv, j);
    }
}

/// What may run elevated is what may run, once elevation is enabled.
pub proof fn law_elevation_needs_the_switch(
    argv: Seq<Seq<char>>,
    enabled: bool,
    allowed: Seq<Seq<char>>,
)
    ensures
        shell::elevation_verdict(argv, enabled, allowed) is Ok <==> enabled
            && shell::shell_verdict(argv, allowed) is Ok,
{
}

/// An empty allowlist lets nothing run, elevated or not. An argument vector that
/// is sound in itself is told so.
pub proof fn law_shell_denies_by_default(argv: Seq<Seq<char>>, enabled: bool)
    ensures
        shell::shell_verdict(argv, Seq::empty()) is Err,
        shell::elevation_verdict(argv, enabled, Seq::empty()) is Err,
        shell::argv_verdict(argv) is Ok && shell::wrapper_verdict(argv) is Ok ==> {
            &&& shell::shell_verdict(argv, Seq::empty()) == Err::<(), _>(PolicyErrorView::DenyAll)
            &&& shell::elevation_verdict(argv, true, Seq::empty()) == Err::<(), _>(
                PolicyErrorView::ElevationDenyAll,
            )
        },
{
}

/// The wildcard lets any binary run but elevation wrappers, with any arguments but
/// those that hold metacharacters.
pub proof fn law_shell_wildcard(argv: Seq<Seq<char>>, allowed: Seq<Seq<char>>)
    requires
        shell::wildcard(allowed),
    ensures
        shell::shell_verdict(argv, allowed) is Ok <==> shell::argv_verdict(argv) is Ok
            && shell::wrapper_verdict(argv) is Ok,
{
}

/// No allowlist lets an elevation wrapper run, elevated or not.
pub proof fn law_wrapper_never_runs(argv: Seq<Seq<char>>, enabled: bool, allowed: Seq<Seq<char>>)
    requires
        shell::wrapper_verdict(argv) is Err,
    ensures
        shell::shell_verdict(argv, allowed) is Err,
        shell::elevation_verdict(argv, enabled, allowed) is Err,
{
}

/// A wrapper is recognised in any directory, in any case of its ASCII letters and
/// with white space around it.
pub proof fn law_wrapper_recognised(
    argv: Seq<Seq<char>>,
    i: int,
    dir: Seq<char>,
    name: Seq<char>,
)
    requires
        argv.len() > 0,
        0 <= i < shell::ELEVATION_WRAPPER_BINARIES@.len(),
        vstd::utf8::is_ascii_chars(text::trimmed(argv[0])),
        text::ascii_lowered(name) == shell::ELEVATION_WRAPPER_BINARIES@[i]@,
        text::trimmed(argv[0]) == name || text::trimmed(argv[0]) == dir.push('/') + name,
    ensures
        shell::wrapper_verdict(argv) == Err::<(), _>(
            PolicyErrorView::ElevationWrapperForbidden { binary: argv[0] },
        ),
{
    let bin = text::trimmed(argv[0]);
    let wrapper = shell::ELEVATION_WRAPPER_BINARIES@[i]@;
    if bin != name {
        let low = text::ascii_lowered(bin);
        assert(low == text::ascii_lowered(dir) + (seq!['/'] + wrapper)) by {
            assert(low.len() == dir.len() + 1 + name.len());
            assert forall|k: int| 0 <= k < name.len() implies low[dir.len() + 1 + k]
                == wrapper[k] by {
                assert(bin[dir.len() + 1 + k] == name[k]);
                assert(wrapper[k] == text::ascii_lowered(name)[k]);
            }
        }
        assert((seq!['/'] + wrapper).is_suffix_of(low));
    }
    assert(shell::is_wrapper(text::lowered(bin)));
}

/// White space around a binary or an allowlist entry makes no difference.
pub proof fn law_binary_spacing(binary: Seq<char>, allowed: Seq<Seq<char>>)
    ensures
        shell::binary_listed(text::trimmed(binary), allowed) == shell::binary_listed(
            binary,
            allowed,
        ),
        shell::binary_listed(
            binary,
            Seq::new(allowed.len(), |i: int| text::trimmed(allowed[i])),
        ) == shell::binary_listed(binary, allowed),
{
    text_facts::law_trim_once(binary);
    let bare = Seq::new(allowed.len(), |i: int| text::trimmed(allowed[i]));
    assert forall|i: int| 0 <= i < allowed.len() implies text::trimmed(#[trigger] bare[i])
        == text::trimmed(allowed[i]) by {
        text_facts::law_trim_once(allowed[i]);
    }
    if shell::binary_listed(binary, allowed) {
        let i = choose|i: int|
            0 <= i < allowed.len() && text::trimmed(#[trigger] allowed[i]) == text::trimmed(binary);
        assert(text::trimmed(bare[i]) == text::trimmed(binary));
    }
    if shell::binary_listed(binary, bare) {
        let i = choose|i: int|
            0 <= i < bare.len() && text::trimmed(#[trigger] bare[i]) == text::trimmed(binary);
        assert(text::trimmed(allowed[i]) == text::trimmed(binary));
    }
}

/// A longer allowlist never takes a permission away.
pub proof fn law_allowlist_grows(
    argv: Seq<Seq<char>>,
    enabled: bool,
    cwd: Seq<char>,
    key: Seq<char>,
    allowed: Seq<Seq<char>>,
    more: Seq<Seq<char>>,
)
    requires
        forall|entry: Seq<char>| #[trigger] allowed.contains(entry) ==> more.contains(entry),
    ensures
        shell::shell_verdict(argv, allowed) is Ok ==> shell::shell_verdict(argv, more) is Ok,
        shell::elevation_verdict(argv, enabled, allowed) is Ok ==> shell::elevation_verdict(
            argv,
            enabled,
            more,
        ) is Ok,
        path::cwd_verdict(cwd, allowed) is Ok ==> path::cwd_verdict(cwd, more) is Ok,
        env::key_refusal(key, allowed) is None ==> env::key_refusal(key, more) is None,
{
    assert forall|i: int| 0 <= i < allowed.len() implies more.contains(#[trigger] allowed[i]) by {
        assert(allowed.contains(allowed[i]));
    }
    if argv.len() > 0 && shell::binary_listed(argv[0], allowed) {
        let i = choose|i: int|
            0 <= i < allowed.len() && text::trimmed(#[trigger] allowed[i]) == text::trimmed(
                argv[0],
            );
        assert(more.contains(allowed[i]));
        let j = choose|j: int| 0 <= j < more.len() && more[j] == allowed[i];
        assert(text::trimmed(more[j]) == text::trimmed(argv[0]));
    }
    if path::cwd_verdict(cwd, allowed) is Ok && !shell::wildcard(allowed) {
        let c = path::normal_form(cwd)->Ok_0;
        let i = choose|i: int|
            0 <= i < allowed.len() && path::admits_either(#[trigger] allowed[i], cwd, c);
        assert(more.contains(allowed[i]));
        let j = choose|j: int| 0 <= j < more.len() && more[j] == allowed[i];
        assert(path::admits_either(more[j], cwd, c));
    }
}

// ---------------------------------------------------------------------------
// Environment variables
// ---------------------------------------------------------------------------

/// A dangerous variable is never injected, whatever the allowlist.
pub proof fn law_dangerous_key_blocked(key: Seq<char>, allowed: Seq<Seq<char>>)
    requires
        env::dangerous(key),
    ensures
        env::key_refusal(key, allowed) == Some(PolicyErrorView::DangerousEnv { key }),
{
}

/// The case of ASCII letters does not hide a dangerous variable.
pub proof fn law_dangerous_in_any_case(key: Seq<char>, other: Seq<char>)
    requires
        text::ascii_uppered(key) == text::ascii_uppered(other),
    ensures
        env::dangerous(key) == env::dangerous(other),
{
}

/// An empty allowlist lets no variable through.
pub proof fn law_env_denies_by_default(key: Seq<char>)
    ensures
        env::key_refusal(key, Seq::empty()) is Some,
{
}

/// The wildcard lets every variable through but the dangerous ones.
pub proof fn law_env_wildcard(key: Seq<char>, allowed: Seq<Seq<char>>)
    requires
        shell::wildcard(allowed),
    ensures
        env::key_refusal(key, allowed) is None <==> !env::dangerous(key),
{
}

// ---------------------------------------------------------------------------
// Working directories
// ---------------------------------------------------------------------------

/// A path with a `..` component is refused, whatever the allowlist.
pub proof fn law_traversal_refused(cwd: Seq<char>, root: Seq<char>, allowed: Seq<Seq<char>>)
    requires
        path::traverses(cwd),
    ensures
        path::cwd_verdict(cwd, allowed) == Err::<(), _>(
            PolicyErrorView::PathTraversal { path: cwd },
        ),
        !path::admits(root, cwd),
        !path::admits(cwd, root),
{
}

/// An empty allowlist lets no directory be worked in.
pub proof fn law_cwd_denies_by_default(cwd: Seq<char>)
    ensures
        path::cwd_verdict(cwd, Seq::empty()) is Err,
{
}

/// The wildcard lets any directory be worked in that has no `..` component.
pub proof fn law_cwd_wildcard(cwd: Seq<char>, allowed: Seq<Seq<char>>)
    requires
        shell::wildcard(allowed),
    ensures
        path::cwd_verdict(cwd, allowed) is Ok <==> !path::traverses(cwd),
{
}

/// A root admits itself.
pub proof fn law_root_admits_itself(root: Seq<char>)
    requires
        path::matching_form(root) is Ok,
        path::matching_form(root)->Ok_0.len() > 0,
    ensures
        path::admits(root, root),
{
}

/// Whether a matching form is a directory or below it. What is below `.` is every
/// relative path.
pub open spec fn lies_below(path: Seq<char>, dir: Seq<char>) -> bool {
    path::is_within(path, dir) || (dir == path::current_dir() && path::is_relative(path))
}

/// The root `.` admits the relative paths and no others.
pub proof fn law_current_dir_admits_relative(root: Seq<char>, cwd: Seq<char>)
    requires
        path::matching_form(root) == Ok::<Seq<char>, PolicyErrorView>(path::current_dir()),
        path::matching_form(cwd) is Ok,
    ensures
        path::admits(root, cwd) <==> path::is_relative(path::matching_form(cwd)->Ok_0),
{
    let c = path::matching_form(cwd)->Ok_0;
    let dot = path::current_dir();
    let low = text::ascii_lowered(c);
    assert(dot[0] != seq!['/'][0]);
    assert(text::ascii_lowered(dot) == dot);
    if dot.push('/').is_prefix_of(low) {
        assert(low.take(2)[0] == dot.push('/')[0]);
        assert(low[0] == text::ascii_lower(c[0]));
    }
    if dot.push('/').is_prefix_of(c) {
        assert(c.take(2)[0] == dot.push('/')[0]);
    }
}

/// Subdirectories of an admitted directory are admitted, by their matching forms.
pub proof fn law_subdirectories_admitted(root: Seq<char>, cwd: Seq<char>, below: Seq<char>)
    requires
        path::admits(root, cwd),
        path::matching_form(below) is Ok,
        lies_below(path::matching_form(below)->Ok_0, path::matching_form(cwd)->Ok_0),
    ensures
        path::admits(root, below),
{
    let r = path::matching_form(root)->Ok_0;
    let c = path::matching_form(cwd)->Ok_0;
    let b = path::matching_form(below)->Ok_0;
    if !path::is_within(b, c) {
        lemma_what_admits_dot(r);
    } else if b != c && r != seq!['/'] {
        let cl = text::ascii_lowered(c);
        let bl = text::ascii_lowered(b);
        let rl = text::ascii_lowered(r);
        assert(b.take(c.len() as int + 1) == c.push('/'));
        assert forall|i: int| 0 <= i < c.len() implies b[i] == c[i] by {
            assert(b.take(c.len() as int + 1)[i] == c.push('/')[i]);
        }
        assert(b[c.len() as int] == '/') by {
            assert(b.take(c.len() as int + 1)[c.len() as int] == '/');
        }
        assert(bl.take(cl.len() as int + 1) == cl.push('/'));
        if path::is_within(c, r) {
            lemma_within_transitive(b, c, r);
        }
        if path::is_within(cl, rl) {
            lemma_within_transitive(bl, cl, rl);
        }
        if path::drive_path(c) || path::drive_path(r) {
            assert(path::is_within(bl, rl));
            if path::drive_path(c) {
                assert(path::drive_path(b));
            }
        } else if path::drive_path(b) {
            lemma_within_lowered(b, r);
        }
    }
}

/// Only `.` itself and `/` admit `.`.
proof fn lemma_what_admits_dot(r: Seq<char>)
    requires
        path::root_admits(r, path::current_dir()),
    ensures
        r == path::current_dir() || r == seq!['/'],
{
    let dot = path::current_dir();
    assert(text::ascii_lowered(dot) == dot);
    let low = text::ascii_lowered(r);
    if low == dot {
        assert(low[0] == text::ascii_lower(r[0]));
        assert(r == dot);
    }
}

/// Being within is transitive.
proof fn lemma_within_transitive(b: Seq<char>, c: Seq<char>, r: Seq<char>)
    requires
        path::is_within(b, c),
        path::is_within(c, r),
    ensures
        path::is_within(b, r),
{
    if b != c && c != r {
        let n = r.len() + 1;
        assert(c.take(n as int) == r.push('/'));
        assert(b.take(c.len() as int + 1) == c.push('/'));
        assert forall|i: int| 0 <= i < n implies b[i] == r.push('/')[i] by {
            assert(c.take(n as int)[i] == c[i]);
            assert(b.take(c.len() as int + 1)[i] == c.push('/')[i]);
        }
        assert(b.take(n as int) == r.push('/'));
    }
}

/// What is within stays so in lower case.
proof fn lemma_within_lowered(c: Seq<char>, r: Seq<char>)
    requires
        path::is_within(c, r),
    ensures
        path::is_within(text::ascii_lowered(c), text::ascii_lowered(r)),
{
    if c != r {
        let n = r.len() + 1;
        assert(c.take(n as int) == r.push('/'));
        let cl = text::ascii_lowered(c);
        let rl = text::ascii_lowered(r);
        assert forall|i: int| 0 <= i < n implies cl[i] == rl.push('/')[i] by {
            assert(c.take(n as int)[i] == c[i]);
        }
        assert(cl.take(n as int) == rl.push('/'));
    }
}

/// A directory whose name merely begins with the root's is not admitted. The roots `/`
/// and `.` admit more than what begins with their names.
pub proof fn law_name_prefix_not_admitted(r: Seq<char>, suffix: Seq<char>)
    requires
        suffix.len() > 0,
        suffix[0] != '/',
        r != seq!['/'],
        r != path::current_dir(),
    ensures
        !path::root_admits(r, r + suffix),
{
    let c = r + suffix;
    let cl = text::ascii_lowered(c);
    let rl = text::ascii_lowered(r);
    assert(c.len() > r.len());
    if r.push('/').is_prefix_of(c) {
        assert(c.take(r.len() as int + 1)[r.len() as int] == r.push('/')[r.len() as int]);
    }
    if rl.push('/').is_prefix_of(cl) {
        assert(cl.take(r.len() as int + 1)[r.len() as int] == rl.push('/')[r.len() as int]);
        assert(cl[r.len() as int] == text::ascii_lower(suffix[0]));
    }
}

/// Whether the normal form of a path, if it has one, is its own normal form: no
/// white space has come to stand at its ends, nor `UNC/` in front.
pub open spec fn settles(p: Seq<char>) -> bool {
    path::normal_form(p) matches Ok(n) ==> text::trimmed(n) == n && !seq![
        'U',
        'N',
        'C',
        '/',
    ].is_prefix_of(n)
}

/// What some allowed root admits may be worked in.
pub proof fn law_admitted_is_permitted(cwd: Seq<char>, root: Seq<char>, allowed: Seq<Seq<char>>)
    requires
        allowed.contains(root),
        path::admits(root, cwd),
    ensures
        path::cwd_verdict(cwd, allowed) is Ok,
{
    let i = choose|i: int| 0 <= i < allowed.len() && allowed[i] == root;
    assert(path::admits_either(allowed[i], cwd, path::normal_form(cwd)->Ok_0));
}

/// An allowed root and what is below it may be worked in.
pub proof fn law_below_a_root_permitted(cwd: Seq<char>, root: Seq<char>, allowed: Seq<Seq<char>>)
    requires
        allowed.contains(root),
        path::matching_form(root) is Ok,
        path::matching_form(root)->Ok_0.len() > 0,
        path::matching_form(cwd) is Ok,
        lies_below(path::matching_form(cwd)->Ok_0, path::matching_form(root)->Ok_0),
    ensures
        path::cwd_verdict(cwd, allowed) is Ok,
{
    law_root_admits_itself(root);
    law_subdirectories_admitted(root, root, cwd);
    law_admitted_is_permitted(cwd, root, allowed);
}

/// Under an allowlist without wildcard a directory may be worked in exactly if some
/// root on it admits the directory.
pub proof fn law_cwd_needs_a_root(cwd: Seq<char>, allowed: Seq<Seq<char>>)
    requires
        settles(cwd),
        !shell::wildcard(allowed),
    ensures
        path::cwd_verdict(cwd, allowed) is Ok <==> exists|i: int|
            0 <= i < allowed.len() && path::admits(#[trigger] allowed[i], cwd),
{
    if exists|i: int| 0 <= i < allowed.len() && path::admits(#[trigger] allowed[i], cwd) {
        let i = choose|i: int| 0 <= i < allowed.len() && path::admits(#[trigger] allowed[i], cwd);
        law_admitted_is_permitted(cwd, allowed[i], allowed);
    }
    if path::cwd_verdict(cwd, allowed) is Ok {
        path_laws::law_normal_form_is_final(cwd);
        let c = path::normal_form(cwd)->Ok_0;
        let i = choose|i: int|
            0 <= i < allowed.len() && path::admits_either(#[trigger] allowed[i], cwd, c);
        assert(path::admits(allowed[i], cwd));
    }
}

/// Where a directory may be worked in, so may those below it.
pub proof fn law_subdirectories_permitted(
    cwd: Seq<char>,
    below: Seq<char>,
    allowed: Seq<Seq<char>>,
)
    requires
        settles(cwd),
        path::matching_form(cwd) is Ok,
        path::matching_form(below) is Ok,
        lies_below(path::matching_form(below)->Ok_0, path::matching_form(cwd)->Ok_0),
        path::cwd_verdict(cwd, allowed) is Ok,
    ensures
        path::cwd_verdict(below, allowed) is Ok,
{
    if !shell::wildcard(allowed) {
        law_cwd_needs_a_root(cwd, allowed);
        let i = choose|i: int| 0 <= i < allowed.len() && path::admits(#[trigger] allowed[i], cwd);
        law_subdirectories_admitted(allowed[i], cwd, below);
        law_admitted_is_permitted(below, allowed[i], allowed);
    }
}

} // verus!
