//! Which argument vectors may run, and which may run elevated.

use super::error;
use super::error::{PolicyError, PolicyErrorView};
use super::meaning;
use crate::text;
use vstd::prelude::*;

verus! {

/// Allowlist entry that matches any value.
pub const ALLOWLIST_WILDCARD: &'static str = "*";

/// Characters that a shell would act upon.
pub const SHELL_METACHAR: [char; 9] = [';', '|', '&', '`', '$', '>', '<', '\n', '\r'];

/// Binaries that must not appear as argv[0]; use shell.run `elevated: true` instead.
pub const ELEVATION_WRAPPER_BINARIES: [&'static str; 27] = [
    "/usr/bin/sudo",
    "/bin/sudo",
    "/usr/sbin/sudo",
    "/usr/bin/pkexec",
    "/bin/pkexec",
    "/usr/bin/su",
    "/bin/su",
    "/usr/bin/doas",
    "/bin/doas",
    "/usr/sbin/runuser",
    "/usr/bin/runuser",
    "/usr/bin/sudoedit",
    "/bin/sudoedit",
    "/usr/bin/machinectl",
    "/bin/machinectl",
    "/usr/bin/systemd-run",
    "/bin/systemd-run",
    "sudo",
    "pkexec",
    "su",
    "doas",
    "runuser",
    "sudoedit",
    "machinectl",
    "systemd-run",
    "runas",
    "runas.exe",
];

// ---------------------------------------------------------------------------
// The rules
// ---------------------------------------------------------------------------

/// Whether the argument holds a shell metacharacter.
pub open spec fn tainted(arg: Seq<char>) -> bool {
    exists|i: int| 0 <= i < arg.len() && SHELL_METACHAR@.contains(#[trigger] arg[i])
}

/// Whether the argument at `i` is the first that holds a shell metacharacter.
pub open spec fn first_tainted(argv: Seq<Seq<char>>, i: int) -> bool {
    &&& 0 <= i < argv.len()
    &&& tainted(argv[i])
    &&& forall|j: int| 0 <= j < i ==> !tainted(#[trigger] argv[j])
}

/// The verdict on the arguments' characters: an empty vector and a metacharacter
/// are refused, and the first tainted argument is the one reported.
pub open spec fn argv_verdict(argv: Seq<Seq<char>>) -> Result<(), PolicyErrorView> {
    if argv.len() == 0 {
        Err(PolicyErrorView::EmptyArgv)
    } else if exists|i: int| first_tainted(argv, i) {
        Err(PolicyErrorView::Metacharacter { arg: argv[choose|i: int| first_tainted(argv, i)] })
    } else {
        Ok(())
    }
}

/// Whether a lower-case binary name is an elevation wrapper: one of the known
/// names, bare or at the end of a path.
pub open spec fn is_wrapper(name: Seq<char>) -> bool {
    exists|i: int|
        0 <= i < ELEVATION_WRAPPER_BINARIES@.len() && {
            let wrapper = (#[trigger] ELEVATION_WRAPPER_BINARIES@[i])@;
            name == wrapper || (seq!['/'] + wrapper).is_suffix_of(name)
        }
}

/// The verdict on argv[0] as a possible elevation wrapper.
pub open spec fn wrapper_verdict(argv: Seq<Seq<char>>) -> Result<(), PolicyErrorView> {
    if argv.len() > 0 && is_wrapper(text::lowered(text::trimmed(argv[0]))) {
        Err(PolicyErrorView::ElevationWrapperForbidden { binary: argv[0] })
    } else {
        Ok(())
    }
}

/// Whether the allowlist holds the wildcard entry.
pub open spec fn wildcard(allowed: Seq<Seq<char>>) -> bool {
    allowed.contains(ALLOWLIST_WILDCARD@)
}

/// Whether an allowlist entry names the binary, white space around either set aside.
pub open spec fn binary_listed(binary: Seq<char>, allowed: Seq<Seq<char>>) -> bool {
    exists|i: int|
        0 <= i < allowed.len() && text::trimmed(#[trigger] allowed[i]) == text::trimmed(binary)
}

/// The verdict on running an argument vector under an allowlist of binaries.
pub open spec fn shell_verdict(argv: Seq<Seq<char>>, allowed: Seq<Seq<char>>) -> Result<
    (),
    PolicyErrorView,
> {
    if argv_verdict(argv) is Err {
        argv_verdict(argv)
    } else if wrapper_verdict(argv) is Err {
        wrapper_verdict(argv)
    } else if wildcard(allowed) || binary_listed(argv[0], allowed) {
        Ok(())
    } else if allowed.len() == 0 {
        Err(PolicyErrorView::DenyAll)
    } else {
        Err(PolicyErrorView::BinaryNotAllowed { binary: text::trimmed(argv[0]) })
    }
}

/// The verdict on running an argument vector elevated.
pub open spec fn elevation_verdict(
    argv: Seq<Seq<char>>,
    enabled: bool,
    allowed: Seq<Seq<char>>,
) -> Result<(), PolicyErrorView> {
    if argv_verdict(argv) is Err {
        argv_verdict(argv)
    } else if wrapper_verdict(argv) is Err {
        wrapper_verdict(argv)
    } else if !enabled {
        Err(PolicyErrorView::ElevationDisabled)
    } else if wildcard(allowed) || binary_listed(argv[0], allowed) {
        Ok(())
    } else if allowed.len() == 0 {
        Err(PolicyErrorView::ElevationDenyAll)
    } else {
        Err(PolicyErrorView::ElevationBinaryNotAllowed { binary: text::trimmed(argv[0]) })
    }
}

// ---------------------------------------------------------------------------
// The checks
// ---------------------------------------------------------------------------

/// Canonicalize argv[0] for shell policy matching.
pub fn canonicalize_binary(path: &str) -> (r: String)
    ensures
        r@ == text::trimmed(path@),
{
    text::trim(path).to_owned()
}

/// Whether the argument holds a shell metacharacter.
fn has_metachar(arg: &str) -> (r: bool)
    ensures
        r == tainted(arg@),
{
    let chars = text::chars_of(arg);
    for i in 0..chars.len()
        invariant
            chars@ == arg@,
            forall|j: int| 0 <= j < i ==> !SHELL_METACHAR@.contains(#[trigger] arg@[j]),
    {
        if text::is_one_of(chars[i], &SHELL_METACHAR) {
            assert(SHELL_METACHAR@.contains(arg@[i as int]));
            return true;
        }
    }
    false
}

/// Reject argv containing shell metacharacters.
pub fn validate_argv(argv: &[String]) -> (r: Result<(), PolicyError>)
    ensures
        error::verdict(r) == argv_verdict(text::texts(argv@)),
        r is Ok <==> argv@.len() > 0 && forall|i: int, c: char|
            0 <= i < argv@.len() && meaning::acts_on_shell(c) ==> !(#[trigger] argv@[i]@.contains(
                c,
            )),
{
    let ghost args = text::texts(argv@);
    if argv.len() == 0 {
        return Err(PolicyError::EmptyArgv);
    }
    for i in 0..argv.len()
        invariant
            args == text::texts(argv@),
            argv@.len() > 0,
            forall|j: int| 0 <= j < i ==> !tainted(#[trigger] args[j]),
    {
        if has_metachar(argv[i].as_str()) {
            proof {
                assert(first_tainted(args, i as int));
                let k = choose|k: int| first_tainted(args, k);
                assert(first_tainted(args, k));
                assert(k == i);
                lemma_arguments_sound(argv@);
            }
            return Err(PolicyError::Metacharacter { arg: argv[i].clone() });
        }
    }
    assert(!exists|i: int| first_tainted(args, i));
    proof {
        lemma_arguments_sound(argv@);
    }
    Ok(())
}

/// Arguments are sound exactly if there is one and none of them holds a character that
/// a shell acts upon.
proof fn lemma_arguments_sound(argv: Seq<String>)
    ensures
        argv_verdict(text::texts(argv)) is Ok <==> argv.len() > 0 && forall|i: int, c: char|
            0 <= i < argv.len() && meaning::acts_on_shell(c) ==> !(#[trigger] argv[i]@.contains(c)),
{
    let args = text::texts(argv);
    meaning::law_no_metacharacter_passes(args);
    assert forall|i: int| 0 <= i < argv.len() implies args[i] == #[trigger] argv[i]@ by {}
    if exists|i: int, c: char|
        0 <= i < argv.len() && meaning::acts_on_shell(c) && #[trigger] argv[i]@.contains(c) {
        let (i, c) = choose|i: int, c: char|
            0 <= i < argv.len() && meaning::acts_on_shell(c) && #[trigger] argv[i]@.contains(c);
        assert(args[i].contains(c));
    }
    if exists|i: int, c: char|
        0 <= i < args.len() && meaning::acts_on_shell(c) && #[trigger] args[i].contains(c) {
        let (i, c) = choose|i: int, c: char|
            0 <= i < args.len() && meaning::acts_on_shell(c) && #[trigger] args[i].contains(c);
        assert(argv[i]@.contains(c));
    }
}

/// Whether the allowlist holds the wildcard entry.
pub fn allowlist_has_wildcard(allowed: &[String]) -> (r: bool)
    ensures
        r == wildcard(text::texts(allowed@)),
{
    text::lists(allowed, ALLOWLIST_WILDCARD)
}

/// Whether a lower-case binary name is an elevation wrapper.
fn names_wrapper(name: &str) -> (r: bool)
    ensures
        r == is_wrapper(name@),
{
    for i in 0..ELEVATION_WRAPPER_BINARIES.len()
        invariant
            forall|j: int|
                0 <= j < i ==> {
                    let wrapper = (#[trigger] ELEVATION_WRAPPER_BINARIES@[j])@;
                    name@ != wrapper && !(seq!['/'] + wrapper).is_suffix_of(name@)
                },
    {
        let wrapper: &str = ELEVATION_WRAPPER_BINARIES[i];
        let at_end = text::concat("/", wrapper);
        proof {
            reveal_strlit("/");
            assert("/"@ == seq!['/']);
        }
        assert(wrapper@ == ELEVATION_WRAPPER_BINARIES@[i as int]@);
        if text::same_text(name, wrapper) || text::ends_with(name, at_end.as_str()) {
            return true;
        }
    }
    false
}

/// Refuse a binary whose lower-case name is an elevation wrapper. `binary` is
/// reported; `name` is what is matched.
pub fn check_wrapper_name(binary: &str, name: &str) -> (r: Result<(), PolicyError>)
    ensures
        error::verdict(r) == if is_wrapper(name@) {
            Err(PolicyErrorView::ElevationWrapperForbidden { binary: binary@ })
        } else {
            Ok::<(), PolicyErrorView>(())
        },
{
    if names_wrapper(name) {
        Err(PolicyError::ElevationWrapperForbidden { binary: binary.to_owned() })
    } else {
        Ok(())
    }
}

/// Reject elevation wrappers in argv[0]; privileged runs must use shell.run `elevated: true`.
pub fn check_elevation_wrapper_denied(argv: &[String]) -> (r: Result<(), PolicyError>)
    ensures
        error::verdict(r) == wrapper_verdict(text::texts(argv@)),
        r is Err <==> argv@.len() > 0 && meaning::ends_in_elevating_name(
            text::lowered(text::trimmed(argv@[0]@)),
        ),
{
    proof {
        meaning::law_wrapper_refused_by_name(text::texts(argv@));
    }
    if argv.len() == 0 {
        return Ok(());
    }
    let name = canonicalize_binary(argv[0].as_str()).to_lowercase();
    check_wrapper_name(argv[0].as_str(), name.as_str())
}

/// Whether an allowlist entry names the binary.
fn allowlist_names(binary: &str, allowed: &[String]) -> (r: bool)
    ensures
        r == binary_listed(binary@, text::texts(allowed@)),
{
    let wanted = canonicalize_binary(binary);
    for i in 0..allowed.len()
        invariant
            wanted@ == text::trimmed(binary@),
            forall|j: int|
                0 <= j < i ==> text::trimmed(#[trigger] text::texts(allowed@)[j]) != text::trimmed(
                    binary@,
                ),
    {
        let entry = canonicalize_binary(allowed[i].as_str());
        assert(text::texts(allowed@)[i as int] == allowed@[i as int]@);
        if entry == wanted {
            return true;
        }
    }
    false
}

/// An allowlist that holds `*` or the binary has an entry that is the one or the other.
proof fn lemma_own_entry(argv: Seq<String>, allowed: Seq<String>)
    ensures
        argv.len() > 0 && (text::texts(allowed).contains(seq!['*']) || meaning::some_entry_is(
            text::texts(allowed),
            text::texts(argv)[0],
        )) ==> exists|i: int|
            0 <= i < allowed.len() && ((#[trigger] allowed[i])@ == seq!['*'] || text::trimmed(
                allowed[i]@,
            ) == text::trimmed(argv[0]@)),
{
    let entries = text::texts(allowed);
    if entries.contains(seq!['*']) {
        let i = choose|i: int| 0 <= i < entries.len() && entries[i] == seq!['*'];
        assert(allowed[i]@ == entries[i]);
    } else if argv.len() > 0 && meaning::some_entry_is(entries, text::texts(argv)[0]) {
        let i = choose|i: int| #![trigger entries[i]]
            0 <= i < entries.len() && text::trimmed(entries[i]) == text::trimmed(
                text::texts(argv)[0],
            );
        assert(allowed[i]@ == entries[i]);
    }
}

/// Validate elevated shell.run against elevation policy primitives.
pub fn check_elevation_policy(
    argv: &[String],
    enabled: bool,
    allowed_binaries: &[String],
) -> (r: Result<(), PolicyError>)
    ensures
        error::verdict(r) == elevation_verdict(
            text::texts(argv@),
            enabled,
            text::texts(allowed_binaries@),
        ),
        r is Ok ==> enabled && argv@.len() > 0 && exists|i: int|
            0 <= i < allowed_binaries@.len() && ((#[trigger] allowed_binaries@[i])@ == seq!['*']
                || text::trimmed(allowed_binaries@[i]@) == text::trimmed(argv@[0]@)),
{
    proof {
        lemma_own_entry(argv@, allowed_binaries@);
        meaning::law_runs_elevated_by_its_own_entry(
            text::texts(argv@),
            enabled,
            text::texts(allowed_binaries@),
        );
    }
    validate_argv(argv)?;
    check_elevation_wrapper_denied(argv)?;
    if !enabled {
        return Err(PolicyError::ElevationDisabled);
    }
    if allowlist_has_wildcard(allowed_binaries) {
        return Ok(());
    }
    if allowed_binaries.len() == 0 {
        return Err(PolicyError::ElevationDenyAll);
    }
    if !allowlist_names(argv[0].as_str(), allowed_binaries) {
        return Err(
            PolicyError::ElevationBinaryNotAllowed {
                binary: canonicalize_binary(argv[0].as_str()),
            },
        );
    }
    Ok(())
}

/// Check argv[0] against allowlist of canonical paths.
pub fn check_shell_policy(argv: &[String], allowed: &[String]) -> (r: Result<(), PolicyError>)
    ensures
        error::verdict(r) == shell_verdict(text::texts(argv@), text::texts(allowed@)),
        r is Ok ==> argv@.len() > 0 && exists|i: int|
            0 <= i < allowed@.len() && ((#[trigger] allowed@[i])@ == seq!['*'] || text::trimmed(
                allowed@[i]@,
            ) == text::trimmed(argv@[0]@)),
{
    proof {
        lemma_own_entry(argv@, allowed@);
        meaning::law_runs_by_its_own_entry(text::texts(argv@), text::texts(allowed@));
    }
    validate_argv(argv)?;
    check_elevation_wrapper_denied(argv)?;
    if allowlist_has_wildcard(allowed) {
        return Ok(());
    }
    if allowed.len() == 0 {
        return Err(PolicyError::DenyAll);
    }
    if !allowlist_names(argv[0].as_str(), allowed) {
        return Err(PolicyError::BinaryNotAllowed { binary: canonicalize_binary(argv[0].as_str()) });
    }
    Ok(())
}

} // verus!
