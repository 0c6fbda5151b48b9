//! What the rules on binaries and environment variables come to, in terms of the
//! characters that callers hand in.

use super::env;
use super::error;
use super::error::{PolicyError, PolicyErrorView};
use super::laws;
use super::shell;
use crate::text;
use vstd::prelude::*;

verus! {

// ---------------------------------------------------------------------------
// Arguments
// ---------------------------------------------------------------------------

/// The characters that a shell acts upon.
pub open spec fn acts_on_shell(c: char) -> bool {
    ||| c == ';'
    ||| c == '|'
    ||| c == '&'
    ||| c == '`'
    ||| c == '$'
    ||| c == '>'
    ||| c == '<'
    ||| c == '\n'
    ||| c == '\r'
}

/// An argument is tainted by any one of those characters, wherever it stands.
proof fn lemma_tainted_by_any(arg: Seq<char>)
    ensures
        shell::tainted(arg) <==> exists|c: char| acts_on_shell(c) && #[trigger] arg.contains(c),
{
    let set = shell::SHELL_METACHAR@;
    assert forall|c: char| #[trigger] set.contains(c) == acts_on_shell(c) by {
        assert(set[0] == ';' && set[1] == '|' && set[2] == '&' && set[3] == '`' && set[4] == '$');
        assert(set[5] == '>' && set[6] == '<' && set[7] == '\n' && set[8] == '\r');
    }
    if shell::tainted(arg) {
        let i = choose|i: int|
            0 <= i < arg.len() && shell::SHELL_METACHAR@.contains(#[trigger] arg[i]);
        assert(arg.contains(arg[i]));
    }
    if exists|c: char| acts_on_shell(c) && #[trigger] arg.contains(c) {
        let c = choose|c: char| acts_on_shell(c) && #[trigger] arg.contains(c);
        let i = choose|i: int| 0 <= i < arg.len() && arg[i] == c;
        assert(set.contains(arg[i]));
    }
}

/// Arguments pass exactly if there is one and none of them holds, anywhere, a
/// character that a shell acts upon.
pub proof fn law_no_metacharacter_passes(argv: Seq<Seq<char>>)
    ensures
        shell::argv_verdict(argv) is Ok <==> argv.len() > 0 && forall|i: int, c: char|
            0 <= i < argv.len() && acts_on_shell(c) ==> !(#[trigger] argv[i].contains(c)),
{
    laws::law_argv_accepted(argv);
    assert forall|i: int| 0 <= i < argv.len() implies shell::tainted(#[trigger] argv[i]) == exists|
        c: char,
    | acts_on_shell(c) && #[trigger] argv[i].contains(c) by {
        lemma_tainted_by_any(argv[i]);
    }
}

/// One such character in one argument is enough to refuse the vector, and nothing
/// about the others makes up for it.
pub proof fn law_metacharacter_refused(argv: Seq<Seq<char>>, i: int, k: int)
    requires
        0 <= i < argv.len(),
        0 <= k < argv[i].len(),
        acts_on_shell(argv[i][k]),
    ensures
        shell::argv_verdict(argv) is Err,
{
    law_no_metacharacter_passes(argv);
    assert(argv[i].contains(argv[i][k]));
}

/// The refusal names the first argument that holds such a character, in full, or
/// says that there are no arguments.
pub proof fn law_argv_refusal_names_first(argv: Seq<Seq<char>>)
    ensures
        argv.len() == 0 <==> shell::argv_verdict(argv) == Err::<(), _>(PolicyErrorView::EmptyArgv),
        argv.len() > 0 && shell::argv_verdict(argv) is Err ==> exists|i: int|
            {
                &&& 0 <= i < argv.len()
                &&& shell::argv_verdict(argv) == Err::<(), _>(
                    PolicyErrorView::Metacharacter { arg: #[trigger] argv[i] },
                )
                &&& exists|c: char| acts_on_shell(c) && #[trigger] argv[i].contains(c)
                &&& forall|j: int, c: char|
                    0 <= j < i && acts_on_shell(c) ==> !(#[trigger] argv[j].contains(c))
            },
{
    if argv.len() > 0 && shell::argv_verdict(argv) is Err {
        let i = choose|i: int| shell::first_tainted(argv, i);
        assert(shell::first_tainted(argv, i));
        lemma_tainted_by_any(argv[i]);
        assert forall|j: int, c: char| 0 <= j < i && acts_on_shell(c) implies !(
        #[trigger] argv[j].contains(c)) by {
            lemma_tainted_by_any(argv[j]);
            assert(!shell::tainted(argv[j]));
        }
        assert(shell::argv_verdict(argv) == Err::<(), _>(
            PolicyErrorView::Metacharacter { arg: argv[i] },
        ));
    }
}

// ---------------------------------------------------------------------------
// Elevation wrappers
// ---------------------------------------------------------------------------

/// The commands that run another one with more rights.
pub open spec fn elevates(name: Seq<char>) -> bool {
    ||| name == "sudo"@
    ||| name == "pkexec"@
    ||| name == "su"@
    ||| name == "doas"@
    ||| name == "runuser"@
    ||| name == "sudoedit"@
    ||| name == "machinectl"@
    ||| name == "systemd-run"@
    ||| name == "runas"@
    ||| name == "runas.exe"@
}

/// Whether the text, or what follows a `/` in it, is the name of such a command. As
/// none of the names holds a `/`, this looks at the last component of a path.
pub open spec fn ends_in_elevating_name(path: Seq<char>) -> bool {
    exists|k: int|
        0 <= k <= path.len() && (k == 0 || path[k - 1] == '/') && elevates(#[trigger] path.skip(k))
}

/// The known paths of `sudo` end in that name.
proof fn lemma_paths_of_sudo()
    ensures
        ends_in_elevating_name("/usr/bin/sudo"@),
        ends_in_elevating_name("/bin/sudo"@),
        ends_in_elevating_name("/usr/sbin/sudo"@),
{
    reveal_strlit("sudo");
    reveal_strlit("/usr/bin/sudo");
    assert("/usr/bin/sudo"@.skip(9) == "sudo"@);
    assert("/usr/bin/sudo"@[8] == '/');
    reveal_strlit("/bin/sudo");
    assert("/bin/sudo"@.skip(5) == "sudo"@);
    assert("/bin/sudo"@[4] == '/');
    reveal_strlit("/usr/sbin/sudo");
    assert("/usr/sbin/sudo"@.skip(10) == "sudo"@);
    assert("/usr/sbin/sudo"@[9] == '/');
}

/// The known paths of `pkexec` end in that name.
proof fn lemma_paths_of_pkexec()
    ensures
        ends_in_elevating_name("/usr/bin/pkexec"@),
        ends_in_elevating_name("/bin/pkexec"@),
{
    reveal_strlit("pkexec");
    reveal_strlit("/usr/bin/pkexec");
    assert("/usr/bin/pkexec"@.skip(9) == "pkexec"@);
    assert("/usr/bin/pkexec"@[8] == '/');
    reveal_strlit("/bin/pkexec");
    assert("/bin/pkexec"@.skip(5) == "pkexec"@);
    assert("/bin/pkexec"@[4] == '/');
}

/// The known paths of `su` end in that name.
proof fn lemma_paths_of_su()
    ensures
        ends_in_elevating_name("/usr/bin/su"@),
        ends_in_elevating_name("/bin/su"@),
{
    reveal_strlit("su");
    reveal_strlit("/usr/bin/su");
    assert("/usr/bin/su"@.skip(9) == "su"@);
    assert("/usr/bin/su"@[8] == '/');
    reveal_strlit("/bin/su");
    assert("/bin/su"@.skip(5) == "su"@);
    assert("/bin/su"@[4] == '/');
}

/// The known paths of `doas` end in that name.
proof fn lemma_paths_of_doas()
    ensures
        ends_in_elevating_name("/usr/bin/doas"@),
        ends_in_elevating_name("/bin/doas"@),
{
    reveal_strlit("doas");
    reveal_strlit("/usr/bin/doas");
    assert("/usr/bin/doas"@.skip(9) == "doas"@);
    assert("/usr/bin/doas"@[8] == '/');
    reveal_strlit("/bin/doas");
    assert("/bin/doas"@.skip(5) == "doas"@);
    assert("/bin/doas"@[4] == '/');
}

/// The known paths of `runuser` end in that name.
proof fn lemma_paths_of_runuser()
    ensures
        ends_in_elevating_name("/usr/sbin/runuser"@),
        ends_in_elevating_name("/usr/bin/runuser"@),
{
    reveal_strlit("runuser");
    reveal_strlit("/usr/sbin/runuser");
    assert("/usr/sbin/runuser"@.skip(10) == "runuser"@);
    assert("/usr/sbin/runuser"@[9] == '/');
    reveal_strlit("/usr/bin/runuser");
    assert("/usr/bin/runuser"@.skip(9) == "runuser"@);
    assert("/usr/bin/runuser"@[8] == '/');
}

/// The known paths of `sudoedit` end in that name.
proof fn lemma_paths_of_sudoedit()
    ensures
        ends_in_elevating_name("/usr/bin/sudoedit"@),
        ends_in_elevating_name("/bin/sudoedit"@),
{
    reveal_strlit("sudoedit");
    reveal_strlit("/usr/bin/sudoedit");
    assert("/usr/bin/sudoedit"@.skip(9) == "sudoedit"@);
    assert("/usr/bin/sudoedit"@[8] == '/');
    reveal_strlit("/bin/sudoedit");
    assert("/bin/sudoedit"@.skip(5) == "sudoedit"@);
    assert("/bin/sudoedit"@[4] == '/');
}

/// The known paths of `machinectl` end in that name.
proof fn lemma_paths_of_machinectl()
    ensures
        ends_in_elevating_name("/usr/bin/machinectl"@),
        ends_in_elevating_name("/bin/machinectl"@),
{
    reveal_strlit("machinectl");
    reveal_strlit("/usr/bin/machinectl");
    assert("/usr/bin/machinectl"@.skip(9) == "machinectl"@);
    assert("/usr/bin/machinectl"@[8] == '/');
    reveal_strlit("/bin/machinectl");
    assert("/bin/machinectl"@.skip(5) == "machinectl"@);
    assert("/bin/machinectl"@[4] == '/');
}

/// The known paths of `systemd-run` end in that name.
proof fn lemma_paths_of_systemd_run()
    ensures
        ends_in_elevating_name("/usr/bin/systemd-run"@),
        ends_in_elevating_name("/bin/systemd-run"@),
{
    reveal_strlit("systemd-run");
    reveal_strlit("/usr/bin/systemd-run");
    assert("/usr/bin/systemd-run"@.skip(9) == "systemd-run"@);
    assert("/usr/bin/systemd-run"@[8] == '/');
    reveal_strlit("/bin/systemd-run");
    assert("/bin/systemd-run"@.skip(5) == "systemd-run"@);
    assert("/bin/systemd-run"@[4] == '/');
}

/// Every known wrapper ends in an elevating name.
proof fn lemma_known_wrapper(i: int)
    requires
        0 <= i < shell::ELEVATION_WRAPPER_BINARIES@.len(),
    ensures
        ends_in_elevating_name(shell::ELEVATION_WRAPPER_BINARIES@[i]@),
{
    lemma_paths_of_sudo();
    lemma_paths_of_pkexec();
    lemma_paths_of_su();
    lemma_paths_of_doas();
    lemma_paths_of_runuser();
    lemma_paths_of_sudoedit();
    lemma_paths_of_machinectl();
    lemma_paths_of_systemd_run();
    let known = shell::ELEVATION_WRAPPER_BINARIES@[i]@;
    if i >= 17 {
        assert(known.skip(0) == known);
        assert(elevates(known.skip(0)));
    }
}

/// Every elevating name is a known wrapper.
proof fn lemma_name_is_known(name: Seq<char>)
    requires
        elevates(name),
    ensures
        exists|i: int|
            0 <= i < shell::ELEVATION_WRAPPER_BINARIES@.len() && (
            #[trigger] shell::ELEVATION_WRAPPER_BINARIES@[i])@ == name,
{
    assert(shell::ELEVATION_WRAPPER_BINARIES@[17]@ == "sudo"@);
    assert(shell::ELEVATION_WRAPPER_BINARIES@[18]@ == "pkexec"@);
    assert(shell::ELEVATION_WRAPPER_BINARIES@[19]@ == "su"@);
    assert(shell::ELEVATION_WRAPPER_BINARIES@[20]@ == "doas"@);
    assert(shell::ELEVATION_WRAPPER_BINARIES@[21]@ == "runuser"@);
    assert(shell::ELEVATION_WRAPPER_BINARIES@[22]@ == "sudoedit"@);
    assert(shell::ELEVATION_WRAPPER_BINARIES@[23]@ == "machinectl"@);
    assert(shell::ELEVATION_WRAPPER_BINARIES@[24]@ == "systemd-run"@);
    assert(shell::ELEVATION_WRAPPER_BINARIES@[25]@ == "runas"@);
    assert(shell::ELEVATION_WRAPPER_BINARIES@[26]@ == "runas.exe"@);
}

/// A lower-case name is taken for a wrapper exactly if it, or what follows a `/` in
/// it, is the name of an elevating command: neither more nor less of it.
pub proof fn law_wrapper_by_last_component(name: Seq<char>)
    ensures
        shell::is_wrapper(name) <==> ends_in_elevating_name(name),
{
    if shell::is_wrapper(name) {
        let i = choose|i: int|
            0 <= i < shell::ELEVATION_WRAPPER_BINARIES@.len() && {
                let wrapper = (#[trigger] shell::ELEVATION_WRAPPER_BINARIES@[i])@;
                name == wrapper || (seq!['/'] + wrapper).is_suffix_of(name)
            };
        let wrapper = shell::ELEVATION_WRAPPER_BINARIES@[i]@;
        lemma_known_wrapper(i);
        let k = choose|k: int|
            0 <= k <= wrapper.len() && (k == 0 || wrapper[k - 1] == '/') && elevates(
                #[trigger] wrapper.skip(k),
            );
        if name != wrapper {
            let at = name.len() - wrapper.len();
            let tail = name.subrange(at - 1, name.len() as int);
            assert(tail == seq!['/'] + wrapper);
            assert(name[at - 1] == tail[0]);
            assert forall|x: int| 0 <= x < wrapper.len() implies name[at + x] == wrapper[x] by {
                assert(tail[x + 1] == wrapper[x]);
            }
            assert(name.skip(at + k) == wrapper.skip(k));
            assert(elevates(name.skip(at + k)));
        }
    }
    if ends_in_elevating_name(name) {
        let k = choose|k: int|
            0 <= k <= name.len() && (k == 0 || name[k - 1] == '/') && elevates(
                #[trigger] name.skip(k),
            );
        let wrapper = name.skip(k);
        lemma_name_is_known(wrapper);
        if k == 0 {
            assert(wrapper == name);
        } else {
            assert(name.subrange(k - 1, name.len() as int) == seq!['/'] + wrapper);
            assert((seq!['/'] + wrapper).is_suffix_of(name));
        }
    }
}

/// argv[0] is refused as a wrapper exactly if its lower-case text without white space
/// around it, or what follows a `/` in that, is the name of an elevating command. The
/// refusal names argv[0] as it was given.
pub proof fn law_wrapper_refused_by_name(argv: Seq<Seq<char>>)
    ensures
        shell::wrapper_verdict(argv) is Err <==> argv.len() > 0 && ends_in_elevating_name(
            text::lowered(text::trimmed(argv[0])),
        ),
        shell::wrapper_verdict(argv) is Err ==> shell::wrapper_verdict(argv) == Err::<(), _>(
            PolicyErrorView::ElevationWrapperForbidden { binary: argv[0] },
        ),
{
    if argv.len() > 0 {
        law_wrapper_by_last_component(text::lowered(text::trimmed(argv[0])));
    }
}

/// Of ASCII text, that is: argv[0] is refused exactly if some end of it that begins
/// it or follows a `/` spells, in any case of its letters, an elevating command.
pub proof fn law_wrapper_refused_by_ascii_name(argv: Seq<Seq<char>>)
    requires
        argv.len() > 0,
        vstd::utf8::is_ascii_chars(text::trimmed(argv[0])),
    ensures
        ({
            let bin = text::trimmed(argv[0]);
            shell::wrapper_verdict(argv) is Err <==> exists|k: int|
                0 <= k <= bin.len() && (k == 0 || bin[k - 1] == '/') && elevates(
                    text::ascii_lowered(#[trigger] bin.skip(k)),
                )
        }),
{
    let bin = text::trimmed(argv[0]);
    let low = text::ascii_lowered(bin);
    law_wrapper_refused_by_name(argv);
    assert forall|k: int| 0 <= k <= bin.len() implies #[trigger] low.skip(k)
        == text::ascii_lowered(bin.skip(k)) by {
        assert(low.skip(k) =~= text::ascii_lowered(bin.skip(k)));
    }
    if ends_in_elevating_name(low) {
        let k = choose|k: int|
            0 <= k <= low.len() && (k == 0 || low[k - 1] == '/') && elevates(
                #[trigger] low.skip(k),
            );
        assert(elevates(text::ascii_lowered(bin.skip(k))));
    }
    if exists|k: int|
        0 <= k <= bin.len() && (k == 0 || bin[k - 1] == '/') && elevates(
            text::ascii_lowered(#[trigger] bin.skip(k)),
        ) {
        let k = choose|k: int|
            0 <= k <= bin.len() && (k == 0 || bin[k - 1] == '/') && elevates(
                text::ascii_lowered(#[trigger] bin.skip(k)),
            );
        assert(elevates(low.skip(k)));
    }
}

// ---------------------------------------------------------------------------
// Allowlists of binaries
// ---------------------------------------------------------------------------

/// Whether some entry is the binary's text, white space around either set aside, and
/// nothing shorter or longer.
pub open spec fn some_entry_is(allowed: Seq<Seq<char>>, binary: Seq<char>) -> bool {
    exists|i: int| #![trigger allowed[i]]
        0 <= i < allowed.len() && text::trimmed(allowed[i]) == text::trimmed(binary)
}

/// What runs is what has sound arguments, elevates nothing by itself and is on the
/// allowlist, by an entry of its own or by `*`.
pub proof fn law_runs_by_its_own_entry(argv: Seq<Seq<char>>, allowed: Seq<Seq<char>>)
    ensures
        shell::shell_verdict(argv, allowed) is Ok <==> {
            &&& shell::argv_verdict(argv) is Ok
            &&& shell::wrapper_verdict(argv) is Ok
            &&& allowed.contains(seq!['*']) || some_entry_is(allowed, argv[0])
        },
{
    lemma_wildcard_is_star(allowed);
}

/// What runs elevated is the same, with elevation enabled.
pub proof fn law_runs_elevated_by_its_own_entry(
    argv: Seq<Seq<char>>,
    enabled: bool,
    allowed: Seq<Seq<char>>,
)
    ensures
        shell::elevation_verdict(argv, enabled, allowed) is Ok <==> {
            &&& shell::argv_verdict(argv) is Ok
            &&& shell::wrapper_verdict(argv) is Ok
            &&& enabled
            &&& allowed.contains(seq!['*']) || some_entry_is(allowed, argv[0])
        },
{
    lemma_wildcard_is_star(allowed);
}

/// Without `*`, a binary whose text differs from that of every entry does not run,
/// and is told its own name without white space around it, or that the list is empty.
pub proof fn law_unlisted_binary_refused(
    argv: Seq<Seq<char>>,
    enabled: bool,
    allowed: Seq<Seq<char>>,
)
    requires
        !allowed.contains(seq!['*']),
        argv.len() > 0,
        forall|i: int| #![trigger allowed[i]]
            0 <= i < allowed.len() ==> text::trimmed(allowed[i]) != text::trimmed(argv[0]),
    ensures
        shell::shell_verdict(argv, allowed) is Err,
        shell::elevation_verdict(argv, enabled, allowed) is Err,
        shell::argv_verdict(argv) is Ok && shell::wrapper_verdict(argv) is Ok ==> {
            &&& shell::shell_verdict(argv, allowed) == Err::<(), _>(
                if allowed.len() == 0 {
                    PolicyErrorView::DenyAll
                } else {
                    PolicyErrorView::BinaryNotAllowed { binary: text::trimmed(argv[0]) }
                },
            )
            &&& shell::elevation_verdict(argv, enabled, allowed) == Err::<(), _>(
                if !enabled {
                    PolicyErrorView::ElevationDisabled
                } else if allowed.len() == 0 {
                    PolicyErrorView::ElevationDenyAll
                } else {
                    PolicyErrorView::ElevationBinaryNotAllowed { binary: text::trimmed(argv[0]) }
                },
            )
        },
{
    lemma_wildcard_is_star(allowed);
}

/// Unsound arguments are reported before all else, then a wrapper, then that
/// elevation is switched off.
pub proof fn law_order_of_refusals(argv: Seq<Seq<char>>, enabled: bool, allowed: Seq<Seq<char>>)
    ensures
        shell::argv_verdict(argv) is Err ==> {
            &&& shell::shell_verdict(argv, allowed) == shell::argv_verdict(argv)
            &&& shell::elevation_verdict(argv, enabled, allowed) == shell::argv_verdict(argv)
        },
        shell::argv_verdict(argv) is Ok && shell::wrapper_verdict(argv) is Err ==> {
            &&& shell::shell_verdict(argv, allowed) == shell::wrapper_verdict(argv)
            &&& shell::elevation_verdict(argv, enabled, allowed) == shell::wrapper_verdict(argv)
        },
        shell::argv_verdict(argv) is Ok && shell::wrapper_verdict(argv) is Ok && !enabled ==>
            shell::elevation_verdict(argv, enabled, allowed) == Err::<(), _>(
            PolicyErrorView::ElevationDisabled,
        ),
{
}

/// The wildcard is the entry `*` and no other.
pub proof fn lemma_wildcard_is_star(allowed: Seq<Seq<char>>)
    ensures
        shell::wildcard(allowed) <==> allowed.contains(seq!['*']),
{
    reveal_strlit("*");
    assert(shell::ALLOWLIST_WILDCARD@ == seq!['*']);
}

// ---------------------------------------------------------------------------
// Environment variables
// ---------------------------------------------------------------------------

/// The variables that change what a program loads or finds.
pub open spec fn never_injected(name: Seq<char>) -> bool {
    ||| name == "LD_PRELOAD"@
    ||| name == "LD_LIBRARY_PATH"@
    ||| name == "DYLD_INSERT_LIBRARIES"@
    ||| name == "DYLD_LIBRARY_PATH"@
    ||| name == "BASH_ENV"@
    ||| name == "ENV"@
    ||| name == "PYTHONPATH"@
    ||| name == "PERL5LIB"@
    ||| name == "RUBYLIB"@
    ||| name == "NODE_OPTIONS"@
    ||| name == "SSLKEYLOGFILE"@
    ||| name == "PATH"@
}

/// A key is dangerous exactly if in capitals it is one of those names, whole.
pub proof fn law_dangerous_by_whole_name(key: Seq<char>)
    ensures
        env::dangerous(key) <==> never_injected(text::ascii_uppered(key)),
{
    assert(env::DANGEROUS_ENV_KEYS@[0]@ == "LD_PRELOAD"@);
    assert(env::DANGEROUS_ENV_KEYS@[1]@ == "LD_LIBRARY_PATH"@);
    assert(env::DANGEROUS_ENV_KEYS@[2]@ == "DYLD_INSERT_LIBRARIES"@);
    assert(env::DANGEROUS_ENV_KEYS@[3]@ == "DYLD_LIBRARY_PATH"@);
    assert(env::DANGEROUS_ENV_KEYS@[4]@ == "BASH_ENV"@);
    assert(env::DANGEROUS_ENV_KEYS@[5]@ == "ENV"@);
    assert(env::DANGEROUS_ENV_KEYS@[6]@ == "PYTHONPATH"@);
    assert(env::DANGEROUS_ENV_KEYS@[7]@ == "PERL5LIB"@);
    assert(env::DANGEROUS_ENV_KEYS@[8]@ == "RUBYLIB"@);
    assert(env::DANGEROUS_ENV_KEYS@[9]@ == "NODE_OPTIONS"@);
    assert(env::DANGEROUS_ENV_KEYS@[10]@ == "SSLKEYLOGFILE"@);
    assert(env::DANGEROUS_ENV_KEYS@[11]@ == "PATH"@);
}

/// A key passes exactly if in capitals it is none of the names that are never
/// injected, and the allowlist holds it as it is, or `*`.
pub proof fn law_key_passes(key: Seq<char>, allowed: Seq<Seq<char>>)
    ensures
        env::key_refusal(key, allowed) is None <==> !never_injected(text::ascii_uppered(key)) && (
        allowed.contains(seq!['*']) || allowed.contains(key)),
        env::key_refusal(key, allowed) == Some(PolicyErrorView::DangerousEnv { key })
            <==> never_injected(text::ascii_uppered(key)),
        env::key_refusal(key, allowed) == Some(PolicyErrorView::EnvNotAllowed { key })
            <==> !never_injected(text::ascii_uppered(key)) && !allowed.contains(seq!['*'])
            && !allowed.contains(key),
{
    law_dangerous_by_whole_name(key);
    lemma_wildcard_is_star(allowed);
}

/// Keys looked at in order pass exactly if each does; else the first that does not is
/// the one reported.
pub proof fn law_keys_pass_together(keys: Seq<Seq<char>>, allowed: Seq<Seq<char>>)
    ensures
        env::keys_verdict(keys, allowed) is Ok <==> forall|i: int|
            0 <= i < keys.len() ==> env::key_refusal(#[trigger] keys[i], allowed) is None,
        env::keys_verdict(keys, allowed) is Err ==> exists|i: int|
            {
                &&& 0 <= i < keys.len()
                &&& env::key_refusal(#[trigger] keys[i], allowed) == Some(
                    env::keys_verdict(keys, allowed)->Err_0,
                )
                &&& forall|j: int|
                    0 <= j < i ==> env::key_refusal(#[trigger] keys[j], allowed) is None
            },
{
    if env::keys_verdict(keys, allowed) is Ok {
        env::lemma_all_keys_pass(keys, allowed);
    } else {
        let i = choose|i: int| env::first_refused(keys, allowed, i);
        assert(env::first_refused(keys, allowed, i));
        assert(env::key_refusal(keys[i], allowed) is Some);
    }
}

/// The names of an environment are those of its keys.
pub proof fn law_names_of_environment(vars: Map<String, String>, name: Seq<char>)
    ensures
        env::env_names(vars).contains(name) <==> exists|key: String| #[trigger]
            vars.dom().contains(key) && key@ == name,
{
}

// ---------------------------------------------------------------------------
// What a refusal tells
// ---------------------------------------------------------------------------

/// Each error stands for the refusal of the same name, with the same text.
pub proof fn law_errors_keep_their_meaning(e: PolicyError)
    ensures
        match e {
            PolicyError::EmptyArgv => e@ is EmptyArgv,
            PolicyError::Metacharacter { arg } => e@ == (PolicyErrorView::Metacharacter {
                arg: arg@,
            }),
            PolicyError::DenyAll => e@ is DenyAll,
            PolicyError::BinaryNotAllowed { binary } => e@ == (PolicyErrorView::BinaryNotAllowed {
                binary: binary@,
            }),
            PolicyError::CwdNotAllowed { cwd } => e@ == (PolicyErrorView::CwdNotAllowed {
                cwd: cwd@,
            }),
            PolicyError::PathTraversal { path } => e@ == (PolicyErrorView::PathTraversal {
                path: path@,
            }),
            PolicyError::EnvNotAllowed { key } => e@ == (PolicyErrorView::EnvNotAllowed {
                key: key@,
            }),
            PolicyError::DangerousEnv { key } => e@ == (PolicyErrorView::DangerousEnv {
                key: key@,
            }),
            PolicyError::ElevationWrapperForbidden { binary } => e@
                == (PolicyErrorView::ElevationWrapperForbidden { binary: binary@ }),
            PolicyError::ElevationDisabled => e@ is ElevationDisabled,
            PolicyError::ElevationDenyAll => e@ is ElevationDenyAll,
            PolicyError::ElevationBinaryNotAllowed { binary } => e@
                == (PolicyErrorView::ElevationBinaryNotAllowed { binary: binary@ }),
        },
{
}

/// An outcome is favourable exactly if its verdict is, and else tells the same error.
pub proof fn law_outcomes_keep_their_meaning(r: Result<(), PolicyError>)
    ensures
        error::verdict(r) is Ok <==> r is Ok,
        r matches Err(e) ==> error::verdict(r) == Err::<(), _>(e@),
{
}

/// Whether a text stands somewhere within another.
pub open spec fn stands_in(part: Seq<char>, whole: Seq<char>) -> bool {
    exists|i: int|
        0 <= i && i + part.len() <= whole.len() && #[trigger] whole.subrange(
            i,
            i + part.len(),
        ) == part
}

/// A message shows what was refused, all of it.
pub proof fn law_message_shows_subject(e: PolicyErrorView)
    ensures
        match e {
            PolicyErrorView::Metacharacter { arg } => stands_in(arg, error::message_of(e)),
            PolicyErrorView::BinaryNotAllowed { binary } => stands_in(binary, error::message_of(e)),
            PolicyErrorView::CwdNotAllowed { cwd } => stands_in(cwd, error::message_of(e)),
            PolicyErrorView::PathTraversal { path } => stands_in(path, error::message_of(e)),
            PolicyErrorView::EnvNotAllowed { key } => stands_in(key, error::message_of(e)),
            PolicyErrorView::DangerousEnv { key } => stands_in(key, error::message_of(e)),
            PolicyErrorView::ElevationWrapperForbidden { binary } => stands_in(
                binary,
                error::message_of(e),
            ),
            PolicyErrorView::ElevationBinaryNotAllowed { binary } => stands_in(
                binary,
                error::message_of(e),
            ),
            _ => true,
        },
{
    let none = Seq::<char>::empty();
    match e {
        PolicyErrorView::Metacharacter { arg } => lemma_stands_in(
            "shell metacharacter in argument: "@,
            arg,
            none,
        ),
        PolicyErrorView::BinaryNotAllowed { binary } => lemma_stands_in(
            "binary not allowed: "@,
            binary,
            none,
        ),
        PolicyErrorView::CwdNotAllowed { cwd } => lemma_stands_in(
            "working directory not allowed: "@,
            cwd,
            none,
        ),
        PolicyErrorView::PathTraversal { path } => lemma_stands_in(
            "path traversal rejected: "@,
            path,
            none,
        ),
        PolicyErrorView::EnvNotAllowed { key } => lemma_stands_in(
            "environment variable not allowed: "@,
            key,
            none,
        ),
        PolicyErrorView::DangerousEnv { key } => lemma_stands_in(
            "dangerous environment variable blocked: "@,
            key,
            none,
        ),
        PolicyErrorView::ElevationWrapperForbidden { binary } => lemma_stands_in(
            "elevation wrapper forbidden in argv: "@,
            binary,
            "; use elevated=true instead"@,
        ),
        PolicyErrorView::ElevationBinaryNotAllowed { binary } => lemma_stands_in(
            "binary not allowed for elevated execution: "@,
            binary,
            none,
        ),
        _ => {},
    }
}

/// What stands between two texts stands in the whole.
proof fn lemma_stands_in(before: Seq<char>, part: Seq<char>, behind: Seq<char>)
    ensures
        stands_in(part, before + part + behind),
        behind.len() == 0 ==> stands_in(part, before + part),
{
    let n = before.len() as int;
    let whole = before + part + behind;
    assert(whole.subrange(n, n + part.len()) == part);
    assert((before + part).subrange(n, n + part.len()) == part);
}

} // verus!
