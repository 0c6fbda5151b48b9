//! Which environment variables may be injected.

use super::error;
use super::error::{PolicyError, PolicyErrorView};
use super::meaning;
use super::shell;
use super::shell::allowlist_has_wildcard;
use crate::text;
use std::collections::HashMap;
use vstd::prelude::*;

verus! {

/// Environment variables that must never be injected even with a wildcard allowlist.
pub const DANGEROUS_ENV_KEYS: [&'static str; 12] = [
    "LD_PRELOAD",
    "LD_LIBRARY_PATH",
    "DYLD_INSERT_LIBRARIES",
    "DYLD_LIBRARY_PATH",
    "BASH_ENV",
    "ENV",
    "PYTHONPATH",
    "PERL5LIB",
    "RUBYLIB",
    "NODE_OPTIONS",
    "SSLKEYLOGFILE",
    "PATH",
];

// ---------------------------------------------------------------------------
// The rules
// ---------------------------------------------------------------------------

/// Whether the key is one of the dangerous ones, whatever the case of its ASCII
/// letters.
pub open spec fn dangerous(key: Seq<char>) -> bool {
    exists|i: int|
        0 <= i < DANGEROUS_ENV_KEYS@.len() && (#[trigger] DANGEROUS_ENV_KEYS@[i])@
            == text::ascii_uppered(key)
}

/// Why a key is refused, if it is.
pub open spec fn key_refusal(key: Seq<char>, allowed: Seq<Seq<char>>) -> Option<PolicyErrorView> {
    if dangerous(key) {
        Some(PolicyErrorView::DangerousEnv { key })
    } else if shell::wildcard(allowed) || allowed.contains(key) {
        None
    } else {
        Some(PolicyErrorView::EnvNotAllowed { key })
    }
}

/// Whether the key at `i` is the first that is refused.
pub open spec fn first_refused(keys: Seq<Seq<char>>, allowed: Seq<Seq<char>>, i: int) -> bool {
    &&& 0 <= i < keys.len()
    &&& key_refusal(keys[i], allowed) is Some
    &&& forall|j: int| 0 <= j < i ==> key_refusal(#[trigger] keys[j], allowed) is None
}

/// The verdict on keys looked at in order: the first that is refused decides.
pub open spec fn keys_verdict(keys: Seq<Seq<char>>, allowed: Seq<Seq<char>>) -> Result<
    (),
    PolicyErrorView,
> {
    if exists|i: int| first_refused(keys, allowed, i) {
        Err(key_refusal(keys[choose|i: int| first_refused(keys, allowed, i)], allowed)->0)
    } else {
        Ok(())
    }
}

/// The names of the variables that an environment sets.
pub open spec fn env_names(env: Map<String, String>) -> Set<Seq<char>> {
    env.dom().map(|k: String| k@)
}

// ---------------------------------------------------------------------------
// The checks
// ---------------------------------------------------------------------------

/// `HashMap::keys`: every key of the map once, in an order that is left open.
/// The contract says that the texts handed out are those of the map's keys.
#[verifier::external_body]
fn env_keys(env: &HashMap<String, String>) -> (keys: Vec<String>)
    ensures
        text::texts(keys@).to_set() == env_names(env@),
{
    env.keys().cloned().collect()
}

/// Whether the key is one of the dangerous ones.
fn is_dangerous(key: &str) -> (r: bool)
    ensures
        r == dangerous(key@),
{
    let upper = text::to_ascii_upper(key);
    for i in 0..DANGEROUS_ENV_KEYS.len()
        invariant
            upper@ == text::ascii_uppered(key@),
            forall|j: int|
                0 <= j < i ==> (#[trigger] DANGEROUS_ENV_KEYS@[j])@ != text::ascii_uppered(key@),
    {
        let blocked: &str = DANGEROUS_ENV_KEYS[i];
        assert(blocked@ == DANGEROUS_ENV_KEYS@[i as int]@);
        if text::same_text(blocked, upper.as_str()) {
            return true;
        }
    }
    false
}

/// Check keys in the order given; the first that is refused decides.
pub fn check_env_keys(keys: &[String], allowed: &[String]) -> (r: Result<(), PolicyError>)
    ensures
        error::verdict(r) == keys_verdict(text::texts(keys@), text::texts(allowed@)),
        r is Ok <==> forall|i: int|
            0 <= i < keys@.len() ==> !meaning::never_injected(
                text::ascii_uppered((#[trigger] keys@[i])@),
            ) && (text::texts(allowed@).contains(seq!['*']) || text::texts(allowed@).contains(
                keys@[i]@,
            )),
{
    let ghost names = text::texts(keys@);
    let ghost entries = text::texts(allowed@);
    let any = allowlist_has_wildcard(allowed);
    for i in 0..keys.len()
        invariant
            names == text::texts(keys@),
            entries == text::texts(allowed@),
            any == shell::wildcard(entries),
            forall|j: int| 0 <= j < i ==> key_refusal(#[trigger] names[j], entries) is None,
    {
        let key: &str = keys[i].as_str();
        assert(names[i as int] == key@);
        proof {
            if key_refusal(key@, entries) is Some {
                assert(first_refused(names, entries, i as int));
                let k = choose|k: int| first_refused(names, entries, k);
                assert(first_refused(names, entries, k));
                assert(k == i);
                lemma_keys_pass(keys@, entries);
            }
        }
        if is_dangerous(key) {
            return Err(PolicyError::DangerousEnv { key: keys[i].clone() });
        }
        if !any && !text::lists(allowed, key) {
            return Err(PolicyError::EnvNotAllowed { key: keys[i].clone() });
        }
    }
    assert(!exists|i: int| first_refused(names, entries, i));
    proof {
        lemma_keys_pass(keys@, entries);
    }
    Ok(())
}

/// Keys pass exactly if none is a name that is never injected, and the allowlist holds
/// each of them, or `*`.
proof fn lemma_keys_pass(keys: Seq<String>, allowed: Seq<Seq<char>>)
    ensures
        keys_verdict(text::texts(keys), allowed) is Ok <==> forall|i: int|
            0 <= i < keys.len() ==> !meaning::never_injected(
                text::ascii_uppered((#[trigger] keys[i])@),
            ) && (allowed.contains(seq!['*']) || allowed.contains(keys[i]@)),
{
    let names = text::texts(keys);
    meaning::law_keys_pass_together(names, allowed);
    assert forall|i: int| 0 <= i < keys.len() implies names[i] == (#[trigger] keys[i])@ && (
    key_refusal(names[i], allowed) is None <==> !meaning::never_injected(
        text::ascii_uppered(keys[i]@),
    ) && (allowed.contains(seq!['*']) || allowed.contains(keys[i]@))) by {
        meaning::law_key_passes(keys[i]@, allowed);
    }
    if exists|i: int| 0 <= i < names.len() && key_refusal(#[trigger] names[i], allowed) is Some {
        let i = choose|i: int|
            0 <= i < names.len() && key_refusal(#[trigger] names[i], allowed) is Some;
        assert(names[i] == keys[i]@);
    }
}

/// Check env keys against allowlist. Empty allowlist denies all keys (deny-by-default).
/// Wildcard `*` allows any key except [`DANGEROUS_ENV_KEYS`]. Where several keys
/// are refused, any one of them may be the one reported.
pub fn check_env_policy(env: &HashMap<String, String>, allowed: &[String]) -> (r: Result<
    (),
    PolicyError,
>)
    ensures
        r is Ok <==> forall|key: Seq<char>| #[trigger]
            env_names(env@).contains(key) ==> key_refusal(key, text::texts(allowed@)) is None,
        r is Err ==> exists|key: Seq<char>| #[trigger]
            env_names(env@).contains(key) && key_refusal(key, text::texts(allowed@)) == Some(
                r->Err_0@,
            ),
{
    let keys = env_keys(env);
    let r = check_env_keys(keys.as_slice(), allowed);
    proof {
        let names = text::texts(keys@);
        let entries = text::texts(allowed@);
        if r is Ok {
            lemma_all_keys_pass(names, entries);
            assert forall|key: Seq<char>| #[trigger] env_names(env@).contains(key) implies
                key_refusal(key, entries) is None by {
                assert(names.to_set().contains(key));
                let i = choose|i: int| 0 <= i < names.len() && names[i] == key;
                assert(key_refusal(names[i], entries) is None);
            }
        } else {
            let i = choose|i: int| first_refused(names, entries, i);
            assert(first_refused(names, entries, i));
            assert(names.to_set().contains(names[i]));
            assert(env_names(env@).contains(names[i]));
        }
    }
    r
}

/// Where the verdict on keys is favourable, no key is refused.
pub proof fn lemma_all_keys_pass(keys: Seq<Seq<char>>, allowed: Seq<Seq<char>>)
    requires
        keys_verdict(keys, allowed) is Ok,
    ensures
        forall|i: int| 0 <= i < keys.len() ==> key_refusal(#[trigger] keys[i], allowed) is None,
{
    assert forall|i: int| 0 <= i < keys.len() implies key_refusal(
        #[trigger] keys[i],
        allowed,
    ) is None by {
        if key_refusal(keys[i], allowed) is Some {
            lemma_first_refused(keys, allowed, i);
        }
    }
}

/// If some key up to `i` is refused, there is a first one.
proof fn lemma_first_refused(keys: Seq<Seq<char>>, allowed: Seq<Seq<char>>, i: int)
    requires
        0 <= i < keys.len(),
        key_refusal(keys[i], allowed) is Some,
    ensures
        exists|j: int| first_refused(keys, allowed, j),
    decreases i,
{
    if forall|j: int| 0 <= j < i ==> key_refusal(#[trigger] keys[j], allowed) is None {
        assert(first_refused(keys, allowed, i));
    } else {
        let j = choose|j: int| 0 <= j < i && key_refusal(#[trigger] keys[j], allowed) is Some;
        lemma_first_refused(keys, allowed, j);
    }
}

} // verus!
