//! The token that a peer shows to be let in, and the ids of requests.

use super::error::{DesktopIpcError, DesktopIpcErrorView};
use crate::text;
use crate::text_facts;
use rand::RngCore;
use subtle::ConstantTimeEq;
use vstd::prelude::*;

verus! {

// ---------------------------------------------------------------------------
// Forms
// ---------------------------------------------------------------------------

/// The lower-case hexadecimal digit of a number below 16.
pub open spec fn hex_digit(n: int) -> char {
    if n < 10 {
        ('0' as u32 + n) as char
    } else {
        ('a' as u32 + (n - 10)) as char
    }
}

/// Two hexadecimal digits for each byte, the high half first.
pub open spec fn hex_text(bytes: Seq<u8>) -> Seq<char> {
    Seq::new(
        2 * bytes.len(),
        |i: int|
            if i % 2 == 0 {
                hex_digit(bytes[i / 2] as int / 16)
            } else {
                hex_digit(bytes[i / 2] as int % 16)
            },
    )
}

/// The sixteen bytes of a UUID as hexadecimal digits in groups of 8, 4, 4, 4 and
/// 12, with hyphens between the groups.
pub open spec fn uuid_text(bytes: Seq<u8>) -> Seq<char> {
    hex_text(bytes.subrange(0, 4)) + seq!['-'] + hex_text(bytes.subrange(4, 6)) + seq!['-']
        + hex_text(bytes.subrange(6, 8)) + seq!['-'] + hex_text(bytes.subrange(8, 10)) + seq!['-']
        + hex_text(bytes.subrange(10, 16))
}

/// Whether the bytes carry the marks of a random UUID: version 4, and the variant
/// of RFC 9562.
pub open spec fn is_random_uuid(bytes: Seq<u8>) -> bool {
    bytes.len() == 16 && bytes[6] / 16 == 4 && bytes[8] / 64 == 2
}

/// The text, where there is one.
pub open spec fn text_of(s: Option<&str>) -> Option<Seq<char>> {
    match s {
        Some(t) => Some(t@),
        None => None,
    }
}

/// What reading the token file amounts to: the token is its text without
/// surrounding white space, and no file or no token means no helper.
pub open spec fn stored_token(contents: Option<Seq<char>>) -> Result<
    Seq<char>,
    DesktopIpcErrorView,
> {
    match contents {
        Some(c) if text::trimmed(c).len() > 0 => Ok(text::trimmed(c)),
        _ => Err(DesktopIpcErrorView::HelperUnavailable),
    }
}

// ---------------------------------------------------------------------------
// Calls into other crates
// ---------------------------------------------------------------------------

/// `rand::rngs::OsRng` with `fill_bytes`: 32 bytes from the operating system's
/// random number generator. Nothing is claimed of their values. The call panics
/// if the system has no randomness to give.
#[verifier::external_body]
fn random_bytes() -> (r: [u8; 32]) {
    let mut bytes = [0u8; 32];
    rand::rngs::OsRng.fill_bytes(&mut bytes);
    bytes
}

/// `hex::encode`: two lower-case hexadecimal digits for each byte.
#[verifier::external_body]
fn hex_encode(data: &[u8]) -> (r: String)
    requires
        2 * data@.len() <= isize::MAX,
    ensures
        r@ == hex_text(data@),
{
    hex::encode(data)
}

/// `subtle::ConstantTimeEq::ct_eq` on byte slices: whether both hold the same
/// bytes. That the time taken does not depend on them is not part of the contract.
#[verifier::external_body]
fn constant_time_eq(a: &[u8], b: &[u8]) -> (r: bool)
    ensures
        r == (a@ == b@),
{
    a.ct_eq(b).into()
}

/// `uuid::Uuid::new_v4`: the bytes of a UUID that carries the marks of a random
/// one. Nothing is claimed of the other bits. The call panics if the system has
/// no randomness to give.
#[verifier::external_body]
fn random_uuid() -> (r: [u8; 16])
    ensures
        is_random_uuid(r@),
{
    uuid::Uuid::new_v4().into_bytes()
}

/// `Display` of `uuid::Uuid`: the hyphenated lower-case form.
#[verifier::external_body]
fn uuid_display(bytes: [u8; 16]) -> (r: String)
    ensures
        r@ == uuid_text(bytes@),
{
    uuid::Uuid::from_bytes(bytes).to_string()
}

// ---------------------------------------------------------------------------
// Operations
// ---------------------------------------------------------------------------

/// The IPC token that spells the given bytes.
pub fn ipc_token_of(bytes: [u8; 32]) -> (r: String)
    ensures
        r@ == hex_text(bytes@),
{
    hex_encode(bytes.as_slice())
}

/// Generate a 32-byte cryptographically random IPC token (hex-encoded).
pub fn generate_ipc_token() -> (r: String)
    ensures
        exists|bytes: Seq<u8>| bytes.len() == 32 && r@ == #[trigger] hex_text(bytes),
{
    let bytes = random_bytes();
    ipc_token_of(bytes)
}

/// The request id that spells the bytes of a UUID.
pub fn request_id_of(bytes: [u8; 16]) -> (r: String)
    ensures
        r@ == uuid_text(bytes@),
{
    uuid_display(bytes)
}

/// A fresh request id: the text of a random UUID.
pub fn new_request_id() -> (r: String)
    ensures
        exists|bytes: Seq<u8>| is_random_uuid(bytes) && r@ == #[trigger] uuid_text(bytes),
{
    let bytes = random_uuid();
    request_id_of(bytes)
}

/// Constant-time comparison of a provided auth token against the expected value.
pub fn auth_token_ok(provided: Option<&str>, expected: &str) -> (r: bool)
    ensures
        r == (provided matches Some(p) && p@ == expected@),
{
    let provided = match provided {
        Some(p) => p,
        None => {
            return false;
        },
    };
    let given = provided.as_bytes();
    let wanted = expected.as_bytes();
    proof {
        vstd::utf8::encode_utf8_decode_utf8(provided@);
        vstd::utf8::encode_utf8_decode_utf8(expected@);
    }
    if given.len() != wanted.len() {
        return false;
    }
    constant_time_eq(given, wanted)
}

/// The token that the token file holds, given the file's text, or `None` where it
/// could not be read.
pub fn read_ipc_token(contents: Option<&str>) -> (r: Result<String, DesktopIpcError>)
    ensures
        match r {
            Ok(token) => stored_token(text_of(contents)) == Ok::<_, DesktopIpcErrorView>(token@),
            Err(e) => stored_token(text_of(contents)) == Err::<Seq<char>, _>(e@),
        },
{
    let contents = match contents {
        Some(c) => c,
        None => {
            return Err(DesktopIpcError::HelperUnavailable);
        },
    };
    let token = text::trim(contents);
    if token.is_empty() {
        return Err(DesktopIpcError::HelperUnavailable);
    }
    Ok(token.to_owned())
}

// ---------------------------------------------------------------------------
// Laws
// ---------------------------------------------------------------------------

/// Whether the character is a lower-case hexadecimal digit.
pub open spec fn is_hex_digit(c: char) -> bool {
    '0' <= c <= '9' || 'a' <= c <= 'f'
}

/// The digits of the numbers below 16 are hexadecimal digits, and differ.
proof fn lemma_hex_digits(a: int, b: int)
    requires
        0 <= a < 16,
        0 <= b < 16,
    ensures
        is_hex_digit(hex_digit(a)),
        hex_digit(a) == hex_digit(b) ==> a == b,
{
}

/// A token consists of lower-case hexadecimal digits, two for each byte.
pub proof fn law_token_form(bytes: Seq<u8>)
    ensures
        hex_text(bytes).len() == 2 * bytes.len(),
        forall|i: int| 0 <= i < hex_text(bytes).len() ==> is_hex_digit(#[trigger] hex_text(bytes)[i]),
{
    assert forall|i: int| 0 <= i < hex_text(bytes).len() implies is_hex_digit(
        #[trigger] hex_text(bytes)[i],
    ) by {
        let b = bytes[i / 2] as int;
        lemma_hex_digits(b / 16, b % 16);
        lemma_hex_digits(b % 16, b / 16);
    }
}

/// Different bytes give different tokens.
pub proof fn law_tokens_differ(bytes: Seq<u8>, other: Seq<u8>)
    requires
        hex_text(bytes) == hex_text(other),
    ensures
        bytes == other,
{
    assert(hex_text(bytes).len() == 2 * bytes.len());
    assert(hex_text(other).len() == 2 * other.len());
    assert forall|k: int| 0 <= k < bytes.len() implies bytes[k] == other[k] by {
        let a = bytes[k] as int;
        let b = other[k] as int;
        assert(hex_text(bytes)[2 * k] == hex_digit(a / 16));
        assert(hex_text(other)[2 * k] == hex_digit(b / 16));
        assert(hex_text(bytes)[2 * k + 1] == hex_digit(a % 16));
        assert(hex_text(other)[2 * k + 1] == hex_digit(b % 16));
        lemma_hex_digits(a / 16, b / 16);
        lemma_hex_digits(a % 16, b % 16);
    }
}

/// Reading the token file gives back the token that was written to it, if that is
/// not empty and has no white space at its ends.
pub proof fn law_stored_token_comes_back(token: Seq<char>)
    requires
        token.len() > 0,
        !text::white_space(token[0]),
        !text::white_space(token.last()),
    ensures
        stored_token(Some(token)) == Ok::<Seq<char>, DesktopIpcErrorView>(token),
{
    text_facts::lemma_trimmed_ends(token);
}

/// Reading the token file gives back any generated token that was written to it.
pub proof fn law_generated_token_comes_back(bytes: Seq<u8>)
    requires
        bytes.len() > 0,
    ensures
        stored_token(Some(hex_text(bytes))) == Ok::<Seq<char>, DesktopIpcErrorView>(
            hex_text(bytes),
        ),
{
    let token = hex_text(bytes);
    law_token_form(bytes);
    assert(is_hex_digit(token[0]));
    assert(is_hex_digit(token[token.len() - 1]));
    law_stored_token_comes_back(token);
}

/// A stored token is never empty and has no white space at its ends.
pub proof fn law_stored_token_form(contents: Option<Seq<char>>)
    requires
        stored_token(contents) is Ok,
    ensures
        ({
            let token = stored_token(contents)->Ok_0;
            &&& token.len() > 0
            &&& !text::white_space(token[0])
            &&& !text::white_space(token.last())
        }),
{
    text_facts::lemma_trimmed_ends(contents->0);
}

/// A request id has 36 characters: hexadecimal digits but for the hyphens at 8, 13,
/// 18 and 23. That of a random UUID shows its version at 14 and its variant at 19.
pub proof fn law_request_id_form(bytes: Seq<u8>)
    requires
        bytes.len() == 16,
    ensures
        uuid_text(bytes).len() == 36,
        forall|i: int|
            0 <= i < 36 ==> if i == 8 || i == 13 || i == 18 || i == 23 {
                (#[trigger] uuid_text(bytes)[i]) == '-'
            } else {
                is_hex_digit(uuid_text(bytes)[i])
            },
        is_random_uuid(bytes) ==> uuid_text(bytes)[14] == '4' && {
            let v = uuid_text(bytes)[19];
            v == '8' || v == '9' || v == 'a' || v == 'b'
        },
{
    let a = bytes.subrange(0, 4);
    let b = bytes.subrange(4, 6);
    let c = bytes.subrange(6, 8);
    let d = bytes.subrange(8, 10);
    let e = bytes.subrange(10, 16);
    law_token_form(a);
    law_token_form(b);
    law_token_form(c);
    law_token_form(d);
    law_token_form(e);
    let t = uuid_text(bytes);
    assert forall|i: int| 0 <= i < 36 implies if i == 8 || i == 13 || i == 18 || i == 23 {
        (#[trigger] t[i]) == '-'
    } else {
        is_hex_digit(t[i])
    } by {
        if i < 8 {
            assert(t[i] == hex_text(a)[i]);
        } else if 8 < i < 13 {
            assert(t[i] == hex_text(b)[i - 9]);
        } else if 13 < i < 18 {
            assert(t[i] == hex_text(c)[i - 14]);
        } else if 18 < i < 23 {
            assert(t[i] == hex_text(d)[i - 19]);
        } else if i > 23 {
            assert(t[i] == hex_text(e)[i - 24]);
        }
    }
    assert(t[14] == hex_text(c)[0]);
    assert(c[0] == bytes[6]);
    assert(t[19] == hex_text(d)[0]);
    assert(d[0] == bytes[8]);
    if is_random_uuid(bytes) {
        let v = bytes[8] as int / 16;
        assert(v == 8 || v == 9 || v == 10 || v == 11);
    }
}

/// Different UUIDs give different request ids.
pub proof fn law_request_ids_differ(bytes: Seq<u8>, other: Seq<u8>)
    requires
        bytes.len() == 16,
        other.len() == 16,
        uuid_text(bytes) == uuid_text(other),
    ensures
        bytes == other,
{
    let t = uuid_text(bytes);
    let u = uuid_text(other);
    assert(hex_text(bytes.subrange(0, 4)) == t.subrange(0, 8));
    assert(hex_text(other.subrange(0, 4)) == u.subrange(0, 8));
    assert(hex_text(bytes.subrange(4, 6)) == t.subrange(9, 13));
    assert(hex_text(other.subrange(4, 6)) == u.subrange(9, 13));
    assert(hex_text(bytes.subrange(6, 8)) == t.subrange(14, 18));
    assert(hex_text(other.subrange(6, 8)) == u.subrange(14, 18));
    assert(hex_text(bytes.subrange(8, 10)) == t.subrange(19, 23));
    assert(hex_text(other.subrange(8, 10)) == u.subrange(19, 23));
    assert(hex_text(bytes.subrange(10, 16)) == t.subrange(24, 36));
    assert(hex_text(other.subrange(10, 16)) == u.subrange(24, 36));
    law_tokens_differ(bytes.subrange(0, 4), other.subrange(0, 4));
    law_tokens_differ(bytes.subrange(4, 6), other.subrange(4, 6));
    law_tokens_differ(bytes.subrange(6, 8), other.subrange(6, 8));
    law_tokens_differ(bytes.subrange(8, 10), other.subrange(8, 10));
    law_tokens_differ(bytes.subrange(10, 16), other.subrange(10, 16));
    assert forall|k: int| 0 <= k < 16 implies bytes[k] == other[k] by {
        if k < 4 {
            assert(bytes.subrange(0, 4)[k] == other.subrange(0, 4)[k]);
        } else if k < 6 {
            assert(bytes.subrange(4, 6)[k - 4] == other.subrange(4, 6)[k - 4]);
        } else if k < 8 {
            assert(bytes.subrange(6, 8)[k - 6] == other.subrange(6, 8)[k - 6]);
        } else if k < 10 {
            assert(bytes.subrange(8, 10)[k - 8] == other.subrange(8, 10)[k - 8]);
        } else {
            assert(bytes.subrange(10, 16)[k - 10] == other.subrange(10, 16)[k - 10]);
        }
    }
}

} // verus!
