//! Byte encodings, digests and randomness, with what each promises.

use crate::net::hex_digit_char;
use crate::text::{ascii_alphanumeric, is_ascii_alphanumeric, to_chars};
use base64::Engine as _;
use sha2::Digest as _;
use vstd::prelude::*;

verus! {

// ---- Tokens --------------------------------------------------------------------

/// The url-unreserved characters: letters, digits, `-`, `.`, `_` and `~`.
pub open spec fn is_unreserved(c: char) -> bool {
    is_ascii_alphanumeric(c) || c == '-' || c == '.' || c == '_' || c == '~'
}

pub open spec fn is_token_text(token: Seq<char>) -> bool {
    forall|i: int| 0 <= i < token.len() ==> is_unreserved(#[trigger] token[i])
}

/// Whether a token holds url-unreserved characters only, so that it compares
/// byte for byte whether or not a client percent-encodes it.
#[verifier::loop_isolation(false)]
pub fn valid_token_chars(token: &str) -> (valid: bool)
    ensures
        valid == is_token_text(token@),
{
    let chars = to_chars(token);
    let mut i: usize = 0;
    while i < chars.len()
        invariant
            i <= chars@.len(),
            forall|j: int| 0 <= j < i ==> is_unreserved(#[trigger] chars@[j]),
        decreases chars@.len() - i,
    {
        let c: char = chars[i];
        if !(ascii_alphanumeric(c) || c == '-' || c == '.' || c == '_' || c == '~') {
            assert(!is_unreserved(chars@[i as int]));
            return false;
        }
        i += 1;
    }
    true
}

// ---- Base64 --------------------------------------------------------------------

/// The url-safe base64 text of some bytes, without padding.
pub uninterp spec fn base64url_text(bytes: Seq<u8>) -> Seq<char>;

/// How many characters unpadded base64 takes.
pub open spec fn base64_len(count: nat) -> nat {
    count / 3 * 4 + (if count % 3 == 0 {
        0nat
    } else {
        count % 3 + 1
    })
}

/// Whether some bytes can be written as a text: the text has to fit into
/// memory.
pub open spec fn fits_base64(count: nat) -> bool {
    base64_len(count) <= isize::MAX
}

/// Whether a token is what as many bytes are written as.
pub open spec fn is_token_of(token: Seq<char>, count: nat) -> bool {
    exists|bytes: Seq<u8>| #[trigger] base64url_text(bytes) == token && bytes.len() == count
}

/// Whether a token is one as they are minted: what thirty-two bytes are written
/// as, in characters that never need escaping.
pub open spec fn is_fresh_token(token: Seq<char>) -> bool {
    &&& is_token_of(token, 32)
    &&& token.len() == 43
    &&& is_token_text(token)
}

/// `base64`'s `URL_SAFE_NO_PAD.encode`: a function of the bytes, whose
/// alphabet is the letters, the digits, `-` and `_`, and which writes four
/// characters for every three bytes and one more than the bytes left over. It
/// panics where the text would not fit into memory.
#[verifier::external_body]
pub(crate) fn base64url(bytes: &[u8]) -> (text: String)
    requires
        fits_base64(bytes@.len()),
    ensures
        text@ == base64url_text(bytes@),
        text@.len() == base64_len(bytes@.len()),
        forall|i: int|
            0 <= i < text@.len() ==> is_ascii_alphanumeric(#[trigger] text@[i]) || text@[i] == '-'
                || text@[i] == '_',
{
    base64::engine::general_purpose::URL_SAFE_NO_PAD.encode(bytes)
}

// ---- Digests -------------------------------------------------------------------

/// The sha-256 digest of some bytes.
pub uninterp spec fn sha256_digest(bytes: Seq<u8>) -> Seq<u8>;

/// `sha2`'s `Sha256::digest`: the digest of the bytes, a function of them.
#[verifier::external_body]
pub(crate) fn sha256(bytes: &[u8]) -> (digest: [u8; 32])
    ensures
        digest@ == sha256_digest(bytes@),
{
    sha2::Sha256::digest(bytes).into()
}

/// Bytes as two lowercase hexadecimal digits each.
pub open spec fn hex_bytes(bytes: Seq<u8>) -> Seq<char>
    decreases bytes.len(),
{
    if bytes.len() == 0 {
        Seq::empty()
    } else {
        hex_bytes(bytes.drop_last()).push(hex_digit_char(bytes.last() as nat / 16)).push(
            hex_digit_char(bytes.last() as nat % 16),
        )
    }
}

fn hex_char(digit: u8) -> (c: char)
    requires
        digit < 16,
    ensures
        c == hex_digit_char(digit as nat),
{
    if digit < 10 {
        (48u8 + digit) as char
    } else {
        (87u8 + digit) as char
    }
}

/// Append bytes as two lowercase hexadecimal digits each.
pub fn push_hex_bytes(text: &mut String, bytes: &[u8])
    ensures
        final(text)@ == old(text)@ + hex_bytes(bytes@),
{
    let ghost before = text@;
    let mut i: usize = 0;
    assert(bytes@.take(0) =~= Seq::<u8>::empty());
    assert(text@ =~= before + hex_bytes(bytes@.take(0)));
    while i < bytes.len()
        invariant
            i <= bytes@.len(),
            text@ == before + hex_bytes(bytes@.take(i as int)),
        decreases bytes@.len() - i,
    {
        text.push(hex_char(bytes[i] / 16));
        text.push(hex_char(bytes[i] % 16));
        i += 1;
        proof {
            let next = bytes@.take(i as int);
            assert(next.drop_last() =~= bytes@.take(i - 1));
            assert(text@ =~= before + hex_bytes(next));
        }
    }
    assert(bytes@.take(i as int) =~= bytes@);
}

// ---- Randomness ----------------------------------------------------------------

/// `getrandom`'s error type.
#[verifier::external_type_specification]
#[verifier::external_body]
pub struct ExRandomError(getrandom::Error);

/// `getrandom::fill`: overwrites the whole slice with bytes that nothing here
/// can predict, or fails; an empty slice is filled at once, without asking the
/// system. Nothing is claimed of the bytes, nor of when the system has some.
pub assume_specification[ getrandom::fill ](dest: &mut [u8]) -> (filled: Result<
    (),
    getrandom::Error,
>)
    ensures
        final(dest)@.len() == old(dest)@.len(),
        old(dest)@.len() == 0 ==> filled is Ok,
;

/// The `Display` text of a `getrandom` error. Nothing is claimed of it: the
/// error is opaque, so there is nothing that its text could be stated over.
#[verifier::external_body]
pub(crate) fn random_error_text(error: &getrandom::Error) -> (text: String) {
    error.to_string()
}

/// Some random bytes, or why there are none. No bytes are always to be had.
pub fn random_bytes(count: usize) -> (bytes: Result<Vec<u8>, String>)
    ensures
        bytes is Ok ==> bytes->Ok_0@.len() == count,
        count == 0 ==> bytes is Ok,
{
    let mut bytes: Vec<u8> = vec![0u8; count];
    let filled = getrandom::fill(bytes.as_mut_slice());
    filled_bytes(filled, bytes)
}

/// What filling some bytes came to: the bytes, or why they were not filled.
pub fn filled_bytes(filled: Result<(), getrandom::Error>, bytes: Vec<u8>) -> (outcome: Result<
    Vec<u8>,
    String,
>)
    ensures
        match filled {
            Ok(()) => outcome == Ok::<Vec<u8>, String>(bytes),
            Err(_) => outcome is Err,
        },
{
    match filled {
        Ok(()) => Ok(bytes),
        Err(error) => Err(random_error_text(&error)),
    }
}

/// The token that some random bytes are written as.
pub fn token_from_bytes(bytes: &[u8]) -> (token: String)
    requires
        fits_base64(bytes@.len()),
    ensures
        token@ == base64url_text(bytes@),
        token@.len() == base64_len(bytes@.len()),
        is_token_text(token@),
{
    base64url(bytes)
}

/// A token is written in letters, digits and `-._~`, and one character besides
/// these spoils it.
pub proof fn law_what_a_token_is_written_in(token: Seq<char>, at: int)
    ensures
        0 <= at < token.len() && is_token_text(token) ==> ('a' <= token[at] <= 'z') || ('A'
            <= token[at] <= 'Z') || ('0' <= token[at] <= '9') || token[at] == '-' || token[at]
            == '.' || token[at] == '_' || token[at] == '~',
        (forall|i: int|
            0 <= i < token.len() ==> ('a' <= #[trigger] token[i] <= 'z') || ('A' <= token[i] <= 'Z')
                || ('0' <= token[i] <= '9') || token[i] == '-' || token[i] == '.' || token[i] == '_'
                || token[i] == '~') ==> is_token_text(token),
{
    if 0 <= at < token.len() && is_token_text(token) {
        assert(is_unreserved(token[at]));
    }
}

/// Three bytes take four characters; one byte more takes two, and two take
/// three.
pub proof fn law_how_long_base64_is(threes: nat)
    ensures
        base64_len(3 * threes) == 4 * threes,
        base64_len(3 * threes + 1) == 4 * threes + 2,
        base64_len(3 * threes + 2) == 4 * threes + 3,
{
}

} // verus!
