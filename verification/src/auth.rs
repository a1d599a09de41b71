//! The OBS WebSocket authentication string.
//!
//! OBS sends a salt and a challenge; the client answers with
//! `base64(sha256(base64(sha256(password + salt)) + challenge))`.
use vstd::prelude::*;
use vstd::utf8::encode_utf8;
use base64::Engine;
use sha2::Digest;

verus! {

/// SHA-256 of a byte string, as the `sha2` crate computes it.
pub uninterp spec fn sha256(data: Seq<u8>) -> Seq<u8>;

/// `sha2::Sha256::digest`: the 32-byte SHA-256 digest of `data`.
#[verifier::external_body]
fn sha256_digest(data: &[u8]) -> (res: Vec<u8>)
    ensures
        res@ == sha256(data@),
        res@.len() == 32,
{
    sha2::Sha256::digest(data).to_vec()
}

/// The character of the standard base64 alphabet (RFC 4648) for a 6-bit value.
pub open spec fn base64_symbol(v: int) -> char {
    if v < 26 {
        (65 + v) as char
    } else if v < 52 {
        (97 + v - 26) as char
    } else if v < 62 {
        (48 + v - 52) as char
    } else if v == 62 {
        '+'
    } else {
        '/'
    }
}

/// Standard base64 with `=` padding (RFC 4648, section 4).
pub open spec fn base64_standard(b: Seq<u8>) -> Seq<char>
    decreases b.len(),
{
    if b.len() == 0 {
        Seq::empty()
    } else {
        let x0 = b[0] as int;
        let x1 = if b.len() > 1 { b[1] as int } else { 0 };
        let x2 = if b.len() > 2 { b[2] as int } else { 0 };
        if b.len() == 1 {
            seq![base64_symbol(x0 / 4), base64_symbol((x0 % 4) * 16), '=', '=']
        } else if b.len() == 2 {
            seq![
                base64_symbol(x0 / 4),
                base64_symbol((x0 % 4) * 16 + x1 / 16),
                base64_symbol((x1 % 16) * 4),
                '=',
            ]
        } else {
            seq![
                base64_symbol(x0 / 4),
                base64_symbol((x0 % 4) * 16 + x1 / 16),
                base64_symbol((x1 % 16) * 4 + x2 / 64),
                base64_symbol(x2 % 64),
            ] + base64_standard(b.skip(3))
        }
    }
}

/// `base64::engine::general_purpose::STANDARD.encode`: standard base64 with
/// padding.
#[verifier::external_body]
fn base64_encode(data: &[u8]) -> (res: String)
    requires
        data@.len() <= usize::MAX / 2,
    ensures
        res@ == base64_standard(data@),
{
    base64::engine::general_purpose::STANDARD.encode(data)
}

/// Standard base64 writes four characters for every three bytes or part
/// of them.
pub proof fn law_base64_length(b: Seq<u8>)
    ensures
        base64_standard(b).len() == 4 * ((b.len() + 2) / 3),
    decreases b.len(),
{
    if b.len() >= 3 {
        law_base64_length(b.skip(3));
    }
}

/// The authentication string OBS expects for `password`, given the `salt`
/// and `challenge` of its hello message.
pub open spec fn obs_auth(password: Seq<char>, salt: Seq<char>, challenge: Seq<char>) -> Seq<char> {
    let secret = base64_standard(sha256(encode_utf8(password) + encode_utf8(salt)));
    base64_standard(sha256(encode_utf8(secret) + encode_utf8(challenge)))
}

/// Computes the answer to OBS's authentication challenge.
pub fn compute_auth(password: &str, salt: &str, challenge: &str) -> (res: String)
    ensures
        res@ == obs_auth(password@, salt@, challenge@),
        res@.len() == 44,
{
    let mut first: Vec<u8> = Vec::new();
    first.extend_from_slice(password.as_bytes());
    first.extend_from_slice(salt.as_bytes());
    assert(first@ =~= encode_utf8(password@) + encode_utf8(salt@));
    let secret = base64_encode(sha256_digest(first.as_slice()).as_slice());
    let mut second: Vec<u8> = Vec::new();
    second.extend_from_slice(secret.as_str().as_bytes());
    second.extend_from_slice(challenge.as_bytes());
    assert(second@ =~= encode_utf8(secret@) + encode_utf8(challenge@));
    let digest = sha256_digest(second.as_slice());
    proof {
        law_base64_length(digest@);
    }
    base64_encode(digest.as_slice())
}

} // verus!
