//! Identifiers and clock readings that come from outside crates.

use vstd::prelude::*;
use crate::model::is_instant;
use vstd::string::StringSliceAdditionalSpecFns;

verus! {

/// Characters of the Crockford base-32 alphabet that ULIDs are written in.
pub open spec fn is_ulid_char(c: char) -> bool {
    ('0' <= c && c <= '9') || ('A' <= c && c <= 'Z' && c != 'I' && c != 'L' && c != 'O' && c != 'U')
}

/// `ulid::Ulid::new().to_string()`: a fresh ULID (time- and randomness-based)
/// in its canonical text form, 26 characters of the Crockford alphabet.
/// Which ULID comes back is not stated: it depends on the clock and on chance.
#[verifier::external_body]
pub fn new_dispatch_id() -> (r: String)
    ensures
        r@.len() == 26,
        forall|i: int| 0 <= i < 26 ==> is_ulid_char(#[trigger] r@[i]),
{
    ulid::Ulid::new().to_string()
}

/// `chrono::Utc::now().timestamp()`: the current wall-clock instant in whole
/// seconds. Only that it is a representable instant is stated.
#[verifier::external_body]
pub fn wall_clock_now() -> (r: i64)
    ensures
        is_instant(r as int),
{
    chrono::Utc::now().timestamp()
}

} // verus!

verus! {

/// The SHA-256 digest of `data`, as the `sha2` crate computes it.
pub uninterp spec fn sha256_bytes(data: Seq<u8>) -> Seq<u8>;

/// `sha2::Sha256::digest(data)`: the SHA-256 digest of `data`. The digest
/// is named, not written out; it is 32 bytes long.
#[verifier::external_body]
fn sha256(data: &[u8]) -> (r: Vec<u8>)
    ensures
        r@ == sha256_bytes(data@),
        r@.len() == 32,
{
    <sha2::Sha256 as sha2::Digest>::digest(data).to_vec()
}

/// The lower-case hexadecimal digit for `n < 16`.
pub open spec fn hex_digit(n: u8) -> char {
    if n < 10 {
        (('0' as u8) + n) as char
    } else {
        (('a' as u8) + n - 10) as char
    }
}

/// `data` in lower-case hexadecimal, two digits per byte, high digit first.
pub open spec fn hex_text(data: Seq<u8>) -> Seq<char>
    decreases data.len(),
{
    if data.len() == 0 {
        Seq::empty()
    } else {
        hex_text(data.drop_last()) + seq![hex_digit(data.last() / 16), hex_digit(data.last() % 16)]
    }
}

/// `hex::encode(data)`: `data` in lower-case hexadecimal.
#[verifier::external_body]
fn hex_encode(data: &[u8]) -> (r: String)
    ensures
        r@ == hex_text(data@),
{
    hex::encode(data)
}

proof fn lemma_hex_text_len(data: Seq<u8>)
    ensures
        hex_text(data).len() == 2 * data.len(),
    decreases data.len(),
{
    if data.len() > 0 {
        lemma_hex_text_len(data.drop_last());
    }
}

fn append_bytes(v: &mut Vec<u8>, s: &[u8])
    ensures
        final(v)@ == old(v)@ + s@,
{
    let ghost start = v@;
    let mut i: usize = 0;
    while i < s.len()
        invariant
            i <= s@.len(),
            v@ == start + s@.subrange(0, i as int),
        decreases s@.len() - i,
    {
        v.push(s[i]);
        assert(v@ =~= start + s@.subrange(0, i + 1));
        i = i + 1;
    }
    assert(s@.subrange(0, s@.len() as int) =~= s@);
}

/// The bytes an issue's anomaly identifier is derived from.
pub open spec fn anomaly_seed(order_id: &str, client_action_id: &str) -> Seq<u8> {
    "dispatch_issue_anomaly:v1".spec_bytes() + order_id.spec_bytes() + ":".spec_bytes() + client_action_id.spec_bytes()
}

/// The anomaly identifier of an issue reported by a client action: `AI`
/// and the first 24 hexadecimal digits of the SHA-256 digest of the order
/// and action, so that a repeated report maps to the same anomaly.
pub fn deterministic_issue_anomaly_id(order_id: &str, client_action_id: &str) -> (r: String)
    ensures
        r@ == "AI"@ + hex_text(sha256_bytes(anomaly_seed(order_id, client_action_id))).take(24),
{
    let mut data: Vec<u8> = Vec::new();
    append_bytes(&mut data, "dispatch_issue_anomaly:v1".as_bytes());
    append_bytes(&mut data, order_id.as_bytes());
    append_bytes(&mut data, ":".as_bytes());
    append_bytes(&mut data, client_action_id.as_bytes());
    assert(data@ =~= anomaly_seed(order_id, client_action_id));
    let digest = sha256(data.as_slice());
    let hex = hex_encode(digest.as_slice());
    proof {
        lemma_hex_text_len(digest@);
    }
    let mut r = String::from_str("AI");
    r.append(hex.as_str().substring_char(0, 24));
    proof {
        reveal_strlit("AI");
    }
    r
}

} // verus!
