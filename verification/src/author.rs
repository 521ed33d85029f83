use vstd::prelude::*;
use sha2::Digest;
use crate::text::{push_char, push_str};

verus! {

/// The SHA-256 digest of `data`, as the `sha2` crate computes it.
pub uninterp spec fn sha256(data: Seq<u8>) -> Seq<u8>;

/// Trusted: calls `sha2::Sha256::digest`, which hashes `data` in one go (the same as
/// `new`, `update`, `finalize`); the digest of SHA-256 is 32 bytes long.
#[verifier::external_body]
fn sha256_digest(data: &[u8]) -> (r: Vec<u8>)
    ensures
        r@ == sha256(data@),
        r@.len() == 32,
{
    sha2::Sha256::digest(data).to_vec()
}

/// The lowercase hex digit for `n` (below 16).
pub open spec fn hex_digit(n: int) -> char {
    seq!['0', '1', '2', '3', '4', '5', '6', '7', '8', '9', 'a', 'b', 'c', 'd', 'e', 'f'][n]
}

/// Bytes as lowercase hex: two digits per byte, high nibble first.
pub open spec fn hex_lower(data: Seq<u8>) -> Seq<char>
    decreases data.len(),
{
    if data.len() == 0 {
        Seq::empty()
    } else {
        seq![hex_digit(data[0] as int / 16), hex_digit(data[0] as int % 16)] + hex_lower(data.drop_first())
    }
}

/// Hex text is two digits per byte.
pub proof fn lemma_hex_lower_len(data: Seq<u8>)
    ensures
        hex_lower(data).len() == 2 * data.len(),
    decreases data.len(),
{
    if data.len() > 0 {
        lemma_hex_lower_len(data.drop_first());
    }
}

/// Trusted: calls `hex::encode`, which writes each byte as two lowercase hex digits, the
/// high nibble first (table `0123456789abcdef`).
#[verifier::external_body]
fn hex_encode(data: &[u8]) -> (r: String)
    ensures
        r@ == hex_lower(data@),
{
    hex::encode(data)
}

/// The text that is hashed for an author id: `ip`, `-`, the board's slug, `-salt`.
pub open spec fn author_seed(ip: Seq<char>, board_slug: Seq<char>) -> Seq<char> {
    ip + seq!['-'] + board_slug + seq!['-', 's', 'a', 'l', 't']
}

/// The author id shown on posts: the first 8 bytes of the SHA-256 digest of the UTF-8
/// bytes of `author_seed`, in lowercase hex (16 chars).
pub open spec fn author_id_of(ip: Seq<char>, board_slug: Seq<char>) -> Seq<char> {
    hex_lower(sha256(vstd::utf8::encode_utf8(author_seed(ip, board_slug))).take(8))
}

/// The author id of a poster at `ip` on the board `board_slug`.
pub fn generate_author_id(ip: &str, board_slug: &str) -> (r: String)
    ensures
        r@ == author_id_of(ip@, board_slug@),
        r@.len() == 16,
{
    let mut seed = String::new();
    push_str(&mut seed, ip);
    push_char(&mut seed, '-');
    push_str(&mut seed, board_slug);
    push_char(&mut seed, '-');
    push_char(&mut seed, 's');
    push_char(&mut seed, 'a');
    push_char(&mut seed, 'l');
    push_char(&mut seed, 't');
    assert(seed@ =~= author_seed(ip@, board_slug@));
    let digest = sha256_digest(seed.as_str().as_bytes());
    let mut head: Vec<u8> = Vec::new();
    for i in 0..8
        invariant
            digest@.len() == 32,
            head@ == digest@.take(i as int),
    {
        assert(digest@.take(i + 1) == digest@.take(i as int).push(digest@[i as int]));
        head.push(digest[i]);
    }
    proof {
        lemma_hex_lower_len(head@);
    }
    hex_encode(head.as_slice())
}

} // verus!
