//! Content hashing for integrity checks.
//!
//! The digest itself comes from the `sha2` crate; everything around it —
//! hex encoding and the case-insensitive comparison the verifier uses — is
//! verified code.

use vstd::prelude::*;

use crate::text::{eq_ignore_case, eq_str_ignore_case, string_of};
use sha2::Digest;

verus! {

/// The SHA-256 digest of a byte sequence.  The digest is a function of the
/// bytes alone, so two hashes of equal contents are equal.
pub uninterp spec fn sha256_of(data: Seq<u8>) -> Seq<u8>;

/// Relies on `sha2::Sha256::digest`: the 32-byte SHA-256 digest of the
/// input, a function of the input bytes alone.
#[verifier::external_body]
fn sha256_digest(data: &Vec<u8>) -> (r: Vec<u8>)
    ensures
        r@ == sha256_of(data@),
        r@.len() == 32,
{
    sha2::Sha256::digest(data.as_slice()).to_vec()
}

/// The upper-case hex character for a value below sixteen.
pub open spec fn hex_char(n: int) -> char {
    if n == 0 {
        '0'
    } else if n == 1 {
        '1'
    } else if n == 2 {
        '2'
    } else if n == 3 {
        '3'
    } else if n == 4 {
        '4'
    } else if n == 5 {
        '5'
    } else if n == 6 {
        '6'
    } else if n == 7 {
        '7'
    } else if n == 8 {
        '8'
    } else if n == 9 {
        '9'
    } else if n == 10 {
        'A'
    } else if n == 11 {
        'B'
    } else if n == 12 {
        'C'
    } else if n == 13 {
        'D'
    } else if n == 14 {
        'E'
    } else {
        'F'
    }
}

/// Upper-case hex encoding: two characters per byte, high nibble first.
pub open spec fn hex_upper(data: Seq<u8>) -> Seq<char>
    decreases data.len(),
{
    if data.len() == 0 {
        Seq::empty()
    } else {
        hex_upper(data.drop_last()) + seq![
            hex_char(data.last() as int / 16),
            hex_char(data.last() as int % 16),
        ]
    }
}

fn hex_char_of(n: u8) -> (r: char)
    requires
        n < 16,
    ensures
        r == hex_char(n as int),
{
    match n {
        0 => '0',
        1 => '1',
        2 => '2',
        3 => '3',
        4 => '4',
        5 => '5',
        6 => '6',
        7 => '7',
        8 => '8',
        9 => '9',
        10 => 'A',
        11 => 'B',
        12 => 'C',
        13 => 'D',
        14 => 'E',
        _ => 'F',
    }
}

/// The hex string of a byte vector, upper-case, as the release tooling
/// writes hashes into manifests.
pub fn hex_upper_of(data: &Vec<u8>) -> (r: String)
    ensures
        r@ == hex_upper(data@),
{
    let mut out: Vec<char> = Vec::new();
    let mut i: usize = 0;
    while i < data.len()
        invariant
            i <= data@.len(),
            out@ == hex_upper(data@.subrange(0, i as int)),
        decreases data@.len() - i,
    {
        let b = data[i];
        out.push(hex_char_of(b / 16));
        out.push(hex_char_of(b % 16));
        i += 1;
        proof {
            let prefix = data@.subrange(0, i as int);
            assert(prefix.drop_last() =~= data@.subrange(0, i - 1));
            assert(prefix.last() == data@[i - 1]);
            assert(out@ =~= hex_upper(prefix));
        }
    }
    proof {
        assert(data@.subrange(0, data@.len() as int) =~= data@);
    }
    string_of(&out)
}

/// A hex rendering has two characters per byte.
pub proof fn lemma_hex_upper_len(s: Seq<u8>)
    ensures
        hex_upper(s).len() == 2 * s.len(),
    decreases s.len(),
{
    if s.len() > 0 {
        lemma_hex_upper_len(s.drop_last());
    }
}

/// Hashes a buffer with SHA-256 and returns the upper-case hex digest, the
/// form in which manifests carry content hashes: sixty-four characters,
/// two per digest byte.
pub fn sha_256(data: &Vec<u8>) -> (r: String)
    ensures
        r@ == hex_upper(sha256_of(data@)),
        r@.len() == 64,
{
    let digest = sha256_digest(data);
    proof {
        lemma_hex_upper_len(digest@);
    }
    hex_upper_of(&digest)
}

/// Whether a computed hash matches an expected one.  Hashes compare as hex
/// text, byte for byte but ignoring case, so the manifest may carry either
/// case.
pub fn hashes_match(local: &String, expected: &String) -> (r: bool)
    ensures
        r == eq_ignore_case(local@, expected@),
{
    eq_str_ignore_case(local.as_str(), expected.as_str())
}

/// Hashing is deterministic: hashing the same bytes again — a file that has
/// not changed — always yields the same digest.
pub proof fn lemma_hash_deterministic(a: Seq<u8>, b: Seq<u8>)
    requires
        a == b,
    ensures
        sha256_of(a) == sha256_of(b),
        hex_upper(sha256_of(a)) == hex_upper(sha256_of(b)),
{
}

} // verus!
