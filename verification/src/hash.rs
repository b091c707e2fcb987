//! Content hashes: the digest of a file's bytes as text, by one of three
//! algorithms.

use crate::error::AppError;
use crate::text::{decimal, decimal_string, digit_char};
use vstd::prelude::*;

verus! {

/// The algorithm by which a content hash is computed.
#[derive(Debug, Clone, Copy, PartialEq, Eq, Structural)]
pub enum HashKind {
    /// The cryptographic digest SHA-256, written in lower-case hex.
    Sha256,
    /// The 128-bit MurmurHash3 for 64-bit machines, written in decimal.
    Murmur,
    /// The 64-bit XXH3, written in decimal.
    XxHash,
}

/// The SHA-256 digest of `data`, as `sha2` computes it.
pub uninterp spec fn sha256(data: Seq<u8>) -> Seq<u8>;

/// The 128-bit hash of `data` that `murmur3::murmur3_x64_128` computes
/// from the seed `seed`.
pub uninterp spec fn murmur3_x64_128(data: Seq<u8>, seed: u32) -> u128;

/// The 64-bit hash of `data` that `xxhash_rust::xxh3::xxh3_64` computes.
pub uninterp spec fn xxh3_64(data: Seq<u8>) -> u64;

/// The character that writes the hex digit `d` in lower case.
pub open spec fn hex_char(d: nat) -> char
    recommends
        d < 16,
{
    if d < 10 {
        digit_char(d)
    } else if d == 10 {
        'a'
    } else if d == 11 {
        'b'
    } else if d == 12 {
        'c'
    } else if d == 13 {
        'd'
    } else if d == 14 {
        'e'
    } else {
        'f'
    }
}

/// Bytes in lower-case hex: two digits for each byte, the high one first.
pub open spec fn lower_hex(bytes: Seq<u8>) -> Seq<char> {
    Seq::new(
        2 * bytes.len(),
        |i: int|
            if i % 2 == 0 {
                hex_char((bytes[i / 2] / 16) as nat)
            } else {
                hex_char((bytes[i / 2] % 16) as nat)
            },
    )
}

/// `sha2::Digest::new`, `update` with `data` and `finalize`, on
/// `sha2::Sha256`. The contract names the digest and claims that it has 32
/// bytes.
#[verifier::external_body]
fn sha256_digest(data: &[u8]) -> (r: Vec<u8>)
    ensures
        r@ == sha256(data@),
        r@.len() == 32,
{
    let mut hasher = <sha2::Sha256 as sha2::Digest>::new();
    sha2::Digest::update(&mut hasher, data);
    sha2::Digest::finalize(hasher).to_vec()
}

/// `base16ct::lower::encode_string`: the bytes in lower-case hex. It
/// panics on an input of more than half the largest length, which the
/// contract leaves out.
#[verifier::external_body]
fn hex_string(bytes: &[u8]) -> (r: String)
    requires
        bytes@.len() <= usize::MAX / 2,
    ensures
        r@ == lower_hex(bytes@),
{
    base16ct::lower::encode_string(bytes)
}

/// `murmur3::murmur3_x64_128` reading `data` from memory, with the seed
/// `seed`. An error of the read would be handed out as its message. The
/// contract names the hash and claims that it always comes: the function
/// fails only where the read does, and a read from memory does not.
#[verifier::external_body]
fn murmur_digest(data: &[u8], seed: u32) -> (r: Result<u128, String>)
    ensures
        r is Ok,
        r matches Ok(v) ==> v == murmur3_x64_128(data@, seed),
{
    let mut source = data;
    murmur3::murmur3_x64_128(&mut source, seed).map_err(|e| e.to_string())
}

/// `xxhash_rust::xxh3::xxh3_64` on `data`. The contract names the hash.
#[verifier::external_body]
fn xx_digest(data: &[u8]) -> (r: u64)
    ensures
        r == xxh3_64(data@),
{
    xxhash_rust::xxh3::xxh3_64(data)
}

/// The SHA-256 digest of `data` in lower-case hex: 64 digits for its 32
/// bytes.
pub fn get_hash_sha256(data: &[u8]) -> (r: String)
    ensures
        r@ == lower_hex(sha256(data@)),
        r@.len() == 64,
{
    let digest = sha256_digest(data);
    hex_string(digest.as_slice())
}

/// The text of a Murmur hash that was computed, or the error for one that
/// was not.
pub fn murmur_text(outcome: Result<u128, String>) -> (r: Result<String, AppError>)
    ensures
        match outcome {
            Ok(v) => r matches Ok(s) && s@ == decimal(v as nat),
            Err(message) => r == Err::<String, AppError>(AppError::Io(message)),
        },
{
    match outcome {
        Ok(v) => Ok(decimal_string(v)),
        Err(message) => Err(AppError::Io(message)),
    }
}

/// The 128-bit Murmur hash of `data` in decimal, from the seed 0.
pub fn get_hash_murmur_64(data: &[u8]) -> (r: Result<String, AppError>)
    ensures
        r matches Ok(s) && s@ == decimal(murmur3_x64_128(data@, 0) as nat),
{
    murmur_text(murmur_digest(data, 0))
}

/// The 64-bit XXH3 hash of `data` in decimal.
pub fn get_hash_xx(data: &[u8]) -> (r: String)
    ensures
        r@ == decimal(xxh3_64(data@) as nat),
{
    decimal_string(xx_digest(data) as u128)
}

/// The content hash of `data` by the algorithm `kind`, as text.
pub open spec fn content_hash(data: Seq<u8>, kind: HashKind) -> Seq<char> {
    match kind {
        HashKind::Sha256 => lower_hex(sha256(data)),
        HashKind::Murmur => decimal(murmur3_x64_128(data, 0) as nat),
        HashKind::XxHash => decimal(xxh3_64(data) as nat),
    }
}

/// Hashes the bytes of a file by the algorithm `kind`. Every algorithm
/// gives a hash for every input; that of SHA-256 has 64 digits.
pub fn hash_file(data: &[u8], kind: HashKind) -> (r: Result<String, AppError>)
    ensures
        r matches Ok(s) && s@ == content_hash(data@, kind),
        kind == HashKind::Sha256 ==> (r matches Ok(s) && s@.len() == 64),
{
    match kind {
        HashKind::Sha256 => Ok(get_hash_sha256(data)),
        HashKind::Murmur => get_hash_murmur_64(data),
        HashKind::XxHash => Ok(get_hash_xx(data)),
    }
}

impl HashKind {
    /// The name of the algorithm.
    pub fn name(&self) -> (r: &'static str)
        ensures
            r@ == match *self {
                HashKind::Sha256 => "Sha256"@,
                HashKind::Murmur => "Murmur"@,
                HashKind::XxHash => "XxHash"@,
            },
    {
        match self {
            HashKind::Sha256 => "Sha256",
            HashKind::Murmur => "Murmur",
            HashKind::XxHash => "XxHash",
        }
    }
}

} // verus!
