//! Checksums of bytes, printed as lower-case hexadecimal.
use vstd::prelude::*;
use crate::num::{hex_of, push_hex};
use md5::Md5;
use sha1::Sha1;
use sha2::{Digest, Sha256};

verus! {

/// The SHA-256 digest of the bytes.
pub uninterp spec fn sha256_of(input: Seq<u8>) -> Seq<u8>;

/// The SHA-1 digest of the bytes.
pub uninterp spec fn sha1_of(input: Seq<u8>) -> Seq<u8>;

/// The MD5 digest of the bytes.
pub uninterp spec fn md5_of(input: Seq<u8>) -> Seq<u8>;

/// The CRC-32 checksum of the bytes.
pub uninterp spec fn crc32_of(input: Seq<u8>) -> u32;

/// `Sha256::digest` (sha2): the 32-byte digest. The digest is named, not
/// stated.
#[verifier::external_body]
fn sha256_digest(input: &[u8]) -> (res: Vec<u8>)
    ensures
        res@ == sha256_of(input@),
        res@.len() == 32,
{
    Sha256::digest(input).to_vec()
}

/// `Sha1::digest` (sha1): the 20-byte digest. The digest is named, not
/// stated.
#[verifier::external_body]
fn sha1_digest(input: &[u8]) -> (res: Vec<u8>)
    ensures
        res@ == sha1_of(input@),
        res@.len() == 20,
{
    Sha1::digest(input).to_vec()
}

/// `Md5::digest` (md-5): the 16-byte digest. The digest is named, not
/// stated.
#[verifier::external_body]
fn md5_digest(input: &[u8]) -> (res: Vec<u8>)
    ensures
        res@ == md5_of(input@),
        res@.len() == 16,
{
    Md5::digest(input).to_vec()
}

/// `crc32fast::hash`: the CRC-32 checksum. The checksum is named, not
/// stated.
#[verifier::external_body]
fn crc32_hash(input: &[u8]) -> (res: u32)
    ensures
        res == crc32_of(input@),
{
    crc32fast::hash(input)
}

/// The bytes of a `u32`, most significant first.
pub open spec fn u32_be(v: u32) -> Seq<u8> {
    seq![
        (v / 0x1000000) as u8,
        ((v / 0x10000) % 256) as u8,
        ((v / 0x100) % 256) as u8,
        (v % 256) as u8,
    ]
}

/// The SHA-256 digest in lower-case hexadecimal.
pub fn sha256(input: &[u8]) -> (res: String)
    ensures
        res@ == hex_of(sha256_of(input@), false),
{
    let d = sha256_digest(input);
    let mut out = String::new();
    push_hex(&mut out, d.as_slice(), false);
    out
}

/// The SHA-1 digest in lower-case hexadecimal.
pub fn sha1(input: &[u8]) -> (res: String)
    ensures
        res@ == hex_of(sha1_of(input@), false),
{
    let d = sha1_digest(input);
    let mut out = String::new();
    push_hex(&mut out, d.as_slice(), false);
    out
}

/// The MD5 digest in lower-case hexadecimal.
pub fn md5(input: &[u8]) -> (res: String)
    ensures
        res@ == hex_of(md5_of(input@), false),
{
    let d = md5_digest(input);
    let mut out = String::new();
    push_hex(&mut out, d.as_slice(), false);
    out
}

/// The CRC-32 checksum as eight lower-case hexadecimal digits.
pub fn crc32(input: &[u8]) -> (res: String)
    ensures
        res@ == hex_of(u32_be(crc32_of(input@)), false),
{
    let v = crc32_hash(input);
    let bytes: Vec<u8> = vec![
        (v / 0x1000000) as u8,
        ((v / 0x10000) % 256) as u8,
        ((v / 0x100) % 256) as u8,
        (v % 256) as u8,
    ];
    proof {
        assert(bytes@ == u32_be(v));
    }
    let mut out = String::new();
    push_hex(&mut out, bytes.as_slice(), false);
    out
}

} // verus!
