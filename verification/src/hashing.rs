//! Fingerprinting of file contents.
//!
//! Every file gets an xxh3-64 fingerprint; a SHA-256 digest is computed in
//! addition exactly for videos and for files under 64 MiB.  The digests
//! themselves come from outside crates and are named, not restated.

use vstd::prelude::*;
use vstd::string::StringExecFns;

verus! {

/// Files of this size or larger skip the SHA-256 digest unless they are
/// videos.
pub const SHA256_SIZE_LIMIT: i64 = 67108864;

/// Files of this size or larger are read through a memory map.
pub const MMAP_THRESHOLD: i64 = 8388608;

/// The SHA-256 digest of a byte string.
pub uninterp spec fn sha256_of(data: Seq<u8>) -> Seq<u8>;

/// The xxh3-64 fingerprint of a byte string.
pub uninterp spec fn xxh3_of(data: Seq<u8>) -> u64;

/// Relies on `sha2::Sha256::digest`: the result is the 32-byte SHA-256
/// digest of the input, a function of the input alone.
#[verifier::external_body]
pub fn sha256_digest(data: &[u8]) -> (r: Vec<u8>)
    ensures
        r@ == sha256_of(data@),
        r@.len() == 32,
{
    <sha2::Sha256 as sha2::Digest>::digest(data).to_vec()
}

/// Relies on `xxhash_rust::xxh3::xxh3_64`: the result is the 64-bit xxh3
/// hash of the input, a function of the input alone.
#[verifier::external_body]
pub fn xxh3_digest(data: &[u8]) -> (r: u64)
    ensures
        r == xxh3_of(data@),
{
    xxhash_rust::xxh3::xxh3_64(data)
}

/// The lowercase hex digit for a nibble.
pub open spec fn hex_digit_char(n: u8) -> char
    recommends
        n < 16,
{
    if n < 10 {
        (48 + n) as char
    } else {
        (87 + n) as char
    }
}

/// The lowercase hex rendering of a byte string, high nibble first.
pub open spec fn hex_chars_of(s: Seq<u8>) -> Seq<char>
    decreases s.len(),
{
    if s.len() == 0 {
        Seq::empty()
    } else {
        hex_chars_of(s.drop_last()) + seq![
            hex_digit_char(s.last() / 16),
            hex_digit_char(s.last() % 16),
        ]
    }
}

/// A one-character string for a hex digit.
fn hex_digit_str(n: u8) -> (r: &'static str)
    requires
        n < 16,
    ensures
        r@ =~= seq![hex_digit_char(n)],
{
    proof {
        reveal_strlit("0");
        reveal_strlit("1");
        reveal_strlit("2");
        reveal_strlit("3");
        reveal_strlit("4");
        reveal_strlit("5");
        reveal_strlit("6");
        reveal_strlit("7");
        reveal_strlit("8");
        reveal_strlit("9");
        reveal_strlit("a");
        reveal_strlit("b");
        reveal_strlit("c");
        reveal_strlit("d");
        reveal_strlit("e");
        reveal_strlit("f");
    }
    match n {
        0 => "0",
        1 => "1",
        2 => "2",
        3 => "3",
        4 => "4",
        5 => "5",
        6 => "6",
        7 => "7",
        8 => "8",
        9 => "9",
        10 => "a",
        11 => "b",
        12 => "c",
        13 => "d",
        14 => "e",
        _ => "f",
    }
}

/// Render bytes as lowercase hex, two digits per byte, high nibble first.
pub fn hex_encode(data: &[u8]) -> (r: String)
    ensures
        r@ == hex_chars_of(data@),
{
    let mut r = String::new();
    let mut i: usize = 0;
    proof {
        assert(data@.take(0) =~= Seq::<u8>::empty());
        assert(r@ =~= hex_chars_of(data@.take(0)));
    }
    while i < data.len()
        invariant
            i <= data@.len(),
            r@ == hex_chars_of(data@.take(i as int)),
        decreases data@.len() - i,
    {
        let b = data[i];
        r.append(hex_digit_str(b / 16));
        r.append(hex_digit_str(b % 16));
        i = i + 1;
        proof {
            assert(data@.take(i as int).drop_last() =~= data@.take(i - 1));
            assert(data@.take(i as int).last() == data@[i - 1]);
            assert(r@ =~= hex_chars_of(data@.take(i as int)));
        }
    }
    proof {
        assert(data@.take(data@.len() as int) =~= data@);
    }
    r
}

/// Hex renderings are ASCII and twice the input length.
pub proof fn lemma_hex_chars_ascii(s: Seq<u8>)
    ensures
        hex_chars_of(s).len() == 2 * s.len(),
        vstd::utf8::is_ascii_chars(hex_chars_of(s)),
    decreases s.len(),
{
    if s.len() > 0 {
        lemma_hex_chars_ascii(s.drop_last());
    }
}

/// Whether a file of this kind and size gets a SHA-256 digest: all videos
/// do, and so does anything under the size limit.
pub open spec fn spec_needs_sha256(is_video: bool, size_bytes: i64) -> bool {
    is_video || size_bytes < SHA256_SIZE_LIMIT
}

pub fn needs_sha256(is_video: bool, size_bytes: i64) -> (r: bool)
    ensures
        r == spec_needs_sha256(is_video, size_bytes),
{
    is_video || size_bytes < SHA256_SIZE_LIMIT
}

/// Whether a file of this size is hashed through a memory map rather than a
/// buffered reader.
pub fn uses_mmap(size_bytes: i64) -> (r: bool)
    ensures
        r == (size_bytes >= MMAP_THRESHOLD),
{
    size_bytes >= MMAP_THRESHOLD
}

/// The fingerprints computed for one file.
pub struct HashOutcome {
    pub xxh64: u64,
    pub sha256: Option<Vec<u8>>,
}

/// Hash a file's contents: always xxh3-64, and SHA-256 exactly when the
/// policy for this kind and size asks for it.
pub fn hash_bytes(data: &[u8], is_video: bool, size_bytes: i64) -> (r: HashOutcome)
    ensures
        r.xxh64 == xxh3_of(data@),
        match r.sha256 {
            Some(d) => spec_needs_sha256(is_video, size_bytes) && d@ == sha256_of(data@)
                && d@.len() == 32,
            None => !spec_needs_sha256(is_video, size_bytes),
        },
{
    let xxh64 = xxh3_digest(data);
    let sha256 = if needs_sha256(is_video, size_bytes) {
        Some(sha256_digest(data))
    } else {
        None
    };
    HashOutcome { xxh64, sha256 }
}

} // verus!
