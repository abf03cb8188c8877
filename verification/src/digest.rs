//! Content fingerprints: SHA-256 of a text, written in lowercase hexadecimal.
use sha2::Digest;
use vstd::prelude::*;

verus! {

/// The SHA-256 digest of `data` (`sha2::Sha256::digest`).
pub uninterp spec fn sha256_digest(data: Seq<u8>) -> Seq<u8>;

/// Calls `sha2::Sha256::digest` and copies the digest into a vector. Claims:
/// the bytes are `sha256_digest(data)`, and there are 32 of them (the
/// algorithm's fixed output size, `U32` in the crate).
#[verifier::external_body]
fn sha256(data: &[u8]) -> (out: Vec<u8>)
    ensures
        out@ == sha256_digest(data@),
        out@.len() == 32,
{
    sha2::Sha256::digest(data).to_vec()
}

/// The lowercase hexadecimal digit of `v` (below 16).
pub open spec fn hex_digit(v: int) -> char {
    if v < 10 {
        (v + 48) as char
    } else {
        (v + 87) as char
    }
}

/// Each byte written as two lowercase hexadecimal digits, high nibble first.
pub open spec fn hex_lower(bytes: Seq<u8>) -> Seq<char>
    decreases bytes.len(),
{
    if bytes.len() == 0 {
        seq![]
    } else {
        hex_lower(bytes.drop_last()) + seq![
            hex_digit(bytes.last() as int / 16),
            hex_digit(bytes.last() as int % 16),
        ]
    }
}

/// The fingerprint of a text: its UTF-8 bytes hashed with SHA-256, in hex.
pub open spec fn content_hash(content: Seq<char>) -> Seq<char> {
    hex_lower(sha256_digest(vstd::utf8::encode_utf8(content)))
}

/// Every element of the hex encoding is a lowercase hexadecimal digit, and
/// there are two per byte.
pub proof fn lemma_hex_lower_shape(bytes: Seq<u8>)
    ensures
        hex_lower(bytes).len() == 2 * bytes.len(),
        forall|i: int|
            0 <= i < hex_lower(bytes).len() ==> {
                let c = #[trigger] hex_lower(bytes)[i];
                ('0' <= c <= '9') || ('a' <= c <= 'f')
            },
    decreases bytes.len(),
{
    if bytes.len() > 0 {
        lemma_hex_lower_shape(bytes.drop_last());
        let prev = hex_lower(bytes.drop_last());
        let tail = seq![hex_digit(bytes.last() as int / 16), hex_digit(bytes.last() as int % 16)];
        assert forall|i: int| 0 <= i < hex_lower(bytes).len() implies {
            let c = #[trigger] hex_lower(bytes)[i];
            ('0' <= c <= '9') || ('a' <= c <= 'f')
        } by {
            if i < prev.len() {
                assert(hex_lower(bytes)[i] == prev[i]);
            } else {
                assert(hex_lower(bytes)[i] == tail[i - prev.len()]);
            }
        }
    }
}

/// Byte `i` of the input is written at positions `2 * i` (its high nibble)
/// and `2 * i + 1` (its low nibble) of the hex encoding, as the digits
/// `0`-`9` then `a`-`f`.
pub proof fn lemma_hex_lower_digits(bytes: Seq<u8>)
    ensures
        hex_lower(bytes).len() == 2 * bytes.len(),
        forall|i: int|
            0 <= i < bytes.len() ==> {
                &&& hex_lower(bytes)[2 * i] == hex_digit(#[trigger] bytes[i] as int / 16)
                &&& hex_lower(bytes)[2 * i + 1] == hex_digit(bytes[i] as int % 16)
            },
        forall|v: int| 0 <= v < 10 ==> #[trigger] hex_digit(v) as int == 48 + v,
        forall|v: int| 10 <= v < 16 ==> #[trigger] hex_digit(v) as int == 87 + v,
    decreases bytes.len(),
{
    lemma_hex_lower_shape(bytes);
    if bytes.len() > 0 {
        let init = bytes.drop_last();
        lemma_hex_lower_digits(init);
        let prev = hex_lower(init);
        assert forall|i: int| 0 <= i < bytes.len() implies {
            &&& hex_lower(bytes)[2 * i] == hex_digit(#[trigger] bytes[i] as int / 16)
            &&& hex_lower(bytes)[2 * i + 1] == hex_digit(bytes[i] as int % 16)
        } by {
            if i < init.len() {
                assert(init[i] == bytes[i]);
                assert(hex_lower(bytes)[2 * i] == prev[2 * i]);
                assert(hex_lower(bytes)[2 * i + 1] == prev[2 * i + 1]);
            }
        }
    }
}

/// The lowercase hexadecimal digit of `v`.
fn hex_digit_char(v: u8) -> (c: char)
    requires
        v < 16,
    ensures
        c == hex_digit(v as int),
{
    if v < 10 {
        (v + 48) as char
    } else {
        (v + 87) as char
    }
}

/// Writes `bytes` as lowercase hexadecimal, two digits per byte.
pub fn to_hex_lower(bytes: &[u8]) -> (s: String)
    ensures
        s@ == hex_lower(bytes@),
{
    let mut s = String::new();
    let mut i: usize = 0;
    while i < bytes.len()
        invariant
            i <= bytes@.len(),
            s@ == hex_lower(bytes@.take(i as int)),
        decreases bytes.len() - i,
    {
        let b = bytes[i];
        crate::text::push_char(&mut s, hex_digit_char(b / 16));
        crate::text::push_char(&mut s, hex_digit_char(b % 16));
        assert(bytes@.take(i + 1).drop_last() =~= bytes@.take(i as int));
        i = i + 1;
    }
    assert(bytes@.take(bytes@.len() as int) =~= bytes@);
    s
}

/// The fingerprint of `content`: SHA-256 of its UTF-8 bytes, in lowercase hex
/// (64 characters).
pub fn content_hash_of(content: &str) -> (h: String)
    ensures
        h@ == content_hash(content@),
        h@ == hex_lower(sha256_digest(vstd::utf8::encode_utf8(content@))),
        h@.len() == 64,
{
    let digest = sha256(content.as_bytes());
    let h = to_hex_lower(digest.as_slice());
    proof {
        lemma_hex_lower_shape(digest@);
    }
    h
}

} // verus!
