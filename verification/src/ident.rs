//! Identifiers: digests of texts, and random ones.

use sha2::Digest;
use vstd::prelude::*;
use vstd::string::*;
use vstd::utf8::*;

verus! {

/// The SHA-256 digest of some bytes.
pub uninterp spec fn sha256(bytes: Seq<u8>) -> Seq<u8>;

/// `sha2::Sha256::digest`: the digest depends on the bytes alone and has 32
/// bytes.
#[verifier::external_body]
pub(crate) fn sha256_digest(bytes: &[u8]) -> (r: Vec<u8>)
    ensures
        r@ == sha256(bytes@),
        r@.len() == 32,
{
    sha2::Sha256::digest(bytes).to_vec()
}

/// `uuid::Uuid::new_v4`, written with hyphens: 36 characters. Which ones is up
/// to chance.
#[verifier::external_body]
pub(crate) fn fresh_id() -> (r: String)
    ensures
        r@.len() == 36,
{
    uuid::Uuid::new_v4().to_string()
}

pub open spec fn hex_digit(d: int) -> char {
    if d < 10 {
        (48 + d) as char
    } else {
        (87 + d) as char
    }
}

/// The bytes in hexadecimal, two small digits each.
pub open spec fn hex(bytes: Seq<u8>) -> Seq<char>
    decreases bytes.len(),
{
    if bytes.len() == 0 {
        Seq::empty()
    } else {
        hex(bytes.drop_last()).push(hex_digit(bytes.last() as int / 16)).push(
            hex_digit(bytes.last() as int % 16),
        )
    }
}

fn digit_of(d: u8) -> (r: char)
    requires
        d < 16,
    ensures
        r == hex_digit(d as int),
{
    let code: u8 = if d < 10 {
        48 + d
    } else {
        87 + d
    };
    code as char
}

pub proof fn lemma_hex_len(bytes: Seq<u8>)
    ensures
        hex(bytes).len() == 2 * bytes.len(),
    decreases bytes.len(),
{
    if bytes.len() > 0 {
        lemma_hex_len(bytes.drop_last());
    }
}

/// The first `count` bytes in hexadecimal.
pub fn hex_of(bytes: &[u8], count: usize) -> (r: String)
    requires
        count <= bytes@.len(),
    ensures
        r@ == hex(bytes@.take(count as int)),
{
    let mut out: String = String::new();
    let mut i: usize = 0;
    assert(bytes@.take(0) =~= Seq::<u8>::empty());
    while i < count
        invariant
            i <= count <= bytes@.len(),
            out@ == hex(bytes@.take(i as int)),
        decreases count - i,
    {
        assert(bytes@.take(i + 1).drop_last() =~= bytes@.take(i as int));
        out.push(digit_of(bytes[i] / 16));
        out.push(digit_of(bytes[i] % 16));
        i = i + 1;
    }
    out
}

/// The start of a text's digest: the first `count` bytes in hexadecimal.
pub open spec fn short_digest(text: Seq<char>, count: int) -> Seq<char> {
    hex(sha256(encode_utf8(text)).take(count))
}

pub fn text_digest(text: &str, count: usize) -> (r: String)
    requires
        count <= 32,
    ensures
        r@ == short_digest(text@, count as int),
        r@.len() == 2 * count,
{
    let digest = sha256_digest(text.as_bytes());
    proof {
        lemma_hex_len(digest@.take(count as int));
    }
    hex_of(digest.as_slice(), count)
}

/// What a digit of a hexadecimal number says.
pub open spec fn nibble(c: char) -> int {
    if c <= '9' {
        c as int - '0' as int
    } else {
        c as int - 'a' as int + 10
    }
}

/// Two digits say each byte, the upper half first.
pub proof fn law_digits_say_the_bytes(bytes: Seq<u8>, i: int)
    requires
        0 <= i < bytes.len(),
    ensures
        hex(bytes).len() == 2 * bytes.len(),
        16 * nibble(hex(bytes)[2 * i]) + nibble(hex(bytes)[2 * i + 1]) == bytes[i],
        0 <= nibble(hex(bytes)[2 * i]) < 16,
        0 <= nibble(hex(bytes)[2 * i + 1]) < 16,
    decreases bytes.len(),
{
    let init = bytes.drop_last();
    let b = bytes.last() as int;
    if init.len() > 0 {
        law_digits_say_the_bytes(
            init,
            if i < init.len() {
                i
            } else {
                0
            },
        );
    }
    assert(hex(init).len() == 2 * init.len());
    assert(b == 16 * (b / 16) + b % 16);
    if i < init.len() {
        assert(init[i] == bytes[i]);
    }
}

} // verus!
