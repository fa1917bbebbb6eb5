//! The hash that identifies a plan: SHA-256 of the plan's canonical JSON
//! text, written as `sha256:` and lower-case hex.
use sha2::Digest;
use vstd::prelude::*;

use crate::text::{owned, string_push};

verus! {

/// The SHA-256 digest of `data`.
pub uninterp spec fn sha256(data: Seq<u8>) -> Seq<u8>;

/// `sha2::Sha256::digest`: the SHA-256 digest of `data`, 32 bytes long (the
/// output size of `Sha256`).
#[verifier::external_body]
fn sha256_digest(data: &[u8]) -> (d: Vec<u8>)
    ensures
        d@ == sha256(data@),
        d@.len() == 32,
{
    sha2::Sha256::digest(data).to_vec()
}

/// The lower-case hexadecimal digit of `n` (`n < 16`).
pub open spec fn hex_digit(n: u8) -> char {
    if n < 10 {
        (48 + n) as char
    } else {
        (87 + n) as char
    }
}

/// A byte as two lower-case hexadecimal digits (`{:02x}`).
pub open spec fn hex_byte(b: u8) -> Seq<char> {
    seq![hex_digit(b / 16), hex_digit(b % 16)]
}

/// Bytes as lower-case hexadecimal, two digits each.
pub open spec fn hex(bs: Seq<u8>) -> Seq<char>
    decreases bs.len(),
{
    if bs.len() == 0 {
        Seq::empty()
    } else {
        hex(bs.drop_last()) + hex_byte(bs.last())
    }
}

fn hex_digit_char(n: u8) -> (c: char)
    requires
        n < 16,
    ensures
        c == hex_digit(n),
{
    if n < 10 {
        (48 + n) as char
    } else {
        (87 + n) as char
    }
}

/// The plan hash of a plan's canonical JSON text: `sha256:` followed by the
/// lower-case hex digest of its UTF-8 bytes.
pub fn plan_hash_from_state_json(text: &str) -> (out: String)
    ensures
        out@ == "sha256:"@ + hex(sha256(vstd::utf8::encode_utf8(text@))),
{
    let digest = sha256_digest(text.as_bytes());
    let mut out = owned("sha256:");
    let ghost head = out@;
    let mut i: usize = 0;
    proof {
        assert(digest@.take(0) =~= Seq::<u8>::empty());
        assert(head + hex(digest@.take(0)) =~= head);
    }
    while i < digest.len()
        invariant
            i <= digest@.len(),
            out@ == head + hex(digest@.take(i as int)),
        decreases digest.len() - i,
    {
        let b = digest[i];
        proof {
            assert(digest@.take(i + 1).drop_last() =~= digest@.take(i as int));
            assert(digest@.take(i + 1).last() == b);
        }
        string_push(&mut out, hex_digit_char(b / 16));
        string_push(&mut out, hex_digit_char(b % 16));
        proof {
            assert(out@ =~= head + hex(digest@.take(i + 1)));
        }
        i = i + 1;
    }
    proof {
        assert(digest@.take(i as int) =~= digest@);
    }
    out
}

} // verus!
