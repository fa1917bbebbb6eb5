//! Standard base64 (RFC 4648 alphabet, `=` padding), used to inline image
//! bytes into request bodies.
use vstd::prelude::*;

use crate::text::string_push;

verus! {

/// The base64 alphabet: `A-Z`, `a-z`, `0-9`, `+`, `/`.
pub open spec fn b64_digit(n: int) -> char {
    if n < 26 {
        (65 + n) as char
    } else if n < 52 {
        (97 + (n - 26)) as char
    } else if n < 62 {
        (48 + (n - 52)) as char
    } else if n == 62 {
        '+'
    } else {
        '/'
    }
}

/// The four characters that encode the three bytes `a b c`.
pub open spec fn quad(a8: u8, b8: u8, c8: u8) -> Seq<char> {
    let (a, b, c) = (a8 as int, b8 as int, c8 as int);
    seq![
        b64_digit(a / 4),
        b64_digit((a % 4) * 16 + b / 16),
        b64_digit((b % 16) * 4 + c / 64),
        b64_digit(c % 64),
    ]
}

/// The base64 encoding of `s`: each group of three bytes becomes four
/// characters; a final group of two or one byte is padded with `=`.
pub open spec fn base64(s: Seq<u8>) -> Seq<char>
    decreases s.len(),
{
    if s.len() >= 3 {
        quad(s[0], s[1], s[2]) + base64(s.skip(3))
    } else if s.len() == 2 {
        let (a, b) = (s[0] as int, s[1] as int);
        seq![b64_digit(a / 4), b64_digit((a % 4) * 16 + b / 16), b64_digit((b % 16) * 4), '=']
    } else if s.len() == 1 {
        let a = s[0] as int;
        seq![b64_digit(a / 4), b64_digit((a % 4) * 16), '=', '=']
    } else {
        Seq::empty()
    }
}

/// Encoding distributes over concatenation when the first part is a whole
/// number of three-byte groups.
pub proof fn lemma_base64_concat(x: Seq<u8>, y: Seq<u8>)
    requires
        x.len() % 3 == 0,
    ensures
        base64(x + y) == base64(x) + base64(y),
    decreases x.len(),
{
    if x.len() == 0 {
        assert(x + y =~= y);
        assert(base64(x) + base64(y) =~= base64(y));
    } else {
        let xy = x + y;
        assert(xy.skip(3) =~= x.skip(3) + y);
        assert(xy[0] == x[0] && xy[1] == x[1] && xy[2] == x[2]);
        lemma_base64_concat(x.skip(3), y);
        assert(base64(xy) =~= base64(x) + base64(y));
    }
}

/// The encoding has four characters per started group of three bytes.
pub proof fn lemma_base64_len(s: Seq<u8>)
    ensures
        base64(s).len() == 4 * ((s.len() + 2) / 3),
    decreases s.len(),
{
    if s.len() >= 3 {
        lemma_base64_len(s.skip(3));
    }
}

/// Every character of an encoding is in the alphabet or is `=` padding, and
/// padding only occurs in the last two positions.
pub proof fn lemma_base64_padding_at_end(s: Seq<u8>, i: int)
    requires
        0 <= i < base64(s).len(),
        base64(s)[i] == '=',
    ensures
        i >= base64(s).len() - 2,
        s.len() % 3 != 0,
    decreases s.len(),
{
    lemma_base64_len(s);
    if s.len() >= 3 {
        if i < 4 {
            let q = quad(s[0], s[1], s[2]);
            assert(base64(s)[i] == q[i]);
            assert(s[0] / 4 < 64);
            assert((s[0] % 4) * 16 + s[1] / 16 < 64);
            assert((s[1] % 16) * 4 + s[2] / 64 < 64);
            assert(s[2] % 64 < 64);
            assert(false);
        } else {
            assert(base64(s)[i] == base64(s.skip(3))[i - 4]);
            lemma_base64_padding_at_end(s.skip(3), i - 4);
            lemma_base64_len(s.skip(3));
        }
    } else if s.len() == 2 {
        assert(s[0] / 4 < 64);
        assert((s[0] % 4) * 16 + s[1] / 16 < 64);
        assert((s[1] % 16) * 4 < 64);
    } else if s.len() == 1 {
        assert(s[0] / 4 < 64);
        assert((s[0] % 4) * 16 < 64);
    }
}

/// The alphabet character for `n < 64`.
fn b64_digit_exec(n: u32) -> (c: char)
    requires
        n < 64,
    ensures
        c == b64_digit(n as int),
{
    if n < 26 {
        (65 + n as u8) as char
    } else if n < 52 {
        (97 + (n - 26) as u8) as char
    } else if n < 62 {
        (48 + (n - 52) as u8) as char
    } else if n == 62 {
        '+'
    } else {
        '/'
    }
}

proof fn lemma_quad_bits(a: u32, b: u32, c: u32)
    requires
        a < 256,
        b < 256,
        c < 256,
    ensures
        ((((a << 16) | (b << 8) | c) >> 18) & 63) == a / 4,
        ((((a << 16) | (b << 8) | c) >> 12) & 63) == (a % 4) * 16 + b / 16,
        ((((a << 16) | (b << 8) | c) >> 6) & 63) == (b % 16) * 4 + c / 64,
        (((a << 16) | (b << 8) | c) & 63) == c % 64,
{
    assert(((((a << 16) | (b << 8) | c) >> 18) & 63) == a / 4) by (bit_vector)
        requires
            a < 256,
            b < 256,
            c < 256,
    ;
    assert(((((a << 16) | (b << 8) | c) >> 12) & 63) == (a % 4) * 16 + b / 16) by (bit_vector)
        requires
            a < 256,
            b < 256,
            c < 256,
    ;
    assert(((((a << 16) | (b << 8) | c) >> 6) & 63) == (b % 16) * 4 + c / 64) by (bit_vector)
        requires
            a < 256,
            b < 256,
            c < 256,
    ;
    assert((((a << 16) | (b << 8) | c) & 63) == c % 64) by (bit_vector)
        requires
            a < 256,
            b < 256,
            c < 256,
    ;
}

/// Encodes bytes as standard padded base64.
pub fn base64_encode(bytes: &[u8]) -> (out: String)
    ensures
        out@ == base64(bytes@),
{
    let mut out = String::new();
    let len = bytes.len();
    let mut i: usize = 0;
    while len - i >= 3
        invariant
            i % 3 == 0,
            i <= len,
            len == bytes@.len(),
            out@ == base64(bytes@.take(i as int)),
        decreases len - i,
    {
        let a = bytes[i] as u32;
        let b = bytes[i + 1] as u32;
        let c = bytes[i + 2] as u32;
        let n = (a << 16) | (b << 8) | c;
        proof {
            lemma_quad_bits(a, b, c);
        }
        string_push(&mut out, b64_digit_exec((n >> 18) & 63));
        string_push(&mut out, b64_digit_exec((n >> 12) & 63));
        string_push(&mut out, b64_digit_exec((n >> 6) & 63));
        string_push(&mut out, b64_digit_exec(n & 63));
        proof {
            let group = bytes@.subrange(i as int, i + 3);
            assert(bytes@.take(i + 3) =~= bytes@.take(i as int) + group);
            lemma_base64_concat(bytes@.take(i as int), group);
            assert(group.skip(3) =~= Seq::<u8>::empty());
            assert(base64(group.skip(3)) =~= Seq::<char>::empty());
            assert(group[0] == bytes@[i as int] && group[1] == bytes@[i + 1] && group[2] == bytes@[i + 2]);
            assert(base64(group) =~= quad(bytes@[i as int], bytes@[i + 1], bytes@[i + 2]));
        }
        i = i + 3;
    }
    let rem = len - i;
    proof {
        assert(bytes@ =~= bytes@.take(i as int) + bytes@.skip(i as int));
        lemma_base64_concat(bytes@.take(i as int), bytes@.skip(i as int));
    }
    if rem == 1 {
        let a = bytes[i] as u32;
        let n = a << 16;
        assert((((a << 16) >> 18) & 63) == a / 4 && (((a << 16) >> 12) & 63) == (a % 4) * 16)
            by (bit_vector)
            requires
                a < 256,
        ;
        string_push(&mut out, b64_digit_exec((n >> 18) & 63));
        string_push(&mut out, b64_digit_exec((n >> 12) & 63));
        string_push(&mut out, '=');
        string_push(&mut out, '=');
        proof {
            let r = bytes@.skip(i as int);
            assert(r.len() == 1 && r[0] == bytes@[i as int]);
            assert(out@ =~= base64(bytes@.take(i as int)) + base64(r));
        }
    } else if rem == 2 {
        let a = bytes[i] as u32;
        let b = bytes[i + 1] as u32;
        let n = (a << 16) | (b << 8);
        assert(((((a << 16) | (b << 8)) >> 18) & 63) == a / 4 && ((((a << 16) | (b << 8)) >> 12)
            & 63) == (a % 4) * 16 + b / 16 && ((((a << 16) | (b << 8)) >> 6) & 63) == (b % 16) * 4)
            by (bit_vector)
            requires
                a < 256,
                b < 256,
        ;
        string_push(&mut out, b64_digit_exec((n >> 18) & 63));
        string_push(&mut out, b64_digit_exec((n >> 12) & 63));
        string_push(&mut out, b64_digit_exec((n >> 6) & 63));
        string_push(&mut out, '=');
        proof {
            let r = bytes@.skip(i as int);
            assert(r.len() == 2 && r[0] == bytes@[i as int] && r[1] == bytes@[i + 1]);
            assert(out@ =~= base64(bytes@.take(i as int)) + base64(r));
        }
    } else {
        proof {
            assert(bytes@.skip(i as int).len() == 0);
            assert(out@ =~= base64(bytes@.take(i as int)) + base64(bytes@.skip(i as int)));
        }
    }
    out
}

} // verus!
