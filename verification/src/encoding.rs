//! Standard base64 (RFC 4648 alphabet, `=` padding), for embedding bytes in text.
use vstd::prelude::*;

use crate::text::string_of;

verus! {

/// The alphabet: `A-Z`, `a-z`, `0-9`, `+`, `/`.
pub open spec fn b64_digit(v: int) -> char {
    if v < 26 {
        (65 + v) as char
    } else if v < 52 {
        (97 + (v - 26)) as char
    } else if v < 62 {
        (48 + (v - 52)) as char
    } else if v == 62 {
        '+'
    } else {
        '/'
    }
}

/// One group of up to three bytes as four characters; missing bytes count as
/// zero bits and their characters as `=`.
pub open spec fn b64_group(b0: int, b1: Option<int>, b2: Option<int>) -> Seq<char> {
    let x1 = match b1 {
        Some(v) => v,
        None => 0,
    };
    let x2 = match b2 {
        Some(v) => v,
        None => 0,
    };
    seq![
        b64_digit(b0 / 4),
        b64_digit((b0 % 4) * 16 + x1 / 16),
        if b1 is Some {
            b64_digit((x1 % 16) * 4 + x2 / 64)
        } else {
            '='
        },
        if b2 is Some {
            b64_digit(x2 % 64)
        } else {
            '='
        },
    ]
}

/// The base64 text of `b`, group by group.
pub open spec fn spec_base64(b: Seq<u8>) -> Seq<char>
    decreases b.len(),
{
    if b.len() == 0 {
        Seq::empty()
    } else if b.len() == 1 {
        b64_group(b[0] as int, None, None)
    } else if b.len() == 2 {
        b64_group(b[0] as int, Some(b[1] as int), None)
    } else {
        b64_group(b[0] as int, Some(b[1] as int), Some(b[2] as int)) + spec_base64(b.skip(3))
    }
}

/// Four characters for every started group of three bytes.
pub proof fn lemma_base64_len(b: Seq<u8>)
    ensures
        spec_base64(b).len() == 4 * ((b.len() + 2) / 3),
    decreases b.len(),
{
    if b.len() > 2 {
        lemma_base64_len(b.skip(3));
    }
}

fn digit(v: u32) -> (c: char)
    requires
        v < 64,
    ensures
        c == b64_digit(v as int),
{
    if v < 26 {
        char_of(65 + v)
    } else if v < 52 {
        char_of(97 + (v - 26))
    } else if v < 62 {
        char_of(48 + (v - 52))
    } else if v == 62 {
        '+'
    } else {
        '/'
    }
}

fn char_of(v: u32) -> (c: char)
    requires
        v < 128,
    ensures
        c == v as char,
{
    (v as u8) as char
}

/// Encodes bytes as base64 with padding.
pub fn base64_encode(bytes: &[u8]) -> (s: String)
    ensures
        s@ == spec_base64(bytes@),
        s@.len() == 4 * ((bytes@.len() + 2) / 3),
{
    let n = bytes.len();
    let mut out: Vec<char> = Vec::new();
    let mut i: usize = 0;
    assert(bytes@.skip(0) =~= bytes@);
    while i < n
        invariant
            n == bytes@.len(),
            i <= n,
            spec_base64(bytes@) == out@ + spec_base64(bytes@.skip(i as int)),
        decreases n - i,
    {
        let ghost rest = bytes@.skip(i as int);
        let left = n - i;
        let b0 = bytes[i] as u32;
        let b1 = if left > 1 {
            bytes[i + 1] as u32
        } else {
            0
        };
        let b2 = if left > 2 {
            bytes[i + 2] as u32
        } else {
            0
        };
        out.push(digit(b0 / 4));
        out.push(digit((b0 % 4) * 16 + b1 / 16));
        if left > 1 {
            out.push(digit((b1 % 16) * 4 + b2 / 64));
        } else {
            out.push('=');
        }
        if left > 2 {
            out.push(digit(b2 % 64));
        } else {
            out.push('=');
        }
        proof {
            assert(rest[0] == bytes@[i as int]);
            if left > 1 {
                assert(rest[1] == bytes@[i + 1]);
            }
            if left > 2 {
                assert(rest[2] == bytes@[i + 2]);
                assert(rest.skip(3) =~= bytes@.skip(i + 3));
            }
        }
        if left > 3 {
            i = i + 3;
        } else {
            proof {
                assert(bytes@.skip(n as int) =~= Seq::<u8>::empty());
            }
            i = n;
        }
    }
    proof {
        assert(bytes@.skip(n as int) =~= Seq::<u8>::empty());
        lemma_base64_len(bytes@);
    }
    string_of(out.as_slice())
}

} // verus!
