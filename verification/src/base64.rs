//! Standard base64 encoding with padding, used by the WebSocket handshake
//! for the nonce and the accept key.

use vstd::prelude::*;

verus! {

/// The base64 alphabet: `A-Z`, `a-z`, `0-9`, `+`, `/`.
pub open spec fn b64_char(v: u8) -> u8 {
    if v < 26 {
        (65 + v) as u8
    } else if v < 52 {
        (97 + (v - 26)) as u8
    } else if v < 62 {
        (48 + (v - 52)) as u8
    } else if v == 62 {
        43u8
    } else {
        47u8
    }
}

/// The base64 encoding of `s`, three input bytes to four output characters,
/// padded with `=` to a multiple of four.
pub open spec fn base64_of(s: Seq<u8>) -> Seq<u8>
    decreases s.len(),
{
    if s.len() == 0 {
        Seq::empty()
    } else if s.len() == 1 {
        let b0 = s[0];
        seq![b64_char(b0 >> 2), b64_char((b0 & 3) << 4), 61u8, 61u8]
    } else if s.len() == 2 {
        let b0 = s[0];
        let b1 = s[1];
        seq![
            b64_char(b0 >> 2),
            b64_char(((b0 & 3) << 4) | (b1 >> 4)),
            b64_char((b1 & 15) << 2),
            61u8,
        ]
    } else {
        let b0 = s[0];
        let b1 = s[1];
        let b2 = s[2];
        seq![
            b64_char(b0 >> 2),
            b64_char(((b0 & 3) << 4) | (b1 >> 4)),
            b64_char(((b1 & 15) << 2) | (b2 >> 6)),
            b64_char(b2 & 63),
        ] + base64_of(s.skip(3))
    }
}

/// Encodes one 6-bit value as its base64 character.
fn b64_char_of(v: u8) -> (r: u8)
    ensures
        r == b64_char(v),
{
    if v < 26 {
        65 + v
    } else if v < 52 {
        97 + (v - 26)
    } else if v < 62 {
        48 + (v - 52)
    } else if v == 62 {
        43
    } else {
        47
    }
}

/// Encodes `s` in base64, per `base64_of`.
pub fn base64_encode(s: &[u8]) -> (r: Vec<u8>)
    ensures
        r@ == base64_of(s@),
{
    let mut out: Vec<u8> = Vec::new();
    let n = s.len();
    proof {
        assert(s@.skip(0) =~= s@);
    }
    let mut i: usize = 0;
    while n - i >= 3
        invariant
            0 <= i <= n,
            n == s@.len(),
            base64_of(s@) == out@ + base64_of(s@.skip(i as int)),
        decreases n - i,
    {
        let ghost pre = out@;
        let ghost tail = s@.skip(i as int);
        let b0 = s[i];
        let b1 = s[i + 1];
        let b2 = s[i + 2];
        out.push(b64_char_of(b0 >> 2));
        out.push(b64_char_of(((b0 & 3) << 4) | (b1 >> 4)));
        out.push(b64_char_of(((b1 & 15) << 2) | (b2 >> 6)));
        out.push(b64_char_of(b2 & 63));
        proof {
            assert(tail.len() >= 3);
            assert(tail[0] == b0 && tail[1] == b1 && tail[2] == b2);
            assert(tail.skip(3) =~= s@.skip(i as int + 3));
            assert(out@ =~= pre + seq![
                b64_char(b0 >> 2),
                b64_char(((b0 & 3) << 4) | (b1 >> 4)),
                b64_char(((b1 & 15) << 2) | (b2 >> 6)),
                b64_char(b2 & 63),
            ]);
            assert(base64_of(tail) == seq![
                b64_char(b0 >> 2),
                b64_char(((b0 & 3) << 4) | (b1 >> 4)),
                b64_char(((b1 & 15) << 2) | (b2 >> 6)),
                b64_char(b2 & 63),
            ] + base64_of(tail.skip(3)));
            assert(base64_of(s@) == out@ + base64_of(s@.skip(i as int + 3)));
        }
        i += 3;
    }
    let ghost tail = s@.skip(i as int);
    if n - i == 1 {
        let b0 = s[i];
        out.push(b64_char_of(b0 >> 2));
        out.push(b64_char_of((b0 & 3) << 4));
        out.push(61);
        out.push(61);
        proof {
            assert(tail.len() == 1 && tail[0] == b0);
            assert(out@ =~= out@.subrange(0, out@.len() - 4) + base64_of(tail));
        }
    } else if n - i == 2 {
        let b0 = s[i];
        let b1 = s[i + 1];
        out.push(b64_char_of(b0 >> 2));
        out.push(b64_char_of(((b0 & 3) << 4) | (b1 >> 4)));
        out.push(b64_char_of((b1 & 15) << 2));
        out.push(61);
        proof {
            assert(tail.len() == 2 && tail[0] == b0 && tail[1] == b1);
            assert(out@ =~= out@.subrange(0, out@.len() - 4) + base64_of(tail));
        }
    } else {
        proof {
            assert(tail =~= Seq::<u8>::empty());
            assert(out@ =~= out@ + base64_of(tail));
        }
    }
    out
}

} // verus!
