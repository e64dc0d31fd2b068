//! The HTTP/1.1 message head on the wire: encoding a request line with its
//! headers to bytes, and parsing a response status line with its headers
//! from bytes. Both directions are specified byte-exactly, so the engine's
//! contracts can speak of the precise octets that cross the transport.

use vstd::prelude::*;

use crate::headers::{is_tchar, valid_header_name, valid_header_value, wf_header_seq, HeaderMap};

verus! {

/// Carriage return, line feed.
pub open spec fn crlf() -> Seq<u8> {
    seq![13u8, 10u8]
}

/// `"HTTP/1.1"` as bytes.
pub open spec fn http11_bytes() -> Seq<u8> {
    seq![72u8, 84u8, 84u8, 80u8, 47u8, 49u8, 46u8, 49u8]
}

/// One encoded header line: `name: value` and a line break.
pub open spec fn encoded_header_line(name: Seq<u8>, value: Seq<u8>) -> Seq<u8> {
    name + seq![58u8, 32u8] + value + crlf()
}

/// All header lines of `hs`, in order.
pub open spec fn encoded_headers(hs: Seq<(Seq<u8>, Seq<u8>)>) -> Seq<u8>
    decreases hs.len(),
{
    if hs.len() == 0 {
        Seq::empty()
    } else {
        encoded_headers(hs.drop_last()) + encoded_header_line(hs.last().0, hs.last().1)
    }
}

/// A complete request head: request line, header lines, empty line.
pub open spec fn encoded_request_head(
    method: Seq<u8>,
    target: Seq<u8>,
    hs: Seq<(Seq<u8>, Seq<u8>)>,
) -> Seq<u8> {
    method + seq![32u8] + target + seq![32u8] + http11_bytes() + crlf() + encoded_headers(hs)
        + crlf()
}

/// Appends all of `src` to `dst`.
pub fn push_bytes(dst: &mut Vec<u8>, src: &[u8])
    ensures
        final(dst)@ == old(dst)@ + src@,
{
    let ghost pre = dst@;
    let mut i: usize = 0;
    while i < src.len()
        invariant
            0 <= i <= src@.len(),
            dst@ =~= pre + src@.take(i as int),
        decreases src@.len() - i,
    {
        dst.push(src[i]);
        i += 1;
    }
    proof {
        assert(pre + src@.take(src@.len() as int) =~= pre + src@);
    }
}

/// Encodes a request head: `method target HTTP/1.1`, the header lines in
/// order, and the closing empty line.
pub fn encode_request_head(method: &[u8], target: &[u8], headers: &HeaderMap) -> (r: Vec<u8>)
    ensures
        r@ == encoded_request_head(method@, target@, headers@),
{
    let mut out: Vec<u8> = Vec::new();
    push_bytes(&mut out, method);
    out.push(32);
    push_bytes(&mut out, target);
    out.push(32);
    let http11: [u8; 8] = [72, 84, 84, 80, 47, 49, 46, 49];
    push_bytes(&mut out, http11.as_slice());
    out.push(13);
    out.push(10);
    proof {
        assert(out@ =~= method@ + seq![32u8] + target@ + seq![32u8] + http11_bytes() + crlf());
    }
    let ghost prefix = out@;
    let n = headers.len();
    let mut i: usize = 0;
    while i < n
        invariant
            0 <= i <= n,
            n == headers@.len(),
            out@ =~= prefix + encoded_headers(headers@.take(i as int)),
        decreases n - i,
    {
        let ghost before = out@;
        push_bytes(&mut out, headers.name_at(i).as_slice());
        out.push(58);
        out.push(32);
        push_bytes(&mut out, headers.value_at(i).as_slice());
        out.push(13);
        out.push(10);
        proof {
            let hs = headers@;
            assert(out@ =~= before + encoded_header_line(hs[i as int].0, hs[i as int].1));
            assert(hs.take(i as int + 1).drop_last() =~= hs.take(i as int));
            assert(hs.take(i as int + 1).last() == hs[i as int]);
            assert(out@ =~= prefix + encoded_headers(hs.take(i as int + 1)));
        }
        i += 1;
    }
    out.push(13);
    out.push(10);
    proof {
        assert(headers@.take(n as int) =~= headers@);
        assert(out@ =~= encoded_request_head(method@, target@, headers@));
    }
    out
}

/// The position of the first CRLF in `s`, if any.
pub open spec fn is_crlf_at(s: Seq<u8>, i: int) -> bool {
    0 <= i && i + 1 < s.len() && s[i] == 13u8 && s[i + 1] == 10u8
}

#[verifier::opaque]
pub open spec fn first_crlf(s: Seq<u8>) -> Option<int> {
    if exists|i: int| is_crlf_at(s, i) {
        Some(choose|i: int| is_crlf_at(s, i) && forall|j: int| 0 <= j < i ==> !is_crlf_at(s, j))
    } else {
        None
    }
}

/// Finds the first CRLF in `s`.
pub fn find_crlf(s: &[u8]) -> (r: Option<usize>)
    ensures
        match r {
            Some(i) => i + 1 < s@.len() && first_crlf(s@) == Some(i as int),
            None => first_crlf(s@) is None,
        },
{
    if s.len() == 0 {
        proof {
            reveal(first_crlf);
        }
        return None;
    }
    let n: usize = s.len();
    let mut i: usize = 0;
    while i < n - 1
        invariant
            0 <= i,
            n == s@.len(),
            n >= 1,
            i <= s@.len(),
            forall|j: int| 0 <= j < i ==> !is_crlf_at(s@, j),
        decreases s@.len() - i,
    {
        if s[i] == 13u8 && s[i + 1] == 10u8 {
            proof {
                reveal(first_crlf);
                assert(is_crlf_at(s@, i as int));
                let w = choose|k: int|
                    is_crlf_at(s@, k) && forall|j: int| 0 <= j < k ==> !is_crlf_at(s@, j);
                assert(first_crlf(s@) == Some(w));
                if w < i as int {
                    assert(!is_crlf_at(s@, w));
                }
                if w > i as int {
                    assert(!is_crlf_at(s@, i as int));
                }
            }
            return Some(i);
        }
        i += 1;
    }
    proof {
        reveal(first_crlf);
    }
    None
}

/// The number of leading spaces and horizontal tabs of `s`.
pub open spec fn leading_ows(s: Seq<u8>) -> int
    decreases s.len(),
{
    if s.len() == 0 || !(s[0] == 32u8 || s[0] == 9u8) {
        0
    } else {
        1 + leading_ows(s.drop_first())
    }
}

/// The number of trailing spaces and horizontal tabs of `s`.
pub open spec fn trailing_ows(s: Seq<u8>) -> int
    decreases s.len(),
{
    if s.len() == 0 || !(s.last() == 32u8 || s.last() == 9u8) {
        0
    } else {
        1 + trailing_ows(s.drop_last())
    }
}

/// `s` with surrounding optional whitespace removed: the header value a
/// line `name: s` carries.
pub open spec fn trim_ows(s: Seq<u8>) -> Seq<u8> {
    let t = s.skip(leading_ows(s));
    t.take(t.len() - trailing_ows(t))
}

/// The meaning of one header line (without its CRLF): a token name before
/// the first colon, then the value with optional whitespace trimmed. Lines
/// without a colon, with an illegal name or with illegal value bytes have
/// no meaning.
pub open spec fn spec_parse_header_line(s: Seq<u8>) -> Option<(Seq<u8>, Seq<u8>)> {
    match crate::uri::first_colon(s) {
        None => None,
        Some(i) => {
            let name = s.take(i);
            let value = trim_ows(s.skip(i + 1));
            if valid_header_name(name) && valid_header_value(value) {
                Some((name, value))
            } else {
                None
            }
        },
    }
}

/// The meaning of the header section `s`: header lines until an empty line
/// ends the head. `s` must be exactly the section including the final empty
/// line's CRLF.
#[verifier::opaque]
pub open spec fn spec_parse_header_section(s: Seq<u8>) -> Option<Seq<(Seq<u8>, Seq<u8>)>>
    decreases s.len(),
{
    match first_crlf(s) {
        None => None,
        Some(i) => {
            if !(0 <= i && i + 1 < s.len()) {
                None
            } else if i == 0 {
                if s.len() == 2 {
                    Some(Seq::empty())
                } else {
                    None
                }
            } else {
                match spec_parse_header_line(s.take(i)) {
                    None => None,
                    Some(e) => match spec_parse_header_section(s.skip(i + 2)) {
                        None => None,
                        Some(rest) => Some(seq![e] + rest),
                    },
                }
            }
        },
    }
}

/// A byte legal in a reason phrase: anything but CR and LF.
pub open spec fn is_reason_byte(b: u8) -> bool {
    b != 13u8 && b != 10u8
}

/// The meaning of a status line (without its CRLF): `HTTP/1.1`, a space,
/// exactly three digits, and optionally a space with a reason phrase. Any
/// other HTTP version has no meaning here.
pub open spec fn spec_parse_status_line(s: Seq<u8>) -> Option<u16> {
    if s.len() < 12 {
        None
    } else if s.take(8) != http11_bytes() || s[8] != 32u8 {
        None
    } else if !(crate::ascii::is_digit(s[9]) && crate::ascii::is_digit(s[10])
        && crate::ascii::is_digit(s[11])) {
        None
    } else if s.len() > 12 && !(s[12] == 32u8 && forall|i: int|
        13 <= i < s.len() ==> is_reason_byte(#[trigger] s[i])) {
        None
    } else {
        Some(((s[9] - 48u8) * 100 + (s[10] - 48u8) * 10 + (s[11] - 48u8)) as u16)
    }
}

/// The meaning of a complete response head `s`, ending in the empty line:
/// the status code and the header list.
pub open spec fn spec_parse_response_head(s: Seq<u8>) -> Option<(u16, Seq<(Seq<u8>, Seq<u8>)>)> {
    match first_crlf(s) {
        None => None,
        Some(i) => match spec_parse_status_line(s.take(i)) {
            None => None,
            Some(status) => match spec_parse_header_section(s.skip(i + 2)) {
                None => None,
                Some(hs) => Some((status, hs)),
            },
        },
    }
}

/// Parses one header line (without its CRLF), per `spec_parse_header_line`.
fn parse_header_line(s: &[u8]) -> (r: Option<(Vec<u8>, Vec<u8>)>)
    ensures
        match r {
            Some(e) => spec_parse_header_line(s@) == Some((e.0@, e.1@)),
            None => spec_parse_header_line(s@) is None,
        },
{
    let n: usize = s.len();
    let i = match crate::uri::find_colon(s) {
        None => {
            return None;
        },
        Some(i) => i,
    };
    let name = vstd::slice::slice_subrange(s, 0, i);
    let rest = vstd::slice::slice_subrange(s, i + 1, n);
    proof {
        assert(name@ =~= s@.take(i as int));
        assert(rest@ =~= s@.skip(i as int + 1));
    }
    if !crate::headers::check_header_name(name) {
        return None;
    }
    // Trim optional whitespace around the value.
    proof {
        assert(rest@.skip(0) =~= rest@);
    }
    let mut a: usize = 0;
    while a < rest.len() && (rest[a] == 32u8 || rest[a] == 9u8)
        invariant
            0 <= a <= rest@.len(),
            leading_ows(rest@) == a as int + leading_ows(rest@.skip(a as int)),
            forall|j: int| 0 <= j < a ==> (rest@[j] == 32u8 || rest@[j] == 9u8),
        decreases rest@.len() - a,
    {
        proof {
            assert(rest@.skip(a as int).drop_first() =~= rest@.skip(a as int + 1));
        }
        a += 1;
    }
    proof {
        assert(leading_ows(rest@.skip(a as int)) == 0);
        assert(leading_ows(rest@) == a as int);
    }
    let mut b: usize = rest.len();
    proof {
        assert(rest@.skip(a as int).take(b as int - a as int) =~= rest@.subrange(
            a as int,
            b as int,
        ));
    }
    while b > a && (rest[b - 1] == 32u8 || rest[b - 1] == 9u8)
        invariant
            a <= b <= rest@.len(),
            trailing_ows(rest@.skip(a as int)) == rest@.len() - b + trailing_ows(
                rest@.subrange(a as int, b as int),
            ),
        decreases b,
    {
        proof {
            assert(rest@.subrange(a as int, b as int).drop_last() =~= rest@.subrange(
                a as int,
                b as int - 1,
            ));
            assert(rest@.subrange(a as int, b as int).last() == rest@[b as int - 1]);
        }
        b -= 1;
    }
    proof {
        if b > a {
            assert(rest@.subrange(a as int, b as int).last() == rest@[b as int - 1]);
        }
        assert(trailing_ows(rest@.subrange(a as int, b as int)) == 0);
        let t = rest@.skip(a as int);
        assert(trailing_ows(t) == rest@.len() - b);
        assert(t.take(t.len() - trailing_ows(t)) =~= rest@.subrange(a as int, b as int));
        assert(trim_ows(rest@) == rest@.subrange(a as int, b as int));
    }
    let value = vstd::slice::slice_subrange(rest, a, b);
    if !crate::headers::check_header_value(value) {
        return None;
    }
    Some((vstd::slice::slice_to_vec(name), vstd::slice::slice_to_vec(value)))
}

/// Parses a status line (without its CRLF), per `spec_parse_status_line`.
fn parse_status_line(s: &[u8]) -> (r: Option<u16>)
    ensures
        r == spec_parse_status_line(s@),
{
    let n: usize = s.len();
    if n < 12 {
        return None;
    }
    let http11: [u8; 8] = [72, 84, 84, 80, 47, 49, 46, 49];
    let prefix = vstd::slice::slice_subrange(s, 0, 8);
    let mut k: usize = 0;
    while k < 8
        invariant
            0 <= k <= 8,
            s@.len() >= 12,
            prefix@ =~= s@.take(8),
            http11@ =~= http11_bytes(),
            forall|j: int| 0 <= j < k ==> prefix@[j] == http11@[j],
        decreases 8 - k,
    {
        if prefix[k] != http11[k] {
            proof {
                assert(s@.take(8)[k as int] != http11_bytes()[k as int]);
            }
            return None;
        }
        k += 1;
    }
    proof {
        assert(s@.take(8) =~= http11_bytes());
    }
    if s[8] != 32u8 {
        return None;
    }
    let d0 = s[9];
    let d1 = s[10];
    let d2 = s[11];
    if !(48u8 <= d0 && d0 <= 57u8 && 48u8 <= d1 && d1 <= 57u8 && 48u8 <= d2 && d2 <= 57u8) {
        return None;
    }
    if n > 12 {
        if s[12] != 32u8 {
            return None;
        }
        let mut i: usize = 13;
        while i < n
            invariant
                n == s@.len(),
                13 <= i <= s@.len(),
                forall|j: int| 13 <= j < i ==> is_reason_byte(#[trigger] s@[j]),
            decreases s@.len() - i,
        {
            if s[i] == 13u8 || s[i] == 10u8 {
                return None;
            }
            i += 1;
        }
    }
    Some(((d0 - 48) as u16) * 100 + ((d1 - 48) as u16) * 10 + ((d2 - 48) as u16))
}

/// Parses a header section, per `spec_parse_header_section`: one line per
/// call, recursing on the rest until the empty line.
fn parse_header_section(s: &[u8]) -> (r: Option<HeaderMap>)
    ensures
        match r {
            Some(h) => spec_parse_header_section(s@) == Some(h@) && h.wf(),
            None => spec_parse_header_section(s@) is None,
        },
    decreases s@.len(),
{
    proof {
        reveal(spec_parse_header_section);
    }
    let n: usize = s.len();
    let j = match find_crlf(s) {
        None => {
            return None;
        },
        Some(j) => j,
    };
    if j == 0 {
        if n == 2 {
            let h = HeaderMap::new();
            return Some(h);
        } else {
            return None;
        }
    }
    let line = vstd::slice::slice_subrange(s, 0, j);
    proof {
        assert(line@ =~= s@.take(j as int));
    }
    let (name, value) = match parse_header_line(line) {
        None => {
            return None;
        },
        Some(e) => e,
    };
    let tail = vstd::slice::slice_subrange(s, j + 2, n);
    proof {
        assert(tail@ =~= s@.skip(j as int + 2));
    }
    match parse_header_section(tail) {
        None => None,
        Some(mut h) => {
            h.prepend(name, value);
            Some(h)
        },
    }
}

/// Parses a complete response head, per `spec_parse_response_head`. The
/// input must be the exact head bytes, ending in the empty line.
pub fn parse_response_head(s: &[u8]) -> (r: Option<(u16, HeaderMap)>)
    ensures
        match r {
            Some(p) => spec_parse_response_head(s@) == Some((p.0, p.1@)) && p.1.wf(),
            None => spec_parse_response_head(s@) is None,
        },
{
    let n: usize = s.len();
    let i = match find_crlf(s) {
        None => {
            return None;
        },
        Some(i) => i,
    };
    let status_line = vstd::slice::slice_subrange(s, 0, i);
    proof {
        assert(status_line@ =~= s@.take(i as int));
    }
    let status = match parse_status_line(status_line) {
        None => {
            return None;
        },
        Some(st) => st,
    };
    let rest = vstd::slice::slice_subrange(s, i + 2, n);
    proof {
        assert(rest@ =~= s@.skip(i as int + 2));
    }
    match parse_header_section(rest) {
        None => None,
        Some(h) => Some((status, h)),
    }
}

/// The encoded header lines decompose from the front as well: the first
/// line, then the rest.
proof fn lemma_encoded_headers_front(hs: Seq<(Seq<u8>, Seq<u8>)>)
    requires
        hs.len() >= 1,
    ensures
        encoded_headers(hs) == encoded_header_line(hs[0].0, hs[0].1) + encoded_headers(
            hs.drop_first(),
        ),
    decreases hs.len(),
{
    if hs.len() == 1 {
        assert(hs.drop_last() =~= Seq::<(Seq<u8>, Seq<u8>)>::empty());
        assert(hs.drop_first() =~= Seq::<(Seq<u8>, Seq<u8>)>::empty());
        assert(encoded_headers(hs) =~= encoded_header_line(hs[0].0, hs[0].1) + encoded_headers(
            hs.drop_first(),
        ));
    } else {
        lemma_encoded_headers_front(hs.drop_last());
        assert(hs.drop_last().drop_first() =~= hs.drop_first().drop_last());
        assert(hs.drop_last()[0] == hs[0]);
        assert(hs.drop_first().last() == hs.last());
        assert(encoded_headers(hs) == encoded_headers(hs.drop_last()) + encoded_header_line(
            hs.last().0,
            hs.last().1,
        ));
        assert(encoded_headers(hs.drop_first()) == encoded_headers(hs.drop_first().drop_last())
            + encoded_header_line(hs.last().0, hs.last().1));
        assert(encoded_header_line(hs[0].0, hs[0].1) + (encoded_headers(
            hs.drop_first().drop_last(),
        ) + encoded_header_line(hs.last().0, hs.last().1)) =~= (encoded_header_line(
            hs[0].0,
            hs[0].1,
        ) + encoded_headers(hs.drop_first().drop_last())) + encoded_header_line(
            hs.last().0,
            hs.last().1,
        ));
    }
}

/// One encoded header line (without its line break) parses back to the
/// same name and value, provided the value carries no surrounding
/// whitespace of its own.
proof fn lemma_parse_encoded_line(name: Seq<u8>, value: Seq<u8>)
    requires
        valid_header_name(name),
        valid_header_value(value),
        leading_ows(value) == 0,
        trailing_ows(value) == 0,
    ensures
        spec_parse_header_line(name + seq![58u8, 32u8] + value) == Some((name, value)),
{
    let line = name + seq![58u8, 32u8] + value;
    let i = name.len() as int;
    assert(line[i] == 58u8);
    assert(forall|k: int| 0 <= k < i ==> #[trigger] line[k] == name[k]);
    assert(forall|k: int| 0 <= k < i ==> line[k] != 58u8) by {
        assert(forall|k: int| 0 <= k < i ==> is_tchar(#[trigger] name[k]));
    }
    assert(crate::uri::first_colon(line) == Some(i)) by {
        assert(exists|k: int| 0 <= k < line.len() && line[k] == 58u8);
        let w = choose|k: int|
            0 <= k < line.len() && line[k] == 58u8 && forall|j: int| 0 <= j < k ==> line[j]
                != 58u8;
        if w < i {
            assert(line[w] != 58u8);
        }
        if w > i {
            assert(line[i] != 58u8);
        }
    }
    assert(line.take(i) =~= name);
    let rest = line.skip(i + 1);
    assert(rest =~= seq![32u8] + value);
    assert(rest.drop_first() =~= value);
    assert(leading_ows(rest) == 1);
    let t = rest.skip(1);
    assert(t =~= value);
    assert(trim_ows(rest) == t.take(t.len() - trailing_ows(t)));
    assert(t.take(t.len() - trailing_ows(t)) =~= value);
}

/// What the encoder writes, the parser reads back: a header section built
/// from well-formed headers whose values carry no surrounding whitespace
/// parses to exactly those headers. Together with the exact parsing and
/// encoding contracts, the two directions of the head codec agree.
#[verifier::rlimit(100)]
#[verifier::spinoff_prover]
pub proof fn lemma_header_section_round_trip(hs: Seq<(Seq<u8>, Seq<u8>)>)
    requires
        wf_header_seq(hs),
        forall|i: int|
            0 <= i < hs.len() ==> leading_ows(#[trigger] hs[i].1) == 0 && trailing_ows(hs[i].1)
                == 0,
    ensures
        spec_parse_header_section(encoded_headers(hs) + crlf()) == Some(hs),
    decreases hs.len(),
{
    reveal(spec_parse_header_section);
    reveal(first_crlf);
    let s = encoded_headers(hs) + crlf();
    if hs.len() == 0 {
        assert(s =~= seq![13u8, 10u8]);
        assert(is_crlf_at(s, 0));
        let w = choose|k: int| is_crlf_at(s, k) && forall|j: int| 0 <= j < k ==> !is_crlf_at(s, j);
        assert(w == 0);
        assert(hs =~= Seq::<(Seq<u8>, Seq<u8>)>::empty());
    } else {
        let name = hs[0].0;
        let value = hs[0].1;
        let line = name + seq![58u8, 32u8] + value;
        let i = line.len() as int;
        lemma_encoded_headers_front(hs);
        let rest_section = encoded_headers(hs.drop_first()) + crlf();
        assert(s =~= line + crlf() + rest_section);
        // No CR within the line itself, so the first CRLF ends it.
        assert(forall|k: int| 0 <= k < i ==> #[trigger] line[k] != 13u8) by {
            assert(forall|k: int| 0 <= k < name.len() ==> is_tchar(#[trigger] name[k]));
            assert(forall|k: int|
                0 <= k < value.len() ==> crate::headers::is_value_byte(#[trigger] value[k]));
            assert(forall|k: int|
                0 <= k < i ==> #[trigger] line[k] == (if k < name.len() {
                    name[k]
                } else if k == name.len() {
                    58u8
                } else if k == name.len() + 1 {
                    32u8
                } else {
                    value[k - name.len() - 2]
                }));
        }
        assert(s[i] == 13u8 && s[i + 1] == 10u8);
        assert(is_crlf_at(s, i));
        assert(first_crlf(s) == Some(i)) by {
            let w = choose|k: int|
                is_crlf_at(s, k) && forall|j: int| 0 <= j < k ==> !is_crlf_at(s, j);
            if w < i {
                assert(s[w] == line[w]);
                assert(!is_crlf_at(s, w));
            }
            if w > i {
                assert(!is_crlf_at(s, i));
            }
        }
        assert(i > 0);
        assert(s.take(i) =~= line);
        lemma_parse_encoded_line(name, value);
        assert(s.skip(i + 2) =~= rest_section);
        assert(forall|j: int|
            0 <= j < hs.drop_first().len() ==> #[trigger] hs.drop_first()[j] == hs[j + 1]);
        lemma_header_section_round_trip(hs.drop_first());
        assert(seq![(name, value)] + hs.drop_first() =~= hs);
    }
}

} // verus!
