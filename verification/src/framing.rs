//! Response body framing: deciding the framing from the response headers
//! (fixed Content-Length against chunked Transfer-Encoding), and the decode
//! state machine that yields exactly the body bytes and stops at the
//! framing boundary, leaving every later byte untouched for whoever owns
//! the transport next.

use vstd::prelude::*;

use crate::ascii::{all_digits, digits_value};
use crate::error::{HttpError, IoErrorKind};
use crate::headers::{spec_get, HeaderMap};

verus! {

/// Where a chunked decoder stands inside the chunk grammar.
#[derive(Clone, Copy, Debug, PartialEq, Eq, Structural)]
pub enum ChunkState {
    /// Reading the hexadecimal chunk size.
    Size,
    /// Saw the CR after the size, expecting LF.
    SizeLf,
    /// Inside chunk data.
    Content,
    /// Chunk data done, expecting CR.
    ContentCr,
    /// Expecting the LF after that CR.
    ContentLf,
    /// Saw the empty chunk, expecting the final CR.
    EndCr,
    /// Expecting the final LF.
    EndLf,
}

/// The framing mode and liveness of a body decoder.
#[derive(Clone, Copy, Debug, PartialEq, Eq, Structural)]
pub enum Parser {
    /// Reading a body of known length.
    FixedLength,
    /// Reading a chunked body.
    Chunked(ChunkState),
    /// A decode error occurred; it is permanent.
    Failed,
    /// The body ended; every further byte belongs to the next owner.
    Done,
}

/// What one decode step did: bytes consumed from the input, body bytes
/// produced, the successor state, and the error if the input was malformed.
pub struct DecodeStep {
    pub consumed: nat,
    pub output: Seq<u8>,
    pub parser: Parser,
    pub remaining: u64,
    pub error: Option<IoErrorKind>,
}

/// The value of a hexadecimal digit byte, or `None`.
pub open spec fn hex_digit_value(b: u8) -> Option<u8> {
    if 48u8 <= b <= 57u8 {
        Some((b - 48u8) as u8)
    } else if 97u8 <= b <= 102u8 {
        Some((b - 97u8 + 10u8) as u8)
    } else if 65u8 <= b <= 70u8 {
        Some((b - 65u8 + 10u8) as u8)
    } else {
        None
    }
}

/// One decode step on `input`, yielding at most `max` body bytes: data
/// states pass through up to `remaining` input bytes unchanged; the other
/// chunked states consume exactly one framing byte. An empty input, a
/// finished or failed decoder, or `max == 0` in a data state make the step
/// a no-op.
pub open spec fn spec_decode_step(
    parser: Parser,
    remaining: u64,
    input: Seq<u8>,
    max: nat,
) -> DecodeStep {
    match parser {
        Parser::Failed => DecodeStep {
            consumed: 0,
            output: Seq::empty(),
            parser,
            remaining,
            error: Some(IoErrorKind::BrokenPipe),
        },
        Parser::Done => DecodeStep {
            consumed: 0,
            output: Seq::empty(),
            parser,
            remaining,
            error: None,
        },
        Parser::FixedLength => spec_data_step(parser, remaining, input, max),
        Parser::Chunked(ChunkState::Content) => spec_data_step(parser, remaining, input, max),
        Parser::Chunked(cs) => {
            if input.len() == 0 {
                DecodeStep { consumed: 0, output: Seq::empty(), parser, remaining, error: None }
            } else {
                spec_chunk_framing_byte(cs, remaining, input[0])
            }
        },
    }
}

/// The data pass-through step shared by fixed-length bodies and chunk
/// content: up to `min(remaining, max, input.len())` bytes move through
/// unchanged; exhausting `remaining` ends the fixed body or the chunk.
pub open spec fn spec_data_step(
    parser: Parser,
    remaining: u64,
    input: Seq<u8>,
    max: nat,
) -> DecodeStep {
    let k = vstd::math::min(
        remaining as int,
        vstd::math::min(input.len() as int, max as int),
    ) as nat;
    let new_remaining = (remaining - k) as u64;
    let new_parser = if new_remaining == 0 {
        if parser is FixedLength {
            Parser::Done
        } else {
            Parser::Chunked(ChunkState::ContentCr)
        }
    } else {
        parser
    };
    DecodeStep {
        consumed: k,
        output: input.take(k as int),
        parser: new_parser,
        remaining: new_remaining,
        error: None,
    }
}

/// One chunk framing byte: sizes accumulate hexadecimal digits, the CR/LF
/// pairs advance the grammar, anything else fails the decoder. A chunk size
/// that would not fit `u64` is malformed.
pub open spec fn spec_chunk_framing_byte(cs: ChunkState, remaining: u64, b: u8) -> DecodeStep {
    let failed = DecodeStep {
        consumed: 1,
        output: Seq::empty(),
        parser: Parser::Failed,
        remaining,
        error: Some(IoErrorKind::InvalidData),
    };
    match cs {
        ChunkState::Size => {
            if b == 13u8 {
                DecodeStep {
                    consumed: 1,
                    output: Seq::empty(),
                    parser: Parser::Chunked(ChunkState::SizeLf),
                    remaining,
                    error: None,
                }
            } else {
                match hex_digit_value(b) {
                    Some(d) => if remaining <= (u64::MAX - d) / 16 {
                        DecodeStep {
                            consumed: 1,
                            output: Seq::empty(),
                            parser: Parser::Chunked(ChunkState::Size),
                            remaining: (remaining * 16 + d) as u64,
                            error: None,
                        }
                    } else {
                        failed
                    },
                    None => failed,
                }
            }
        },
        ChunkState::SizeLf => {
            if b == 10u8 {
                DecodeStep {
                    consumed: 1,
                    output: Seq::empty(),
                    parser: if remaining == 0 {
                        Parser::Chunked(ChunkState::EndCr)
                    } else {
                        Parser::Chunked(ChunkState::Content)
                    },
                    remaining,
                    error: None,
                }
            } else {
                failed
            }
        },
        ChunkState::Content => failed,
        ChunkState::ContentCr => {
            if b == 13u8 {
                DecodeStep {
                    consumed: 1,
                    output: Seq::empty(),
                    parser: Parser::Chunked(ChunkState::ContentLf),
                    remaining,
                    error: None,
                }
            } else {
                failed
            }
        },
        ChunkState::ContentLf => {
            if b == 10u8 {
                DecodeStep {
                    consumed: 1,
                    output: Seq::empty(),
                    parser: Parser::Chunked(ChunkState::Size),
                    remaining,
                    error: None,
                }
            } else {
                failed
            }
        },
        ChunkState::EndCr => {
            if b == 13u8 {
                DecodeStep {
                    consumed: 1,
                    output: Seq::empty(),
                    parser: Parser::Chunked(ChunkState::EndLf),
                    remaining,
                    error: None,
                }
            } else {
                failed
            }
        },
        ChunkState::EndLf => {
            if b == 10u8 {
                DecodeStep {
                    consumed: 1,
                    output: Seq::empty(),
                    parser: Parser::Done,
                    remaining,
                    error: None,
                }
            } else {
                failed
            }
        },
    }
}

/// The value of a hexadecimal digit byte, `0` for anything else.
pub open spec fn hex_val(b: u8) -> nat {
    match hex_digit_value(b) {
        Some(d) => d as nat,
        None => 0,
    }
}

/// Whether `b` is a hexadecimal digit.
pub open spec fn is_hex_digit(b: u8) -> bool {
    hex_digit_value(b) is Some
}

/// Accumulating hexadecimal digits front to back, the way the chunked
/// decoder reads a size line.
pub open spec fn hex_accum(acc: nat, h: Seq<u8>) -> nat
    decreases h.len(),
{
    if h.len() == 0 {
        acc
    } else {
        hex_accum(acc * 16 + hex_val(h[0]), h.drop_first())
    }
}

/// The lowercase hexadecimal digit string of `n`.
pub open spec fn hex_of(n: nat) -> Seq<u8>
    decreases n,
{
    if n < 16 {
        seq![hex_digit_char(n as u8)]
    } else {
        hex_of(n / 16).push(hex_digit_char((n % 16) as u8))
    }
}

/// The character for one hexadecimal digit value.
pub open spec fn hex_digit_char(v: u8) -> u8 {
    if v < 10 {
        (48 + v) as u8
    } else {
        (97 + (v - 10)) as u8
    }
}

/// Accumulation never shrinks.
pub proof fn lemma_hex_accum_ge(acc: nat, h: Seq<u8>)
    ensures
        hex_accum(acc, h) >= acc,
    decreases h.len(),
{
    if h.len() > 0 {
        lemma_hex_accum_ge(acc * 16 + hex_val(h[0]), h.drop_first());
    }
}

/// Accumulating one more digit at the back multiplies and adds.
pub proof fn lemma_hex_accum_push(acc: nat, h: Seq<u8>, x: u8)
    ensures
        hex_accum(acc, h.push(x)) == hex_accum(acc, h) * 16 + hex_val(x),
    decreases h.len(),
{
    if h.len() == 0 {
        assert(h.push(x)[0] == x);
        assert(h.push(x).drop_first() =~= Seq::<u8>::empty());
        assert(hex_accum(acc, h.push(x)) == hex_accum(acc * 16 + hex_val(x), Seq::<u8>::empty()));
        assert(hex_accum(acc * 16 + hex_val(x), Seq::<u8>::empty()) == acc * 16 + hex_val(x));
        assert(hex_accum(acc, h) == acc);
    } else {
        assert(h.push(x)[0] == h[0]);
        assert(h.push(x).drop_first() =~= h.drop_first().push(x));
        lemma_hex_accum_push(acc * 16 + hex_val(h[0]), h.drop_first(), x);
        assert(hex_accum(acc, h.push(x)) == hex_accum(
            acc * 16 + hex_val(h[0]),
            h.drop_first().push(x),
        ));
        assert(hex_accum(acc, h) == hex_accum(acc * 16 + hex_val(h[0]), h.drop_first()));
    }
}

/// The hexadecimal digit string of `n` is nonempty, all hexadecimal
/// digits, and accumulates back to `n`.
pub proof fn lemma_hex_of_value(n: nat)
    ensures
        hex_of(n).len() >= 1,
        forall|i: int| 0 <= i < hex_of(n).len() ==> is_hex_digit(#[trigger] hex_of(n)[i]),
        hex_accum(0, hex_of(n)) == n,
    decreases n,
{
    if n < 16 {
        let h = hex_of(n);
        assert(h =~= seq![hex_digit_char(n as u8)]);
        assert(is_hex_digit(h[0]));
        assert(hex_val(h[0]) == n);
        assert(h.drop_first() =~= Seq::<u8>::empty());
        assert(hex_accum(0, h) == hex_accum(0 * 16 + hex_val(h[0]), h.drop_first()));
    } else {
        lemma_hex_of_value(n / 16);
        let t = hex_of(n / 16);
        let x = hex_digit_char((n % 16) as u8);
        assert(hex_of(n) =~= t.push(x));
        lemma_hex_accum_push(0, t, x);
        assert(is_hex_digit(x));
        assert(hex_val(x) == n % 16);
        assert(n / 16 * 16 + n % 16 == n) by {
            vstd::arithmetic::div_mod::lemma_fundamental_div_mod(n as int, 16);
        }
        assert(forall|i: int|
            0 <= i < hex_of(n).len() ==> is_hex_digit(#[trigger] hex_of(n)[i])) by {
            assert(forall|i: int| 0 <= i < t.len() ==> is_hex_digit(#[trigger] t[i]));
            assert(forall|i: int|
                0 <= i < hex_of(n).len() ==> hex_of(n)[i] == (if i < t.len() {
                    t[i]
                } else {
                    x
                }));
        }
    }
}

/// The framing a response's headers select:
/// - every `Transfer-Encoding` header must read exactly `chunked`; any
///   other transfer coding is refused, never guessed around;
/// - with no transfer coding, a `Content-Length` header gives the length:
///   an optional `+`, then decimal digits fitting a `u64`;
/// - with neither, the body is empty.
/// `Ok(None)` means chunked, `Ok(Some(n))` a fixed length.
pub open spec fn spec_length_from_headers(hs: Seq<(Seq<u8>, Seq<u8>)>) -> Option<Option<u64>> {
    let te = "transfer-encoding"@.map_values(|c: char| c as u8);
    let chunked = "chunked"@.map_values(|c: char| c as u8);
    if exists|i: int|
        0 <= i < hs.len() && crate::ascii::eq_ignore_case(#[trigger] hs[i].0, te) && hs[i].1
            != chunked {
        None
    } else if crate::headers::spec_contains(hs, te) {
        Some(None)
    } else {
        match spec_get(hs, "content-length"@.map_values(|c: char| c as u8)) {
            Some(v) => {
                let digits = if v.len() >= 1 && v[0] == 43u8 {
                    v.skip(1)
                } else {
                    v
                };
                if all_digits(digits) && digits.len() >= 1 && digits_value(digits) <= u64::MAX {
                    Some(Some(digits_value(digits) as u64))
                } else {
                    None
                }
            },
            None => Some(Some(0u64)),
        }
    }
}

/// The decode state of one response body.
#[derive(Clone, Copy)]
pub struct BodyDecodeState {
    parser: Parser,
    remaining: u64,
    emitted: Ghost<nat>,
}

impl BodyDecodeState {
    pub closed spec fn parser(&self) -> Parser {
        self.parser
    }

    pub closed spec fn remaining(&self) -> u64 {
        self.remaining
    }

    /// How many body bytes this decoder has produced so far.
    pub closed spec fn emitted(&self) -> nat {
        self.emitted@
    }

    /// The body ended.
    pub open spec fn spec_is_done(&self) -> bool {
        self.parser() is Done
    }

    /// The decoder failed and will only re-surface its error.
    pub open spec fn spec_is_failed(&self) -> bool {
        self.parser() is Failed
    }

    pub fn is_done(&self) -> (r: bool)
        ensures
            r == self.spec_is_done(),
    {
        match self.parser {
            Parser::Done => true,
            _ => false,
        }
    }

    pub fn is_failed(&self) -> (r: bool)
        ensures
            r == self.spec_is_failed(),
    {
        match self.parser {
            Parser::Failed => true,
            _ => false,
        }
    }

    /// A decoder for a body of the given length: `Some(0)` is already done,
    /// `Some(n)` reads `n` bytes, `None` reads chunked framing.
    pub fn new(length: Option<u64>) -> (r: BodyDecodeState)
        ensures
            r.emitted() == 0,
            match length {
                Some(0u64) => r.parser() is Done,
                Some(n) => r.parser() is FixedLength && r.remaining() == n,
                None => r.parser() == Parser::Chunked(ChunkState::Size) && r.remaining() == 0,
            },
    {
        let (parser, remaining) = match length {
            Some(0) => (Parser::Done, 0),
            Some(n) => (Parser::FixedLength, n),
            None => (Parser::Chunked(ChunkState::Size), 0),
        };
        BodyDecodeState { parser, remaining, emitted: Ghost(0) }
    }

    /// A decoder for the framing the response headers select, or the
    /// `UnsupportedTransferEncoding` error carrying the offending value.
    pub fn from_headers(headers: &HeaderMap) -> (r: Result<BodyDecodeState, HttpError>)
        ensures
            match r {
                Ok(d) => {
                    &&& d.emitted() == 0
                    &&& match spec_length_from_headers(headers@) {
                        Some(Some(0u64)) => d.parser() is Done,
                        Some(Some(n)) => d.parser() is FixedLength && d.remaining() == n,
                        Some(None) => d.parser() == Parser::Chunked(ChunkState::Size),
                        None => false,
                    }
                },
                Err(e) => e is UnsupportedTransferEncoding && spec_length_from_headers(headers@)
                    is None,
            },
    {
        let te_name: [u8; 17] = [
            116u8, 114u8, 97u8, 110u8, 115u8, 102u8, 101u8, 114u8, 45u8, 101u8, 110u8, 99u8,
            111u8, 100u8, 105u8, 110u8, 103u8,
        ];
        let chunked_word: [u8; 7] = [99u8, 104u8, 117u8, 110u8, 107u8, 101u8, 100u8];
        proof {
            assert(te_name@ =~= "transfer-encoding"@.map_values(|c: char| c as u8)) by {
                reveal_strlit("transfer-encoding");
            }
            assert(chunked_word@ =~= "chunked"@.map_values(|c: char| c as u8)) by {
                reveal_strlit("chunked");
            }
        }
        let mut chunked = false;
        let n = headers.len();
        let mut i: usize = 0;
        while i < n
            invariant
                0 <= i <= n,
                n == headers@.len(),
                te_name@ == "transfer-encoding"@.map_values(|c: char| c as u8),
                chunked_word@ == "chunked"@.map_values(|c: char| c as u8),
                forall|j: int|
                    0 <= j < i ==> !(crate::ascii::eq_ignore_case(
                        #[trigger] headers@[j].0,
                        te_name@,
                    ) && headers@[j].1 != chunked_word@),
                chunked == exists|j: int|
                    0 <= j < i && crate::ascii::eq_ignore_case(
                        #[trigger] headers@[j].0,
                        te_name@,
                    ),
            decreases n - i,
        {
            if crate::ascii::eq_ignore_ascii_case(
                headers.name_at(i).as_slice(),
                te_name.as_slice(),
            ) {
                let v = headers.value_at(i);
                if !bytes_equal(v.as_slice(), chunked_word.as_slice()) {
                    return Err(HttpError::UnsupportedTransferEncoding(v.clone()));
                }
                chunked = true;
            }
            i += 1;
        }
        if chunked {
            proof {
                assert(crate::headers::spec_contains(headers@, te_name@));
            }
            return Ok(
                BodyDecodeState {
                    parser: Parser::Chunked(ChunkState::Size),
                    remaining: 0,
                    emitted: Ghost(0),
                },
            );
        }
        let cl_name: [u8; 14] = [
            99u8, 111u8, 110u8, 116u8, 101u8, 110u8, 116u8, 45u8, 108u8, 101u8, 110u8, 103u8,
            116u8, 104u8,
        ];
        proof {
            assert(cl_name@ =~= "content-length"@.map_values(|c: char| c as u8)) by {
                reveal_strlit("content-length");
            }
        }
        match headers.get(cl_name.as_slice()) {
            None => Ok(BodyDecodeState::new(Some(0))),
            Some(v) => {
                let digits = if v.len() >= 1 && v[0] == 43u8 {
                    vstd::slice::slice_subrange(v.as_slice(), 1, v.len())
                } else {
                    vstd::slice::slice_subrange(v.as_slice(), 0, v.len())
                };
                proof {
                    if v@.len() >= 1 && v@[0] == 43u8 {
                        assert(digits@ =~= v@.skip(1));
                    } else {
                        assert(digits@ =~= v@);
                    }
                }
                match crate::ascii::parse_u64_digits(digits) {
                    Some(len) => Ok(BodyDecodeState::new(Some(len))),
                    None => Err(HttpError::UnsupportedTransferEncoding(v.clone())),
                }
            },
        }
    }

    /// One decode step, per `spec_decode_step`: consumes a prefix of
    /// `input`, hands back up to `max` body bytes. A step that consumes and
    /// produces nothing while the decoder is neither done nor failed means
    /// the decoder needs more input.
    pub fn step(&mut self, input: &[u8], max: usize) -> (r: Result<(usize, Vec<u8>), IoErrorKind>)
        ensures
            ({
                let st = spec_decode_step(
                    old(self).parser(),
                    old(self).remaining(),
                    input@,
                    max as nat,
                );
                &&& final(self).parser() == st.parser
                &&& final(self).remaining() == st.remaining
                &&& final(self).emitted() == old(self).emitted() + st.output.len()
                &&& match r {
                    Ok(p) => st.error is None && p.0 == st.consumed && p.1@ == st.output
                        && p.0 <= input@.len(),
                    Err(k) => st.error == Some(k),
                }
            }),
    {
        match self.parser {
            Parser::Failed => Err(IoErrorKind::BrokenPipe),
            Parser::Done => Ok((0, Vec::new())),
            Parser::FixedLength => self.data_step(input, max),
            Parser::Chunked(ChunkState::Content) => self.data_step(input, max),
            Parser::Chunked(cs) => {
                if input.len() == 0 {
                    return Ok((0, Vec::new()));
                }
                let b = input[0];
                match self.framing_byte(cs, b) {
                    Ok(()) => Ok((1, Vec::new())),
                    Err(k) => Err(k),
                }
            },
        }
    }

    /// Passes through up to `min(remaining, max, input.len())` data bytes.
    fn data_step(&mut self, input: &[u8], max: usize) -> (r: Result<
        (usize, Vec<u8>),
        IoErrorKind,
    >)
        requires
            old(self).parser() is FixedLength || old(self).parser() == Parser::Chunked(
                ChunkState::Content,
            ),
        ensures
            ({
                let st = spec_decode_step(
                    old(self).parser(),
                    old(self).remaining(),
                    input@,
                    max as nat,
                );
                &&& final(self).parser() == st.parser
                &&& final(self).remaining() == st.remaining
                &&& final(self).emitted() == old(self).emitted() + st.output.len()
                &&& match r {
                    Ok(p) => st.error is None && p.0 == st.consumed && p.1@ == st.output
                        && p.0 <= input@.len(),
                    Err(k) => st.error == Some(k),
                }
            }),
    {
        let mut k: usize = if input.len() < max {
            input.len()
        } else {
            max
        };
        if self.remaining < k as u64 {
            k = self.remaining as usize;
        }
        let mut out: Vec<u8> = Vec::new();
        let mut i: usize = 0;
        while i < k
            invariant
                0 <= i <= k,
                k <= input@.len(),
                out@ =~= input@.take(i as int),
            decreases k - i,
        {
            out.push(input[i]);
            i += 1;
        }
        proof {
            assert(out@ =~= input@.take(k as int));
        }
        self.remaining = self.remaining - k as u64;
        if self.remaining == 0 {
            self.parser = match self.parser {
                Parser::FixedLength => Parser::Done,
                _ => Parser::Chunked(ChunkState::ContentCr),
            };
        }
        proof {
            self.emitted@ = self.emitted@ + out@.len();
        }
        Ok((k, out))
    }

    /// Advances the chunk grammar by one framing byte.
    fn framing_byte(&mut self, cs: ChunkState, b: u8) -> (r: Result<(), IoErrorKind>)
        requires
            old(self).parser() == Parser::Chunked(cs),
            !(cs is Content),
        ensures
            ({
                let st = spec_chunk_framing_byte(cs, old(self).remaining(), b);
                &&& final(self).parser() == st.parser
                &&& final(self).remaining() == st.remaining
                &&& final(self).emitted() == old(self).emitted()
                &&& match r {
                    Ok(()) => st.error is None,
                    Err(k) => st.error == Some(k),
                }
            }),
    {
        match cs {
            ChunkState::Size => {
                if b == 13u8 {
                    self.parser = Parser::Chunked(ChunkState::SizeLf);
                    return Ok(());
                }
                let d: u8 = if 48u8 <= b && b <= 57u8 {
                    b - 48
                } else if 97u8 <= b && b <= 102u8 {
                    b - 97 + 10
                } else if 65u8 <= b && b <= 70u8 {
                    b - 65 + 10
                } else {
                    self.parser = Parser::Failed;
                    return Err(IoErrorKind::InvalidData);
                };
                if self.remaining <= (u64::MAX - d as u64) / 16 {
                    proof {
                        let rem = self.remaining;
                        assert(rem * 16 + d <= u64::MAX) by (nonlinear_arith)
                            requires
                                rem <= (u64::MAX - d as u64) / 16,
                                d <= 15,
                                u64::MAX - d as u64 >= ((u64::MAX - d as u64) / 16) * 16,
                        {}
                    }
                    self.remaining = self.remaining * 16 + d as u64;
                    Ok(())
                } else {
                    self.parser = Parser::Failed;
                    Err(IoErrorKind::InvalidData)
                }
            },
            ChunkState::SizeLf => {
                if b == 10u8 {
                    self.parser = if self.remaining == 0 {
                        Parser::Chunked(ChunkState::EndCr)
                    } else {
                        Parser::Chunked(ChunkState::Content)
                    };
                    Ok(())
                } else {
                    self.parser = Parser::Failed;
                    Err(IoErrorKind::InvalidData)
                }
            },
            ChunkState::Content => {
                self.parser = Parser::Failed;
                Err(IoErrorKind::InvalidData)
            },
            ChunkState::ContentCr => {
                if b == 13u8 {
                    self.parser = Parser::Chunked(ChunkState::ContentLf);
                    Ok(())
                } else {
                    self.parser = Parser::Failed;
                    Err(IoErrorKind::InvalidData)
                }
            },
            ChunkState::ContentLf => {
                if b == 10u8 {
                    self.parser = Parser::Chunked(ChunkState::Size);
                    Ok(())
                } else {
                    self.parser = Parser::Failed;
                    Err(IoErrorKind::InvalidData)
                }
            },
            ChunkState::EndCr => {
                if b == 13u8 {
                    self.parser = Parser::Chunked(ChunkState::EndLf);
                    Ok(())
                } else {
                    self.parser = Parser::Failed;
                    Err(IoErrorKind::InvalidData)
                }
            },
            ChunkState::EndLf => {
                if b == 10u8 {
                    self.parser = Parser::Done;
                    Ok(())
                } else {
                    self.parser = Parser::Failed;
                    Err(IoErrorKind::InvalidData)
                }
            },
        }
    }

    /// The transport ended while the body had not: the decoder fails
    /// permanently with `UnexpectedEof`.
    pub fn on_eof(&mut self) -> (r: IoErrorKind)
        requires
            !old(self).spec_is_done(),
        ensures
            final(self).spec_is_failed(),
            final(self).emitted() == old(self).emitted(),
            r == IoErrorKind::UnexpectedEof,
    {
        self.parser = Parser::Failed;
        IoErrorKind::UnexpectedEof
    }
}

/// Compares two byte slices for exact equality.
pub fn bytes_equal(a: &[u8], b: &[u8]) -> (r: bool)
    ensures
        r == (a@ == b@),
{
    if a.len() != b.len() {
        return false;
    }
    let mut i: usize = 0;
    while i < a.len()
        invariant
            0 <= i <= a@.len(),
            a@.len() == b@.len(),
            forall|j: int| 0 <= j < i ==> a@[j] == b@[j],
        decreases a@.len() - i,
    {
        if a[i] != b[i] {
            return false;
        }
        i += 1;
    }
    proof {
        assert(a@ =~= b@);
    }
    true
}

} // verus!
