//! The streaming response body: it owns the remaining transport and a
//! decode state bounded by the response's framing. Reads never cross the
//! framing boundary, so the transport together with any bytes read past the
//! head can later be reclaimed byte-exact. The caller performs the reads
//! and feeds raw bytes in; this module decodes them.

use vstd::prelude::*;

use crate::error::{HttpError, IoErrorKind};
use crate::framing::{spec_decode_step, BodyDecodeState, Parser};

verus! {

/// What draining an input buffer through a decoder yields: the body bytes
/// produced, the decoder's final state, and the input left untouched past
/// the framing boundary.
pub struct DrainResult {
    pub output: Seq<u8>,
    pub parser: Parser,
    pub remaining: u64,
    pub leftover: Seq<u8>,
}

/// Runs the decoder over `input` until the body ends, the decoder fails,
/// or the input runs out. Bytes past the boundary stay in `leftover`.
pub open spec fn spec_drain(parser: Parser, remaining: u64, input: Seq<u8>) -> DrainResult
    decreases input.len(),
{
    if parser is Done || parser is Failed || input.len() == 0 {
        DrainResult { output: Seq::empty(), parser, remaining, leftover: input }
    } else {
        let st = spec_decode_step(parser, remaining, input, input.len() as nat);
        if st.consumed == 0 || st.error is Some {
            DrainResult {
                output: st.output,
                parser: st.parser,
                remaining: st.remaining,
                leftover: input.skip(st.consumed as int),
            }
        } else {
            let rest = spec_drain(st.parser, st.remaining, input.skip(st.consumed as int));
            DrainResult {
                output: st.output + rest.output,
                parser: rest.parser,
                remaining: rest.remaining,
                leftover: rest.leftover,
            }
        }
    }
}

/// Relies on `String::from_utf8`: it returns the string exactly when the
/// bytes are valid UTF-8, and the string's characters are their decoding.
#[verifier::external_body]
fn string_from_utf8(v: Vec<u8>) -> (r: Option<String>)
    ensures
        match r {
            Some(s) => vstd::utf8::valid_utf8(v@) && s@ == vstd::utf8::decode_utf8(v@),
            None => !vstd::utf8::valid_utf8(v@),
        },
{
    String::from_utf8(v).ok()
}

/// A not-yet-consumed response body. It owns the transport the response
/// arrived on; `into_inner` hands it back, positioned exactly past the
/// message (bytes already read past the head ride along in the backlog).
pub struct ResponseBody<T> {
    decode: BodyDecodeState,
    pending: Vec<u8>,
    error: Option<IoErrorKind>,
    transport: T,
}

impl<T> ResponseBody<T> {
    pub closed spec fn spec_parser(&self) -> Parser {
        self.decode.parser()
    }

    pub closed spec fn spec_remaining(&self) -> u64 {
        self.decode.remaining()
    }

    /// The raw bytes received but not yet decoded.
    pub closed spec fn spec_pending(&self) -> Seq<u8> {
        self.pending@
    }

    /// The latched error, re-surfaced by every later operation.
    pub closed spec fn spec_error(&self) -> Option<IoErrorKind> {
        self.error
    }

    pub closed spec fn spec_transport(&self) -> T {
        self.transport
    }

    /// Draining the current backlog reaches the end of the body.
    pub open spec fn has_complete_body(&self) -> bool {
        spec_drain(self.spec_parser(), self.spec_remaining(), self.spec_pending()).parser is Done
    }

    /// The body bytes the current backlog holds.
    pub open spec fn spec_body_output(&self) -> Seq<u8> {
        spec_drain(self.spec_parser(), self.spec_remaining(), self.spec_pending()).output
    }

    /// A response body over `transport`, framed by `decode`, with the bytes
    /// already read past the head as the initial backlog.
    pub fn new(decode: BodyDecodeState, pending: Vec<u8>, transport: T) -> (r: ResponseBody<T>)
        ensures
            r.spec_parser() == decode.parser(),
            r.spec_remaining() == decode.remaining(),
            r.spec_pending() == pending@,
            r.spec_error() is None,
            r.spec_transport() == transport,
    {
        ResponseBody { decode, pending, error: None, transport }
    }

    /// The body has ended; nothing more will be produced.
    pub fn is_done(&self) -> (r: bool)
        ensures
            r == (self.spec_parser() is Done),
    {
        self.decode.is_done()
    }

    /// Whether decoding stopped for want of input: the backlog is empty and
    /// the body has neither ended nor failed.
    pub fn needs_input(&self) -> (r: bool)
        ensures
            r == (self.spec_pending().len() == 0 && !(self.spec_parser() is Done) && !(
            self.spec_parser() is Failed) && self.spec_error() is None),
    {
        self.pending.len() == 0 && !self.decode.is_done() && !self.is_failed() && match self.error {
            None => true,
            Some(_) => false,
        }
    }

    fn is_failed(&self) -> (r: bool)
        ensures
            r == (self.spec_parser() is Failed),
    {
        self.decode.is_failed()
    }

    /// Hands the caller's transport read into the backlog.
    pub fn feed(&mut self, data: &[u8])
        ensures
            final(self).spec_pending() == old(self).spec_pending() + data@,
            final(self).spec_parser() == old(self).spec_parser(),
            final(self).spec_remaining() == old(self).spec_remaining(),
            final(self).spec_error() == old(self).spec_error(),
            final(self).spec_transport() == old(self).spec_transport(),
    {
        crate::head::push_bytes(&mut self.pending, data);
    }

    /// The transport ended. Before the body has, that is a permanent
    /// `UnexpectedEof`; it is latched and returned.
    pub fn on_transport_eof(&mut self) -> (r: IoErrorKind)
        requires
            !(old(self).spec_parser() is Done),
        ensures
            r == IoErrorKind::UnexpectedEof,
            final(self).spec_error() == Some(IoErrorKind::UnexpectedEof),
            final(self).spec_transport() == old(self).spec_transport(),
    {
        self.error = Some(IoErrorKind::UnexpectedEof);
        IoErrorKind::UnexpectedEof
    }

    /// Reclaims the decode state, the undecoded backlog and the transport;
    /// or re-surfaces the latched error.
    pub fn into_inner(self) -> (r: Result<(BodyDecodeState, Vec<u8>, T), HttpError>)
        ensures
            match r {
                Ok(p) => self.spec_error() is None && p.0.parser() == self.spec_parser()
                    && p.0.remaining() == self.spec_remaining() && p.1@ == self.spec_pending()
                    && p.2 == self.spec_transport(),
                Err(e) => self.spec_error() matches Some(k) && e == HttpError::IoError(k),
            },
    {
        let ResponseBody { decode, pending, error, transport } = self;
        match error {
            Some(k) => Err(HttpError::IoError(k)),
            None => Ok((decode, pending, transport)),
        }
    }

    /// `self` with its transport replaced.
    pub closed spec fn with_transport(self, t2: T) -> ResponseBody<T> {
        ResponseBody { decode: self.decode, pending: self.pending, error: self.error, transport: t2 }
    }

    /// Lends out the owned transport so the caller can read from it; the
    /// body itself never does.
    pub fn transport_mut(&mut self) -> (t: &mut T)
        ensures
            *t == old(self).spec_transport(),
            *final(self) == old(self).with_transport(*final(t)),
    {
        &mut self.transport
    }

    /// Whether the backlog already holds the complete body, decided
    /// without consuming anything: when this holds, `bytes` and `string`
    /// can run; when it does not, more input is needed (or the stream is
    /// malformed and a read will surface the error).
    pub fn probe_complete(&self) -> (r: bool)
        ensures
            r == self.has_complete_body(),
    {
        let ghost target = spec_drain(
            self.spec_parser(),
            self.spec_remaining(),
            self.spec_pending(),
        );
        let mut st: BodyDecodeState = self.decode;
        let mut pos: usize = 0;
        let len = self.pending.len();
        proof {
            assert(self.spec_pending().skip(0) =~= self.spec_pending());
        }
        loop
            invariant
                0 <= pos <= len,
                len == self.spec_pending().len(),
                target == spec_drain(
                    self.spec_parser(),
                    self.spec_remaining(),
                    self.spec_pending(),
                ),
                spec_drain(
                    st.parser(),
                    st.remaining(),
                    self.spec_pending().skip(pos as int),
                ).parser == target.parser,
            decreases
                    len - pos,
                    (if st.parser() is Done {
                        0int
                    } else {
                        1int
                    }),
        {
            let ghost cur = self.spec_pending().skip(pos as int);
            if st.is_done() {
                return true;
            }
            if st.is_failed() {
                return false;
            }
            if pos == len {
                proof {
                    assert(cur =~= Seq::<u8>::empty());
                }
                return false;
            }
            let window = vstd::slice::slice_subrange(self.pending.as_slice(), pos, len);
            proof {
                assert(window@ =~= cur);
            }
            let ghost stp = spec_decode_step(st.parser(), st.remaining(), cur, cur.len() as nat);
            let consumed = match st.step(window, len - pos) {
                Ok((consumed, _)) => consumed,
                Err(_) => {
                    // The input is malformed where it stands: the drain
                    // stops on this error, so the body never completes.
                    proof {
                        assert(spec_drain(
                            self.spec_parser(),
                            self.spec_remaining(),
                            self.spec_pending(),
                        ).parser == target.parser);
                    }
                    return false;
                },
            };
            if consumed == 0 {
                // Nothing was consumed: the drain stops exactly here, so
                // the state the step reached is the final one.
                if st.is_done() {
                    return true;
                } else {
                    return false;
                }
            }
            proof {
                assert(cur.skip(consumed as int) =~= self.spec_pending().skip(
                    pos as int + consumed as int,
                ));
            }
            pos = pos + consumed;
        }
    }

    /// One decode step against the backlog, yielding at most `max` body
    /// bytes. An empty result while `needs_input` holds asks for a `feed`.
    /// A decode error is latched and re-surfaced by every later call.
    pub fn read_step(&mut self, max: usize) -> (r: Result<Vec<u8>, IoErrorKind>)
        ensures
            final(self).spec_transport() == old(self).spec_transport(),
            match old(self).spec_error() {
                Some(e) => r == Err::<Vec<u8>, _>(e) && *final(self) == *old(self),
                None => ({
                    let st = spec_decode_step(
                        old(self).spec_parser(),
                        old(self).spec_remaining(),
                        old(self).spec_pending(),
                        max as nat,
                    );
                    &&& final(self).spec_parser() == st.parser
                    &&& final(self).spec_remaining() == st.remaining
                    &&& match r {
                        Ok(v) => st.error is None && v@ == st.output && final(self).spec_error()
                            is None && final(self).spec_pending() == old(
                            self,
                        ).spec_pending().skip(st.consumed as int),
                        Err(k) => st.error == Some(k) && final(self).spec_error() == Some(k)
                            && final(self).spec_pending() == old(self).spec_pending(),
                    }
                }),
            },
    {
        match self.error {
            Some(e) => Err(e),
            None => {
                match self.decode.step(self.pending.as_slice(), max) {
                    Ok((consumed, out)) => {
                        self.drop_pending_prefix(consumed);
                        Ok(out)
                    },
                    Err(k) => {
                        self.error = Some(k);
                        Err(k)
                    },
                }
            },
        }
    }

    /// Removes the first `n` backlog bytes.
    fn drop_pending_prefix(&mut self, n: usize)
        requires
            n <= old(self).spec_pending().len(),
        ensures
            final(self).spec_pending() == old(self).spec_pending().skip(n as int),
            final(self).spec_parser() == old(self).spec_parser(),
            final(self).spec_remaining() == old(self).spec_remaining(),
            final(self).spec_error() == old(self).spec_error(),
            final(self).spec_transport() == old(self).spec_transport(),
    {
        let len = self.pending.len();
        let mut rest: Vec<u8> = Vec::new();
        let mut i: usize = n;
        while i < len
            invariant
                n <= i <= len,
                len == self.pending@.len(),
                rest@ =~= self.pending@.subrange(n as int, i as int),
            decreases len - i,
        {
            rest.push(self.pending[i]);
            i += 1;
        }
        proof {
            assert(rest@ =~= self.pending@.skip(n as int));
        }
        self.pending = rest;
    }

    /// Accumulates the whole body from the backlog: with a limit, a body
    /// longer than `limit` bytes fails with `OutOfMemory` instead of being
    /// truncated; otherwise every body byte is returned.
    pub fn bytes(&mut self, limit: Option<usize>) -> (r: Result<Vec<u8>, IoErrorKind>)
        requires
            old(self).spec_error() is None,
            old(self).has_complete_body(),
        ensures
            final(self).spec_transport() == old(self).spec_transport(),
            final(self).spec_parser() is Done,
            final(self).spec_error() is None,
            final(self).spec_pending() == spec_drain(
                old(self).spec_parser(),
                old(self).spec_remaining(),
                old(self).spec_pending(),
            ).leftover,
            ({
                let out = old(self).spec_body_output();
                match r {
                    Ok(v) => v@ == out && (match limit {
                        Some(l) => out.len() <= l,
                        None => true,
                    }),
                    Err(k) => k == IoErrorKind::OutOfMemory && (limit matches Some(l) && out.len()
                        > l),
                }
            }),
    {
        let out = self.drain_all();
        match limit {
            Some(l) => {
                if out.len() > l {
                    Err(IoErrorKind::OutOfMemory)
                } else {
                    Ok(out)
                }
            },
            None => Ok(out),
        }
    }

    /// Accumulates the whole body as a UTF-8 string. With a limit, the
    /// first `limit` bytes must be valid UTF-8 (`InvalidData` otherwise,
    /// mirroring that they are decoded before the length is known), and a
    /// longer body fails with `OutOfMemory`.
    pub fn string(&mut self, limit: Option<usize>) -> (r: Result<String, IoErrorKind>)
        requires
            old(self).spec_error() is None,
            old(self).has_complete_body(),
        ensures
            final(self).spec_transport() == old(self).spec_transport(),
            final(self).spec_parser() is Done,
            final(self).spec_error() is None,
            final(self).spec_pending() == spec_drain(
                old(self).spec_parser(),
                old(self).spec_remaining(),
                old(self).spec_pending(),
            ).leftover,
            ({
                let out = old(self).spec_body_output();
                match r {
                    Ok(s) => vstd::utf8::valid_utf8(out) && s@ == vstd::utf8::decode_utf8(out)
                        && (match limit {
                        Some(l) => out.len() <= l,
                        None => true,
                    }),
                    Err(k) => match limit {
                        Some(l) => {
                            if !vstd::utf8::valid_utf8(out.take(
                                vstd::math::min(l as int, out.len() as int),
                            )) {
                                k == IoErrorKind::InvalidData
                            } else {
                                k == IoErrorKind::OutOfMemory && out.len() > l
                            }
                        },
                        None => k == IoErrorKind::InvalidData && !vstd::utf8::valid_utf8(out),
                    },
                }
            }),
    {
        let out = self.drain_all();
        match limit {
            Some(l) => {
                let take_n = if l < out.len() {
                    l
                } else {
                    out.len()
                };
                let prefix = vstd::slice::slice_to_vec(
                    vstd::slice::slice_subrange(out.as_slice(), 0, take_n),
                );
                proof {
                    assert(prefix@ =~= out@.take(
                        vstd::math::min(l as int, out@.len() as int),
                    ));
                }
                match string_from_utf8(prefix) {
                    None => Err(IoErrorKind::InvalidData),
                    Some(s) => {
                        if out.len() > l {
                            Err(IoErrorKind::OutOfMemory)
                        } else {
                            proof {
                                assert(out@.take(vstd::math::min(l as int, out@.len() as int))
                                    =~= out@);
                            }
                            Ok(s)
                        }
                    },
                }
            },
            None => {
                match string_from_utf8(out) {
                    None => Err(IoErrorKind::InvalidData),
                    Some(s) => Ok(s),
                }
            },
        }
    }

    /// Decodes the complete body out of the backlog, leaving the leftover.
    fn drain_all(&mut self) -> (r: Vec<u8>)
        requires
            old(self).spec_error() is None,
            old(self).has_complete_body(),
        ensures
            r@ == old(self).spec_body_output(),
            final(self).spec_parser() is Done,
            final(self).spec_pending() == spec_drain(
                old(self).spec_parser(),
                old(self).spec_remaining(),
                old(self).spec_pending(),
            ).leftover,
            final(self).spec_error() is None,
            final(self).spec_transport() == old(self).spec_transport(),
    {
        let ghost target = spec_drain(
            old(self).spec_parser(),
            old(self).spec_remaining(),
            old(self).spec_pending(),
        );
        let mut out: Vec<u8> = Vec::new();
        loop
            invariant
                self.spec_error() is None,
                self.spec_transport() == old(self).spec_transport(),
                ({
                    let d = spec_drain(
                        self.spec_parser(),
                        self.spec_remaining(),
                        self.spec_pending(),
                    );
                    &&& d.parser == target.parser
                    &&& d.leftover == target.leftover
                    &&& target.output == out@ + d.output
                }),
                target.parser is Done,
            ensures
                self.spec_parser() is Done,
                out@ == target.output,
                self.spec_pending() == target.leftover,
                self.spec_error() is None,
                self.spec_transport() == old(self).spec_transport(),
            decreases
                    self.spec_pending().len(),
                    (if self.spec_parser() is Done {
                        0int
                    } else {
                        1int
                    }),
        {
            let ghost pre = *self;
            if self.decode.is_done() {
                proof {
                    let d = spec_drain(
                        self.spec_parser(),
                        self.spec_remaining(),
                        self.spec_pending(),
                    );
                    assert(d.output =~= Seq::<u8>::empty());
                    assert(out@ + d.output =~= out@);
                }
                break ;
            }
            let pend_len = self.pending.len();
            proof {
                let d_pre = spec_drain(pre.spec_parser(), pre.spec_remaining(), pre.spec_pending());
                let st = spec_decode_step(
                    pre.spec_parser(),
                    pre.spec_remaining(),
                    pre.spec_pending(),
                    pend_len as nat,
                );
                if pre.spec_pending().len() == 0 {
                    assert(d_pre.parser == pre.spec_parser());
                    assert(false);
                }
                if st.error is Some {
                    assert(d_pre.parser == st.parser);
                    assert(st.parser is Failed);
                    assert(false);
                }
            }
            let step = match self.read_step(pend_len) {
                Ok(v) => v,
                Err(_) => {
                    proof {
                        assert(false);
                    }
                    Vec::new()
                },
            };
            proof {
                let d_pre = spec_drain(pre.spec_parser(), pre.spec_remaining(), pre.spec_pending());
                let st = spec_decode_step(
                    pre.spec_parser(),
                    pre.spec_remaining(),
                    pre.spec_pending(),
                    pend_len as nat,
                );
                let d_next = spec_drain(
                    self.spec_parser(),
                    self.spec_remaining(),
                    self.spec_pending(),
                );
                if st.consumed == 0 {
                    assert(d_pre.parser == st.parser);
                    assert(d_pre.output =~= st.output);
                    assert(st.output =~= Seq::<u8>::empty());
                    assert(self.spec_pending() =~= pre.spec_pending());
                } else {
                    assert(d_pre.output == st.output + d_next.output);
                }
                assert(target.output =~= (out@ + step@) + d_next.output);
            }
            let ghost out_pre = out@;
            crate::head::push_bytes(&mut out, step.as_slice());
            proof {
                assert(out@ =~= out_pre + step@);
            }
        }
        out
    }
}

/// A fixed-length body of `n` bytes, with at least `n` input bytes at
/// hand, yields exactly the first `n` of them and ends, leaving every
/// later byte untouched.
pub proof fn lemma_fixed_drain_complete(n: u64, input: Seq<u8>)
    requires
        n > 0,
        input.len() >= n,
    ensures
        ({
            let d = spec_drain(Parser::FixedLength, n, input);
            &&& d.output == input.take(n as int)
            &&& d.parser is Done
            &&& d.leftover == input.skip(n as int)
        }),
{
    let st = spec_decode_step(Parser::FixedLength, n, input, input.len() as nat);
    assert(st.consumed == n);
    let rest = spec_drain(st.parser, st.remaining, input.skip(n as int));
    assert(rest.output =~= Seq::<u8>::empty());
    assert(st.output + rest.output =~= input.take(n as int));
}

/// A fixed-length body with fewer input bytes than it needs yields them
/// all and waits for more: however the input is cut into reads, each byte
/// passes through unchanged until exactly `n` have.
pub proof fn lemma_fixed_drain_partial(n: u64, input: Seq<u8>)
    requires
        n > 0,
        input.len() < n,
    ensures
        ({
            let d = spec_drain(Parser::FixedLength, n, input);
            &&& d.output == input
            &&& d.parser is FixedLength
            &&& d.remaining == n - input.len()
            &&& d.leftover == Seq::<u8>::empty()
        }),
{
    if input.len() == 0 {
        assert(spec_drain(Parser::FixedLength, n, input).output =~= input);
        assert(spec_drain(Parser::FixedLength, n, input).leftover =~= Seq::<u8>::empty());
    } else {
        let st = spec_decode_step(Parser::FixedLength, n, input, input.len() as nat);
        assert(st.consumed == input.len());
        assert(input.skip(input.len() as int) =~= Seq::<u8>::empty());
        let rest = spec_drain(st.parser, st.remaining, input.skip(input.len() as int));
        assert(rest.output =~= Seq::<u8>::empty());
        assert(st.output + rest.output =~= input);
        assert(st.output =~= input);
    }
}

/// Reading hexadecimal size digits accumulates them into the remaining
/// count, consuming exactly the digits.
proof fn lemma_drain_hex_prefix(acc: u64, h: Seq<u8>, tail: Seq<u8>)
    requires
        forall|i: int| 0 <= i < h.len() ==> crate::framing::is_hex_digit(#[trigger] h[i]),
        crate::framing::hex_accum(acc as nat, h) <= u64::MAX,
    ensures
        spec_drain(Parser::Chunked(crate::framing::ChunkState::Size), acc, h + tail) == spec_drain(
            Parser::Chunked(crate::framing::ChunkState::Size),
            crate::framing::hex_accum(acc as nat, h) as u64,
            tail,
        ),
    decreases h.len(),
{
    if h.len() == 0 {
        assert(h + tail =~= tail);
        assert(crate::framing::hex_accum(acc as nat, h) == acc as nat);
    } else {
        let input = h + tail;
        let b = h[0];
        assert(input[0] == b);
        assert(crate::framing::is_hex_digit(b));
        let d = match crate::framing::hex_digit_value(b) {
            Some(d) => d,
            None => 0u8,
        };
        assert(crate::framing::hex_val(b) == d as nat);
        assert(b != 13u8 && b != 10u8);
        let acc2: nat = acc as nat * 16 + d as nat;
        assert(crate::framing::hex_accum(acc as nat, h) == crate::framing::hex_accum(
            acc2,
            h.drop_first(),
        ));
        crate::framing::lemma_hex_accum_ge(acc2, h.drop_first());
        assert(acc2 <= u64::MAX);
        assert(acc <= (u64::MAX - d as u64) / 16) by (nonlinear_arith)
            requires
                acc as nat * 16 + d as nat <= u64::MAX,
                d as u64 <= u64::MAX,
                u64::MAX - d as u64 >= ((u64::MAX - d as u64) / 16) * 16,
                (u64::MAX - d as u64) % 16 < 16,
                u64::MAX - d as u64 == ((u64::MAX - d as u64) / 16) * 16 + (u64::MAX - d as u64)
                    % 16,
        {}
        let st = spec_decode_step(
            Parser::Chunked(crate::framing::ChunkState::Size),
            acc,
            input,
            input.len() as nat,
        );
        assert(st.consumed == 1 && st.error is None && st.output =~= Seq::<u8>::empty());
        assert(st.parser == Parser::Chunked(crate::framing::ChunkState::Size));
        assert(st.remaining == acc2 as u64);
        assert(input.skip(1) =~= h.drop_first() + tail);
        lemma_drain_hex_prefix(acc2 as u64, h.drop_first(), tail);
        let rest = spec_drain(
            Parser::Chunked(crate::framing::ChunkState::Size),
            acc2 as u64,
            input.skip(1),
        );
        assert(st.output + rest.output =~= rest.output);
    }
}

/// One complete chunk — size line, data, trailing line break — passes its
/// data through and leaves the decoder at the start of the next size line.
proof fn lemma_drain_one_chunk(h: Seq<u8>, data: Seq<u8>, rest: Seq<u8>)
    requires
        forall|i: int| 0 <= i < h.len() ==> crate::framing::is_hex_digit(#[trigger] h[i]),
        h.len() >= 1,
        crate::framing::hex_accum(0, h) == data.len(),
        1 <= data.len() <= u64::MAX,
    ensures
        ({
            let d2 = spec_drain(Parser::Chunked(crate::framing::ChunkState::Size), 0u64, rest);
            let d1 = spec_drain(
                Parser::Chunked(crate::framing::ChunkState::Size),
                0u64,
                h + crate::head::crlf() + data + crate::head::crlf() + rest,
            );
            d1.output == data + d2.output && d1.parser == d2.parser && d1.remaining
                == d2.remaining && d1.leftover == d2.leftover
        }),
{
    let n = data.len() as u64;
    let tail1 = crate::head::crlf() + data + crate::head::crlf() + rest;
    assert(h + crate::head::crlf() + data + crate::head::crlf() + rest =~= h + tail1);
    lemma_drain_hex_prefix(0u64, h, tail1);
    // CR after the size digits.
    let st1 = spec_decode_step(
        Parser::Chunked(crate::framing::ChunkState::Size),
        n,
        tail1,
        tail1.len() as nat,
    );
    assert(tail1[0] == 13u8);
    assert(st1.consumed == 1 && st1.error is None && st1.output =~= Seq::<u8>::empty());
    assert(st1.parser == Parser::Chunked(crate::framing::ChunkState::SizeLf));
    let tail2 = seq![10u8] + data + crate::head::crlf() + rest;
    assert(tail1.skip(1) =~= tail2);
    // LF: the size is known, chunk content follows.
    let st2 = spec_decode_step(
        Parser::Chunked(crate::framing::ChunkState::SizeLf),
        n,
        tail2,
        tail2.len() as nat,
    );
    assert(tail2[0] == 10u8);
    assert(st2.consumed == 1 && st2.error is None && st2.output =~= Seq::<u8>::empty());
    assert(st2.parser == Parser::Chunked(crate::framing::ChunkState::Content));
    let tail3 = data + crate::head::crlf() + rest;
    assert(tail2.skip(1) =~= tail3);
    // The data passes through in one piece.
    let st3 = spec_decode_step(
        Parser::Chunked(crate::framing::ChunkState::Content),
        n,
        tail3,
        tail3.len() as nat,
    );
    assert(st3.consumed == n as nat && st3.error is None);
    assert(st3.output =~= data) by {
        assert(tail3.take(n as int) =~= data);
    }
    assert(st3.remaining == 0);
    assert(st3.parser == Parser::Chunked(crate::framing::ChunkState::ContentCr));
    let tail4 = crate::head::crlf() + rest;
    assert(tail3.skip(n as int) =~= tail4);
    // CR LF close the chunk.
    let st4 = spec_decode_step(
        Parser::Chunked(crate::framing::ChunkState::ContentCr),
        0u64,
        tail4,
        tail4.len() as nat,
    );
    assert(tail4[0] == 13u8);
    assert(st4.consumed == 1 && st4.error is None && st4.output =~= Seq::<u8>::empty());
    assert(st4.parser == Parser::Chunked(crate::framing::ChunkState::ContentLf));
    let tail5 = seq![10u8] + rest;
    assert(tail4.skip(1) =~= tail5);
    let st5 = spec_decode_step(
        Parser::Chunked(crate::framing::ChunkState::ContentLf),
        0u64,
        tail5,
        tail5.len() as nat,
    );
    assert(tail5[0] == 10u8);
    assert(st5.consumed == 1 && st5.error is None && st5.output =~= Seq::<u8>::empty());
    assert(st5.parser == Parser::Chunked(crate::framing::ChunkState::Size));
    assert(tail5.skip(1) =~= rest);
    // Collect the outputs along the chain.
    let d2 = spec_drain(Parser::Chunked(crate::framing::ChunkState::Size), 0u64, rest);
    let d5 = spec_drain(Parser::Chunked(crate::framing::ChunkState::ContentLf), 0u64, tail5);
    assert(d5.output =~= d2.output && d5.parser == d2.parser && d5.remaining == d2.remaining
        && d5.leftover == d2.leftover) by {
        assert(st5.output + d2.output =~= d2.output);
    }
    let d4 = spec_drain(Parser::Chunked(crate::framing::ChunkState::ContentCr), 0u64, tail4);
    assert(d4.output =~= d2.output && d4.parser == d2.parser && d4.remaining == d2.remaining
        && d4.leftover == d2.leftover) by {
        assert(st4.output + d5.output =~= d5.output);
    }
    let d3 = spec_drain(Parser::Chunked(crate::framing::ChunkState::Content), n, tail3);
    assert(d3.output =~= data + d2.output && d3.parser == d2.parser && d3.remaining
        == d2.remaining && d3.leftover == d2.leftover) by {
        assert(st3.output + d4.output =~= data + d2.output);
    }
    let dB = spec_drain(Parser::Chunked(crate::framing::ChunkState::SizeLf), n, tail2);
    assert(dB.output =~= data + d2.output && dB.parser == d2.parser && dB.remaining
        == d2.remaining && dB.leftover == d2.leftover) by {
        assert(st2.output + d3.output =~= data + d2.output);
    }
    let dA = spec_drain(Parser::Chunked(crate::framing::ChunkState::Size), n, tail1);
    assert(dA.output =~= data + d2.output && dA.parser == d2.parser && dA.remaining
        == d2.remaining && dA.leftover == d2.leftover) by {
        assert(st1.output + dB.output =~= data + d2.output);
    }
}

/// The terminal empty chunk ends the body exactly at its final line
/// break, leaving every later byte untouched.
proof fn lemma_drain_terminal_chunk(rest: Seq<u8>)
    ensures
        ({
            let d = spec_drain(
                Parser::Chunked(crate::framing::ChunkState::Size),
                0u64,
                seq![48u8] + crate::head::crlf() + crate::head::crlf() + rest,
            );
            d.output == Seq::<u8>::empty() && d.parser is Done && d.leftover == rest
        }),
{
    let t0 = seq![48u8] + crate::head::crlf() + crate::head::crlf() + rest;
    let st0 = spec_decode_step(
        Parser::Chunked(crate::framing::ChunkState::Size),
        0u64,
        t0,
        t0.len() as nat,
    );
    assert(t0[0] == 48u8);
    assert(crate::framing::hex_digit_value(48u8) == Some(0u8));
    assert(st0.consumed == 1 && st0.error is None && st0.output =~= Seq::<u8>::empty());
    assert(st0.parser == Parser::Chunked(crate::framing::ChunkState::Size));
    assert(st0.remaining == 0);
    let t1 = seq![13u8, 10u8, 13u8, 10u8] + rest;
    assert(t0.skip(1) =~= t1);
    let st1 = spec_decode_step(
        Parser::Chunked(crate::framing::ChunkState::Size),
        0u64,
        t1,
        t1.len() as nat,
    );
    assert(t1[0] == 13u8);
    assert(st1.parser == Parser::Chunked(crate::framing::ChunkState::SizeLf));
    assert(st1.consumed == 1 && st1.error is None && st1.output =~= Seq::<u8>::empty());
    let t2 = seq![10u8, 13u8, 10u8] + rest;
    assert(t1.skip(1) =~= t2);
    let st2 = spec_decode_step(
        Parser::Chunked(crate::framing::ChunkState::SizeLf),
        0u64,
        t2,
        t2.len() as nat,
    );
    assert(t2[0] == 10u8);
    assert(st2.parser == Parser::Chunked(crate::framing::ChunkState::EndCr));
    assert(st2.consumed == 1 && st2.error is None && st2.output =~= Seq::<u8>::empty());
    let t3 = seq![13u8, 10u8] + rest;
    assert(t2.skip(1) =~= t3);
    let st3 = spec_decode_step(
        Parser::Chunked(crate::framing::ChunkState::EndCr),
        0u64,
        t3,
        t3.len() as nat,
    );
    assert(t3[0] == 13u8);
    assert(st3.parser == Parser::Chunked(crate::framing::ChunkState::EndLf));
    assert(st3.consumed == 1 && st3.error is None && st3.output =~= Seq::<u8>::empty());
    let t4 = seq![10u8] + rest;
    assert(t3.skip(1) =~= t4);
    let st4 = spec_decode_step(
        Parser::Chunked(crate::framing::ChunkState::EndLf),
        0u64,
        t4,
        t4.len() as nat,
    );
    assert(t4[0] == 10u8);
    assert(st4.parser is Done);
    assert(st4.consumed == 1 && st4.error is None && st4.output =~= Seq::<u8>::empty());
    assert(t4.skip(1) =~= rest);
    let dDone = spec_drain(Parser::Done, 0u64, rest);
    assert(dDone.output =~= Seq::<u8>::empty() && dDone.leftover == rest);
    let d4 = spec_drain(Parser::Chunked(crate::framing::ChunkState::EndLf), 0u64, t4);
    assert(d4.output =~= Seq::<u8>::empty() && d4.parser is Done && d4.leftover == rest);
    let d3 = spec_drain(Parser::Chunked(crate::framing::ChunkState::EndCr), 0u64, t3);
    assert(d3.output =~= Seq::<u8>::empty() && d3.parser is Done && d3.leftover == rest);
    let d2 = spec_drain(Parser::Chunked(crate::framing::ChunkState::SizeLf), 0u64, t2);
    assert(d2.output =~= Seq::<u8>::empty() && d2.parser is Done && d2.leftover == rest);
    let d1 = spec_drain(Parser::Chunked(crate::framing::ChunkState::Size), 0u64, t1);
    assert(d1.output =~= Seq::<u8>::empty() && d1.parser is Done && d1.leftover == rest);
    let d0 = spec_drain(Parser::Chunked(crate::framing::ChunkState::Size), 0u64, t0);
    assert(d0.output =~= Seq::<u8>::empty() && d0.parser is Done && d0.leftover == rest);
}

/// The wire form of a chunked body: each chunk as its lowercase
/// hexadecimal size, a line break, the data and a line break; then the
/// empty chunk that ends the body.
pub open spec fn spec_chunked_wire(chunks: Seq<Seq<u8>>) -> Seq<u8>
    decreases chunks.len(),
{
    if chunks.len() == 0 {
        seq![48u8] + crate::head::crlf() + crate::head::crlf()
    } else {
        crate::framing::hex_of(chunks[0].len()) + crate::head::crlf() + chunks[0]
            + crate::head::crlf() + spec_chunked_wire(chunks.drop_first())
    }
}

/// A chunked body decodes to exactly its chunk data, in order: the
/// decoder consumes the whole encoding through the final empty chunk,
/// ends precisely there, and leaves every later byte untouched — whatever
/// the chunk sizes, and however the bytes arrive.
pub proof fn lemma_chunked_wire_decodes(chunks: Seq<Seq<u8>>, extra: Seq<u8>)
    requires
        forall|i: int| 0 <= i < chunks.len() ==> 1 <= (#[trigger] chunks[i]).len() <= u64::MAX,
    ensures
        ({
            let d = spec_drain(
                Parser::Chunked(crate::framing::ChunkState::Size),
                0u64,
                spec_chunked_wire(chunks) + extra,
            );
            d.output == chunks.flatten() && d.parser is Done && d.leftover == extra
        }),
    decreases chunks.len(),
{
    if chunks.len() == 0 {
        assert(spec_chunked_wire(chunks) + extra =~= seq![48u8] + crate::head::crlf()
            + crate::head::crlf() + extra);
        lemma_drain_terminal_chunk(extra);
        assert(chunks.flatten() =~= Seq::<u8>::empty());
    } else {
        let data = chunks[0];
        let h = crate::framing::hex_of(data.len());
        crate::framing::lemma_hex_of_value(data.len());
        let rest_wire = spec_chunked_wire(chunks.drop_first()) + extra;
        assert(spec_chunked_wire(chunks) + extra =~= h + crate::head::crlf() + data
            + crate::head::crlf() + rest_wire);
        let tail_chunks = chunks.drop_first();
        assert(forall|i: int|
            0 <= i < tail_chunks.len() ==> 1 <= (#[trigger] tail_chunks[i]).len()
                <= u64::MAX) by {
            assert(forall|i: int|
                0 <= i < tail_chunks.len() ==> #[trigger] tail_chunks[i] == chunks[i + 1]);
        }
        lemma_chunked_wire_decodes(chunks.drop_first(), extra);
        lemma_drain_one_chunk(h, data, rest_wire);
        assert(chunks.flatten() == data + chunks.drop_first().flatten());
        assert(data + chunks.drop_first().flatten() =~= data + spec_drain(
            Parser::Chunked(crate::framing::ChunkState::Size),
            0u64,
            rest_wire,
        ).output);
    }
}

} // verus!
