//! The request engine: an explicit state machine that sends one HTTP/1.1
//! request over one transport and receives the response head. The caller
//! performs every read, write, flush and connect, and reports the outcome;
//! this module makes every decision. Phases are strictly ordered — no
//! transition ever goes backwards — and each phase owns exactly the
//! resources it needs; in particular the transport has exactly one owner at
//! every instant, and ends up inside the returned response body.

use vstd::prelude::*;

use crate::error::{HttpError, IoErrorKind, TransportError};
use crate::framing::BodyDecodeState;
use crate::head::encoded_request_head;
use crate::headers::{spec_contains, spec_get, valid_header_name, HeaderMap};
use crate::response::ResponseBody;
use crate::uri::{
    default_port, spec_extract_origin, spec_scheme_tls, Origin, Uri,
};

verus! {

/// The bound on the intermediate body buffer: 16 KiB.
pub const BODY_BUFFER_SIZE: u64 = 16384;

/// The bound on the response head: 8 KiB.
pub const MAX_HEAD_SIZE: usize = 8192;

/// A decoded response head with its not-yet-consumed body, which owns the
/// surviving transport.
pub struct Response<T> {
    pub status: u16,
    pub headers: HeaderMap,
    pub body: ResponseBody<T>,
}

/// What the driver must do next; each phase asks for exactly one thing.
pub enum Phase<T> {
    /// Captured request, origin not yet resolved.
    Start { method: Vec<u8>, uri: Uri, headers: HeaderMap, declared_len: u64 },
    /// Origin resolved; the connect is in flight.
    PendingConnect { method: Vec<u8>, uri: Uri, headers: HeaderMap, declared_len: u64, origin: Origin },
    /// Writing the encoded head.
    SendingHead { head: Vec<u8>, sent: usize, declared_len: u64, transport: T },
    /// Pumping the body through a bounded buffer.
    SendingBody { remaining: u64, chunk: Vec<u8>, offset: usize, transport: T },
    /// Flushing the transport's write side.
    Flushing { transport: T },
    /// Accumulating the response head.
    ReceivingHead { raw: Vec<u8>, transport: T },
    /// Terminal: the outcome has been handed to the caller.
    Finished,
}

/// The shape of the current phase, for the driver to branch on.
#[derive(Clone, Copy, Debug, PartialEq, Eq, Structural)]
pub enum PhaseKind {
    Start,
    PendingConnect,
    SendingHead,
    SendingBody,
    Flushing,
    ReceivingHead,
    Finished,
}

/// The kind of a phase.
pub open spec fn spec_phase_kind<T>(p: Phase<T>) -> PhaseKind {
    match p {
        Phase::Start { .. } => PhaseKind::Start,
        Phase::PendingConnect { .. } => PhaseKind::PendingConnect,
        Phase::SendingHead { .. } => PhaseKind::SendingHead,
        Phase::SendingBody { .. } => PhaseKind::SendingBody,
        Phase::Flushing { .. } => PhaseKind::Flushing,
        Phase::ReceivingHead { .. } => PhaseKind::ReceivingHead,
        Phase::Finished => PhaseKind::Finished,
    }
}

/// The strict order of the phases.
pub open spec fn phase_rank<T>(p: Phase<T>) -> int {
    match p {
        Phase::Start { .. } => 0,
        Phase::PendingConnect { .. } => 1,
        Phase::SendingHead { .. } => 2,
        Phase::SendingBody { .. } => 3,
        Phase::Flushing { .. } => 4,
        Phase::ReceivingHead { .. } => 5,
        Phase::Finished => 6,
    }
}

/// The transport a phase owns, if any: phases up to the connect own none,
/// every later live phase owns exactly one.
pub open spec fn phase_transport<T>(p: Phase<T>) -> Option<T> {
    match p {
        Phase::Start { .. } => None,
        Phase::PendingConnect { .. } => None,
        Phase::SendingHead { transport, .. } => Some(transport),
        Phase::SendingBody { transport, .. } => Some(transport),
        Phase::Flushing { transport } => Some(transport),
        Phase::ReceivingHead { transport, .. } => Some(transport),
        Phase::Finished => None,
    }
}

/// The request target put on the wire: the path with query, or `/` when
/// the target has none.
pub open spec fn spec_wire_target(path_and_query: Seq<u8>) -> Seq<u8> {
    if path_and_query.len() == 0 {
        seq![47u8]
    } else {
        path_and_query
    }
}

/// The Host header value built from a resolved origin: `host`, with
/// `:port` exactly when the target named a port.
pub open spec fn spec_host_header(host: Seq<u8>, named_port: Option<u16>) -> Seq<u8> {
    match named_port {
        Some(p) => host + seq![58u8] + crate::ascii::decimal_of(p as nat),
        None => host,
    }
}

/// The headers actually sent: the caller's headers, with `host` appended
/// when absent, then `content-length` appended when absent.
pub open spec fn spec_sent_headers(
    headers: Seq<(Seq<u8>, Seq<u8>)>,
    host_value: Seq<u8>,
    declared_len: u64,
) -> Seq<(Seq<u8>, Seq<u8>)> {
    let host_name = "host"@.map_values(|c: char| c as u8);
    let cl_name = "content-length"@.map_values(|c: char| c as u8);
    let h1 = if spec_contains(headers, host_name) {
        headers
    } else {
        headers.push((host_name, host_value))
    };
    if spec_contains(h1, cl_name) {
        h1
    } else {
        h1.push((cl_name, crate::ascii::decimal_of(declared_len as nat)))
    }
}

/// Fully resolved origin data, as `resolve_origin` computes it.
pub open spec fn origin_matches(
    o: Origin,
    scheme: Option<Seq<u8>>,
    host: Option<Seq<u8>>,
    port: Option<u16>,
    headers: Seq<(Seq<u8>, Seq<u8>)>,
) -> bool {
    spec_extract_origin(scheme, host, port, headers) matches Some(e) && e.1 == o.host@ && e.2
        == o.named_port && spec_scheme_tls(e.0) == Some(o.tls) && o.port == (match o.named_port {
        Some(p) => p,
        None => default_port(o.tls),
    })
}

/// The first position where the head-terminating empty line `\r\n\r\n`
/// begins in `s`, if it occurs.
pub open spec fn is_head_end_at(s: Seq<u8>, i: int) -> bool {
    0 <= i && i + 3 < s.len() && s[i] == 13u8 && s[i + 1] == 10u8 && s[i + 2] == 13u8 && s[i + 3]
        == 10u8
}

#[verifier::opaque]
pub open spec fn first_head_end(s: Seq<u8>) -> Option<int> {
    if exists|i: int| is_head_end_at(s, i) {
        Some(
            choose|i: int|
                is_head_end_at(s, i) && forall|j: int| 0 <= j < i ==> !is_head_end_at(s, j),
        )
    } else {
        None
    }
}

/// The decimal digit string of any number is a legal header value.
pub proof fn lemma_decimal_is_header_value(n: nat)
    ensures
        crate::headers::valid_header_value(crate::ascii::decimal_of(n)),
{
    crate::ascii::lemma_decimal_of_digits(n);
    let d = crate::ascii::decimal_of(n);
    assert(forall|i: int|
        0 <= i < d.len() ==> crate::headers::is_value_byte(#[trigger] d[i])) by {
        assert(forall|i: int| 0 <= i < d.len() ==> crate::ascii::is_digit(#[trigger] d[i]));
    }
}

/// The injected Host header value is a legal header value.
pub proof fn lemma_host_header_value_ok(host: Seq<u8>, named_port: Option<u16>)
    requires
        crate::uri::valid_host(host),
    ensures
        crate::headers::valid_header_value(spec_host_header(host, named_port)),
{
    let v = spec_host_header(host, named_port);
    match named_port {
        None => {
            assert(forall|i: int|
                0 <= i < v.len() ==> crate::headers::is_value_byte(#[trigger] v[i])) by {
                assert(forall|i: int|
                    0 <= i < host.len() ==> crate::uri::is_host_byte(#[trigger] host[i]));
            }
        },
        Some(p) => {
            crate::ascii::lemma_decimal_of_digits(p as nat);
            let d = crate::ascii::decimal_of(p as nat);
            assert(forall|i: int|
                0 <= i < v.len() ==> crate::headers::is_value_byte(#[trigger] v[i])) by {
                assert(forall|i: int|
                    0 <= i < host.len() ==> crate::uri::is_host_byte(#[trigger] host[i]));
                assert(forall|i: int| 0 <= i < d.len() ==> crate::ascii::is_digit(#[trigger] d[i]));
                assert(forall|i: int|
                    0 <= i < v.len() ==> (if i < host.len() {
                        v[i] == host[i]
                    } else if i == host.len() {
                        v[i] == 58u8
                    } else {
                        v[i] == d[i - host.len() - 1]
                    }));
            }
        },
    }
}

/// Finds the first head terminator in `s`.
fn find_head_end(s: &[u8]) -> (r: Option<usize>)
    ensures
        match r {
            Some(i) => i + 3 < s@.len() && first_head_end(s@) == Some(i as int),
            None => first_head_end(s@) is None,
        },
{
    let n: usize = s.len();
    if n < 4 {
        proof {
            reveal(first_head_end);
        }
        return None;
    }
    let mut i: usize = 0;
    while i < n - 3
        invariant
            0 <= i,
            n == s@.len(),
            n >= 4,
            i <= s@.len(),
            forall|j: int| 0 <= j < i ==> !is_head_end_at(s@, j),
        decreases s@.len() - i,
    {
        if s[i] == 13u8 && s[i + 1] == 10u8 && s[i + 2] == 13u8 && s[i + 3] == 10u8 {
            proof {
                reveal(first_head_end);
                assert(is_head_end_at(s@, i as int));
                let w = choose|k: int|
                    is_head_end_at(s@, k) && forall|j: int| 0 <= j < k ==> !is_head_end_at(s@, j);
                if w < i as int {
                    assert(!is_head_end_at(s@, w));
                }
                if w > i as int {
                    assert(!is_head_end_at(s@, i as int));
                }
            }
            return Some(i);
        }
        i += 1;
    }
    proof {
        reveal(first_head_end);
    }
    None
}

/// One in-flight request. The caller drives it: each phase names the one
/// I/O operation to perform, and the matching event method consumes its
/// outcome. Any failure moves to `Finished` and surfaces a typed error;
/// a finished machine accepts no further events (checked, not re-executed).
/// Dropping the machine at any phase drops its single owned transport with
/// it, and no event can make it perform I/O afterwards — it never performs
/// any itself.
pub struct RequestSend<T> {
    phase: Phase<T>,
    body_total: Ghost<u64>,
    body_sent: Ghost<nat>,
}

impl<T> RequestSend<T> {
    /// The current phase.
    pub closed spec fn spec_phase(&self) -> Phase<T> {
        self.phase
    }

    /// The declared body length this request committed to.
    pub closed spec fn spec_body_total(&self) -> u64 {
        self.body_total@
    }

    /// The body bytes written to the transport so far.
    pub closed spec fn spec_body_sent(&self) -> nat {
        self.body_sent@
    }

    /// The transport this machine owns, if any.
    pub open spec fn spec_transport(&self) -> Option<T> {
        phase_transport(self.spec_phase())
    }

    /// The machine's internal consistency: per-phase bounds and the body
    /// accounting (bytes sent plus bytes remaining equal the declared
    /// length). Every constructor establishes it and every event preserves
    /// it.
    pub closed spec fn wf(&self) -> bool {
        match self.phase {
            Phase::Start { method, uri, headers, declared_len } => valid_header_name(method@)
                && uri.wf() && headers.wf() && declared_len == self.body_total@
                && self.body_sent@ == 0,
            Phase::PendingConnect { method, uri, headers, origin, declared_len } => {
                &&& valid_header_name(method@)
                &&& uri.wf()
                &&& headers.wf()
                &&& declared_len == self.body_total@
                &&& self.body_sent@ == 0
                &&& crate::uri::valid_host(origin.host@)
                &&& origin_matches(
                    origin,
                    match uri.scheme {
                        Some(ref s) => Some(s@),
                        None => None,
                    },
                    match uri.host {
                        Some(ref h) => Some(h@),
                        None => None,
                    },
                    uri.port,
                    headers@,
                )
            },
            Phase::SendingHead { ref head, sent, declared_len, .. } => sent <= head.len()
                && declared_len == self.body_total@ && self.body_sent@ == 0,
            Phase::SendingBody { remaining, ref chunk, offset, .. } => {
                &&& offset <= chunk.len()
                &&& chunk.len() - offset <= remaining
                &&& self.body_sent@ + remaining == self.body_total@
            },
            Phase::Flushing { .. } => self.body_sent@ == self.body_total@,
            Phase::ReceivingHead { .. } => self.body_sent@ == self.body_total@,
            Phase::Finished => true,
        }
    }

    /// Captures a request: method, target, headers, and the declared body
    /// length the body source committed to.
    pub fn new(method: Vec<u8>, uri: Uri, headers: HeaderMap, declared_len: u64) -> (r:
        RequestSend<T>)
        requires
            valid_header_name(method@),
            uri.wf(),
            headers.wf(),
        ensures
            r.wf(),
            r.spec_phase() == (Phase::<T>::Start { method, uri, headers, declared_len }),
            r.spec_body_total() == declared_len,
            r.spec_body_sent() == 0,
    {
        RequestSend {
            phase: Phase::Start { method, uri, headers, declared_len },
            body_total: Ghost(declared_len),
            body_sent: Ghost(0),
        }
    }

    /// Which phase the machine stands in, so the driver knows the one
    /// I/O operation to perform next.
    pub fn phase_kind(&self) -> (r: PhaseKind)
        ensures
            r == spec_phase_kind(self.spec_phase()),
    {
        match &self.phase {
            Phase::Start { .. } => PhaseKind::Start,
            Phase::PendingConnect { .. } => PhaseKind::PendingConnect,
            Phase::SendingHead { .. } => PhaseKind::SendingHead,
            Phase::SendingBody { .. } => PhaseKind::SendingBody,
            Phase::Flushing { .. } => PhaseKind::Flushing,
            Phase::ReceivingHead { .. } => PhaseKind::ReceivingHead,
            Phase::Finished => PhaseKind::Finished,
        }
    }

    /// The machine has yielded its outcome; polling it further is misuse.
    pub fn is_terminated(&self) -> (r: bool)
        ensures
            r == (self.spec_phase() is Finished),
    {
        match self.phase {
            Phase::Finished => true,
            _ => false,
        }
    }

    /// Resolves the origin and decides plaintext against TLS. On success
    /// the caller must start connecting to the returned origin; rejection
    /// (`MissingHost`, `UnexpectedScheme`) finishes the machine before any
    /// I/O.
    pub fn start_connect(&mut self) -> (r: Result<Origin, HttpError>)
        requires
            old(self).wf(),
            old(self).spec_phase() is Start,
        ensures
            final(self).wf(),
            phase_rank(final(self).spec_phase()) >= phase_rank(old(self).spec_phase()),
            final(self).spec_body_total() == old(self).spec_body_total(),
            ({
                let (method, uri, headers, declared_len) = match old(self).spec_phase() {
                    Phase::Start { method, uri, headers, declared_len } => (
                        method,
                        uri,
                        headers,
                        declared_len,
                    ),
                    _ => arbitrary(),
                };
                let scheme = match uri.scheme {
                    Some(s) => Some(s@),
                    None => None::<Seq<u8>>,
                };
                let uhost = match uri.host {
                    Some(h) => Some(h@),
                    None => None::<Seq<u8>>,
                };
                match r {
                    Ok(o) => {
                        &&& origin_matches(o, scheme, uhost, uri.port, headers@)
                        &&& (final(self).spec_phase() matches Phase::PendingConnect {
                            method: m2,
                            uri: u2,
                            headers: h2,
                            declared_len: d2,
                            origin: o2,
                        } && m2 == method && u2 == uri && h2 == headers && d2 == declared_len
                            && o2.tls == o.tls && o2.host@ == o.host@ && o2.port == o.port
                            && o2.named_port == o.named_port)
                    },
                    Err(e) => {
                        &&& final(self).spec_phase() is Finished
                        &&& (e is MissingHost || e is UnexpectedScheme)
                        &&& (e is MissingHost <==> spec_extract_origin(
                            scheme,
                            uhost,
                            uri.port,
                            headers@,
                        ) is None)
                        &&& (e matches HttpError::UnexpectedScheme(sv) ==> spec_extract_origin(
                            scheme,
                            uhost,
                            uri.port,
                            headers@,
                        ) matches Some(o) && o.0 == Some(sv@) && spec_scheme_tls(o.0) is None)
                    },
                }
            }),
    {
        let mut ph = Phase::Finished;
        core::mem::swap(&mut ph, &mut self.phase);
        match ph {
            Phase::Start { method, uri, headers, declared_len } => {
                match crate::uri::resolve_origin(&uri, &headers) {
                    Ok(o) => {
                        let origin = Origin {
                            tls: o.tls,
                            host: vstd::slice::slice_to_vec(o.host.as_slice()),
                            port: o.port,
                            named_port: o.named_port,
                        };
                        self.phase = Phase::PendingConnect {
                            method,
                            uri,
                            headers,
                            declared_len,
                            origin,
                        };
                        Ok(o)
                    },
                    Err(e) => {
                        Err(e)
                    },
                }
            },
            _ => unreached(),
        }
    }

    /// The connect failed: the machine finishes with `ConnectError`.
    pub fn connect_failed(&mut self, e: TransportError) -> (r: HttpError)
        requires
            old(self).spec_phase() is PendingConnect,
        ensures
            final(self).wf(),
            final(self).spec_phase() is Finished,
            r == HttpError::ConnectError(e),
    {
        self.phase = Phase::Finished;
        HttpError::ConnectError(e)
    }

    /// The connect succeeded: the machine takes ownership of the transport
    /// and builds the head to write — the request line against the wire
    /// target, and the caller's headers with `host` and `content-length`
    /// injected when absent.
    pub fn connect_ok(&mut self, transport: T)
        requires
            old(self).wf(),
            old(self).spec_phase() is PendingConnect,
        ensures
            final(self).wf(),
            phase_rank(final(self).spec_phase()) >= phase_rank(old(self).spec_phase()),
            final(self).spec_body_total() == old(self).spec_body_total(),
            ({
                let (method, uri, headers, declared_len, origin) = match old(self).spec_phase() {
                    Phase::PendingConnect { method, uri, headers, declared_len, origin } => (
                        method,
                        uri,
                        headers,
                        declared_len,
                        origin,
                    ),
                    _ => arbitrary(),
                };
                final(self).spec_phase() matches Phase::SendingHead {
                    head,
                    sent,
                    declared_len: dl,
                    transport: t,
                } && head@ == encoded_request_head(
                    method@,
                    spec_wire_target(uri.path_and_query@),
                    spec_sent_headers(
                        headers@,
                        spec_host_header(origin.host@, origin.named_port),
                        declared_len,
                    ),
                ) && sent == 0 && dl == declared_len && t == transport
            }),
    {
        let mut ph = Phase::Finished;
        core::mem::swap(&mut ph, &mut self.phase);
        match ph {
            Phase::PendingConnect { method, uri, mut headers, declared_len, origin } => {
                let host_name_arr: [u8; 4] = [104u8, 111u8, 115u8, 116u8];
                let cl_name_arr: [u8; 14] = [
                    99u8, 111u8, 110u8, 116u8, 101u8, 110u8, 116u8, 45u8, 108u8, 101u8, 110u8,
                    103u8, 116u8, 104u8,
                ];
                proof {
                    assert(host_name_arr@ =~= "host"@.map_values(|c: char| c as u8)) by {
                        reveal_strlit("host");
                    }
                    assert(cl_name_arr@ =~= "content-length"@.map_values(|c: char| c as u8)) by {
                        reveal_strlit("content-length");
                    }
                }
                if !headers.contains(host_name_arr.as_slice()) {
                    let mut hv = origin.host.clone();
                    match origin.named_port {
                        Some(p) => {
                            hv.push(58);
                            let digits = crate::ascii::format_u64(p as u64);
                            let ghost hv_pre = hv@;
                            crate::head::push_bytes(&mut hv, digits.as_slice());
                            proof {
                                assert(hv@ =~= spec_host_header(origin.host@, origin.named_port));
                            }
                        },
                        None => {},
                    }
                    proof {
                        assert(crate::headers::valid_header_name(host_name_arr@));
                        lemma_host_header_value_ok(origin.host@, origin.named_port);
                    }
                    let mut name_v: Vec<u8> = Vec::new();
                    crate::head::push_bytes(&mut name_v, host_name_arr.as_slice());
                    headers.append(name_v, hv);
                }
                if !headers.contains(cl_name_arr.as_slice()) {
                    let lv = crate::ascii::format_u64(declared_len);
                    proof {
                        assert(crate::headers::valid_header_name(cl_name_arr@));
                        lemma_decimal_is_header_value(declared_len as nat);
                    }
                    let mut name_v: Vec<u8> = Vec::new();
                    crate::head::push_bytes(&mut name_v, cl_name_arr.as_slice());
                    headers.append(name_v, lv);
                }
                let target: Vec<u8> = if uri.path_and_query.len() == 0 {
                    let mut t: Vec<u8> = Vec::new();
                    t.push(47);
                    proof {
                        assert(t@ =~= spec_wire_target(uri.path_and_query@));
                    }
                    t
                } else {
                    uri.path_and_query.clone()
                };
                let head = crate::head::encode_request_head(
                    method.as_slice(),
                    target.as_slice(),
                    &headers,
                );
                self.phase = Phase::SendingHead { head, sent: 0, declared_len, transport };
            },
            _ => unreached(),
        }
    }

    /// The bytes the caller must write next: the unsent part of the head,
    /// or of the buffered body chunk.
    pub fn to_write(&self) -> (r: &[u8])
        requires
            self.wf(),
            self.spec_phase() is SendingHead || self.spec_phase() is SendingBody,
        ensures
            match self.spec_phase() {
                Phase::SendingHead { head, sent, .. } => r@ == head@.skip(sent as int),
                Phase::SendingBody { chunk, offset, .. } => r@ == chunk@.skip(offset as int),
                _ => false,
            },
    {
        match &self.phase {
            Phase::SendingHead { head, sent, .. } => {
                let r = vstd::slice::slice_subrange(head.as_slice(), *sent, head.len());
                proof {
                    assert(r@ =~= head@.skip(*sent as int));
                }
                r
            },
            Phase::SendingBody { chunk, offset, .. } => {
                let r = vstd::slice::slice_subrange(chunk.as_slice(), *offset, chunk.len());
                proof {
                    assert(r@ =~= chunk@.skip(*offset as int));
                }
                r
            },
            _ => unreached(),
        }
    }

    /// The caller wrote `n` bytes of what `to_write` gave it. Finishing the
    /// head starts the body (or goes straight to flushing when nothing was
    /// declared); exhausting the declared length with an empty buffer moves
    /// to flushing — at that point exactly the declared number of body
    /// bytes has been written.
    pub fn wrote(&mut self, n: usize)
        requires
            old(self).wf(),
            old(self).spec_phase() is SendingHead || old(self).spec_phase() is SendingBody,
            n <= match old(self).spec_phase() {
                Phase::SendingHead { head, sent, .. } => head@.len() - sent,
                Phase::SendingBody { chunk, offset, .. } => chunk@.len() - offset,
                _ => 0int,
            },
        ensures
            final(self).wf(),
            phase_rank(final(self).spec_phase()) >= phase_rank(old(self).spec_phase()),
            final(self).spec_body_total() == old(self).spec_body_total(),
            final(self).spec_transport() == old(self).spec_transport(),
            match old(self).spec_phase() {
                Phase::SendingHead { head, sent, declared_len, transport } => {
                    if sent + n < head@.len() {
                        final(self).spec_phase() == (Phase::SendingHead {
                            head,
                            sent: (sent + n) as usize,
                            declared_len,
                            transport,
                        }) && final(self).spec_body_sent() == old(self).spec_body_sent()
                    } else if declared_len == 0 {
                        final(self).spec_phase() == (Phase::<T>::Flushing { transport })
                    } else {
                        final(self).spec_phase() matches Phase::SendingBody {
                            remaining,
                            chunk,
                            offset,
                            transport: t2,
                        } && remaining == declared_len && chunk@.len() == 0 && offset == 0 && t2
                            == transport && final(self).spec_body_sent() == 0
                    }
                },
                Phase::SendingBody { remaining, chunk, offset, transport } => {
                    &&& final(self).spec_body_sent() == old(self).spec_body_sent() + n
                    &&& if offset + n == chunk@.len() && remaining == n {
                        final(self).spec_phase() == (Phase::<T>::Flushing { transport })
                    } else if offset + n == chunk@.len() {
                        final(self).spec_phase() matches Phase::SendingBody {
                            remaining: r2,
                            chunk: c2,
                            offset: o2,
                            transport: t2,
                        } && r2 == remaining - n && c2@.len() == 0 && o2 == 0 && t2 == transport
                    } else {
                        final(self).spec_phase() == (Phase::SendingBody {
                            remaining: (remaining - n) as u64,
                            chunk,
                            offset: (offset + n) as usize,
                            transport,
                        })
                    }
                },
                _ => false,
            },
    {
        let mut ph = Phase::Finished;
        core::mem::swap(&mut ph, &mut self.phase);
        match ph {
            Phase::SendingHead { head, sent, declared_len, transport } => {
                let sent2 = sent + n;
                if sent2 < head.len() {
                    self.phase = Phase::SendingHead { head, sent: sent2, declared_len, transport };
                } else if declared_len == 0 {
                    self.phase = Phase::Flushing { transport };
                } else {
                    self.phase = Phase::SendingBody {
                        remaining: declared_len,
                        chunk: Vec::new(),
                        offset: 0,
                        transport,
                    };
                }
            },
            Phase::SendingBody { remaining, mut chunk, offset, transport } => {
                proof {
                    self.body_sent@ = self.body_sent@ + n as nat;
                }
                let remaining2 = remaining - n as u64;
                let offset2 = offset + n;
                if offset2 == chunk.len() {
                    if remaining2 == 0 {
                        self.phase = Phase::Flushing { transport };
                    } else {
                        self.phase = Phase::SendingBody {
                            remaining: remaining2,
                            chunk: Vec::new(),
                            offset: 0,
                            transport,
                        };
                    }
                } else {
                    self.phase = Phase::SendingBody {
                        remaining: remaining2,
                        chunk,
                        offset: offset2,
                        transport,
                    };
                }
            },
            _ => unreached(),
        }
    }

    /// How many body bytes the caller should read from the body source
    /// next: the buffer bound, or the declared remainder if smaller.
    pub fn next_body_read(&self) -> (r: u64)
        requires
            self.wf(),
            self.spec_phase() matches Phase::SendingBody { remaining, chunk, .. }
                && chunk@.len() == 0 && remaining > 0,
        ensures
            self.spec_phase() matches Phase::SendingBody { remaining, .. } && r
                == vstd::math::min(BODY_BUFFER_SIZE as int, remaining as int),
    {
        match &self.phase {
            Phase::SendingBody { remaining, .. } => {
                if *remaining < BODY_BUFFER_SIZE {
                    *remaining
                } else {
                    BODY_BUFFER_SIZE
                }
            },
            _ => unreached(),
        }
    }

    /// The caller read a chunk of the body source. It must respect the
    /// buffer bound and the declared remainder, and carry at least one
    /// byte: an empty read is the source ending early (`body_source_eof`).
    pub fn body_chunk(&mut self, data: Vec<u8>)
        requires
            old(self).wf(),
            old(self).spec_phase() matches Phase::SendingBody { remaining, chunk, .. }
                && chunk@.len() == 0 && remaining > 0 && 1 <= data@.len()
                && data@.len() <= vstd::math::min(BODY_BUFFER_SIZE as int, remaining as int),
        ensures
            final(self).wf(),
            final(self).spec_body_total() == old(self).spec_body_total(),
            final(self).spec_body_sent() == old(self).spec_body_sent(),
            final(self).spec_transport() == old(self).spec_transport(),
            match old(self).spec_phase() {
                Phase::SendingBody { remaining, transport, .. } => final(self).spec_phase()
                    == (Phase::SendingBody { remaining, chunk: data, offset: 0, transport }),
                _ => false,
            },
    {
        let mut ph = Phase::Finished;
        core::mem::swap(&mut ph, &mut self.phase);
        match ph {
            Phase::SendingBody { remaining, transport, .. } => {
                self.phase = Phase::SendingBody { remaining, chunk: data, offset: 0, transport };
            },
            _ => unreached(),
        }
    }

    /// The body source ended before producing the declared length: a fatal
    /// `UnexpectedEof`. The machine finishes.
    pub fn body_source_eof(&mut self) -> (r: HttpError)
        requires
            old(self).spec_phase() matches Phase::SendingBody { remaining, chunk, .. }
                && chunk@.len() == 0 && remaining > 0,
        ensures
            final(self).wf(),
            final(self).spec_phase() is Finished,
            r == HttpError::IoError(IoErrorKind::UnexpectedEof),
    {
        self.phase = Phase::Finished;
        HttpError::IoError(IoErrorKind::UnexpectedEof)
    }

    /// A read, write or flush on the transport failed: the machine
    /// finishes with the I/O error.
    pub fn io_failed(&mut self, k: IoErrorKind) -> (r: HttpError)
        requires
            !(old(self).spec_phase() is Finished),
        ensures
            final(self).wf(),
            final(self).spec_phase() is Finished,
            r == HttpError::IoError(k),
    {
        self.phase = Phase::Finished;
        HttpError::IoError(k)
    }

    /// The transport's write side is flushed: start receiving the head.
    pub fn flushed(&mut self)
        requires
            old(self).wf(),
            old(self).spec_phase() is Flushing,
        ensures
            final(self).wf(),
            match old(self).spec_phase() {
                Phase::Flushing { transport } => final(self).spec_phase()
                    matches Phase::ReceivingHead { raw, transport: t2 } && raw@.len() == 0 && t2
                    == transport,
                _ => false,
            },
            final(self).spec_body_total() == old(self).spec_body_total(),
            final(self).spec_body_sent() == old(self).spec_body_sent(),
    {
        let mut ph = Phase::Finished;
        core::mem::swap(&mut ph, &mut self.phase);
        match ph {
            Phase::Flushing { transport } => {
                self.phase = Phase::ReceivingHead { raw: Vec::new(), transport };
            },
            _ => unreached(),
        }
    }

    /// The caller read response bytes. The machine accumulates them until
    /// the empty line ends the head, then parses the status line and
    /// headers, selects the body framing, and yields the response: status,
    /// headers, and a body that owns the transport, with every byte read
    /// past the head as its backlog. A head that never ends within the
    /// bound, or does not parse, is invalid data; an unsupported transfer
    /// coding is refused. `Ok(None)` asks for another read.
    pub fn head_data(&mut self, data: &[u8]) -> (r: Result<Option<Response<T>>, HttpError>)
        requires
            old(self).wf(),
            old(self).spec_phase() is ReceivingHead,
            data@.len() >= 1,
        ensures
            final(self).wf(),
            phase_rank(final(self).spec_phase()) >= phase_rank(old(self).spec_phase()),
            final(self).spec_body_total() == old(self).spec_body_total(),
            final(self).spec_body_sent() == old(self).spec_body_sent(),
            match old(self).spec_phase() {
                Phase::ReceivingHead { raw, transport } => {
                    let acc = raw@ + data@;
                    match first_head_end(acc) {
                        None => {
                            if acc.len() > MAX_HEAD_SIZE {
                                final(self).spec_phase() is Finished && (r matches Err(e) && e
                                    == HttpError::IoError(IoErrorKind::InvalidData))
                            } else {
                                (final(self).spec_phase() matches Phase::ReceivingHead {
                                    raw: r2,
                                    transport: t2,
                                } && r2@ == acc && t2 == transport) && (r matches Ok(o) && o
                                    is None)
                            }
                        },
                        Some(i) => {
                            let head = acc.take(i + 4);
                            let leftover = acc.skip(i + 4);
                            if i + 4 > MAX_HEAD_SIZE {
                                final(self).spec_phase() is Finished && (r matches Err(e) && e
                                    == HttpError::IoError(IoErrorKind::InvalidData))
                            } else {
                                match crate::head::spec_parse_response_head(head) {
                                    None => final(self).spec_phase() is Finished && (r
                                        matches Err(e) && e == HttpError::IoError(
                                        IoErrorKind::InvalidData,
                                    )),
                                    Some(ph) => match crate::framing::spec_length_from_headers(
                                        ph.1,
                                    ) {
                                        None => final(self).spec_phase() is Finished && (r
                                            matches Err(e) && e
                                            is UnsupportedTransferEncoding),
                                        Some(l) => final(self).spec_phase() is Finished && (r
                                            matches Ok(o) && o matches Some(resp)
                                            && resp.status == ph.0 && resp.headers@ == ph.1
                                            && resp.body.spec_pending() == leftover
                                            && resp.body.spec_error() is None
                                            && resp.body.spec_transport() == transport && (
                                        match l {
                                            Some(0u64) => resp.body.spec_parser()
                                                is Done,
                                            Some(n) => resp.body.spec_parser() is FixedLength
                                                && resp.body.spec_remaining() == n,
                                            None => resp.body.spec_parser()
                                                == crate::framing::Parser::Chunked(
                                                crate::framing::ChunkState::Size,
                                            ),
                                        })),
                                    },
                                }
                            }
                        },
                    }
                },
                _ => false,
            },
    {
        let mut ph = Phase::Finished;
        core::mem::swap(&mut ph, &mut self.phase);
        match ph {
            Phase::ReceivingHead { mut raw, transport } => {
                let ghost raw_pre = raw@;
                crate::head::push_bytes(&mut raw, data);
                proof {
                    assert(raw@ =~= raw_pre + data@);
                }
                match find_head_end(raw.as_slice()) {
                    None => {
                        if raw.len() > MAX_HEAD_SIZE {
                            Err(HttpError::IoError(IoErrorKind::InvalidData))
                        } else {
                            self.phase = Phase::ReceivingHead { raw, transport };
                            Ok(None)
                        }
                    },
                    Some(i) => {
                        let n = raw.len();
                        assert(i + 3 < n);
                        if i + 4 > MAX_HEAD_SIZE {
                            return Err(HttpError::IoError(IoErrorKind::InvalidData));
                        }
                        let head_bytes = vstd::slice::slice_subrange(raw.as_slice(), 0, i + 4);
                        let leftover = vstd::slice::slice_to_vec(
                            vstd::slice::slice_subrange(raw.as_slice(), i + 4, n),
                        );
                        proof {
                            assert(head_bytes@ =~= raw@.take(i as int + 4));
                            assert(leftover@ =~= raw@.skip(i as int + 4));
                        }
                        match crate::head::parse_response_head(head_bytes) {
                            None => Err(HttpError::IoError(IoErrorKind::InvalidData)),
                            Some((status, headers)) => {
                                match BodyDecodeState::from_headers(&headers) {
                                    Err(e) => Err(e),
                                    Ok(decode) => {
                                        let body = ResponseBody::new(decode, leftover, transport);
                                        Ok(Some(Response { status, headers, body }))
                                    },
                                }
                            },
                        }
                    },
                }
            },
            _ => unreached(),
        }
    }

    /// The transport ended before the head did: the machine finishes with
    /// `UnexpectedEof`.
    pub fn head_eof(&mut self) -> (r: HttpError)
        requires
            old(self).spec_phase() is ReceivingHead,
        ensures
            final(self).wf(),
            final(self).spec_phase() is Finished,
            r == HttpError::IoError(IoErrorKind::UnexpectedEof),
    {
        self.phase = Phase::Finished;
        HttpError::IoError(IoErrorKind::UnexpectedEof)
    }

    /// Abandons the request at whatever phase it stands in and releases
    /// its owned transport, if it holds one. Nothing of the request
    /// survives, so no further I/O can happen on its behalf: this is what
    /// dropping an in-flight request amounts to, with the transport handed
    /// back instead of dropped.
    pub fn abort(self) -> (r: Option<T>)
        ensures
            r == self.spec_transport(),
    {
        match self.phase {
            Phase::Start { .. } => None,
            Phase::PendingConnect { .. } => None,
            Phase::SendingHead { transport, .. } => Some(transport),
            Phase::SendingBody { transport, .. } => Some(transport),
            Phase::Flushing { transport } => Some(transport),
            Phase::ReceivingHead { transport, .. } => Some(transport),
            Phase::Finished => None,
        }
    }

    /// `self` with its owned transport replaced.
    pub closed spec fn with_transport(self, t2: T) -> RequestSend<T> {
        RequestSend {
            phase: match self.spec_phase() {
                Phase::SendingHead { head, sent, declared_len, transport } => Phase::SendingHead {
                    head,
                    sent,
                    declared_len,
                    transport: t2,
                },
                Phase::SendingBody { remaining, chunk, offset, transport } => Phase::SendingBody {
                    remaining,
                    chunk,
                    offset,
                    transport: t2,
                },
                Phase::Flushing { transport } => Phase::Flushing { transport: t2 },
                Phase::ReceivingHead { raw, transport } => Phase::ReceivingHead {
                    raw,
                    transport: t2,
                },
                p => p,
            },
            body_total: Ghost(self.spec_body_total()),
            body_sent: Ghost(self.spec_body_sent()),
        }
    }

    /// Lends out the owned transport so the caller can perform the one
    /// I/O operation the current phase asks for. The machine itself never
    /// touches it.
    pub fn transport_mut(&mut self) -> (t: &mut T)
        requires
            old(self).wf(),
            old(self).spec_transport() is Some,
        ensures
            Some(*t) == old(self).spec_transport(),
            *final(self) == old(self).with_transport(*final(t)),
            final(self).wf(),
    {
        proof {
            lemma_with_transport_wf(*self);
        }
        match &mut self.phase {
            Phase::SendingHead { transport, .. } => transport,
            Phase::SendingBody { transport, .. } => transport,
            Phase::Flushing { transport } => transport,
            Phase::ReceivingHead { transport, .. } => transport,
            _ => unreached(),
        }
    }
}

/// Replacing the transport touches nothing the invariant speaks of.
proof fn lemma_with_transport_wf<T>(m: RequestSend<T>)
    requires
        m.wf(),
    ensures
        forall|t: T| (#[trigger] m.with_transport(t)).wf(),
{
}

/// When the caller set no Content-Length header, the headers the engine
/// sends carry exactly the declared body length — the outbound
/// Content-Length equals the body source's commitment.
pub proof fn lemma_sent_content_length(
    headers: Seq<(Seq<u8>, Seq<u8>)>,
    host_value: Seq<u8>,
    declared_len: u64,
)
    requires
        !spec_contains(headers, "content-length"@.map_values(|c: char| c as u8)),
    ensures
        spec_get(
            spec_sent_headers(headers, host_value, declared_len),
            "content-length"@.map_values(|c: char| c as u8),
        ) == Some(crate::ascii::decimal_of(declared_len as nat)),
{
    let host_name = "host"@.map_values(|c: char| c as u8);
    let cl_name = "content-length"@.map_values(|c: char| c as u8);
    let h1 = if spec_contains(headers, host_name) {
        headers
    } else {
        headers.push((host_name, host_value))
    };
    crate::headers::lemma_get_contains(headers, cl_name);
    assert(!crate::ascii::eq_ignore_case(host_name, cl_name)) by {
        reveal_strlit("host");
        reveal_strlit("content-length");
        assert(crate::ascii::lower_bytes(host_name).len() == host_name.len());
        assert(crate::ascii::lower_bytes(cl_name).len() == cl_name.len());
    }
    if !spec_contains(headers, host_name) {
        crate::headers::lemma_spec_get_push(headers, (host_name, host_value), cl_name);
    }
    crate::headers::lemma_get_contains(h1, cl_name);
    assert(!spec_contains(h1, cl_name));
    crate::headers::lemma_spec_get_push(
        h1,
        (cl_name, crate::ascii::decimal_of(declared_len as nat)),
        cl_name,
    );
    crate::headers::lemma_get_contains(h1, cl_name);
}

/// Reaching the flush phase, or any later one, means the body went out in
/// full: the bytes written equal the declared length. Together with the
/// body sources' exact declarations, a request transmits its body
/// byte-complete or fails — never silently truncated.
pub proof fn lemma_flushing_body_complete<T>(m: &RequestSend<T>)
    requires
        m.wf(),
        m.spec_phase() is Flushing || m.spec_phase() is ReceivingHead,
    ensures
        m.spec_body_sent() == m.spec_body_total(),
{
}

} // verus!
