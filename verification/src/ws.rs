//! The WebSocket upgrade handshake: building the upgrade request, checking
//! that a request carries the upgrade markers, and validating the server's
//! response, including the accept-key derivation from the request's nonce.
//! The caller supplies the random nonce; everything deterministic is
//! decided and verified here.

use vstd::prelude::*;

use crate::ascii::eq_ignore_case;
use crate::base64::base64_of;
use crate::error::HttpError;
use crate::headers::{spec_get, HeaderMap};
use crate::request::Request;
use crate::uri::Uri;

verus! {

/// What SHA-1 returns: a function of the input bytes alone.
pub uninterp spec fn sha1_of(data: Seq<u8>) -> Seq<u8>;

/// Relies on ring's SHA-1 digest (`SHA1_FOR_LEGACY_USE_ONLY`): the result
/// depends on the input bytes alone and is twenty bytes long.
#[verifier::external_body]
fn sha1_digest(data: &[u8]) -> (r: Vec<u8>)
    ensures
        r@ == sha1_of(data@),
        r@.len() == 20,
{
    let d = ring::digest::digest(&ring::digest::SHA1_FOR_LEGACY_USE_ONLY, data);
    d.as_ref().to_vec()
}

/// The protocol constant appended to the nonce before hashing.
pub open spec fn spec_ws_guid() -> Seq<u8> {
    "258EAFA5-E914-47DA-95CA-C5AB0DC85B11"@.map_values(|c: char| c as u8)
}

/// The accept key a conforming server answers with: the base64 encoding of
/// the SHA-1 digest of the request key followed by the protocol constant.
pub open spec fn accept_key_of(key: Seq<u8>) -> Seq<u8> {
    base64_of(sha1_of(key + spec_ws_guid()))
}

/// Derives the accept key for a request key, per `accept_key_of`.
pub fn derive_accept_key(key: &[u8]) -> (r: Vec<u8>)
    ensures
        r@ == accept_key_of(key@),
{
    let guid: [u8; 36] = [50u8, 53u8, 56u8, 69u8, 65u8, 70u8, 65u8, 53u8, 45u8, 69u8, 57u8, 49u8, 52u8, 45u8, 52u8, 55u8, 68u8, 65u8, 45u8, 57u8, 53u8, 67u8, 65u8, 45u8, 67u8, 53u8, 65u8, 66u8, 48u8, 68u8, 67u8, 56u8, 53u8, 66u8, 49u8, 49u8];
    proof {
        assert(guid@ =~= spec_ws_guid()) by {
            reveal_strlit("258EAFA5-E914-47DA-95CA-C5AB0DC85B11");
        }
    }
    let mut input = vstd::slice::slice_to_vec(key);
    crate::head::push_bytes(&mut input, guid.as_slice());
    let digest = sha1_digest(input.as_slice());
    crate::base64::base64_encode(digest.as_slice())
}

/// A separator in a Connection header value.
pub open spec fn is_sep(b: u8) -> bool {
    b == 32u8 || b == 44u8
}

/// The value contains `upgrade` (any case) as one whole element of its
/// space- and comma-separated list.
pub open spec fn upgrade_token_at(v: Seq<u8>, i: int, j: int) -> bool {
    &&& 0 <= i <= j <= v.len()
    &&& (i == 0 || is_sep(v[i - 1]))
    &&& (j == v.len() || is_sep(v[j]))
    &&& eq_ignore_case(v.subrange(i, j), "upgrade"@.map_values(|c: char| c as u8))
}

pub open spec fn has_upgrade_token(v: Seq<u8>) -> bool {
    exists|i: int, j: int| upgrade_token_at(v, i, j)
}

/// Scans the separated elements of `v` for `upgrade`, any case.
pub fn value_has_upgrade_token(v: &[u8]) -> (r: bool)
    ensures
        r == has_upgrade_token(v@),
{
    let upgrade_word: [u8; 7] = [117u8, 112u8, 103u8, 114u8, 97u8, 100u8, 101u8];
    proof {
        assert(upgrade_word@ =~= "upgrade"@.map_values(|c: char| c as u8)) by {
            reveal_strlit("upgrade");
        }
    }
    let n = v.len();
    let mut seg_start: usize = 0;
    let mut k: usize = 0;
    loop
        invariant
            0 <= seg_start,
            seg_start <= k,
            k <= n,
            n == v@.len(),
            upgrade_word@ == "upgrade"@.map_values(|c: char| c as u8),
            seg_start == 0 || (seg_start >= 1 && is_sep(v@[seg_start as int - 1])),
            forall|x: int| seg_start <= x < k ==> !is_sep(v@[x]),
            forall|i: int, j: int| upgrade_token_at(v@, i, j) ==> i >= seg_start,
        decreases n - k + 1,
    {
        if k == n || v[k] == 32u8 || v[k] == 44u8 {
            let seg = vstd::slice::slice_subrange(v, seg_start, k);
            proof {
                assert(seg@ =~= v@.subrange(seg_start as int, k as int));
            }
            if crate::ascii::eq_ignore_ascii_case(seg, upgrade_word.as_slice()) {
                proof {
                    assert(upgrade_token_at(v@, seg_start as int, k as int));
                }
                return true;
            }
            proof {
                assert(forall|i: int, j: int| upgrade_token_at(v@, i, j) ==> i >= k + 1) by {
                    assert forall|i: int, j: int| upgrade_token_at(v@, i, j) implies i >= k + 1 by {
                        if i < k + 1 {
                            assert(i >= seg_start);
                            if i > seg_start {
                                assert(!is_sep(v@[i - 1]));
                                assert(false);
                            } else {
                                // i == seg_start: j can only be the segment end k.
                                if j < k {
                                    assert(eq_ignore_case(
                                        v@.subrange(i, j),
                                        "upgrade"@.map_values(|c: char| c as u8),
                                    ));
                                    assert(is_sep(v@[j]));
                                    assert(seg_start <= j < k);
                                    assert(false);
                                } else if j > k {
                                    if k < n {
                                        assert(is_sep(v@[k as int]));
                                        let w = v@.subrange(i, j);
                                        assert(w[k - i] == v@[k as int]);
                                        lemma_token_has_no_sep(v@, i, j, k as int);
                                        assert(false);
                                    } else {
                                        assert(false);
                                    }
                                } else {
                                    assert(!eq_ignore_case(
                                        v@.subrange(seg_start as int, k as int),
                                        "upgrade"@.map_values(|c: char| c as u8),
                                    ));
                                    assert(false);
                                }
                            }
                        }
                    }
                }
            }
            if k == n {
                proof {
                    assert(!has_upgrade_token(v@)) by {
                        if has_upgrade_token(v@) {
                            let (i, j) = choose|i: int, j: int| upgrade_token_at(v@, i, j);
                            assert(i >= k + 1);
                            assert(j <= n);
                            assert(v@.subrange(i, j).len()
                                == "upgrade"@.map_values(|c: char| c as u8).len());
                            reveal_strlit("upgrade");
                            assert(false);
                        }
                    }
                }
                return false;
            }
            seg_start = k + 1;
        }
        k += 1;
    }
}

/// A byte of the token `upgrade` matched up to case is never a separator.
proof fn lemma_token_has_no_sep(v: Seq<u8>, i: int, j: int, p: int)
    requires
        0 <= i <= j <= v.len(),
        eq_ignore_case(v.subrange(i, j), "upgrade"@.map_values(|c: char| c as u8)),
        i <= p < j,
    ensures
        !is_sep(v[p]),
{
    reveal_strlit("upgrade");
    let w = v.subrange(i, j);
    let u = "upgrade"@.map_values(|c: char| c as u8);
    assert(crate::ascii::lower_bytes(w).len() == crate::ascii::lower_bytes(u).len());
    assert(w.len() == 7);
    assert(crate::ascii::lower_bytes(w)[p - i] == crate::ascii::lower_bytes(u)[p - i]);
    assert(crate::ascii::lower_byte(w[p - i]) == crate::ascii::lower_byte(u[p - i]));
    assert(w[p - i] == v[p]);
}

/// Whether a request head carries every upgrade marker: the `GET` method,
/// a Connection list containing `upgrade`, `Upgrade: websocket` (any
/// case), `Sec-WebSocket-Version: 13` exactly, and some key.
pub open spec fn spec_is_upgrade_request(method: Seq<u8>, hs: Seq<(Seq<u8>, Seq<u8>)>) -> bool {
    &&& method == "GET"@.map_values(|c: char| c as u8)
    &&& (spec_get(hs, "connection"@.map_values(|c: char| c as u8)) matches Some(v)
        && has_upgrade_token(v))
    &&& (spec_get(hs, "upgrade"@.map_values(|c: char| c as u8)) matches Some(v)
        && eq_ignore_case(v, "websocket"@.map_values(|c: char| c as u8)))
    &&& spec_get(hs, "sec-websocket-version"@.map_values(|c: char| c as u8)) == Some(
        "13"@.map_values(|c: char| c as u8),
    )
    &&& spec_get(hs, "sec-websocket-key"@.map_values(|c: char| c as u8)) is Some
}

/// Checks `spec_is_upgrade_request` on a request head.
pub fn is_upgrade_request(method: &[u8], headers: &HeaderMap) -> (r: bool)
    ensures
        r == spec_is_upgrade_request(method@, headers@),
{
    let get_word: [u8; 3] = [71u8, 69u8, 84u8];
    let conn_name: [u8; 10] = [99u8, 111u8, 110u8, 110u8, 101u8, 99u8, 116u8, 105u8, 111u8, 110u8];
    let upgrade_name: [u8; 7] = [117u8, 112u8, 103u8, 114u8, 97u8, 100u8, 101u8];
    let websocket_word: [u8; 9] = [119u8, 101u8, 98u8, 115u8, 111u8, 99u8, 107u8, 101u8, 116u8];
    let version_name: [u8; 21] = [115u8, 101u8, 99u8, 45u8, 119u8, 101u8, 98u8, 115u8, 111u8, 99u8, 107u8, 101u8, 116u8, 45u8, 118u8, 101u8, 114u8, 115u8, 105u8, 111u8, 110u8];
    let thirteen: [u8; 2] = [49u8, 51u8];
    let key_name: [u8; 17] = [115u8, 101u8, 99u8, 45u8, 119u8, 101u8, 98u8, 115u8, 111u8, 99u8, 107u8, 101u8, 116u8, 45u8, 107u8, 101u8, 121u8];
    proof {
        assert(get_word@ =~= "GET"@.map_values(|c: char| c as u8)) by {
            reveal_strlit("GET");
        }
        assert(conn_name@ =~= "connection"@.map_values(|c: char| c as u8)) by {
            reveal_strlit("connection");
        }
        assert(upgrade_name@ =~= "upgrade"@.map_values(|c: char| c as u8)) by {
            reveal_strlit("upgrade");
        }
        assert(websocket_word@ =~= "websocket"@.map_values(|c: char| c as u8)) by {
            reveal_strlit("websocket");
        }
        assert(version_name@ =~= "sec-websocket-version"@.map_values(|c: char| c as u8)) by {
            reveal_strlit("sec-websocket-version");
        }
        assert(thirteen@ =~= "13"@.map_values(|c: char| c as u8)) by {
            reveal_strlit("13");
        }
        assert(key_name@ =~= "sec-websocket-key"@.map_values(|c: char| c as u8)) by {
            reveal_strlit("sec-websocket-key");
        }
    }
    if !crate::framing::bytes_equal(method, get_word.as_slice()) {
        return false;
    }
    match headers.get(conn_name.as_slice()) {
        None => {
            return false;
        },
        Some(v) => {
            if !value_has_upgrade_token(v.as_slice()) {
                return false;
            }
        },
    }
    match headers.get(upgrade_name.as_slice()) {
        None => {
            return false;
        },
        Some(v) => {
            if !crate::ascii::eq_ignore_ascii_case(v.as_slice(), websocket_word.as_slice()) {
                return false;
            }
        },
    }
    match headers.get(version_name.as_slice()) {
        None => {
            return false;
        },
        Some(v) => {
            if !crate::framing::bytes_equal(v.as_slice(), thirteen.as_slice()) {
                return false;
            }
        },
    }
    match headers.get(key_name.as_slice()) {
        None => false,
        Some(_) => true,
    }
}

/// Whether a response completes the upgrade that `req` asked for: status
/// 101, `Connection: Upgrade` and `Upgrade: websocket` (any case, whole
/// value), and the accept key derived from the request's key.
pub open spec fn spec_check_upgrade_response(
    req_method: Seq<u8>,
    req_hs: Seq<(Seq<u8>, Seq<u8>)>,
    status: u16,
    resp_hs: Seq<(Seq<u8>, Seq<u8>)>,
) -> bool {
    &&& spec_is_upgrade_request(req_method, req_hs)
    &&& status == 101
    &&& (spec_get(resp_hs, "connection"@.map_values(|c: char| c as u8)) matches Some(v)
        && eq_ignore_case(v, "upgrade"@.map_values(|c: char| c as u8)))
    &&& (spec_get(resp_hs, "upgrade"@.map_values(|c: char| c as u8)) matches Some(v)
        && eq_ignore_case(v, "websocket"@.map_values(|c: char| c as u8)))
    &&& (spec_get(req_hs, "sec-websocket-key"@.map_values(|c: char| c as u8)) matches Some(key)
        && spec_get(resp_hs, "sec-websocket-accept"@.map_values(|c: char| c as u8)) == Some(
        accept_key_of(key),
    ))
}

/// Checks `spec_check_upgrade_response`.
pub fn check_upgrade_response(
    req_method: &[u8],
    req_headers: &HeaderMap,
    status: u16,
    resp_headers: &HeaderMap,
) -> (r: bool)
    ensures
        r == spec_check_upgrade_response(req_method@, req_headers@, status, resp_headers@),
{
    let conn_name: [u8; 10] = [99u8, 111u8, 110u8, 110u8, 101u8, 99u8, 116u8, 105u8, 111u8, 110u8];
    let upgrade_name: [u8; 7] = [117u8, 112u8, 103u8, 114u8, 97u8, 100u8, 101u8];
    let websocket_word: [u8; 9] = [119u8, 101u8, 98u8, 115u8, 111u8, 99u8, 107u8, 101u8, 116u8];
    let key_name: [u8; 17] = [115u8, 101u8, 99u8, 45u8, 119u8, 101u8, 98u8, 115u8, 111u8, 99u8, 107u8, 101u8, 116u8, 45u8, 107u8, 101u8, 121u8];
    let accept_name: [u8; 20] = [115u8, 101u8, 99u8, 45u8, 119u8, 101u8, 98u8, 115u8, 111u8, 99u8, 107u8, 101u8, 116u8, 45u8, 97u8, 99u8, 99u8, 101u8, 112u8, 116u8];
    proof {
        assert(conn_name@ =~= "connection"@.map_values(|c: char| c as u8)) by {
            reveal_strlit("connection");
        }
        assert(upgrade_name@ =~= "upgrade"@.map_values(|c: char| c as u8)) by {
            reveal_strlit("upgrade");
        }
        assert(websocket_word@ =~= "websocket"@.map_values(|c: char| c as u8)) by {
            reveal_strlit("websocket");
        }
        assert(key_name@ =~= "sec-websocket-key"@.map_values(|c: char| c as u8)) by {
            reveal_strlit("sec-websocket-key");
        }
        assert(accept_name@ =~= "sec-websocket-accept"@.map_values(|c: char| c as u8)) by {
            reveal_strlit("sec-websocket-accept");
        }
    }
    if !is_upgrade_request(req_method, req_headers) {
        return false;
    }
    if status != 101 {
        return false;
    }
    match resp_headers.get(conn_name.as_slice()) {
        None => {
            return false;
        },
        Some(v) => {
            if !crate::ascii::eq_ignore_ascii_case(v.as_slice(), upgrade_name.as_slice()) {
                return false;
            }
        },
    }
    match resp_headers.get(upgrade_name.as_slice()) {
        None => {
            return false;
        },
        Some(v) => {
            if !crate::ascii::eq_ignore_ascii_case(v.as_slice(), websocket_word.as_slice()) {
                return false;
            }
        },
    }
    let key = match req_headers.get(key_name.as_slice()) {
        None => {
            proof {
                assert(false);
            }
            return false;
        },
        Some(k) => k.clone(),
    };
    let expected = derive_accept_key(key.as_slice());
    match resp_headers.get(accept_name.as_slice()) {
        None => false,
        Some(v) => crate::framing::bytes_equal(v.as_slice(), expected.as_slice()),
    }
}

/// Every byte base64 produces is visible ASCII, hence a legal header value.
pub proof fn lemma_base64_is_header_value(s: Seq<u8>)
    ensures
        crate::headers::valid_header_value(base64_of(s)),
    decreases s.len(),
{
    if s.len() == 0 {
    } else if s.len() <= 2 {
        assert(forall|i: int|
            0 <= i < base64_of(s).len() ==> crate::headers::is_value_byte(
                #[trigger] base64_of(s)[i],
            ));
    } else {
        lemma_base64_is_header_value(s.skip(3));
        let head = base64_of(s).take(4);
        let tail = base64_of(s).skip(4);
        assert(tail =~= base64_of(s.skip(3)));
        assert(forall|i: int|
            0 <= i < base64_of(s).len() ==> crate::headers::is_value_byte(
                #[trigger] base64_of(s)[i],
            )) by {
            assert(forall|i: int|
                0 <= i < tail.len() ==> crate::headers::is_value_byte(#[trigger] tail[i]));
            assert(forall|i: int|
                0 <= i < base64_of(s).len() ==> base64_of(s)[i] == (if i < 4 {
                    head[i]
                } else {
                    tail[i - 4]
                }));
            assert(crate::headers::is_value_byte(head[0]));
            assert(crate::headers::is_value_byte(head[1]));
            assert(crate::headers::is_value_byte(head[2]));
            assert(crate::headers::is_value_byte(head[3]));
        }
    }
}

/// A failure of the WebSocket handshake.
#[derive(Clone, Debug)]
pub enum WsConnectError {
    /// The outbound request lacks the upgrade markers; found before any
    /// I/O happens.
    InvalidUpgradeRequest,
    /// The server's answer does not complete the upgrade; carries the raw
    /// response head and the start of its body for diagnostics.
    InvalidUpgradeResponse { status: u16, headers: HeaderMap, body: Vec<u8> },
    /// The target could not be parsed as a URI.
    InvalidUrl,
    /// The request itself failed before the handshake could be judged.
    UpgradeRequestHttpError(HttpError),
}

impl core::convert::From<HttpError> for WsConnectError {
    /// A failed request wraps into a handshake error unchanged.
    fn from(value: HttpError) -> (r: WsConnectError)
        ensures
            r == WsConnectError::UpgradeRequestHttpError(value),
    {
        WsConnectError::UpgradeRequestHttpError(value)
    }
}

impl vstd::std_specs::convert::FromSpecImpl<HttpError> for WsConnectError {
    open spec fn obeys_from_spec() -> bool {
        true
    }

    open spec fn from_spec(t: HttpError) -> WsConnectError {
        WsConnectError::UpgradeRequestHttpError(t)
    }
}

/// Builds the upgrade request: a `GET` with the upgrade markers and the
/// caller-supplied sixteen-byte nonce as its key. The target starts out
/// relative and empty; the caller sets it. The result always passes
/// `is_upgrade_request`.
pub fn connect_request_builder(nonce: Vec<u8>) -> (r: Request<()>)
    requires
        nonce@.len() == 16,
    ensures
        r.wf(),
        r.method@ == "GET"@.map_values(|c: char| c as u8),
        spec_is_upgrade_request(r.method@, r.headers@),
        spec_get(r.headers@, "sec-websocket-key"@.map_values(|c: char| c as u8)) == Some(
            base64_of(nonce@),
        ),
        r.uri.scheme is None && r.uri.host is None && r.uri.port is None
            && r.uri.path_and_query@.len() == 0,
{
    let get_word: [u8; 3] = [71u8, 69u8, 84u8];
    let conn_name: [u8; 10] = [99u8, 111u8, 110u8, 110u8, 101u8, 99u8, 116u8, 105u8, 111u8, 110u8];
    let upgrade_cap: [u8; 7] = [85u8, 112u8, 103u8, 114u8, 97u8, 100u8, 101u8];
    let upgrade_name: [u8; 7] = [117u8, 112u8, 103u8, 114u8, 97u8, 100u8, 101u8];
    let websocket_word: [u8; 9] = [119u8, 101u8, 98u8, 115u8, 111u8, 99u8, 107u8, 101u8, 116u8];
    let version_name: [u8; 21] = [115u8, 101u8, 99u8, 45u8, 119u8, 101u8, 98u8, 115u8, 111u8, 99u8, 107u8, 101u8, 116u8, 45u8, 118u8, 101u8, 114u8, 115u8, 105u8, 111u8, 110u8];
    let thirteen: [u8; 2] = [49u8, 51u8];
    let key_name: [u8; 17] = [115u8, 101u8, 99u8, 45u8, 119u8, 101u8, 98u8, 115u8, 111u8, 99u8, 107u8, 101u8, 116u8, 45u8, 107u8, 101u8, 121u8];
    proof {
        assert(get_word@ =~= "GET"@.map_values(|c: char| c as u8)) by {
            reveal_strlit("GET");
        }
        assert(conn_name@ =~= "connection"@.map_values(|c: char| c as u8)) by {
            reveal_strlit("connection");
        }
        assert(upgrade_cap@ =~= "Upgrade"@.map_values(|c: char| c as u8)) by {
            reveal_strlit("Upgrade");
        }
        assert(upgrade_name@ =~= "upgrade"@.map_values(|c: char| c as u8)) by {
            reveal_strlit("upgrade");
        }
        assert(websocket_word@ =~= "websocket"@.map_values(|c: char| c as u8)) by {
            reveal_strlit("websocket");
        }
        assert(version_name@ =~= "sec-websocket-version"@.map_values(|c: char| c as u8)) by {
            reveal_strlit("sec-websocket-version");
        }
        assert(thirteen@ =~= "13"@.map_values(|c: char| c as u8)) by {
            reveal_strlit("13");
        }
        assert(key_name@ =~= "sec-websocket-key"@.map_values(|c: char| c as u8)) by {
            reveal_strlit("sec-websocket-key");
        }
    }
    let key_value = crate::base64::base64_encode(nonce.as_slice());
    proof {
        lemma_base64_is_header_value(nonce@);
    }
    let mut headers = HeaderMap::new();
    headers.append(vstd::slice::slice_to_vec(conn_name.as_slice()), vstd::slice::slice_to_vec(upgrade_cap.as_slice()));
    headers.append(vstd::slice::slice_to_vec(upgrade_name.as_slice()), vstd::slice::slice_to_vec(websocket_word.as_slice()));
    headers.append(vstd::slice::slice_to_vec(version_name.as_slice()), vstd::slice::slice_to_vec(thirteen.as_slice()));
    headers.append(vstd::slice::slice_to_vec(key_name.as_slice()), key_value);
    proof {
        let hs = headers@;
        assert(hs.len() == 4);
        assert(hs[0] == (conn_name@, upgrade_cap@));
        assert(hs[1] == (upgrade_name@, websocket_word@));
        assert(hs[2] == (version_name@, thirteen@));
        assert(hs[3] == (key_name@, base64_of(nonce@)));
        lemma_builder_headers_are_upgrade(hs, nonce@);
    }
    let method = vstd::slice::slice_to_vec(get_word.as_slice());
    let uri = Uri::relative(Vec::new());
    Request { method, uri, headers, body: () }
}

/// The four builder headers satisfy every upgrade-marker check.
proof fn lemma_builder_headers_are_upgrade(hs: Seq<(Seq<u8>, Seq<u8>)>, nonce: Seq<u8>)
    requires
        hs.len() == 4,
        hs[0] == ("connection"@.map_values(|c: char| c as u8), "Upgrade"@.map_values(|c: char| c as u8)),
        hs[1] == ("upgrade"@.map_values(|c: char| c as u8), "websocket"@.map_values(|c: char| c as u8)),
        hs[2] == ("sec-websocket-version"@.map_values(|c: char| c as u8), "13"@.map_values(|c: char| c as u8)),
        hs[3] == ("sec-websocket-key"@.map_values(|c: char| c as u8), base64_of(nonce)),
    ensures
        spec_is_upgrade_request("GET"@.map_values(|c: char| c as u8), hs),
        spec_get(hs, "sec-websocket-key"@.map_values(|c: char| c as u8)) == Some(base64_of(nonce)),
{
    let conn = "connection"@.map_values(|c: char| c as u8);
    let upg = "upgrade"@.map_values(|c: char| c as u8);
    let vers = "sec-websocket-version"@.map_values(|c: char| c as u8);
    let key = "sec-websocket-key"@.map_values(|c: char| c as u8);
    reveal_strlit("connection");
    reveal_strlit("Upgrade");
    reveal_strlit("upgrade");
    reveal_strlit("websocket");
    reveal_strlit("sec-websocket-version");
    reveal_strlit("13");
    reveal_strlit("sec-websocket-key");
    reveal_strlit("GET");
    let t1 = hs.drop_first();
    let t2 = t1.drop_first();
    let t3 = t2.drop_first();
    assert(t1[0] == hs[1] && t1[1] == hs[2] && t1[2] == hs[3] && t1.len() == 3);
    assert(t2[0] == hs[2] && t2[1] == hs[3] && t2.len() == 2);
    assert(t3[0] == hs[3] && t3.len() == 1);
    assert(crate::ascii::eq_ignore_case(hs[0].0, conn)) by {
        assert(crate::ascii::lower_bytes(hs[0].0) =~= crate::ascii::lower_bytes(conn));
    }
    assert(crate::ascii::eq_ignore_case(hs[0].0, conn));
    assert(spec_get(hs, conn) == Some(hs[0].1));
    assert(has_upgrade_token(hs[0].1)) by {
        let v = hs[0].1;
        assert(v.subrange(0, 7) =~= v);
        assert(crate::ascii::lower_bytes(v) =~= crate::ascii::lower_bytes(upg));
        assert(upgrade_token_at(v, 0, 7));
    }
    assert(!crate::ascii::eq_ignore_case(hs[0].0, upg)) by {
        assert(crate::ascii::lower_bytes(hs[0].0).len() != crate::ascii::lower_bytes(upg).len());
    }
    assert(spec_get(hs, upg) == spec_get(t1, upg));
    assert(crate::ascii::eq_ignore_case(t1[0].0, upg));
    assert(spec_get(t1, upg) == Some(t1[0].1));
    assert(crate::ascii::eq_ignore_case(hs[1].1, "websocket"@.map_values(|c: char| c as u8)));
    assert(!crate::ascii::eq_ignore_case(hs[0].0, vers)) by {
        assert(crate::ascii::lower_bytes(hs[0].0).len() != crate::ascii::lower_bytes(vers).len());
    }
    assert(!crate::ascii::eq_ignore_case(hs[1].0, vers)) by {
        assert(crate::ascii::lower_bytes(hs[1].0).len() != crate::ascii::lower_bytes(vers).len());
    }
    assert(spec_get(hs, vers) == spec_get(t1, vers));
    assert(spec_get(t1, vers) == spec_get(t2, vers));
    assert(crate::ascii::eq_ignore_case(t2[0].0, vers));
    assert(spec_get(t2, vers) == Some(t2[0].1));
    assert(!crate::ascii::eq_ignore_case(hs[0].0, key)) by {
        assert(crate::ascii::lower_bytes(hs[0].0).len() != crate::ascii::lower_bytes(key).len());
    }
    assert(!crate::ascii::eq_ignore_case(hs[1].0, key)) by {
        assert(crate::ascii::lower_bytes(hs[1].0).len() != crate::ascii::lower_bytes(key).len());
    }
    assert(!crate::ascii::eq_ignore_case(hs[2].0, key)) by {
        assert(crate::ascii::lower_bytes(hs[2].0).len() != crate::ascii::lower_bytes(key).len());
    }
    assert(spec_get(hs, key) == spec_get(t1, key));
    assert(spec_get(t1, key) == spec_get(t2, key));
    assert(spec_get(t2, key) == spec_get(t3, key));
    assert(crate::ascii::eq_ignore_case(t3[0].0, key));
    assert(spec_get(t3, key) == Some(t3[0].1));
}

/// Refuses a request without the upgrade markers before any I/O.
pub fn precheck_upgrade_request(method: &[u8], headers: &HeaderMap) -> (r: Result<
    (),
    WsConnectError,
>)
    ensures
        r is Ok <==> spec_is_upgrade_request(method@, headers@),
        r matches Err(e) ==> e is InvalidUpgradeRequest,
{
    if is_upgrade_request(method, headers) {
        Ok(())
    } else {
        Err(WsConnectError::InvalidUpgradeRequest)
    }
}

/// Judges the server's answer: on success the connection is upgraded; on
/// mismatch the raw response head and the given body snippet travel in
/// the error for diagnostics.
pub fn validate_upgrade_response(
    req_method: &[u8],
    req_headers: &HeaderMap,
    status: u16,
    resp_headers: &HeaderMap,
    body_snippet: Vec<u8>,
) -> (r: Result<(), WsConnectError>)
    ensures
        r is Ok <==> spec_check_upgrade_response(req_method@, req_headers@, status, resp_headers@),
        r matches Err(e) ==> e matches WsConnectError::InvalidUpgradeResponse {
            status: s2,
            headers: h2,
            body: b2,
        } && s2 == status && h2@ == resp_headers@ && b2@ == body_snippet@,
{
    if check_upgrade_response(req_method, req_headers, status, resp_headers) {
        Ok(())
    } else {
        Err(
            WsConnectError::InvalidUpgradeResponse {
                status,
                headers: resp_headers.copied(),
                body: body_snippet,
            },
        )
    }
}

} // verus!
