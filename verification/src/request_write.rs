//! A buffered request front: it captures a request head, accumulates the
//! body in memory, and validates what a backend that takes whole requests
//! needs — every header value sendable as text, and the method one of the
//! nine the protocol names.

use vstd::prelude::*;

use crate::error::HttpError;
use crate::headers::{valid_header_value, HeaderMap};
use crate::request::Request;
use crate::uri::Uri;

verus! {

/// The methods a whole-request backend accepts.
pub open spec fn spec_known_method(m: Seq<u8>) -> bool {
    ||| m == "OPTIONS"@.map_values(|c: char| c as u8)
    ||| m == "GET"@.map_values(|c: char| c as u8)
    ||| m == "POST"@.map_values(|c: char| c as u8)
    ||| m == "PUT"@.map_values(|c: char| c as u8)
    ||| m == "DELETE"@.map_values(|c: char| c as u8)
    ||| m == "HEAD"@.map_values(|c: char| c as u8)
    ||| m == "TRACE"@.map_values(|c: char| c as u8)
    ||| m == "CONNECT"@.map_values(|c: char| c as u8)
    ||| m == "PATCH"@.map_values(|c: char| c as u8)
}

/// A captured request with its body buffered in memory.
pub struct RequestWrite {
    url: Uri,
    method: Vec<u8>,
    headers: HeaderMap,
    body: Vec<u8>,
}

impl RequestWrite {
    pub closed spec fn spec_url(&self) -> Uri {
        self.url
    }

    pub closed spec fn spec_method(&self) -> Seq<u8> {
        self.method@
    }

    pub closed spec fn spec_headers(&self) -> Seq<(Seq<u8>, Seq<u8>)> {
        self.headers@
    }

    pub closed spec fn spec_body(&self) -> Seq<u8> {
        self.body@
    }

    /// Captures the head of `request`; the body starts empty.
    pub fn start<T>(request: &Request<T>) -> (r: RequestWrite)
        ensures
            r.spec_method() == request.method@,
            r.spec_headers() == request.headers@,
            r.spec_body() == Seq::<u8>::empty(),
            r.spec_url().path_and_query@ == request.uri.path_and_query@,
            r.spec_url().port == request.uri.port,
            (match (r.spec_url().scheme, request.uri.scheme) {
                (Some(a), Some(b)) => a@ == b@,
                (None, None) => true,
                _ => false,
            }),
            (match (r.spec_url().host, request.uri.host) {
                (Some(a), Some(b)) => a@ == b@,
                (None, None) => true,
                _ => false,
            }),
    {
        RequestWrite {
            url: request.uri.copied(),
            method: vstd::slice::slice_to_vec(request.method.as_slice()),
            headers: request.headers.copied(),
            body: Vec::new(),
        }
    }

    /// Appends `buf` to the buffered body and reports it all written, the
    /// way a sink that cannot refuse bytes does.
    pub fn write(&mut self, buf: &[u8]) -> (r: usize)
        ensures
            final(self).spec_body() == old(self).spec_body() + buf@,
            r == buf@.len(),
            final(self).spec_method() == old(self).spec_method(),
            final(self).spec_headers() == old(self).spec_headers(),
    {
        crate::head::push_bytes(&mut self.body, buf);
        buf.len()
    }

    /// Checks that every header value can travel as text: the first value
    /// holding a byte that cannot is the error.
    pub fn check_headers(&self) -> (r: Result<(), HttpError>)
        ensures
            r is Ok <==> (forall|i: int|
                0 <= i < self.spec_headers().len() ==> valid_header_value(
                    #[trigger] self.spec_headers()[i].1,
                )),
            r matches Err(e) ==> e matches HttpError::InvalidHeaderValue(v) && (exists|i: int|
                0 <= i < self.spec_headers().len() && #[trigger] self.spec_headers()[i].1 == v@
                    && !valid_header_value(v@)),
    {
        let n = self.headers.len();
        let mut i: usize = 0;
        while i < n
            invariant
                0 <= i <= n,
                n == self.spec_headers().len(),
                forall|j: int|
                    0 <= j < i ==> valid_header_value(#[trigger] self.spec_headers()[j].1),
            decreases n - i,
        {
            let v = self.headers.value_at(i);
            if !crate::headers::check_header_value(v.as_slice()) {
                return Err(HttpError::InvalidHeaderValue(vstd::slice::slice_to_vec(v.as_slice())));
            }
            i += 1;
        }
        Ok(())
    }

    /// Checks that the method is one of the nine named methods; any other
    /// is refused with `InvalidMethod`.
    pub fn check_method(&self) -> (r: Result<(), HttpError>)
        ensures
            r is Ok <==> spec_known_method(self.spec_method()),
            r matches Err(e) ==> e matches HttpError::InvalidMethod(m) && m@
                == self.spec_method(),
    {
        let options_w: [u8; 7] = [79u8, 80u8, 84u8, 73u8, 79u8, 78u8, 83u8];
        let get_w: [u8; 3] = [71u8, 69u8, 84u8];
        let post_w: [u8; 4] = [80u8, 79u8, 83u8, 84u8];
        let put_w: [u8; 3] = [80u8, 85u8, 84u8];
        let delete_w: [u8; 6] = [68u8, 69u8, 76u8, 69u8, 84u8, 69u8];
        let head_w: [u8; 4] = [72u8, 69u8, 65u8, 68u8];
        let trace_w: [u8; 5] = [84u8, 82u8, 65u8, 67u8, 69u8];
        let connect_w: [u8; 7] = [67u8, 79u8, 78u8, 78u8, 69u8, 67u8, 84u8];
        let patch_w: [u8; 5] = [80u8, 65u8, 84u8, 67u8, 72u8];
        proof {
            assert(options_w@ =~= "OPTIONS"@.map_values(|c: char| c as u8)) by {
                reveal_strlit("OPTIONS");
            }
            assert(get_w@ =~= "GET"@.map_values(|c: char| c as u8)) by {
                reveal_strlit("GET");
            }
            assert(post_w@ =~= "POST"@.map_values(|c: char| c as u8)) by {
                reveal_strlit("POST");
            }
            assert(put_w@ =~= "PUT"@.map_values(|c: char| c as u8)) by {
                reveal_strlit("PUT");
            }
            assert(delete_w@ =~= "DELETE"@.map_values(|c: char| c as u8)) by {
                reveal_strlit("DELETE");
            }
            assert(head_w@ =~= "HEAD"@.map_values(|c: char| c as u8)) by {
                reveal_strlit("HEAD");
            }
            assert(trace_w@ =~= "TRACE"@.map_values(|c: char| c as u8)) by {
                reveal_strlit("TRACE");
            }
            assert(connect_w@ =~= "CONNECT"@.map_values(|c: char| c as u8)) by {
                reveal_strlit("CONNECT");
            }
            assert(patch_w@ =~= "PATCH"@.map_values(|c: char| c as u8)) by {
                reveal_strlit("PATCH");
            }
        }
        let m = self.method.as_slice();
        if crate::framing::bytes_equal(m, options_w.as_slice()) || crate::framing::bytes_equal(
            m,
            get_w.as_slice(),
        ) || crate::framing::bytes_equal(m, post_w.as_slice()) || crate::framing::bytes_equal(
            m,
            put_w.as_slice(),
        ) || crate::framing::bytes_equal(m, delete_w.as_slice()) || crate::framing::bytes_equal(
            m,
            head_w.as_slice(),
        ) || crate::framing::bytes_equal(m, trace_w.as_slice()) || crate::framing::bytes_equal(
            m,
            connect_w.as_slice(),
        ) || crate::framing::bytes_equal(m, patch_w.as_slice()) {
            Ok(())
        } else {
            Err(HttpError::InvalidMethod(vstd::slice::slice_to_vec(m)))
        }
    }

    /// The buffered body.
    pub fn body(&self) -> (r: &Vec<u8>)
        ensures
            r@ == self.spec_body(),
    {
        &self.body
    }

    /// The captured method.
    pub fn method(&self) -> (r: &Vec<u8>)
        ensures
            r@ == self.spec_method(),
    {
        &self.method
    }

    /// The captured headers.
    pub fn headers(&self) -> (r: &HeaderMap)
        ensures
            r@ == self.spec_headers(),
    {
        &self.headers
    }

    /// The captured target.
    pub fn url(&self) -> (r: &Uri)
        ensures
            *r == self.spec_url(),
    {
        &self.url
    }
}

} // verus!
