//! The request value a caller builds: method, target, headers and a body,
//! and its conversion into a running request machine.

use vstd::prelude::*;

use crate::body::IntoRequestBody;
use crate::engine::RequestSend;
use crate::headers::{valid_header_name, HeaderMap};
use crate::uri::Uri;

verus! {

/// An HTTP request carrying a body of type `B`.
pub struct Request<B> {
    pub method: Vec<u8>,
    pub uri: Uri,
    pub headers: HeaderMap,
    pub body: B,
}

impl<B> Request<B> {
    /// The method is a legal token, the target and headers are legal.
    pub open spec fn wf(&self) -> bool {
        valid_header_name(self.method@) && self.uri.wf() && self.headers.wf()
    }
}

/// Swapping the body of a request for another value, keeping the head.
pub trait RequestExt {
    type Body;

    fn swap_body<T>(self, body: T) -> (r: (Request<T>, Self::Body));
}

impl<B> RequestExt for Request<B> {
    type Body = B;

    /// Splits the request into the same head with `body` in place, and the
    /// body it carried.
    fn swap_body<T>(self, body: T) -> (r: (Request<T>, B))
        ensures
            r.0.method == self.method,
            r.0.uri == self.uri,
            r.0.headers == self.headers,
            r.0.body == body,
            r.1 == self.body,
    {
        let Request { method, uri, headers, body: old_body } = self;
        (Request { method, uri, headers, body }, old_body)
    }
}

impl<B: IntoRequestBody> Request<B> {
    /// Converts the body into its stream and declared length and starts a
    /// request machine committed to that length. The stream is returned
    /// beside the machine; the caller pumps it into the engine.
    pub fn into_send<T>(self) -> (r: (RequestSend<T>, crate::body::BodyReader))
        requires
            self.wf(),
        ensures
            r.0.wf(),
            r.0.spec_phase() matches crate::engine::Phase::Start {
                method,
                uri,
                headers,
                declared_len,
            } && method@ == self.method@ && uri == self.uri && headers == self.headers
                && declared_len == self.body.spec_declared_len(),
            r.1.remaining_bytes() == self.body.spec_body_bytes(),
    {
        let Request { method, uri, headers, body } = self;
        let (reader, declared_len) = body.into_request_body();
        let send = RequestSend::new(method, uri, headers, declared_len);
        (send, reader)
    }
}

} // verus!
