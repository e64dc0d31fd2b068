//! Request body sources. A body source converts into a readable stream of
//! bytes together with a declared length; the declared length governs the
//! outbound Content-Length header and the exact number of bytes the request
//! engine transmits. For every value-carrying kind the declared length is,
//! by definition, the number of bytes the stream yields; only the
//! stream-with-explicit-length kind lets a caller declare the length
//! independently, and the engine holds it to that commitment.

use vstd::prelude::*;
use vstd::math::min;

verus! {

/// A readable in-memory byte stream: yields the bytes of `data` from `pos`.
pub struct BodyReader {
    data: Vec<u8>,
    pos: usize,
}

impl BodyReader {
    #[verifier::type_invariant]
    spec fn inv(&self) -> bool {
        self.pos <= self.data.len()
    }

    /// The bytes the stream has yet to yield.
    pub closed spec fn remaining_bytes(&self) -> Seq<u8> {
        self.data@.skip(self.pos as int)
    }

    /// A stream over all of `data`.
    pub fn new(data: Vec<u8>) -> (r: BodyReader)
        ensures
            r.remaining_bytes() == data@,
    {
        let r = BodyReader { data, pos: 0 };
        proof {
            assert(r.remaining_bytes() =~= r.data@);
        }
        r
    }

    /// Yields the next `max` bytes, or all that remain if fewer.
    pub fn read(&mut self, max: usize) -> (r: Vec<u8>)
        ensures
            r@ == old(self).remaining_bytes().take(min(max as int, old(
                self,
            ).remaining_bytes().len() as int)),
            final(self).remaining_bytes() == old(self).remaining_bytes().skip(r@.len() as int),
    {
        proof {
            use_type_invariant(&*self);
        }
        let avail = self.data.len() - self.pos;
        let n = if max < avail {
            max
        } else {
            avail
        };
        let mut r: Vec<u8> = Vec::new();
        let mut i: usize = 0;
        while i < n
            invariant
                0 <= i <= n,
                self.pos + n <= self.data.len(),
                r@ =~= self.data@.subrange(self.pos as int, self.pos as int + i as int),
            decreases n - i,
        {
            r.push(self.data[self.pos + i]);
            i += 1;
        }
        let ghost pre = *self;
        let new_pos = self.pos + n;
        proof {
            use_type_invariant(&*self);
        }
        self.pos = new_pos;
        proof {
            assert(r@ =~= pre.remaining_bytes().take(
                min(max as int, pre.remaining_bytes().len() as int),
            ));
            assert(self.remaining_bytes() =~= pre.remaining_bytes().skip(r@.len() as int));
        }
        r
    }
}

/// A value that can serve as a request body: it converts into a byte stream
/// and a declared length. Unless a kind overrides it, the declared length is
/// exactly the number of bytes the stream will produce.
pub trait IntoRequestBody: Sized {
    /// The bytes this source produces.
    spec fn spec_body_bytes(&self) -> Seq<u8>;

    /// The length this source declares. By default, exactly the bytes
    /// produced; only a stream paired with an explicit length departs from
    /// this.
    open spec fn spec_declared_len(&self) -> nat {
        self.spec_body_bytes().len()
    }

    fn into_request_body(self) -> (r: (BodyReader, u64))
        ensures
            r.0.remaining_bytes() == self.spec_body_bytes(),
            r.1 == self.spec_declared_len(),
    ;
}

/// Marks the body sources that actually carry bytes, as opposed to the unit
/// body. Only used to tell call sites apart, never a protocol concern.
pub trait IntoNonUnitRequestBody: IntoRequestBody {

}

impl IntoRequestBody for () {
    open spec fn spec_body_bytes(&self) -> Seq<u8> {
        Seq::empty()
    }

    fn into_request_body(self) -> (r: (BodyReader, u64)) {
        let r = BodyReader::new(Vec::new());
        (r, 0)
    }
}

impl IntoRequestBody for Vec<u8> {
    open spec fn spec_body_bytes(&self) -> Seq<u8> {
        self@
    }

    fn into_request_body(self) -> (r: (BodyReader, u64)) {
        let len: u64 = self.len() as u64;
        (BodyReader::new(self), len)
    }
}

impl IntoNonUnitRequestBody for Vec<u8> {

}

impl IntoRequestBody for &[u8] {
    open spec fn spec_body_bytes(&self) -> Seq<u8> {
        self@
    }

    fn into_request_body(self) -> (r: (BodyReader, u64)) {
        let data = vstd::slice::slice_to_vec(self);
        let len: u64 = data.len() as u64;
        (BodyReader::new(data), len)
    }
}

impl IntoNonUnitRequestBody for &[u8] {

}

impl IntoRequestBody for String {
    open spec fn spec_body_bytes(&self) -> Seq<u8> {
        vstd::utf8::encode_utf8(self@)
    }

    fn into_request_body(self) -> (r: (BodyReader, u64)) {
        let data = self.as_str().as_bytes_vec();
        let len: u64 = data.len() as u64;
        (BodyReader::new(data), len)
    }
}

impl IntoNonUnitRequestBody for String {

}

impl IntoRequestBody for (BodyReader, u64) {
    open spec fn spec_body_bytes(&self) -> Seq<u8> {
        self.0.remaining_bytes()
    }

    open spec fn spec_declared_len(&self) -> nat {
        self.1 as nat
    }

    fn into_request_body(self) -> (r: (BodyReader, u64)) {
        self
    }
}

impl IntoNonUnitRequestBody for (BodyReader, u64) {

}

impl<T: IntoRequestBody> IntoRequestBody for Option<T> {
    open spec fn spec_body_bytes(&self) -> Seq<u8> {
        match self {
            None => Seq::empty(),
            Some(v) => v.spec_body_bytes(),
        }
    }

    open spec fn spec_declared_len(&self) -> nat {
        match self {
            None => 0,
            Some(v) => v.spec_declared_len(),
        }
    }

    fn into_request_body(self) -> (r: (BodyReader, u64)) {
        match self {
            None => {
                let r = BodyReader::new(Vec::new());
                (r, 0)
            },
            Some(v) => v.into_request_body(),
        }
    }
}

impl<T: IntoNonUnitRequestBody> IntoNonUnitRequestBody for Option<T> {

}

/// For every value-carrying body source kind — the unit body, a byte
/// slice, an owned buffer, an owned string, and an optional wrapping of
/// any of them — the declared length equals the number of bytes the
/// stream produces. Only a stream paired with an explicit length can
/// declare something else, and the engine holds it to that commitment.
pub proof fn lemma_declared_len_is_exact(
    unit: (),
    slice: &[u8],
    buffer: Vec<u8>,
    text: String,
    opt_buffer: Option<Vec<u8>>,
    opt_text: Option<String>,
)
    ensures
        unit.spec_declared_len() == unit.spec_body_bytes().len(),
        slice.spec_declared_len() == slice.spec_body_bytes().len(),
        buffer.spec_declared_len() == buffer.spec_body_bytes().len(),
        text.spec_declared_len() == text.spec_body_bytes().len(),
        opt_buffer.spec_declared_len() == opt_buffer.spec_body_bytes().len(),
        opt_text.spec_declared_len() == opt_text.spec_body_bytes().len(),
{
}

} // verus!
