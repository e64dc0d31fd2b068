//! Error data for the client. Errors are plain cloneable values, so a failed
//! operation can be reported repeatedly without losing context, and every
//! error can be downgraded to an I/O error classification for callers that
//! treat the engine as an ordinary stream.

use vstd::prelude::*;

verus! {

/// The classification of an I/O failure, mirroring the platform's error
/// kinds that the client can produce or pass through.
#[derive(Clone, Copy, Debug, PartialEq, Eq, Structural)]
pub enum IoErrorKind {
    InvalidData,
    Unsupported,
    UnexpectedEof,
    OutOfMemory,
    BrokenPipe,
    TimedOut,
    ConnectionRefused,
    ConnectionReset,
    ConnectionAborted,
    NotConnected,
    WriteZero,
    Interrupted,
    Other,
}

/// A failure while establishing a connection.
#[derive(Clone, Debug)]
pub enum TransportError {
    /// The host is not a legal DNS name or IP address.
    InvalidDnsName,
    /// The TCP connection could not be established.
    TcpConnect(IoErrorKind),
    /// The TLS handshake failed.
    TlsConnect(IoErrorKind),
}

/// A failure of an HTTP request.
#[derive(Clone, Debug)]
pub enum HttpError {
    /// A header value holds bytes that cannot be sent.
    InvalidHeaderValue(Vec<u8>),
    /// The request method is not one the client can send.
    InvalidMethod(Vec<u8>),
    /// The server answered with a redirect that will not be followed.
    Redirect,
    /// Neither the URI nor the headers name a host.
    MissingHost,
    /// The URI carries a scheme that is neither `http` nor `https`.
    UnexpectedScheme(Vec<u8>),
    /// The response declares a transfer encoding the client does not decode.
    UnsupportedTransferEncoding(Vec<u8>),
    /// Connection establishment failed.
    ConnectError(TransportError),
    /// A read or write failed after the connection stood.
    IoError(IoErrorKind),
}

/// The I/O classification of an `HttpError`: input rejections are invalid
/// data, policy refusals are unsupported, transport failures keep their
/// underlying kind.
pub open spec fn spec_io_kind(e: HttpError) -> IoErrorKind {
    match e {
        HttpError::InvalidHeaderValue(_) => IoErrorKind::InvalidData,
        HttpError::InvalidMethod(_) => IoErrorKind::InvalidData,
        HttpError::Redirect => IoErrorKind::Unsupported,
        HttpError::MissingHost => IoErrorKind::Unsupported,
        HttpError::UnexpectedScheme(_) => IoErrorKind::Unsupported,
        HttpError::UnsupportedTransferEncoding(_) => IoErrorKind::Unsupported,
        HttpError::ConnectError(t) => match t {
            TransportError::InvalidDnsName => IoErrorKind::InvalidData,
            TransportError::TcpConnect(k) => k,
            TransportError::TlsConnect(k) => k,
        },
        HttpError::IoError(k) => k,
    }
}

impl HttpError {
    /// Downgrades the error to its I/O classification.
    pub fn io_kind(&self) -> (r: IoErrorKind)
        ensures
            r == spec_io_kind(*self),
    {
        match self {
            HttpError::InvalidHeaderValue(_) => IoErrorKind::InvalidData,
            HttpError::InvalidMethod(_) => IoErrorKind::InvalidData,
            HttpError::Redirect => IoErrorKind::Unsupported,
            HttpError::MissingHost => IoErrorKind::Unsupported,
            HttpError::UnexpectedScheme(_) => IoErrorKind::Unsupported,
            HttpError::UnsupportedTransferEncoding(_) => IoErrorKind::Unsupported,
            HttpError::ConnectError(t) => match t {
                TransportError::InvalidDnsName => IoErrorKind::InvalidData,
                TransportError::TcpConnect(k) => *k,
                TransportError::TlsConnect(k) => *k,
            },
            HttpError::IoError(k) => *k,
        }
    }
}

} // verus!
