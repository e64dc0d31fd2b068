use async_web_client::error::{HttpError, IoErrorKind, TransportError};

#[test]
fn errors_downgrade_to_io_classifications() {
    assert_eq!(
        HttpError::InvalidHeaderValue(vec![0xff]).io_kind(),
        IoErrorKind::InvalidData
    );
    assert_eq!(
        HttpError::InvalidMethod(b"BREW".to_vec()).io_kind(),
        IoErrorKind::InvalidData
    );
    assert_eq!(HttpError::Redirect.io_kind(), IoErrorKind::Unsupported);
    assert_eq!(HttpError::MissingHost.io_kind(), IoErrorKind::Unsupported);
    assert_eq!(
        HttpError::UnexpectedScheme(b"ftp".to_vec()).io_kind(),
        IoErrorKind::Unsupported
    );
    assert_eq!(
        HttpError::UnsupportedTransferEncoding(b"gzip".to_vec()).io_kind(),
        IoErrorKind::Unsupported
    );
    assert_eq!(
        HttpError::ConnectError(TransportError::InvalidDnsName).io_kind(),
        IoErrorKind::InvalidData
    );
    // Transport failures keep their underlying kind.
    assert_eq!(
        HttpError::ConnectError(TransportError::TcpConnect(IoErrorKind::ConnectionRefused))
            .io_kind(),
        IoErrorKind::ConnectionRefused
    );
    assert_eq!(
        HttpError::ConnectError(TransportError::TlsConnect(IoErrorKind::TimedOut)).io_kind(),
        IoErrorKind::TimedOut
    );
    assert_eq!(
        HttpError::IoError(IoErrorKind::BrokenPipe).io_kind(),
        IoErrorKind::BrokenPipe
    );
}

#[test]
fn errors_are_plain_cloneable_data() {
    let e = HttpError::UnsupportedTransferEncoding(b"gzip".to_vec());
    let e2 = e.clone();
    // Both copies report the same classification, as often as asked.
    assert_eq!(e.io_kind(), e2.io_kind());
    assert_eq!(e.io_kind(), e2.io_kind());
}
