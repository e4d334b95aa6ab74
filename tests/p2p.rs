use transaction_pool::access_list::{AccessList, AccessListItem};
use transaction_pool::db::EnvKind;
use transaction_pool::eth_wire::{P2PHandshakeError, PingerError};
use transaction_pool::p2p::{
    BlockHashOrNumber, Header, HeadersDirection, HeadersRequest, ReputationChangeKind, RequestError,
    is_likely_bad_headers_response, reputation_change_err,
};

#[test]
fn test_is_likely_bad_headers_response() {
    let request = HeadersRequest { start: BlockHashOrNumber::Number(0), limit: 0, direction: HeadersDirection::Rising };
    let headers: Vec<Header> = vec![];
    assert!(!is_likely_bad_headers_response(&Ok(headers), &request));

    let request = HeadersRequest { start: BlockHashOrNumber::Number(0), limit: 1, direction: HeadersDirection::Rising };
    let headers: Vec<Header> = vec![];
    assert!(is_likely_bad_headers_response(&Ok(headers), &request));
}

#[test]
fn headers_response_start_mismatch() {
    let request = HeadersRequest { start: BlockHashOrNumber::Number(5), limit: 2, direction: HeadersDirection::Rising };
    assert!(is_likely_bad_headers_response(&Ok(vec![Header { number: 6 }, Header { number: 7 }]), &request));
    assert!(!is_likely_bad_headers_response(&Ok(vec![Header { number: 5 }, Header { number: 6 }]), &request));
    let by_hash = HeadersRequest { start: BlockHashOrNumber::Hash([1; 32]), limit: 2, direction: HeadersDirection::Falling };
    assert!(!is_likely_bad_headers_response(&Ok(vec![Header { number: 6 }, Header { number: 5 }]), &by_hash));
    assert!(is_likely_bad_headers_response(&Err(RequestError::BadResponse), &by_hash));
}

#[test]
fn reputation_change_only_for_timeout() {
    assert_eq!(reputation_change_err(&Err(RequestError::Timeout)), Some(ReputationChangeKind::Timeout));
    assert_eq!(reputation_change_err(&Err(RequestError::ChannelClosed)), None);
    assert_eq!(reputation_change_err(&Err(RequestError::ConnectionDropped)), None);
    assert_eq!(reputation_change_err(&Ok(vec![])), None);
}

#[test]
fn request_error_kinds() {
    assert!(RequestError::Timeout.is_retryable());
    assert!(RequestError::ConnectionDropped.is_retryable());
    assert!(!RequestError::BadResponse.is_retryable());
    assert!(RequestError::ChannelClosed.is_channel_closed());
    assert!(!RequestError::Timeout.is_channel_closed());
    assert_eq!(RequestError::Timeout.message(), "Request timed out while awaiting response.");
}

#[test]
fn wire_error_messages() {
    assert_eq!(P2PHandshakeError::Timeout.message(), "handshake timed out");
    assert_eq!(PingerError::UnexpectedPong.message(), "pong received while ready");
    assert_ne!(EnvKind::RO, EnvKind::RW);
    let list = AccessList(vec![AccessListItem::default()]);
    assert_eq!(list.0.len(), 1);
    assert!(list.0[0].storage_keys.is_empty());
}
