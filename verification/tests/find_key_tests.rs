use sdn_core::find_key::{FindKeyRequest, FindKeyRequestStatus};
use sdn_core::identity::NodeAddr;

#[test]
fn test_key() {
    let list = FindKeyRequest::new(0, 102, 10000);
    assert_eq!(list.key(), 102);
}

#[test]
fn simple_test_connect() {
    let mut list = FindKeyRequest::new(0, 0, 10000);
    list.push_node(0, NodeAddr::empty(1), false);
    list.push_node(0, NodeAddr::empty(2), false);
    list.push_node(0, NodeAddr::empty(3), false);

    assert_eq!(list.pop_connect(0), Some(NodeAddr::empty(1)));
    assert_eq!(list.pop_connect(0), Some(NodeAddr::empty(2)));
    assert_eq!(list.pop_connect(0), Some(NodeAddr::empty(3)));
    assert_eq!(list.pop_connect(0), None);
    assert_eq!(list.pop_request(0), None);
}

#[test]
fn test_unordered_connec() {
    let mut list = FindKeyRequest::new(0, 0, 10000);
    list.push_node(0, NodeAddr::empty(2), false);
    list.push_node(0, NodeAddr::empty(1), false);
    list.push_node(0, NodeAddr::empty(3), false);

    assert_eq!(list.pop_connect(0), Some(NodeAddr::empty(1)));
    assert_eq!(list.pop_connect(0), Some(NodeAddr::empty(2)));
    assert_eq!(list.pop_connect(0), Some(NodeAddr::empty(3)));
    assert_eq!(list.pop_connect(0), None);
    assert_eq!(list.pop_request(0), None);
}

#[test]
fn simple_test_request() {
    let mut list = FindKeyRequest::new(0, 0, 10000);
    list.push_node(0, NodeAddr::empty(1), true);
    list.push_node(0, NodeAddr::empty(2), true);
    list.push_node(0, NodeAddr::empty(3), true);

    assert_eq!(list.pop_request(0), Some(1));
    assert_eq!(list.pop_request(0), Some(2));
    assert_eq!(list.pop_request(0), Some(3));
    assert_eq!(list.pop_request(0), None);
    assert_eq!(list.pop_connect(0), None);
}

#[test]
fn test_unordered_request() {
    let mut list = FindKeyRequest::new(0, 0, 10000);
    list.push_node(0, NodeAddr::empty(2), true);
    list.push_node(0, NodeAddr::empty(1), true);
    list.push_node(0, NodeAddr::empty(3), true);

    assert_eq!(list.pop_request(0), Some(1));
    assert_eq!(list.pop_request(0), Some(2));
    assert_eq!(list.pop_request(0), Some(3));
    assert_eq!(list.pop_request(0), None);
    assert_eq!(list.pop_connect(0), None);
}

#[test]
fn test_duplicate() {
    let mut list = FindKeyRequest::new(0, 0, 10000);
    list.push_node(0, NodeAddr::empty(1), false);
    list.push_node(0, NodeAddr::empty(1), false);
    list.push_node(0, NodeAddr::empty(2), false);
    list.push_node(0, NodeAddr::empty(3), false);

    assert_eq!(list.pop_connect(0), Some(NodeAddr::empty(1)));
    assert_eq!(list.pop_connect(0), Some(NodeAddr::empty(2)));
    assert_eq!(list.pop_connect(0), Some(NodeAddr::empty(3)));
    assert_eq!(list.pop_connect(0), None);
    assert_eq!(list.pop_request(0), None);
}

#[test]
fn test_timeout_not_connect() {
    let mut list = FindKeyRequest::new(0, 0, 10000);

    list.push_node(0, NodeAddr::empty(1), false);
    assert_eq!(list.status(5000), FindKeyRequestStatus::Requesting);
    assert_eq!(list.status(10001), FindKeyRequestStatus::Timeout);
}

#[test]
fn test_connect_error() {
    let mut list = FindKeyRequest::new(0, 0, 10000);

    list.push_node(0, NodeAddr::empty(1), false);
    list.pop_connect(0);

    assert_eq!(list.status(5000), FindKeyRequestStatus::Requesting);
    assert_eq!(list.on_connect_error_node(5000, 2), false);
    assert_eq!(list.on_connect_error_node(5000, 1), true);
    assert_eq!(list.status(10001), FindKeyRequestStatus::Timeout);
}

#[test]
fn test_request_timeout() {
    let mut list = FindKeyRequest::new(0, 0, 10000);

    list.push_node(0, NodeAddr::empty(1), false);
    list.pop_connect(0);
    assert_eq!(list.on_connected_node(5000, 2), false);
    assert_eq!(list.on_connected_node(5000, 1), true);
    list.pop_request(0);
    assert_eq!(list.status(5000), FindKeyRequestStatus::Requesting);
    assert_eq!(list.status(15001), FindKeyRequestStatus::Timeout);
}

#[test]
fn test_request_success() {
    let mut list = FindKeyRequest::new(0, 0, 10000);

    list.push_node(0, NodeAddr::empty(1), false);
    list.pop_connect(0);
    assert_eq!(list.status(5000), FindKeyRequestStatus::Requesting);
    assert_eq!(list.on_connected_node(5000, 1), true);
    assert_eq!(list.pop_request(0), Some(1));

    assert_eq!(list.status(5000), FindKeyRequestStatus::Requesting);
    assert_eq!(list.on_answered_node(5000, 1, vec![]), true);
    assert_eq!(list.status(15001), FindKeyRequestStatus::Finished);
}

#[test]
fn test_get_better_result() {
    let mut list = FindKeyRequest::new(0, 0, 10000);

    list.push_node(0, NodeAddr::empty(1000), true);
    assert_eq!(list.pop_request(0), Some(1000));
    assert_eq!(
        list.on_answered_node(1000, 1000, vec![(NodeAddr::empty(100), true)]),
        true
    );
    assert_eq!(list.status(1000), FindKeyRequestStatus::Requesting);
    assert_eq!(list.pop_request(1000), Some(100));
    assert_eq!(list.status(1000), FindKeyRequestStatus::Requesting);
}

#[test]
fn is_timeout_only_on_timeout() {
    assert!(FindKeyRequestStatus::Timeout.is_timeout());
    assert!(!FindKeyRequestStatus::Requesting.is_timeout());
    assert!(!FindKeyRequestStatus::Finished.is_timeout());
}
