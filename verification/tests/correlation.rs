use peermsg::correlation::Correlator;
use peermsg::envelope::{Classification, Envelope, Requestable};
use peermsg::error::Error;
use peermsg::value::Value;

#[test]
fn request_only_classifies_as_request() {
    let e = Envelope { req_id: Some(1u64), to: None, payload: Value::Null };
    assert!(e.is_request());
    assert!(!e.is_response());
    assert_eq!(e.classify(), Ok(Classification::Request));
}

#[test]
fn response_only_classifies_as_response() {
    let e = Envelope { req_id: None, to: Some(1u64), payload: Value::Null };
    assert!(!e.is_request());
    assert!(e.is_response());
    assert_eq!(e.classify(), Ok(Classification::Response));
}

#[test]
fn both_identifiers_classify_as_both() {
    let e = Envelope { req_id: Some(2u64), to: Some(1u64), payload: Value::Null };
    assert!(e.is_request());
    assert!(e.is_response());
    assert_eq!(e.classify(), Ok(Classification::Both));
}

#[test]
fn neither_identifier_is_rejected() {
    let e = Envelope { req_id: None, to: None, payload: Value::Null };
    assert_eq!(e.classify(), Err(Error::MissingIdentifiers));
}

#[test]
fn envelope_accessors_return_the_identifiers() {
    let e = Envelope { req_id: Some(3u64), to: Some(4u64), payload: Value::Bool(true) };
    assert_eq!(e.req_id(), Some(3));
    assert_eq!(e.to(), Some(4));
}

#[test]
fn permuted_responses_resolve_to_their_own_callers() {
    // Five outstanding calls on one connection; responses arrive in an
    // arbitrary permutation; each call gets exactly its own response.
    let mut table: Correlator<String> = Correlator::new();
    for id in 1u64..=5 {
        assert!(table.register(id));
    }
    assert_eq!(table.len(), 5);
    for id in [3u64, 1, 5, 2, 4] {
        assert!(table.resolve(id, format!("response-{}", id)));
    }
    for id in [5u64, 4, 3, 2, 1] {
        assert_eq!(table.take(id), Some(format!("response-{}", id)));
    }
    assert_eq!(table.len(), 0);
}

#[test]
fn identifiers_in_flight_are_unique() {
    let mut table: Correlator<u32> = Correlator::new();
    assert!(table.register(7));
    assert!(!table.register(7));
    // Released identifiers may be reused.
    assert!(table.resolve(7, 1));
    assert_eq!(table.take(7), Some(1));
    assert!(table.register(7));
}

#[test]
fn duplicate_or_stray_responses_are_discarded() {
    let mut table: Correlator<u32> = Correlator::new();
    assert!(table.register(1));
    assert!(!table.resolve(2, 10), "a response for an unknown identifier is rejected");
    assert!(table.resolve(1, 11));
    assert!(!table.resolve(1, 12), "a second response for a resolved identifier is rejected");
    assert_eq!(table.take(1), Some(11), "the first response stands");
}

#[test]
fn taking_an_unresolved_identifier_yields_nothing() {
    let mut table: Correlator<u32> = Correlator::new();
    assert!(table.register(1));
    assert_eq!(table.take(1), None);
    // The identifier is still waiting and can be resolved afterwards.
    assert!(table.resolve(1, 9));
    assert_eq!(table.take(1), Some(9));
}
