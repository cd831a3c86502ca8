use std::collections::VecDeque;

use lib::omci::protocol::{Encoding, Request, Response, ResponseBody, ACTION_GET, ACTION_SET, RESULT_SUCCESS};
use lib::omci::schema::CLASS_CTC_LOID_AUTH;
use lib::omci::{
    authentication_status, cache_insert, cache_lookup, ctc_authentication_status_name, CachedResponse,
    RESPONSE_CACHE_SIZE,
};

fn set_request(class_id: u16, entity_id: u16, attribute_mask: u16, content: &[u8]) -> Request {
    Request {
        encoding: Encoding::Baseline,
        tci: 0x0102,
        message_type: 0x48,
        action: ACTION_SET,
        class_id,
        entity_id,
        attribute_mask,
        payload: content.to_vec(),
        content: content.to_vec(),
    }
}

#[test]
fn ctc_status_names_follow_the_result_codes() {
    assert_eq!(ctc_authentication_status_name(0), "not-authenticated");
    assert_eq!(ctc_authentication_status_name(1), "accepted");
    assert_eq!(ctc_authentication_status_name(2), "loid-not-found");
    assert_eq!(ctc_authentication_status_name(3), "password-mismatch");
    assert_eq!(ctc_authentication_status_name(4), "loid-conflict");
    assert_eq!(ctc_authentication_status_name(5), "reserved-status");
    assert_eq!(ctc_authentication_status_name(255), "reserved-status");
}

#[test]
fn authentication_status_is_read_from_attribute_four_sets_only() {
    let report = set_request(CLASS_CTC_LOID_AUTH, 0, 0x1000, &[3, 0, 0]);
    assert_eq!(authentication_status(&report), Some(3));

    let other_mask = set_request(CLASS_CTC_LOID_AUTH, 0, 0x9000, &[3]);
    assert_eq!(authentication_status(&other_mask), None);
    let other_instance = set_request(CLASS_CTC_LOID_AUTH, 1, 0x1000, &[3]);
    assert_eq!(authentication_status(&other_instance), None);
    let get = Request { action: ACTION_GET, ..report.clone() };
    assert_eq!(authentication_status(&get), None);
    let empty = set_request(CLASS_CTC_LOID_AUTH, 0, 0x1000, &[]);
    assert_eq!(authentication_status(&empty), None);
}

#[test]
fn cache_answers_a_retransmitted_frame() {
    let mut cache: VecDeque<CachedResponse> = VecDeque::new();
    let request = set_request(256, 0, 0x8000, &[1]);
    let response = Response::set_success(&request);
    assert!(cache_lookup(&cache, &[1, 2, 3]).is_none());

    cache_insert(&mut cache, &[1, 2, 3], &response);
    let cached = cache_lookup(&cache, &[1, 2, 3]).expect("frame was cached");
    assert_eq!(cached.tci, 0x0102);
    assert_eq!(cached.result(), Some(RESULT_SUCCESS));
    assert!(matches!(cached.body, ResponseBody::SetSuccess));
    assert!(cache_lookup(&cache, &[1, 2, 4]).is_none());
}

#[test]
fn cache_drops_the_oldest_entry_when_full() {
    let mut cache: VecDeque<CachedResponse> = VecDeque::new();
    let request = set_request(256, 0, 0x8000, &[1]);
    let response = Response::new(&request, 3);
    for frame in 0..RESPONSE_CACHE_SIZE as u8 {
        cache_insert(&mut cache, &[frame], &response);
    }
    assert_eq!(cache.len(), RESPONSE_CACHE_SIZE);
    assert!(cache_lookup(&cache, &[0]).is_some());

    cache_insert(&mut cache, &[200], &response);
    assert_eq!(cache.len(), RESPONSE_CACHE_SIZE);
    assert!(cache_lookup(&cache, &[0]).is_none());
    assert!(cache_lookup(&cache, &[1]).is_some());
    assert_eq!(cache_lookup(&cache, &[200]).unwrap().result(), Some(3));
}
