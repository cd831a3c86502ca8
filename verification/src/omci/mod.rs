//! ITU-T OMCI: the managed-entity information base, its schema, the request
//! model, and the decisions of the agent that answers the OLT.
pub mod protocol;
pub mod schema;
pub mod bytes;
pub mod sorted;
pub mod entity;
pub mod handshake;
pub mod config;
pub mod mib;
pub mod autonomous;
pub mod provisioning;
pub mod security;
pub mod laws;
pub mod message_laws;
pub mod text;
pub mod backend;
pub mod control;

use std::collections::VecDeque;
use vstd::prelude::*;

use self::bytes::{bytes_equal, copy_bytes};
use self::protocol::{Request, Response, ResponseView, ACTION_SET};
use self::schema::CLASS_CTC_LOID_AUTH;

verus! {

/// Frame bytes one receive reads at most.
pub const RECEIVE_BUFFER_LEN: usize = 2048;
/// Answered requests kept for retransmissions.
pub const RESPONSE_CACHE_SIZE: usize = 32;

/// The meaning of a CTC LOID authentication result code (Q/CT 2360-2011).
pub open spec fn spec_ctc_authentication_status_name(status: u8) -> Seq<char> {
    if status == 0 {
        "not-authenticated"@
    } else if status == 1 {
        "accepted"@
    } else if status == 2 {
        "loid-not-found"@
    } else if status == 3 {
        "password-mismatch"@
    } else if status == 4 {
        "loid-conflict"@
    } else {
        "reserved-status"@
    }
}

/// The name of a CTC LOID authentication result code.
pub fn ctc_authentication_status_name(status: u8) -> (name: &'static str)
    ensures
        name@ == spec_ctc_authentication_status_name(status),
{
    match status {
        0 => "not-authenticated",
        1 => "accepted",
        2 => "loid-not-found",
        3 => "password-mismatch",
        4 => "loid-conflict",
        _ => "reserved-status",
    }
}

/// The OLT's LOID authentication result carried by a request: a Set of
/// attribute 4 alone on CTC LOID authentication instance 0 brings it as the
/// first content byte.
pub open spec fn spec_authentication_status(request: Request) -> Option<u8> {
    if request.action == ACTION_SET && request.class_id == CLASS_CTC_LOID_AUTH && request.entity_id == 0
        && request.attribute_mask == 0x1000 && request.content@.len() > 0 {
        Some(request.content@[0])
    } else {
        None
    }
}

/// The LOID authentication result a request reports, if it reports one.
pub fn authentication_status(request: &Request) -> (status: Option<u8>)
    ensures
        status == spec_authentication_status(*request),
{
    if request.action == ACTION_SET && request.class_id == CLASS_CTC_LOID_AUTH && request.entity_id == 0
        && request.attribute_mask == 0x1000 && request.content.len() > 0 {
        Some(request.content[0])
    } else {
        None
    }
}

/// A sent response, kept under the complete request frame that it answered.
pub struct CachedResponse {
    pub request: Vec<u8>,
    pub response: Response,
}

pub ghost struct CachedResponseView {
    pub request: Seq<u8>,
    pub response: ResponseView,
}

impl View for CachedResponse {
    type V = CachedResponseView;

    open spec fn view(&self) -> CachedResponseView {
        CachedResponseView { request: self.request@, response: self.response@ }
    }
}

pub open spec fn cache_view(entries: Seq<CachedResponse>) -> Seq<CachedResponseView> {
    entries.map_values(|entry: CachedResponse| entry@)
}

/// The response of the oldest entry kept for `frame`.
pub open spec fn spec_cache_find(entries: Seq<CachedResponseView>, frame: Seq<u8>) -> Option<ResponseView>
    decreases entries.len(),
{
    if entries.len() == 0 {
        None
    } else if entries[0].request == frame {
        Some(entries[0].response)
    } else {
        spec_cache_find(entries.drop_first(), frame)
    }
}

/// The cache after keeping `entry`: the oldest entry leaves a full cache first.
pub open spec fn spec_cache_insert(entries: Seq<CachedResponseView>, entry: CachedResponseView) -> Seq<CachedResponseView> {
    if entries.len() == RESPONSE_CACHE_SIZE {
        entries.drop_first().push(entry)
    } else {
        entries.push(entry)
    }
}

/// The cached answer to a retransmitted request frame.
pub fn cache_lookup(cache: &VecDeque<CachedResponse>, frame: &[u8]) -> (response: Option<Response>)
    ensures
        match response {
            Some(r) => spec_cache_find(cache_view(cache@), frame@) == Some(r@),
            None => spec_cache_find(cache_view(cache@), frame@) is None,
        },
{
    let ghost entries = cache_view(cache@);
    let mut i: usize = 0;
    assert(entries.skip(0) =~= entries);
    while i < cache.len()
        invariant
            i <= cache@.len(),
            entries == cache_view(cache@),
            spec_cache_find(entries, frame@) == spec_cache_find(entries.skip(i as int), frame@),
        decreases cache@.len() - i,
    {
        assert(entries.skip(i as int)[0] == cache@[i as int]@);
        if bytes_equal(cache[i].request.as_slice(), frame) {
            return Some(cache[i].response.duplicate());
        }
        assert(entries.skip(i as int).drop_first() =~= entries.skip(i + 1));
        i = i + 1;
    }
    assert(entries.skip(i as int).len() == 0);
    None
}

/// Keeps the answer to `frame`, dropping the oldest entry of a full cache.
pub fn cache_insert(cache: &mut VecDeque<CachedResponse>, frame: &[u8], response: &Response)
    ensures
        cache_view(final(cache)@) == spec_cache_insert(
            cache_view(old(cache)@),
            CachedResponseView { request: frame@, response: response@ },
        ),
        old(cache)@.len() <= RESPONSE_CACHE_SIZE ==> final(cache)@.len() <= RESPONSE_CACHE_SIZE,
{
    if cache.len() == RESPONSE_CACHE_SIZE {
        cache.pop_front();
    }
    let entry = CachedResponse { request: copy_bytes(frame), response: response.duplicate() };
    cache.push_back(entry);
    proof {
        let before = cache_view(old(cache)@);
        if old(cache)@.len() == RESPONSE_CACHE_SIZE {
            assert(cache_view(cache@) =~= before.drop_first().push(entry@));
        } else {
            assert(cache_view(cache@) =~= before.push(entry@));
        }
    }
}

/// A frame answered after it missed the cache is then found with its answer.
pub proof fn lemma_cache_remembers(entries: Seq<CachedResponseView>, entry: CachedResponseView)
    requires
        spec_cache_find(entries, entry.request) is None,
    ensures
        spec_cache_find(spec_cache_insert(entries, entry), entry.request) == Some(entry.response),
{
    if entries.len() == RESPONSE_CACHE_SIZE {
        lemma_find_tail(entries, entry.request);
        lemma_find_push(entries.drop_first(), entry);
    } else {
        lemma_find_push(entries, entry);
    }
}

proof fn lemma_find_tail(entries: Seq<CachedResponseView>, frame: Seq<u8>)
    requires
        spec_cache_find(entries, frame) is None,
        entries.len() > 0,
    ensures
        spec_cache_find(entries.drop_first(), frame) is None,
{
}

proof fn lemma_find_push(entries: Seq<CachedResponseView>, entry: CachedResponseView)
    requires
        spec_cache_find(entries, entry.request) is None,
    ensures
        spec_cache_find(entries.push(entry), entry.request) == Some(entry.response),
    decreases entries.len(),
{
    if entries.len() > 0 {
        assert(entries.push(entry).drop_first() =~= entries.drop_first().push(entry));
        lemma_find_push(entries.drop_first(), entry);
    } else {
        assert(entries.push(entry)[0] == entry);
    }
}

} // verus!
