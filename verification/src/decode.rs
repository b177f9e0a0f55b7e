use vstd::prelude::*;

use crate::models::{HistoryEntry, InspectorEntry};

verus! {

/// The cells of one `history` row, as the store hands them back.
/// `None` marks a column whose stored value could not be read with the
/// expected type; such a row is undecodable and is skipped by listings.
pub struct HistoryRow {
    pub id: Option<i64>,
    pub remote_addr: Option<String>,
    pub uri: Option<String>,
    pub method: Option<String>,
    pub params: Option<i64>,
    pub status: Option<i64>,
    pub size: Option<i64>,
    pub timestamp: Option<String>,
    pub raw: Option<Vec<u8>>,
    pub ssl: Option<bool>,
    pub response: Option<Vec<u8>>,
    pub response_time: Option<String>,
    pub content_length: Option<i64>,
}

/// The cells of one `inspectors` row, in column order.
pub struct InspectorRow {
    pub id: Option<i64>,
    pub request: Option<String>,
    pub response: Option<String>,
    pub modified_request: Option<String>,
    pub new_response: Option<String>,
    pub ssl: Option<i64>,
    pub target: Option<String>,
}

/// A history row decodes exactly when every column read back with its
/// expected type.
pub open spec fn history_row_complete(r: HistoryRow) -> bool {
    &&& r.id is Some
    &&& r.remote_addr is Some
    &&& r.uri is Some
    &&& r.method is Some
    &&& r.params is Some
    &&& r.status is Some
    &&& r.size is Some
    &&& r.timestamp is Some
    &&& r.raw is Some
    &&& r.ssl is Some
    &&& r.response is Some
    &&& r.response_time is Some
    &&& r.content_length is Some
}

/// What a complete history row decodes to: every column maps field for
/// field; the has-parameters flag is stored as an integer and is set
/// exactly when that integer is 1.
pub open spec fn spec_decode_history(r: HistoryRow) -> Option<HistoryEntry> {
    if history_row_complete(r) {
        Some(
            HistoryEntry {
                id: r.id.unwrap(),
                remote_addr: r.remote_addr.unwrap(),
                uri: r.uri.unwrap(),
                method: r.method.unwrap(),
                params: r.params.unwrap() == 1,
                status: r.status.unwrap(),
                size: r.size.unwrap(),
                timestamp: r.timestamp.unwrap(),
                raw: r.raw.unwrap(),
                ssl: r.ssl.unwrap(),
                response: r.response.unwrap(),
                response_time: r.response_time.unwrap(),
                content_length: r.content_length.unwrap(),
            },
        )
    } else {
        None
    }
}

/// An inspector row decodes exactly when every column read back with its
/// expected type and the identifier is in range for `usize`.
pub open spec fn inspector_row_complete(r: InspectorRow) -> bool {
    &&& r.id is Some
    &&& 0 <= r.id.unwrap() as int
    &&& r.id.unwrap() as int <= usize::MAX as int
    &&& r.request is Some
    &&& r.response is Some
    &&& r.modified_request is Some
    &&& r.new_response is Some
    &&& r.ssl is Some
    &&& r.target is Some
}

/// What a complete inspector row decodes to; the TLS flag is stored as an
/// integer and is set exactly when that integer is 1.
pub open spec fn spec_decode_inspector(r: InspectorRow) -> Option<InspectorEntry> {
    if inspector_row_complete(r) {
        Some(
            InspectorEntry {
                id: r.id.unwrap() as usize,
                request: r.request.unwrap(),
                response: r.response.unwrap(),
                modified_request: r.modified_request.unwrap(),
                new_response: r.new_response.unwrap(),
                ssl: r.ssl.unwrap() == 1,
                target: r.target.unwrap(),
            },
        )
    } else {
        None
    }
}

/// Decode one raw history row; a row with any unreadable column yields
/// `None` and never an error.
pub fn decode_history(r: HistoryRow) -> (e: Option<HistoryEntry>)
    ensures
        e == spec_decode_history(r),
{
    if r.id.is_none() || r.remote_addr.is_none() || r.uri.is_none() || r.method.is_none()
        || r.params.is_none() || r.status.is_none() || r.size.is_none() || r.timestamp.is_none()
        || r.raw.is_none() || r.ssl.is_none() || r.response.is_none()
        || r.response_time.is_none() || r.content_length.is_none() {
        return None;
    }
    Some(
        HistoryEntry {
            id: r.id.unwrap(),
            remote_addr: r.remote_addr.unwrap(),
            uri: r.uri.unwrap(),
            method: r.method.unwrap(),
            params: r.params.unwrap() == 1,
            status: r.status.unwrap(),
            size: r.size.unwrap(),
            timestamp: r.timestamp.unwrap(),
            raw: r.raw.unwrap(),
            ssl: r.ssl.unwrap(),
            response: r.response.unwrap(),
            response_time: r.response_time.unwrap(),
            content_length: r.content_length.unwrap(),
        },
    )
}

/// Decode one raw inspector row; a row with any unreadable column, or an
/// identifier out of range for `usize`, yields `None` and never an error.
pub fn decode_inspector(r: InspectorRow) -> (e: Option<InspectorEntry>)
    ensures
        e == spec_decode_inspector(r),
{
    if r.id.is_none() || r.request.is_none() || r.response.is_none()
        || r.modified_request.is_none() || r.new_response.is_none() || r.ssl.is_none()
        || r.target.is_none() {
        return None;
    }
    let id = r.id.unwrap();
    if id < 0 || (id as u128) > (usize::MAX as u128) {
        return None;
    }
    Some(
        InspectorEntry {
            id: id as usize,
            request: r.request.unwrap(),
            response: r.response.unwrap(),
            modified_request: r.modified_request.unwrap(),
            new_response: r.new_response.unwrap(),
            ssl: r.ssl.unwrap() == 1,
            target: r.target.unwrap(),
        },
    )
}

/// The raw cells under which the store holds a given history entry: every
/// column carries the field's value, the has-parameters flag as the
/// integer 1 or 0.
pub open spec fn spec_history_row_of(e: HistoryEntry) -> HistoryRow {
    HistoryRow {
        id: Some(e.id),
        remote_addr: Some(e.remote_addr),
        uri: Some(e.uri),
        method: Some(e.method),
        params: Some(if e.params { 1 as i64 } else { 0 as i64 }),
        status: Some(e.status),
        size: Some(e.size),
        timestamp: Some(e.timestamp),
        raw: Some(e.raw),
        ssl: Some(e.ssl),
        response: Some(e.response),
        response_time: Some(e.response_time),
        content_length: Some(e.content_length),
    }
}

/// The raw cells under which the store holds a given inspector entry.
pub open spec fn spec_inspector_row_of(e: InspectorEntry) -> InspectorRow {
    InspectorRow {
        id: Some(e.id as i64),
        request: Some(e.request),
        response: Some(e.response),
        modified_request: Some(e.modified_request),
        new_response: Some(e.new_response),
        ssl: Some(if e.ssl { 1 as i64 } else { 0 as i64 }),
        target: Some(e.target),
    }
}

/// Round-trip law: decoding the stored cells of a history entry returns
/// that entry, every field exactly as stored, byte for byte on the binary
/// fields.
pub proof fn lemma_history_round_trip(e: HistoryEntry)
    ensures
        spec_decode_history(spec_history_row_of(e)) == Some(e),
{
}

/// Round-trip law: decoding the stored cells of an inspector entry returns
/// that entry, every field exactly as stored. Identifiers above `i64::MAX`
/// cannot be stored in an integer column and are left out.
pub proof fn lemma_inspector_round_trip(e: InspectorEntry)
    requires
        e.id as int <= i64::MAX as int,
    ensures
        spec_decode_inspector(spec_inspector_row_of(e)) == Some(e),
{
}

} // verus!
