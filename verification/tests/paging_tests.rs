use rustyproxy_srv::decode::{decode_history, decode_inspector, HistoryRow, InspectorRow};
use rustyproxy_srv::models::OrderByEnum;
use rustyproxy_srv::paging::page_ids;

fn full_history_row() -> HistoryRow {
    HistoryRow {
        id: Some(9),
        remote_addr: Some("addr".to_string()),
        uri: Some("/u".to_string()),
        method: Some("PUT".to_string()),
        params: Some(1),
        status: Some(201),
        size: Some(3),
        timestamp: Some("ts".to_string()),
        raw: Some(vec![1, 2, 3]),
        ssl: Some(false),
        response: Some(vec![4, 5]),
        response_time: Some("rt".to_string()),
        content_length: Some(2),
    }
}

#[test]
fn page_windows_use_the_multiplied_offset() {
    let ids: Vec<i64> = vec![5, 4, 3, 2, 1];
    assert_eq!(page_ids(&ids, 0, 2), vec![5, 4]);
    assert_eq!(page_ids(&ids, 1, 2), vec![3, 2]);
    assert_eq!(page_ids(&ids, 2, 2), vec![1]);
    assert_eq!(page_ids(&ids, 3, 2), Vec::<i64>::new());
    assert_eq!(page_ids(&ids, 0, 0), Vec::<i64>::new());
    assert_eq!(page_ids(&ids, 0, 100), vec![5, 4, 3, 2, 1]);
    // A window that cannot even be addressed is empty.
    assert_eq!(page_ids(&ids, usize::MAX, usize::MAX), Vec::<i64>::new());
}

#[test]
fn paging_reaches_every_id_exactly_once() {
    let ids: Vec<i64> = (1..=7).collect();
    let mut reached: Vec<i64> = Vec::new();
    for page in 0..4 {
        reached.extend(page_ids(&ids, page, 2));
    }
    assert_eq!(reached, ids);
}

#[test]
fn complete_rows_decode_field_for_field() {
    let e = decode_history(full_history_row()).unwrap();
    assert_eq!(e.id, 9);
    assert_eq!(e.remote_addr, "addr");
    assert_eq!(e.uri, "/u");
    assert_eq!(e.method, "PUT");
    assert!(e.params);
    assert_eq!(e.status, 201);
    assert_eq!(e.size, 3);
    assert_eq!(e.timestamp, "ts");
    assert_eq!(e.raw, vec![1, 2, 3]);
    assert!(!e.ssl);
    assert_eq!(e.response, vec![4, 5]);
    assert_eq!(e.response_time, "rt");
    assert_eq!(e.content_length, 2);
}

#[test]
fn incomplete_rows_do_not_decode() {
    let mut row = full_history_row();
    row.method = None;
    assert!(decode_history(row).is_none());

    let insp = InspectorRow {
        id: Some(-1),
        request: Some("r".to_string()),
        response: Some("r".to_string()),
        modified_request: Some("r".to_string()),
        new_response: Some("r".to_string()),
        ssl: Some(1),
        target: Some("t".to_string()),
    };
    // A negative identifier cannot be a stored entry's.
    assert!(decode_inspector(insp).is_none());
}

#[test]
fn order_keywords_match_their_directions() {
    assert_eq!(OrderByEnum::Desc.to_string(), "DESC");
    assert_eq!(OrderByEnum::Asc.to_string(), "ASC");
}
