use rustyproxy_srv::models::{HistoryEntry, OrderByEnum};
use rustyproxy_srv::store::{
    cell_to_count, count_history_entries, count_inspector_entries, get_history_entry,
    get_inspector_entry, list_history_entries, list_inspector_entries, listing_window,
    open_store, StoreError,
};

fn fresh_db() -> rusqlite::Connection {
    let conn = rusqlite::Connection::open_in_memory().unwrap();
    conn.execute_batch(
        "CREATE TABLE history (
            id INTEGER PRIMARY KEY,
            remote_addr TEXT,
            uri TEXT,
            method TEXT,
            params INTEGER,
            status INTEGER,
            size INTEGER,
            timestamp TEXT,
            raw TEXT,
            ssl INTEGER,
            response BLOB,
            response_time TEXT,
            content_length INTEGER
        );
        CREATE TABLE inspectors (
            id INTEGER PRIMARY KEY,
            request TEXT,
            response TEXT,
            modified_request TEXT,
            new_response TEXT,
            ssl INTEGER,
            target TEXT
        );",
    )
    .unwrap();
    conn
}

fn insert_history(conn: &rusqlite::Connection, id: i64) {
    conn.execute(
        "INSERT INTO history VALUES (?1, ?2, ?3, ?4, ?5, ?6, ?7, ?8, ?9, ?10, ?11, ?12, ?13)",
        (
            id,
            "10.0.0.1:4444",
            "/index.html",
            "GET",
            1i64,
            200i64,
            128i64,
            "2024-01-01 00:00:00",
            "GET /index.html HTTP/1.1",
            1i64,
            vec![0x68u8, 0x69u8, 0x00u8, 0xffu8],
            "2024-01-01 00:00:01",
            64i64,
        ),
    )
    .unwrap();
}

fn insert_inspector(conn: &rusqlite::Connection, id: i64) {
    conn.execute(
        "INSERT INTO inspectors VALUES (?1, ?2, ?3, ?4, ?5, ?6, ?7)",
        (id, "req", "resp", "mod-req", "mod-resp", 1i64, "example.test:443"),
    )
    .unwrap();
}

fn ids_of(entries: &[HistoryEntry]) -> Vec<i64> {
    entries.iter().map(|e| e.id).collect()
}

#[test]
fn get_round_trips_every_field() {
    let conn = fresh_db();
    insert_history(&conn, 1);
    let e = get_history_entry(&conn, 1).unwrap().0.unwrap();
    assert_eq!(e.id, 1);
    assert_eq!(e.remote_addr, "10.0.0.1:4444");
    assert_eq!(e.uri, "/index.html");
    assert_eq!(e.method, "GET");
    assert!(e.params);
    assert_eq!(e.status, 200);
    assert_eq!(e.size, 128);
    assert_eq!(e.timestamp, "2024-01-01 00:00:00");
    assert_eq!(e.raw, b"GET /index.html HTTP/1.1".to_vec());
    assert!(e.ssl);
    assert_eq!(e.response, vec![0x68u8, 0x69u8, 0x00u8, 0xffu8]);
    assert_eq!(e.response_time, "2024-01-01 00:00:01");
    assert_eq!(e.content_length, 64);
}

#[test]
fn get_inspector_round_trips_every_field() {
    let conn = fresh_db();
    insert_inspector(&conn, 2);
    let e = get_inspector_entry(&conn, 2).unwrap().0.unwrap();
    assert_eq!(e.id, 2);
    assert_eq!(e.request, "req");
    assert_eq!(e.response, "resp");
    assert_eq!(e.modified_request, "mod-req");
    assert_eq!(e.new_response, "mod-resp");
    assert!(e.ssl);
    assert_eq!(e.target, "example.test:443");
}

#[test]
fn get_for_nonexistent_id_is_absent_not_an_error() {
    let conn = fresh_db();
    insert_history(&conn, 1);
    insert_inspector(&conn, 1);
    assert!(get_history_entry(&conn, 999).unwrap().0.is_none());
    assert!(get_inspector_entry(&conn, 999).unwrap().0.is_none());
}

#[test]
fn listing_pages_descending_through_five_rows() {
    let conn = fresh_db();
    for id in 1..=5 {
        insert_history(&conn, id);
    }
    let p0 = list_history_entries(&conn, 0, 2, OrderByEnum::Desc).unwrap().0;
    assert_eq!(ids_of(&p0), vec![5, 4]);
    let p1 = list_history_entries(&conn, 1, 2, OrderByEnum::Desc).unwrap().0;
    assert_eq!(ids_of(&p1), vec![3, 2]);
    let p2 = list_history_entries(&conn, 2, 2, OrderByEnum::Desc).unwrap().0;
    assert_eq!(ids_of(&p2), vec![1]);
    let p3 = list_history_entries(&conn, 3, 2, OrderByEnum::Desc).unwrap().0;
    assert!(p3.is_empty());
}

#[test]
fn listing_ascending_is_ordered_and_bounded() {
    let conn = fresh_db();
    for id in [4, 1, 3, 5, 2] {
        insert_history(&conn, id);
    }
    let all = list_history_entries(&conn, 0, 10, OrderByEnum::Asc).unwrap().0;
    assert_eq!(ids_of(&all), vec![1, 2, 3, 4, 5]);
    let bounded = list_history_entries(&conn, 0, 3, OrderByEnum::Asc).unwrap().0;
    assert_eq!(ids_of(&bounded), vec![1, 2, 3]);
}

#[test]
fn listing_inspectors_pages_in_both_directions() {
    let conn = fresh_db();
    for id in 1..=4 {
        insert_inspector(&conn, id);
    }
    let desc = list_inspector_entries(&conn, 0, 3, OrderByEnum::Desc).unwrap().0;
    let desc_ids: Vec<usize> = desc.iter().map(|e| e.id).collect();
    assert_eq!(desc_ids, vec![4, 3, 2]);
    let asc = list_inspector_entries(&conn, 1, 2, OrderByEnum::Asc).unwrap().0;
    let asc_ids: Vec<usize> = asc.iter().map(|e| e.id).collect();
    assert_eq!(asc_ids, vec![3, 4]);
}

#[test]
fn listing_empty_table_is_empty_not_an_error() {
    let conn = fresh_db();
    let all = list_history_entries(&conn, 0, 10, OrderByEnum::Desc).unwrap().0;
    assert!(all.is_empty());
}

#[test]
fn count_follows_inserts_by_the_external_writer() {
    let conn = fresh_db();
    for id in 1..=5 {
        insert_history(&conn, id);
    }
    assert_eq!(count_history_entries(&conn).unwrap(), 5);
    // The external pipeline inserts a sixth row; a later count sees it
    // without any reopening.
    insert_history(&conn, 6);
    assert_eq!(count_history_entries(&conn).unwrap(), 6);
    assert_eq!(count_inspector_entries(&conn).unwrap(), 0);
}

#[test]
fn count_equals_total_reached_by_paging() {
    let conn = fresh_db();
    for id in 1..=5 {
        insert_history(&conn, id);
    }
    let count = count_history_entries(&conn).unwrap();
    let one_page = list_history_entries(&conn, 0, 100, OrderByEnum::Asc).unwrap().0;
    assert_eq!(one_page.len(), count);
    let mut total = 0;
    for page in 0..3 {
        total += list_history_entries(&conn, page, 2, OrderByEnum::Asc).unwrap().0.len();
    }
    assert_eq!(total, count);
}

#[test]
fn undecodable_row_is_skipped_not_fatal() {
    let conn = fresh_db();
    for id in 1..=4 {
        insert_history(&conn, id);
    }
    // A malformed stored row: its raw request column is missing.
    conn.execute(
        "INSERT INTO history (id, remote_addr, uri, method, params, status, size, timestamp, raw, ssl, response, response_time, content_length)
         VALUES (3000, 'x', 'x', 'x', 0, 0, 0, 'x', NULL, 0, x'00', 'x', 0)",
        (),
    )
    .unwrap();
    let all = list_history_entries(&conn, 0, 10, OrderByEnum::Asc).unwrap().0;
    assert_eq!(ids_of(&all), vec![1, 2, 3, 4]);
    // The same for an inspector row without a target.
    insert_inspector(&conn, 1);
    conn.execute(
        "INSERT INTO inspectors (id, request, response, modified_request, new_response, ssl, target)
         VALUES (2, 'r', 'r', 'r', 'r', 1, NULL)",
        (),
    )
    .unwrap();
    let insp = list_inspector_entries(&conn, 0, 10, OrderByEnum::Asc).unwrap().0;
    assert_eq!(insp.len(), 1);
    assert_eq!(insp[0].id, 1);
    // And a get on the malformed row is absent, not an error.
    assert!(get_history_entry(&conn, 3000).unwrap().0.is_none());
}

#[test]
fn open_store_failures_are_reported() {
    assert_eq!(
        open_store("/nonexistent-directory-for-store/history.db").unwrap_err(),
        StoreError::Open
    );
    // An in-memory store opens and configures fine.
    assert!(open_store(":memory:").is_ok());
}

#[test]
fn missing_schema_is_a_prepare_error() {
    let conn = rusqlite::Connection::open_in_memory().unwrap();
    assert_eq!(count_history_entries(&conn).unwrap_err(), StoreError::Prepare);
    assert_eq!(
        list_history_entries(&conn, 0, 10, OrderByEnum::Desc).err().unwrap(),
        StoreError::Prepare
    );
    assert_eq!(get_history_entry(&conn, 1).err().unwrap(), StoreError::Prepare);
    assert_eq!(get_inspector_entry(&conn, 1).err().unwrap(), StoreError::Prepare);
    assert_eq!(
        list_inspector_entries(&conn, 0, 10, OrderByEnum::Asc).err().unwrap(),
        StoreError::Prepare
    );
    assert_eq!(count_inspector_entries(&conn).unwrap_err(), StoreError::Prepare);
}

#[test]
fn boolean_columns_follow_the_stored_integers() {
    let conn = fresh_db();
    conn.execute(
        "INSERT INTO history VALUES (1, 'a', 'u', 'POST', 2, 404, 0, 't', 'body', 5, x'ab', 'rt', 0)",
        (),
    )
    .unwrap();
    let e = get_history_entry(&conn, 1).unwrap().0.unwrap();
    // The has-parameters flag means exactly the stored integer 1.
    assert!(!e.params);
    // The TLS flag is any nonzero integer.
    assert!(e.ssl);
}

#[test]
fn listing_windows_follow_the_multiplied_offset_policy() {
    assert_eq!(listing_window(0, 5), Some((5, 0)));
    assert_eq!(listing_window(1, 2), Some((2, 2)));
    assert_eq!(listing_window(3, 7), Some((7, 21)));
    // A window the machine cannot address does not exist.
    assert_eq!(listing_window(usize::MAX, usize::MAX), None);
}

#[test]
fn count_cells_map_to_counts() {
    assert_eq!(cell_to_count(Some(5)), Ok(5));
    assert_eq!(cell_to_count(Some(0)), Ok(0));
    assert_eq!(cell_to_count(Some(-1)), Err(StoreError::Query));
    assert_eq!(cell_to_count(None), Err(StoreError::Query));
}
