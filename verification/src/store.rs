use vstd::prelude::*;

use crate::decode::{
    decode_history, decode_inspector, spec_decode_history, spec_decode_inspector, HistoryRow,
    InspectorRow,
};
use crate::models::{is_desc, HistoryEntry, InspectorEntry, OrderByEnum};
use crate::paging::{id_before, ordered_history, ordered_inspector};

verus! {

/// Why a store operation failed. Absent rows are not errors: they are
/// `None` results and empty listings.
#[derive(Clone, Copy, Debug, PartialEq, Eq, Structural)]
pub enum StoreError {
    /// The database file could not be opened.
    Open,
    /// The connection could not be configured for concurrent readers.
    Setup,
    /// A query statement could not be prepared against the store's schema
    /// (a missing table, a corrupted schema).
    Prepare,
    /// The store could not evaluate the query or hand a usable count back.
    Query,
}

/// rusqlite's handle to the one physical store; opaque here.
#[verifier::external_type_specification]
#[verifier::external_body]
pub struct ExConnection(rusqlite::Connection);

/// rusqlite's compiled SQL statement; opaque here.
#[verifier::external_type_specification]
#[verifier::external_body]
pub struct ExStatement<'a>(rusqlite::Statement<'a>);

/// rusqlite's cursor over a running query's result rows; opaque here.
#[verifier::external_type_specification]
#[verifier::external_body]
pub struct ExRows<'a>(rusqlite::Rows<'a>);

/// rusqlite's view of one result row; opaque here.
#[verifier::external_type_specification]
#[verifier::external_body]
pub struct ExRow<'a>(rusqlite::Row<'a>);

/// Relies on rusqlite::Connection::open: opens (or creates) the database
/// file at the given path.
#[verifier::external_body]
fn open_db(path: &str) -> (r: Result<rusqlite::Connection, StoreError>) {
    rusqlite::Connection::open(path).map_err(|_| StoreError::Open)
}

/// Relies on rusqlite::Connection::execute_batch, which runs the given SQL
/// statements and tolerates pragmas that answer with a row.
#[verifier::external_body]
fn run_batch(conn: &rusqlite::Connection, sql: &str) -> (r: Result<(), StoreError>) {
    conn.execute_batch(sql).map_err(|_| StoreError::Setup)
}

/// Relies on rusqlite::Connection::prepare: compiles one SQL statement
/// against the store's schema.
#[verifier::external_body]
fn prepare<'c>(conn: &'c rusqlite::Connection, sql: &str) -> (r: Result<
    rusqlite::Statement<'c>,
    StoreError,
>) {
    conn.prepare(sql).map_err(|_| StoreError::Prepare)
}

/// Relies on rusqlite::Statement::query: starts evaluating the statement
/// with the listing bounds bound to its two parameters.
#[verifier::external_body]
fn query_bounds<'s>(stmt: &'s mut rusqlite::Statement<'_>, limit: i64, offset: i64) -> (r:
    Result<rusqlite::Rows<'s>, StoreError>) {
    stmt.query([limit, offset]).map_err(|_| StoreError::Query)
}

/// Relies on rusqlite::Statement::query: starts evaluating the statement
/// with one identifier bound to its parameter.
#[verifier::external_body]
fn query_id<'s>(stmt: &'s mut rusqlite::Statement<'_>, id: i64) -> (r: Result<
    rusqlite::Rows<'s>,
    StoreError,
>) {
    stmt.query([id]).map_err(|_| StoreError::Query)
}

/// Relies on rusqlite::Statement::query: starts evaluating a statement
/// that takes no parameters.
#[verifier::external_body]
fn query_plain<'s>(stmt: &'s mut rusqlite::Statement<'_>) -> (r: Result<
    rusqlite::Rows<'s>,
    StoreError,
>) {
    stmt.query(()).map_err(|_| StoreError::Query)
}

/// Relies on rusqlite::Rows::next: steps the cursor, handing back the next
/// result row, or nothing once the rows are exhausted.
#[verifier::external_body]
fn next_row<'r, 's>(rows: &'r mut rusqlite::Rows<'s>) -> (r: Result<
    Option<&'r rusqlite::Row<'s>>,
    StoreError,
>) {
    rows.next().map_err(|_| StoreError::Query)
}

/// Relies on rusqlite::Row::get with a 64-bit integer target: `None` when
/// the stored cell cannot be read as such an integer.
#[verifier::external_body]
fn col_i64(row: &rusqlite::Row<'_>, idx: usize) -> (r: Option<i64>) {
    row.get::<usize, i64>(idx).ok()
}

/// Relies on rusqlite::Row::get with a text target: `None` when the stored
/// cell cannot be read as text.
#[verifier::external_body]
fn col_text(row: &rusqlite::Row<'_>, idx: usize) -> (r: Option<String>) {
    row.get::<usize, String>(idx).ok()
}

/// Relies on rusqlite::Row::get with a boolean target: the stored integer,
/// read as true exactly when it is not zero; `None` when the cell holds no
/// integer.
#[verifier::external_body]
fn col_bool(row: &rusqlite::Row<'_>, idx: usize) -> (r: Option<bool>) {
    row.get::<usize, bool>(idx).ok()
}

/// Relies on rusqlite::Row::get with a blob target: the stored bytes;
/// `None` when the cell holds no blob.
#[verifier::external_body]
fn col_blob(row: &rusqlite::Row<'_>, idx: usize) -> (r: Option<Vec<u8>>) {
    row.get::<usize, Vec<u8>>(idx).ok()
}

/// Relies on rusqlite::Row::get with a text target, then
/// String::into_bytes: the stored text as its bytes; `None` when the cell
/// cannot be read as text.
#[verifier::external_body]
fn col_text_bytes(row: &rusqlite::Row<'_>, idx: usize) -> (r: Option<Vec<u8>>) {
    row.get::<usize, String>(idx).ok().map(String::into_bytes)
}

/// Reads the thirteen columns of one history row, in table order; the raw
/// request body is stored as text and handed on as its bytes.
fn read_history_row(row: &rusqlite::Row<'_>) -> HistoryRow {
    HistoryRow {
        id: col_i64(row, 0),
        remote_addr: col_text(row, 1),
        uri: col_text(row, 2),
        method: col_text(row, 3),
        params: col_i64(row, 4),
        status: col_i64(row, 5),
        size: col_i64(row, 6),
        timestamp: col_text(row, 7),
        raw: col_text_bytes(row, 8),
        ssl: col_bool(row, 9),
        response: col_blob(row, 10),
        response_time: col_text(row, 11),
        content_length: col_i64(row, 12),
    }
}

/// Reads the seven columns of one inspector row, in table order.
fn read_inspector_row(row: &rusqlite::Row<'_>) -> InspectorRow {
    InspectorRow {
        id: col_i64(row, 0),
        request: col_text(row, 1),
        response: col_text(row, 2),
        modified_request: col_text(row, 3),
        new_response: col_text(row, 4),
        ssl: col_i64(row, 5),
        target: col_text(row, 6),
    }
}

/// Open the backing store and configure it for concurrent readers beside
/// the external capture pipeline (write-ahead logging).
pub fn open_store(path: &str) -> (r: Result<rusqlite::Connection, StoreError>)
    ensures
        r is Ok || r == Result::<rusqlite::Connection, StoreError>::Err(StoreError::Open) || r
            == Result::<rusqlite::Connection, StoreError>::Err(StoreError::Setup),
{
    let conn = match open_db(path) {
        Ok(c) => c,
        Err(_) => {
            return Err(StoreError::Open);
        },
    };
    match run_batch(&conn, "PRAGMA journal_mode=WAL;") {
        Ok(_) => Ok(conn),
        Err(_) => Err(StoreError::Setup),
    }
}

/// Whether an entry may extend the page listed so far under the declared
/// direction: the page is empty, or the entry's identifier stands after
/// the last listed identifier.
pub open spec fn follows_history(page: Seq<HistoryEntry>, e: HistoryEntry, desc: bool) -> bool {
    page.len() == 0 || id_before(page.last().id as int, e.id as int, desc)
}

/// The same, over inspector entries.
pub open spec fn follows_inspector(page: Seq<InspectorEntry>, e: InspectorEntry, desc: bool) -> bool {
    page.len() == 0 || id_before(page.last().id as int, e.id as int, desc)
}

/// What a history listing makes of the raw rows it walks, in order: each
/// row that decodes and keeps the identifier order joins the page; an
/// undecodable or out-of-order row is skipped — fatal to that one row,
/// never to the listing.
pub open spec fn collect_history(rows: Seq<HistoryRow>, desc: bool) -> Seq<HistoryEntry>
    decreases rows.len(),
{
    if rows.len() == 0 {
        Seq::empty()
    } else {
        let page = collect_history(rows.drop_last(), desc);
        match spec_decode_history(rows.last()) {
            Some(e) => if follows_history(page, e, desc) {
                page.push(e)
            } else {
                page
            },
            None => page,
        }
    }
}

/// The same, over inspector rows.
pub open spec fn collect_inspector(rows: Seq<InspectorRow>, desc: bool) -> Seq<InspectorEntry>
    decreases rows.len(),
{
    if rows.len() == 0 {
        Seq::empty()
    } else {
        let page = collect_inspector(rows.drop_last(), desc);
        match spec_decode_inspector(rows.last()) {
            Some(e) => if follows_inspector(page, e, desc) {
                page.push(e)
            } else {
                page
            },
            None => page,
        }
    }
}


/// The window a listing asks the store for, under the adopted pagination
/// policy: at most `page_size` rows starting at row `page * page_size` —
/// the page-multiplied offset, not the raw offset. A window whose offset
/// the machine cannot address is `None`; either bound beyond what a store
/// column carries is capped, since no table can hold that many rows.
pub fn listing_window(page: usize, page_size: usize) -> (w: Option<(i64, i64)>)
    ensures
        match w {
            Some(b) => {
                &&& (page as int) * (page_size as int) <= usize::MAX as int
                &&& b.0 as int == (if page_size as int <= i64::MAX as int {
                    page_size as int
                } else {
                    i64::MAX as int
                })
                &&& b.1 as int == (if (page as int) * (page_size as int) <= i64::MAX as int {
                    (page as int) * (page_size as int)
                } else {
                    i64::MAX as int
                })
            },
            None => (page as int) * (page_size as int) > usize::MAX as int,
        },
{
    let offset = match page.checked_mul(page_size) {
        Some(o) => o,
        None => {
            return None;
        },
    };
    let limit: i64 = if (page_size as u128) > (i64::MAX as u128) {
        i64::MAX
    } else {
        page_size as i64
    };
    let off: i64 = if (offset as u128) > (i64::MAX as u128) {
        i64::MAX
    } else {
        offset as i64
    };
    Some((limit, off))
}

/// What a fetch-by-identifier makes of the row the store hands back: a
/// row that decodes and carries the requested identifier, else absent — a
/// missing, undecodable, or differently numbered row is `None`, never an
/// error.
pub open spec fn spec_get_history(row: Option<HistoryRow>, id: usize) -> Option<HistoryEntry> {
    match row {
        Some(r) => match spec_decode_history(r) {
            Some(e) => if e.id as int == id as int {
                Some(e)
            } else {
                None
            },
            None => None,
        },
        None => None,
    }
}

/// The same, over an inspector row.
pub open spec fn spec_get_inspector(row: Option<InspectorRow>, id: usize) -> Option<
    InspectorEntry,
> {
    match row {
        Some(r) => match spec_decode_inspector(r) {
            Some(e) => if e.id == id {
                Some(e)
            } else {
                None
            },
            None => None,
        },
        None => None,
    }
}

/// Fetch the history entry with the given identifier. The entry is exactly
/// `spec_get_history` of the returned ghost row — what the store handed
/// back, or nothing: absence is `None`, never an error, and an entry that
/// does come back carries the requested identifier. An identifier too
/// large for a stored integer matches no row.
pub fn get_history_entry(conn: &rusqlite::Connection, id: usize) -> (r: Result<
    (Option<HistoryEntry>, Ghost<Option<HistoryRow>>),
    StoreError,
>)
    ensures
        r matches Ok(p) ==> p.0 == spec_get_history(p.1@, id),
        (id as int) > (i64::MAX as int) ==> (r matches Ok(p) && p.0 is None),
        r matches Err(e) ==> e == StoreError::Prepare || e == StoreError::Query,
{
    if (id as u128) > (i64::MAX as u128) {
        return Ok((None, Ghost(None)));
    }
    let mut stmt = match prepare(conn, "SELECT * FROM history WHERE id == ?") {
        Ok(s) => s,
        Err(_) => {
            return Err(StoreError::Prepare);
        },
    };
    let mut rows = match query_id(&mut stmt, id as i64) {
        Ok(r) => r,
        Err(_) => {
            return Err(StoreError::Query);
        },
    };
    let row = match next_row(&mut rows) {
        Ok(Some(row)) => row,
        Ok(None) => {
            return Ok((None, Ghost(None)));
        },
        Err(_) => {
            return Err(StoreError::Query);
        },
    };
    let raw = read_history_row(row);
    let ghost graw = raw;
    match decode_history(raw) {
        Some(e) => {
            if e.id >= 0 && (e.id as u128) == (id as u128) {
                Ok((Some(e), Ghost(Some(graw))))
            } else {
                Ok((None, Ghost(Some(graw))))
            }
        },
        None => Ok((None, Ghost(Some(graw)))),
    }
}

/// Fetch the inspector entry with the given identifier; the same promises
/// as for history entries, through `spec_get_inspector`.
pub fn get_inspector_entry(conn: &rusqlite::Connection, id: usize) -> (r: Result<
    (Option<InspectorEntry>, Ghost<Option<InspectorRow>>),
    StoreError,
>)
    ensures
        r matches Ok(p) ==> p.0 == spec_get_inspector(p.1@, id),
        (id as int) > (i64::MAX as int) ==> (r matches Ok(p) && p.0 is None),
        r matches Err(e) ==> e == StoreError::Prepare || e == StoreError::Query,
{
    if (id as u128) > (i64::MAX as u128) {
        return Ok((None, Ghost(None)));
    }
    let mut stmt = match prepare(conn, "SELECT * FROM inspectors WHERE id == ?") {
        Ok(s) => s,
        Err(_) => {
            return Err(StoreError::Prepare);
        },
    };
    let mut rows = match query_id(&mut stmt, id as i64) {
        Ok(r) => r,
        Err(_) => {
            return Err(StoreError::Query);
        },
    };
    let row = match next_row(&mut rows) {
        Ok(Some(row)) => row,
        Ok(None) => {
            return Ok((None, Ghost(None)));
        },
        Err(_) => {
            return Err(StoreError::Query);
        },
    };
    let raw = read_inspector_row(row);
    let ghost graw = raw;
    match decode_inspector(raw) {
        Some(e) => {
            if e.id == id {
                Ok((Some(e), Ghost(Some(graw))))
            } else {
                Ok((None, Ghost(Some(graw))))
            }
        },
        None => Ok((None, Ghost(Some(graw)))),
    }
}

/// List one page of the history table, ordered by identifier in the given
/// direction. The window handed to the store is `listing_window(page,
/// page_size)` — the page-multiplied offset policy — and a window past the
/// machine's address range is empty without touching the store. At most
/// `page_size` entries come back, in strict identifier order, and each row
/// of the page that does not decode or breaks that order is skipped, never
/// an error: the entries are exactly `collect_history` of the returned
/// ghost sequence of rows the store handed back.
pub fn list_history_entries(
    conn: &rusqlite::Connection,
    page: usize,
    page_size: usize,
    order: OrderByEnum,
) -> (r: Result<(Vec<HistoryEntry>, Ghost<Seq<HistoryRow>>), StoreError>)
    ensures
        r matches Ok(p) ==> {
            &&& p.0@.len() <= page_size
            &&& p.1@.len() <= page_size
            &&& ordered_history(p.0@, is_desc(order))
            &&& p.0@ == collect_history(p.1@, is_desc(order))
        },
        (page as int) * (page_size as int) > usize::MAX as int ==> (r matches Ok(p) && p.0@.len()
            == 0),
        r matches Err(e) ==> e == StoreError::Prepare || e == StoreError::Query,
{
    let desc = match order {
        OrderByEnum::Desc => true,
        OrderByEnum::Asc => false,
    };
    let window = match listing_window(page, page_size) {
        Some(w) => w,
        None => {
            let v: Vec<HistoryEntry> = Vec::new();
            proof {
                assert(v@ =~= collect_history(Seq::<HistoryRow>::empty(), is_desc(order)));
            }
            return Ok((v, Ghost(Seq::empty())));
        },
    };
    let sql = if desc {
        "SELECT * FROM history ORDER BY id DESC LIMIT ? OFFSET ?"
    } else {
        "SELECT * FROM history ORDER BY id ASC LIMIT ? OFFSET ?"
    };
    let mut stmt = match prepare(conn, sql) {
        Ok(s) => s,
        Err(_) => {
            return Err(StoreError::Prepare);
        },
    };
    let mut rows = match query_bounds(&mut stmt, window.0, window.1) {
        Ok(r) => r,
        Err(_) => {
            return Err(StoreError::Query);
        },
    };
    let mut out: Vec<HistoryEntry> = Vec::new();
    let ghost mut seen: Seq<HistoryRow> = Seq::empty();
    proof {
        assert(out@ =~= collect_history(seen, desc));
    }
    let mut i: usize = 0;
    let mut done = false;
    while i < page_size && !done
        invariant
            (page as int) * (page_size as int) <= usize::MAX as int,
            out@.len() <= i <= page_size,
            seen.len() <= i,
            desc == is_desc(order),
            ordered_history(out@, desc),
            out@ == collect_history(seen, desc),
        decreases page_size - i,
    {
        match next_row(&mut rows) {
            Err(_) => {
                return Err(StoreError::Query);
            },
            Ok(None) => {
                done = true;
            },
            Ok(Some(row)) => {
                let raw = read_history_row(row);
                let ghost seen0 = seen;
                proof {
                    seen = seen.push(raw);
                    assert(seen.drop_last() =~= seen0);
                }
                match decode_history(raw) {
                    Some(e) => {
                        let fits = if out.len() == 0 {
                            true
                        } else {
                            let last_id = out[out.len() - 1].id;
                            if desc {
                                last_id > e.id
                            } else {
                                last_id < e.id
                            }
                        };
                        if fits {
                            proof {
                                let o = out@;
                                assert forall|a: int| 0 <= a < o.len() implies id_before(
                                    o[a].id as int,
                                    e.id as int,
                                    desc,
                                ) by {
                                    if a < o.len() - 1 {
                                        assert(id_before(
                                            o[a].id as int,
                                            o[o.len() - 1].id as int,
                                            desc,
                                        ));
                                    }
                                }
                            }
                            out.push(e);
                        }
                    },
                    None => {},
                }
            },
        }
        i = i + 1;
    }
    proof {
        assert(out@ == collect_history(seen, desc));
    }
    Ok((out, Ghost(seen)))
}

/// List one page of the inspectors table, ordered by identifier in the given
/// direction. The window handed to the store is `listing_window(page,
/// page_size)` — the page-multiplied offset policy — and a window past the
/// machine's address range is empty without touching the store. At most
/// `page_size` entries come back, in strict identifier order, and each row
/// of the page that does not decode or breaks that order is skipped, never
/// an error: the entries are exactly `collect_inspector` of the returned
/// ghost sequence of rows the store handed back.
pub fn list_inspector_entries(
    conn: &rusqlite::Connection,
    page: usize,
    page_size: usize,
    order: OrderByEnum,
) -> (r: Result<(Vec<InspectorEntry>, Ghost<Seq<InspectorRow>>), StoreError>)
    ensures
        r matches Ok(p) ==> {
            &&& p.0@.len() <= page_size
            &&& p.1@.len() <= page_size
            &&& ordered_inspector(p.0@, is_desc(order))
            &&& p.0@ == collect_inspector(p.1@, is_desc(order))
        },
        (page as int) * (page_size as int) > usize::MAX as int ==> (r matches Ok(p) && p.0@.len()
            == 0),
        r matches Err(e) ==> e == StoreError::Prepare || e == StoreError::Query,
{
    let desc = match order {
        OrderByEnum::Desc => true,
        OrderByEnum::Asc => false,
    };
    let window = match listing_window(page, page_size) {
        Some(w) => w,
        None => {
            let v: Vec<InspectorEntry> = Vec::new();
            proof {
                assert(v@ =~= collect_inspector(Seq::<InspectorRow>::empty(), is_desc(order)));
            }
            return Ok((v, Ghost(Seq::empty())));
        },
    };
    let sql = if desc {
        "SELECT * FROM inspectors ORDER BY id DESC LIMIT ? OFFSET ?"
    } else {
        "SELECT * FROM inspectors ORDER BY id ASC LIMIT ? OFFSET ?"
    };
    let mut stmt = match prepare(conn, sql) {
        Ok(s) => s,
        Err(_) => {
            return Err(StoreError::Prepare);
        },
    };
    let mut rows = match query_bounds(&mut stmt, window.0, window.1) {
        Ok(r) => r,
        Err(_) => {
            return Err(StoreError::Query);
        },
    };
    let mut out: Vec<InspectorEntry> = Vec::new();
    let ghost mut seen: Seq<InspectorRow> = Seq::empty();
    proof {
        assert(out@ =~= collect_inspector(seen, desc));
    }
    let mut i: usize = 0;
    let mut done = false;
    while i < page_size && !done
        invariant
            (page as int) * (page_size as int) <= usize::MAX as int,
            out@.len() <= i <= page_size,
            seen.len() <= i,
            desc == is_desc(order),
            ordered_inspector(out@, desc),
            out@ == collect_inspector(seen, desc),
        decreases page_size - i,
    {
        match next_row(&mut rows) {
            Err(_) => {
                return Err(StoreError::Query);
            },
            Ok(None) => {
                done = true;
            },
            Ok(Some(row)) => {
                let raw = read_inspector_row(row);
                let ghost seen0 = seen;
                proof {
                    seen = seen.push(raw);
                    assert(seen.drop_last() =~= seen0);
                }
                match decode_inspector(raw) {
                    Some(e) => {
                        let fits = if out.len() == 0 {
                            true
                        } else {
                            let last_id = out[out.len() - 1].id;
                            if desc {
                                last_id > e.id
                            } else {
                                last_id < e.id
                            }
                        };
                        if fits {
                            proof {
                                let o = out@;
                                assert forall|a: int| 0 <= a < o.len() implies id_before(
                                    o[a].id as int,
                                    e.id as int,
                                    desc,
                                ) by {
                                    if a < o.len() - 1 {
                                        assert(id_before(
                                            o[a].id as int,
                                            o[o.len() - 1].id as int,
                                            desc,
                                        ));
                                    }
                                }
                            }
                            out.push(e);
                        }
                    },
                    None => {},
                }
            },
        }
        i = i + 1;
    }
    proof {
        assert(out@ == collect_inspector(seen, desc));
    }
    Ok((out, Ghost(seen)))
}

/// The adapter's decision on the cell a counting query hands back: a
/// non-negative count the machine can address, anything else a query
/// error.
pub open spec fn spec_count_of_cell(c: Option<i64>) -> Result<usize, StoreError> {
    match c {
        Some(v) => if 0 <= v && v as int <= usize::MAX as int {
            Ok(v as usize)
        } else {
            Err(StoreError::Query)
        },
        None => Err(StoreError::Query),
    }
}

/// Turns the cell a counting query hands back into the count owed to the
/// caller, exactly as `spec_count_of_cell` says.
pub fn cell_to_count(c: Option<i64>) -> (r: Result<usize, StoreError>)
    ensures
        r == spec_count_of_cell(c),
{
    match c {
        Some(v) => {
            if v >= 0 && (v as u128) <= (usize::MAX as u128) {
                Ok(v as usize)
            } else {
                Err(StoreError::Query)
            }
        },
        None => Err(StoreError::Query),
    }
}

/// Count the history rows: the store's current cardinality at query time,
/// with no snapshot guarantee across separate calls. A returned count is
/// the image, under `spec_count_of_cell`, of the cell the store handed
/// back; a cell with no usable count is a query error.
pub fn count_history_entries(conn: &rusqlite::Connection) -> (r: Result<usize, StoreError>)
    ensures
        r matches Ok(n) ==> spec_count_of_cell(Some(n as i64)) == Ok::<usize, StoreError>(n),
        r matches Err(e) ==> e == StoreError::Prepare || e == StoreError::Query,
{
    let mut stmt = match prepare(conn, "SELECT COUNT(*) FROM history") {
        Ok(s) => s,
        Err(_) => {
            return Err(StoreError::Prepare);
        },
    };
    let mut rows = match query_plain(&mut stmt) {
        Ok(r) => r,
        Err(_) => {
            return Err(StoreError::Query);
        },
    };
    let row = match next_row(&mut rows) {
        Ok(Some(row)) => row,
        Ok(None) => {
            return Err(StoreError::Query);
        },
        Err(_) => {
            return Err(StoreError::Query);
        },
    };
    cell_to_count(col_i64(row, 0))
}

/// Count the inspector rows, with the same promises as the history count.
pub fn count_inspector_entries(conn: &rusqlite::Connection) -> (r: Result<usize, StoreError>)
    ensures
        r matches Ok(n) ==> spec_count_of_cell(Some(n as i64)) == Ok::<usize, StoreError>(n),
        r matches Err(e) ==> e == StoreError::Prepare || e == StoreError::Query,
{
    let mut stmt = match prepare(conn, "SELECT COUNT(*) FROM inspectors") {
        Ok(s) => s,
        Err(_) => {
            return Err(StoreError::Prepare);
        },
    };
    let mut rows = match query_plain(&mut stmt) {
        Ok(r) => r,
        Err(_) => {
            return Err(StoreError::Query);
        },
    };
    let row = match next_row(&mut rows) {
        Ok(Some(row)) => row,
        Ok(None) => {
            return Err(StoreError::Query);
        },
        Err(_) => {
            return Err(StoreError::Query);
        },
    };
    cell_to_count(col_i64(row, 0))
}


/// The decodable rows of a walked row sequence, decoded, in their walked
/// order.
pub open spec fn decoded_history(rows: Seq<HistoryRow>) -> Seq<HistoryEntry> {
    rows.filter(|r: HistoryRow| spec_decode_history(r) is Some).map_values(
        |r: HistoryRow| spec_decode_history(r).unwrap(),
    )
}

/// The same, over inspector rows.
pub open spec fn decoded_inspector(rows: Seq<InspectorRow>) -> Seq<InspectorEntry> {
    rows.filter(|r: InspectorRow| spec_decode_inspector(r) is Some).map_values(
        |r: InspectorRow| spec_decode_inspector(r).unwrap(),
    )
}

/// Row-skipping law: when the rows a listing walks decode, stray
/// undecodable rows aside, to entries in the declared order — as the rows
/// of a correctly ordered page do — the page is exactly those decoded
/// entries. `list_history_entries` ensures its page is `collect_history`
/// of the ghost rows it returns, so a page whose N walked rows hold one
/// undecodable row is exactly the other N - 1 entries, in order, and never
/// an error.
pub proof fn lemma_collect_history_skips(rows: Seq<HistoryRow>, desc: bool)
    requires
        ordered_history(decoded_history(rows), desc),
    ensures
        collect_history(rows, desc) == decoded_history(rows),
    decreases rows.len(),
{
    reveal(Seq::filter);
    let pred = |r: HistoryRow| spec_decode_history(r) is Some;
    let f = |r: HistoryRow| spec_decode_history(r).unwrap();
    if rows.len() == 0 {
        assert(decoded_history(rows) =~= Seq::<HistoryEntry>::empty());
    } else {
        let prefix = rows.drop_last();
        let last = rows.last();
        let dp = decoded_history(prefix);
        if pred(last) {
            let e = spec_decode_history(last).unwrap();
            assert(rows.filter(pred) == prefix.filter(pred).push(last));
            assert(decoded_history(rows) =~= dp.push(e)) by {
                assert forall|k: int|
                    0 <= k < prefix.filter(pred).len() implies prefix.filter(pred).push(last)
                    .map_values(f)[k] == dp[k] by {}
            }
            assert forall|a: int, b: int| 0 <= a < b < dp.len() implies id_before(
                dp[a].id as int,
                dp[b].id as int,
                desc,
            ) by {
                assert(decoded_history(rows)[a] == dp[a]);
                assert(decoded_history(rows)[b] == dp[b]);
            }
            lemma_collect_history_skips(prefix, desc);
            if dp.len() > 0 {
                assert(decoded_history(rows)[dp.len() - 1] == dp.last());
                assert(decoded_history(rows)[dp.len() as int] == e);
                assert(id_before(dp.last().id as int, e.id as int, desc));
            }
            assert(follows_history(dp, e, desc));
            assert(collect_history(rows, desc) == dp.push(e));
        } else {
            assert(rows.filter(pred) == prefix.filter(pred));
            assert(decoded_history(rows) == dp);
            lemma_collect_history_skips(prefix, desc);
        }
    }
}

/// The row-skipping law over inspector rows, against what
/// `list_inspector_entries` ensures of its page and its ghost rows.
pub proof fn lemma_collect_inspector_skips(rows: Seq<InspectorRow>, desc: bool)
    requires
        ordered_inspector(decoded_inspector(rows), desc),
    ensures
        collect_inspector(rows, desc) == decoded_inspector(rows),
    decreases rows.len(),
{
    reveal(Seq::filter);
    let pred = |r: InspectorRow| spec_decode_inspector(r) is Some;
    let f = |r: InspectorRow| spec_decode_inspector(r).unwrap();
    if rows.len() == 0 {
        assert(decoded_inspector(rows) =~= Seq::<InspectorEntry>::empty());
    } else {
        let prefix = rows.drop_last();
        let last = rows.last();
        let dp = decoded_inspector(prefix);
        if pred(last) {
            let e = spec_decode_inspector(last).unwrap();
            assert(rows.filter(pred) == prefix.filter(pred).push(last));
            assert(decoded_inspector(rows) =~= dp.push(e)) by {
                assert forall|k: int|
                    0 <= k < prefix.filter(pred).len() implies prefix.filter(pred).push(last)
                    .map_values(f)[k] == dp[k] by {}
            }
            assert forall|a: int, b: int| 0 <= a < b < dp.len() implies id_before(
                dp[a].id as int,
                dp[b].id as int,
                desc,
            ) by {
                assert(decoded_inspector(rows)[a] == dp[a]);
                assert(decoded_inspector(rows)[b] == dp[b]);
            }
            lemma_collect_inspector_skips(prefix, desc);
            if dp.len() > 0 {
                assert(decoded_inspector(rows)[dp.len() - 1] == dp.last());
                assert(decoded_inspector(rows)[dp.len() as int] == e);
                assert(id_before(dp.last().id as int, e.id as int, desc));
            }
            assert(follows_inspector(dp, e, desc));
            assert(collect_inspector(rows, desc) == dp.push(e));
        } else {
            assert(rows.filter(pred) == prefix.filter(pred));
            assert(decoded_inspector(rows) == dp);
            lemma_collect_inspector_skips(prefix, desc);
        }
    }
}

} // verus!
