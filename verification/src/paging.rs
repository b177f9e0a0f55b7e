use vstd::prelude::*;

use crate::models::{HistoryEntry, InspectorEntry};

verus! {

/// One identifier stands before another under a direction: strictly
/// greater first when descending, strictly smaller first when ascending.
pub open spec fn id_before(a: int, b: int, desc: bool) -> bool {
    if desc {
        a > b
    } else {
        a < b
    }
}

/// The identifier order a listing promises: between any two positions the
/// earlier identifier stands before the later one, so in particular every
/// entry satisfies the order relative to its neighbours.
pub open spec fn ids_ordered(ids: Seq<i64>, desc: bool) -> bool {
    forall|i: int, j: int| 0 <= i < j < ids.len() ==> id_before(ids[i] as int, ids[j] as int, desc)
}

/// The same promise over history entries.
pub open spec fn ordered_history(s: Seq<HistoryEntry>, desc: bool) -> bool {
    forall|i: int, j: int| 0 <= i < j < s.len() ==> id_before(s[i].id as int, s[j].id as int, desc)
}

/// The same promise over inspector entries.
pub open spec fn ordered_inspector(s: Seq<InspectorEntry>, desc: bool) -> bool {
    forall|i: int, j: int| 0 <= i < j < s.len() ==> id_before(s[i].id as int, s[j].id as int, desc)
}

/// Where a listing page begins in the full row sequence. The adopted
/// pagination policy is the page-multiplied offset: page `p` of size `s`
/// starts at row `p * s` (not at the raw offset `p`).
pub open spec fn page_start<T>(rows: Seq<T>, page: nat, size: nat) -> int {
    if page * size <= rows.len() {
        (page * size) as int
    } else {
        rows.len() as int
    }
}

/// Where a listing page ends: at most `size` rows past its start.
pub open spec fn page_end<T>(rows: Seq<T>, page: nat, size: nat) -> int {
    if page * size + size <= rows.len() {
        (page * size + size) as int
    } else {
        rows.len() as int
    }
}

/// The rows of one listing page: the window of at most `size` rows
/// starting at offset `page * size`.
pub open spec fn page_of<T>(rows: Seq<T>, page: nat, size: nat) -> Seq<T> {
    rows.subrange(page_start(rows, page, size), page_end(rows, page, size))
}

/// The identifiers of one listing page, cut from the full, ordered
/// identifier sequence of a table.
pub fn page_ids(ids: &Vec<i64>, page: usize, size: usize) -> (r: Vec<i64>)
    ensures
        r@ == page_of(ids@, page as nat, size as nat),
{
    let len = ids.len();
    let start: usize = match page.checked_mul(size) {
        Some(s) => {
            if s <= len {
                s
            } else {
                len
            }
        },
        None => len,
    };
    let end: usize = if len - start < size {
        len
    } else {
        start + size
    };
    let mut r: Vec<i64> = Vec::new();
    let mut i: usize = start;
    while i < end
        invariant
            start <= i <= end <= len,
            len == ids@.len(),
            r@ == ids@.subrange(start as int, i as int),
        decreases end - i,
    {
        let v = ids[i];
        r.push(v);
        proof {
            assert(ids@.subrange(start as int, i + 1 as int) =~= ids@.subrange(
                start as int,
                i as int,
            ).push(ids@[i as int]));
        }
        i = i + 1;
    }
    proof {
        assert(start as int == page_start(ids@, page as nat, size as nat));
        assert(end as int == page_end(ids@, page as nat, size as nat));
    }
    r
}

/// A page never holds more rows than the requested page size.
pub proof fn lemma_page_len<T>(rows: Seq<T>, page: nat, size: nat)
    ensures
        page_of(rows, page, size).len() <= size,
{
}

/// Every page of an ordered identifier sequence is ordered the same way:
/// paging keeps the declared sort order.
pub proof fn lemma_page_keeps_order(ids: Seq<i64>, page: nat, size: nat, desc: bool)
    requires
        ids_ordered(ids, desc),
    ensures
        ids_ordered(page_of(ids, page, size), desc),
{
}

/// The total number of rows reached by reading pages `0` to `pages - 1`.
pub open spec fn paged_total<T>(rows: Seq<T>, size: nat, pages: nat) -> nat
    decreases pages,
{
    if pages == 0 {
        0
    } else {
        paged_total(rows, size, (pages - 1) as nat) + page_of(
            rows,
            (pages - 1) as nat,
            size,
        ).len()
    }
}

/// Reading pages in order walks the table without skips or overlaps: the
/// first `k` pages together reach exactly the first `k * size` rows, or
/// the whole table once it is exhausted.
pub proof fn lemma_paged_total<T>(rows: Seq<T>, size: nat, pages: nat)
    ensures
        paged_total(rows, size, pages) == if pages * size <= rows.len() {
            pages * size
        } else {
            rows.len()
        },
    decreases pages,
{
    if pages == 0 {
        assert(pages * size == 0) by (nonlinear_arith)
            requires
                pages == 0,
        ;
    } else {
        let p1 = (pages - 1) as nat;
        lemma_paged_total(rows, size, p1);
        assert(p1 * size + size == (p1 + 1) * size) by (nonlinear_arith);
        assert(p1 + 1 == pages);
    }
}

/// Counting law: the count of a table equals the number of rows reachable
/// by paging, with any page size and page count large enough to exhaust
/// every page.
pub proof fn lemma_count_by_paging<T>(rows: Seq<T>, size: nat, pages: nat)
    requires
        rows.len() <= pages * size,
    ensures
        paged_total(rows, size, pages) == rows.len(),
{
    lemma_paged_total(rows, size, pages);
}

} // verus!
