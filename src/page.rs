//! Pagination: the newest matching threads below a bound, and the page
//! metadata built from them.

use vstd::prelude::*;
use crate::cursor::{cursor_text, encode_cursor};
use crate::query::{query_matches_row, row_matches, QueryError, ThreadQuery, ThreadRow};

verus! {

/// Row `k` stands for page entry `e`: same thread, same sequence number, and
/// it satisfies `pred`.
pub open spec fn witnessed_by(
    rows: Seq<ThreadRow>,
    pred: spec_fn(ThreadRow) -> bool,
    e: (i32, i64),
) -> bool {
    exists|k: int| 0 <= k < rows.len() && pred(rows[k]) && rows[k].flume_seq == e.1 && rows[k].key_id == e.0
}

pub open spec fn in_page(page: Seq<(i32, i64)>, seq: i64) -> bool {
    exists|i: int| 0 <= i < page.len() && page[i].1 == seq
}

/// `page` lists the distinct threads of `rows` that satisfy `pred`, newest
/// first, cut off after `limit` entries.
pub open spec fn is_page(
    rows: Seq<ThreadRow>,
    pred: spec_fn(ThreadRow) -> bool,
    limit: int,
    page: Seq<(i32, i64)>,
) -> bool {
    &&& page.len() <= limit
    &&& forall|i: int, j: int| 0 <= i < j < page.len() ==> page[i].1 > page[j].1
    &&& forall|i: int| 0 <= i < page.len() ==> witnessed_by(rows, pred, page[i])
    &&& forall|k: int|
        0 <= k < rows.len() && pred(rows[k]) ==> in_page(page, rows[k].flume_seq) || (page.len()
            == limit && rows[k].flume_seq < page.last().1)
}

/// Whether any row satisfies `pred`.
pub open spec fn any_row(rows: Seq<ThreadRow>, pred: spec_fn(ThreadRow) -> bool) -> bool {
    exists|k: int| 0 <= k < rows.len() && pred(rows[k])
}

/// A sequence number names one message: rows that share it are rows of the
/// same thread.
pub open spec fn seqs_name_threads(rows: Seq<ThreadRow>) -> bool {
    forall|i: int, j: int|
        0 <= i < rows.len() && 0 <= j < rows.len() && rows[i].flume_seq == rows[j].flume_seq
            ==> rows[i].key_id == rows[j].key_id
}

pub open spec fn below_page(page: Seq<(i32, i64)>, seq: i64) -> bool {
    page.len() == 0 || seq < page.last().1
}

/// Runs a search over the thread relation: the distinct matching threads,
/// newest first, at most `q.limit` of them.
pub fn run_query(rows: &Vec<ThreadRow>, q: &ThreadQuery) -> (page: Vec<(i32, i64)>)
    requires
        q.limit > 0,
    ensures
        is_page(rows@, |row: ThreadRow| row_matches(*q, row), q.limit as int, page@),
        page@.len() == 0 <==> !any_row(rows@, |row: ThreadRow| row_matches(*q, row)),
{
    let ghost pred = |row: ThreadRow| row_matches(*q, row);
    let mut page: Vec<(i32, i64)> = Vec::new();
    let mut done = false;
    let limit = q.limit as usize;
    while !done && page.len() < limit
        invariant
            limit == q.limit as int,
            limit > 0,
            pred == (|row: ThreadRow| row_matches(*q, row)),
            page@.len() <= limit,
            forall|i: int, j: int| 0 <= i < j < page@.len() ==> page@[i].1 > page@[j].1,
            forall|i: int| 0 <= i < page@.len() ==> witnessed_by(rows@, pred, page@[i]),
            forall|k: int|
                0 <= k < rows@.len() && pred(rows@[k]) && !below_page(page@, rows@[k].flume_seq)
                    ==> in_page(page@, rows@[k].flume_seq),
            done ==> forall|k: int|
                0 <= k < rows@.len() && pred(rows@[k]) ==> !below_page(page@, rows@[k].flume_seq),
        decreases 2 * (limit - page@.len()) + (if done { 0int } else { 1int }),
    {
        let mut best: Option<usize> = None;
        let mut k: usize = 0;
        while k < rows.len()
            invariant
                k <= rows@.len(),
                pred == (|row: ThreadRow| row_matches(*q, row)),
                match best {
                    Some(b) => b < rows@.len() && pred(rows@[b as int]) && below_page(
                        page@,
                        rows@[b as int].flume_seq,
                    ) && forall|j: int|
                        0 <= j < k && pred(rows@[j]) && below_page(page@, rows@[j].flume_seq)
                            ==> rows@[j].flume_seq <= rows@[b as int].flume_seq,
                    None => forall|j: int|
                        0 <= j < k ==> !(pred(rows@[j]) && below_page(page@, rows@[j].flume_seq)),
                },
            decreases rows@.len() - k,
        {
            let row = &rows[k];
            if query_matches_row(q, row) && (page.len() == 0 || row.flume_seq < page[page.len()
                - 1].1) {
                match best {
                    None => {
                        best = Some(k);
                    },
                    Some(b) => {
                        if row.flume_seq > rows[b].flume_seq {
                            best = Some(k);
                        }
                    },
                }
            }
            k = k + 1;
        }
        match best {
            None => {
                done = true;
            },
            Some(b) => {
                let ghost old_page = page@;
                page.push((rows[b].key_id, rows[b].flume_seq));
                proof {
                    let s = rows@[b as int].flume_seq;
                    assert(page@.last().1 == s);
                    assert(witnessed_by(rows@, pred, page@[page@.len() - 1]));
                    assert forall|i: int| 0 <= i < page@.len() implies witnessed_by(
                        rows@,
                        pred,
                        page@[i],
                    ) by {
                        if i < old_page.len() {
                            assert(page@[i] == old_page[i]);
                        }
                    }
                    assert forall|j: int|
                        0 <= j < rows@.len() && pred(rows@[j]) && !below_page(
                            page@,
                            rows@[j].flume_seq,
                        ) implies in_page(page@, rows@[j].flume_seq) by {
                        if below_page(old_page, rows@[j].flume_seq) {
                            assert(page@[old_page.len() as int].1 == rows@[j].flume_seq);
                        } else {
                            let i = choose|i: int|
                                0 <= i < old_page.len() && old_page[i].1 == rows@[j].flume_seq;
                            assert(page@[i] == old_page[i]);
                        }
                    }
                }
            },
        }
    }
    proof {
        assert forall|k: int| 0 <= k < rows@.len() && pred(rows@[k]) implies in_page(
            page@,
            rows@[k].flume_seq,
        ) || (page@.len() == limit && rows@[k].flume_seq < page@.last().1) by {
            if !below_page(page@, rows@[k].flume_seq) {
            }
        }
        if page@.len() > 0 {
            assert(witnessed_by(rows@, pred, page@[0]));
        }
    }
    page
}

/// Where a page starts and ends, as cursors.
#[derive(Debug, Clone)]
pub struct PageInfo {
    pub start_cursor: Option<String>,
    pub end_cursor: String,
    /// False only when the last thread of the page has sequence number zero.
    /// This does not look past the page.
    pub has_next_page: bool,
}

/// One page of a thread search.
#[derive(Debug, Clone)]
pub struct ThreadConnection {
    /// The page size asked for.
    pub next: i32,
    /// The root message ids of the threads, newest first.
    pub thread_keys: Vec<i32>,
    pub page_info: PageInfo,
}

/// `c` is the connection for the non-empty `page`.
pub open spec fn connection_of(page_size: i32, page: Seq<(i32, i64)>, c: ThreadConnection) -> bool {
    &&& c.next == page_size
    &&& c.thread_keys@ == page.map_values(|e: (i32, i64)| e.0)
    &&& c.page_info.start_cursor is Some
    &&& c.page_info.start_cursor->Some_0@ == cursor_text(page[0].1)
    &&& c.page_info.end_cursor@ == cursor_text(page.last().1)
    &&& c.page_info.has_next_page == (page.last().1 != 0)
}

/// Packages a page with its cursors. An empty page is `NoResultsFound`.
pub fn connection_from_page(page_size: i32, page: &Vec<(i32, i64)>) -> (r: Result<
    ThreadConnection,
    QueryError,
>)
    ensures
        page@.len() == 0 <==> r == Err::<ThreadConnection, QueryError>(QueryError::NoResultsFound),
        page@.len() > 0 <==> r is Ok,
        r matches Ok(c) ==> connection_of(page_size, page@, c),
{
    if page.len() == 0 {
        return Err(QueryError::NoResultsFound);
    }
    let first_seq = page[0].1;
    let last_seq = page[page.len() - 1].1;
    let mut thread_keys: Vec<i32> = Vec::new();
    let mut i: usize = 0;
    while i < page.len()
        invariant
            i <= page@.len(),
            thread_keys@ == page@.subrange(0, i as int).map_values(|e: (i32, i64)| e.0),
        decreases page@.len() - i,
    {
        thread_keys.push(page[i].0);
        i = i + 1;
        proof {
            assert(page@.subrange(0, i as int).map_values(|e: (i32, i64)| e.0) =~= thread_keys@);
        }
    }
    proof {
        assert(page@.subrange(0, page@.len() as int) =~= page@);
    }
    let page_info = PageInfo {
        start_cursor: Some(encode_cursor(first_seq)),
        end_cursor: encode_cursor(last_seq),
        has_next_page: last_seq != 0,
    };
    Ok(ThreadConnection { next: page_size, thread_keys, page_info })
}

} // verus!
