//! Laws of thread search that relate several searches.

use vstd::prelude::*;
use crate::page::{any_row, in_page, is_page, witnessed_by};
use crate::query::{
    bound_of, clause_matches, row_matches, selection_matches, AuthorClause, Privacy, QueryError,
    SeqBound, ThreadQuery, ThreadRow,
};

verus! {

/// The sequence numbers of the rows that satisfy `pred`.
pub open spec fn matching_seqs(rows: Seq<ThreadRow>, pred: spec_fn(ThreadRow) -> bool) -> Set<i64> {
    Set::new(|s: i64| exists|k: int| 0 <= k < rows.len() && pred(rows[k]) && rows[k].flume_seq == s)
}

/// When the matching threads fit in a page, the page lists every one of them
/// and nothing else.
pub proof fn lemma_page_holds_all_that_fit(
    rows: Seq<ThreadRow>,
    pred: spec_fn(ThreadRow) -> bool,
    limit: int,
    page: Seq<(i32, i64)>,
)
    requires
        is_page(rows, pred, limit, page),
        matching_seqs(rows, pred).len() <= limit,
    ensures
        forall|s: i64| in_page(page, s) <==> matching_seqs(rows, pred).contains(s),
{
    let m = matching_seqs(rows, pred);
    let row_seqs = rows.map_values(|r: ThreadRow| r.flume_seq);
    assert(m.subset_of(row_seqs.to_set())) by {
        assert forall|s: i64| m.contains(s) implies row_seqs.to_set().contains(s) by {
            let k = choose|k: int| 0 <= k < rows.len() && pred(rows[k]) && rows[k].flume_seq == s;
            assert(row_seqs[k] == s);
        }
    }
    vstd::seq_lib::seq_to_set_is_finite(row_seqs);
    vstd::set_lib::lemma_len_subset(m, row_seqs.to_set());
    let ps = page.map_values(|e: (i32, i64)| e.1);
    assert(ps.no_duplicates()) by {
        assert forall|i: int, j: int| 0 <= i < ps.len() && 0 <= j < ps.len() && i != j implies ps[i]
            != ps[j] by {
            if i < j {
                assert(page[i].1 > page[j].1);
            } else {
                assert(page[j].1 > page[i].1);
            }
        }
    }
    ps.unique_seq_to_set();
    assert forall|s: i64| in_page(page, s) implies m.contains(s) by {
        let i = choose|i: int| 0 <= i < page.len() && page[i].1 == s;
        assert(witnessed_by(rows, pred, page[i]));
    }
    assert forall|s: i64| m.contains(s) implies in_page(page, s) by {
        if !in_page(page, s) {
            let k = choose|k: int| 0 <= k < rows.len() && pred(rows[k]) && rows[k].flume_seq == s;
            assert(page.len() == limit);
            assert(!ps.to_set().contains(s)) by {
                if ps.to_set().contains(s) {
                    let i = choose|i: int| 0 <= i < ps.len() && ps[i] == s;
                    assert(page[i].1 == s);
                }
            }
            let bigger = ps.to_set().insert(s);
            assert(bigger.subset_of(m)) by {
                assert forall|t: i64| bigger.contains(t) implies m.contains(t) by {
                    if t != s {
                        let i = choose|i: int| 0 <= i < ps.len() && ps[i] == t;
                        assert(page[i].1 == t);
                        assert(in_page(page, t));
                    }
                }
            }
            vstd::set_lib::lemma_len_subset(bigger, m);
        }
    }
}

/// Selectors are OR'd: joining the clauses of two searches that each have
/// some clause gives a search that matches a row exactly when either does.
pub proof fn lemma_clauses_or(q: ThreadQuery, qa: ThreadQuery, qb: ThreadQuery, row: ThreadRow)
    requires
        qa.any_of@.len() > 0,
        qb.any_of@.len() > 0,
        q.any_of@ == qa.any_of@ + qb.any_of@,
        q.privacy == qa.privacy && q.privacy == qb.privacy,
        q.bound == qa.bound && q.bound == qb.bound,
    ensures
        row_matches(q, row) == (row_matches(qa, row) || row_matches(qb, row)),
{
    let a = qa.any_of@;
    let b = qb.any_of@;
    let ab = q.any_of@;
    if selection_matches(a, row) {
        let i = choose|i: int| 0 <= i < a.len() && clause_matches(a[i], row);
        assert(ab[i] == a[i]);
    }
    if selection_matches(b, row) {
        let i = choose|i: int| 0 <= i < b.len() && clause_matches(b[i], row);
        assert(ab[a.len() + i] == b[i]);
    }
    if selection_matches(ab, row) {
        let i = choose|i: int| 0 <= i < ab.len() && clause_matches(ab[i], row);
        if i < a.len() {
            assert(ab[i] == a[i]);
        } else {
            assert(ab[i] == b[i - a.len()]);
        }
    }
}

/// The privacy modes partition the rows: no row is both public and private,
/// and `All` matches exactly the rows that one of the two matches.
pub proof fn lemma_privacy_partition(
    public: ThreadQuery,
    private: ThreadQuery,
    all: ThreadQuery,
    row: ThreadRow,
)
    requires
        public.privacy == Privacy::Public,
        private.privacy == Privacy::Private,
        all.privacy == Privacy::All,
        public.any_of@ == all.any_of@ && private.any_of@ == all.any_of@,
        public.bound == all.bound && private.bound == all.bound,
    ensures
        !(row_matches(public, row) && row_matches(private, row)),
        row_matches(all, row) == (row_matches(public, row) || row_matches(private, row)),
{
}

/// A search whose every clause resolved to no author matches no row, so it
/// ends in `NoResultsFound`.
pub proof fn lemma_unresolved_selectors(q: ThreadQuery, rows: Seq<ThreadRow>)
    requires
        q.any_of@.len() > 0,
        forall|i: int| 0 <= i < q.any_of@.len() ==> q.any_of@[i].author_ids@.len() == 0,
    ensures
        !any_row(rows, |row: ThreadRow| row_matches(q, row)),
{
    assert forall|k: int| 0 <= k < rows.len() implies !row_matches(q, rows[k]) by {
        if selection_matches(q.any_of@, rows[k]) {
            let i = choose|i: int| 0 <= i < q.any_of@.len() && clause_matches(q.any_of@[i], rows[k]);
            let c: AuthorClause = q.any_of@[i];
            assert(c.author_ids@.len() == 0);
        }
    }
}

/// Giving both cursors is refused, whatever they hold.
pub proof fn lemma_conflicting_cursors(before: String, after: String)
    ensures
        bound_of(Some(before), Some(after)) == Err::<SeqBound, QueryError>(QueryError::ConflictingCursors),
{
}

} // verus!
