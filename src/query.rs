//! A thread search as an explicit plan: an OR of author clauses, a privacy
//! partition and a sequence-number bound, with the rule that decides whether a
//! row of the thread relation matches it.

use vstd::prelude::*;
use crate::cursor::{cursor_value, decode_cursor, CursorError};

verus! {

/// Which records a search may return.
#[derive(Debug, Clone, Copy, PartialEq, Eq, Structural)]
pub enum Privacy {
    /// Records that were never encrypted.
    Public,
    /// Records that were decrypted.
    Private,
    /// Both.
    All,
}

/// The order of search results. Every mode is accepted; results come newest
/// first by sequence number.
#[derive(Debug, Clone, Copy, PartialEq, Eq, Structural)]
pub enum OrderBy {
    Received,
    Asserted,
    Causal,
}

/// The author column of a thread row that a clause tests.
#[derive(Debug, Clone, Copy, PartialEq, Eq, Structural)]
pub enum AuthorField {
    /// The author of the thread's root message.
    Root,
    /// The author of a reply in the thread.
    Reply,
}

/// Matches a row whose `field` author is one of `author_ids`.
#[derive(Debug, Clone)]
pub struct AuthorClause {
    pub field: AuthorField,
    pub author_ids: Vec<i32>,
}

/// A bound on the sequence number, from a pagination cursor.
#[derive(Debug, Clone, Copy, PartialEq, Eq, Structural)]
pub enum SeqBound {
    Unbounded,
    /// Only rows with a sequence number greater than this (a `before` cursor).
    Newer(i64),
    /// Only rows with a sequence number less than this (an `after` cursor).
    Older(i64),
}

/// Everything that can go wrong with a request.
#[derive(Debug, Clone, Copy, PartialEq, Eq, Structural)]
pub enum QueryError {
    /// A cursor is not base64 text.
    InvalidEncoding,
    /// A cursor decodes to fewer than eight bytes.
    Truncated,
    /// Both `before` and `after` were given.
    ConflictingCursors,
    /// A key does not name a known message.
    NotFound,
    /// The search matched no thread.
    NoResultsFound,
}

/// One row of the thread relation: a message with the thread facts a search
/// tests. A thread with replies has one row per reply.
#[derive(Debug, Clone)]
pub struct ThreadRow {
    pub key_id: i32,
    pub flume_seq: i64,
    pub author_id: i32,
    pub reply_author_id: Option<i32>,
    pub root_key_id: Option<i32>,
    pub content_type: String,
    pub is_decrypted: bool,
}

/// A composed thread search.
#[derive(Debug, Clone)]
pub struct ThreadQuery {
    /// A row must satisfy one of these; with none, every row does.
    pub any_of: Vec<AuthorClause>,
    pub privacy: Privacy,
    pub bound: SeqBound,
    /// At most this many threads come back.
    pub limit: i32,
}

pub open spec fn post_type() -> Seq<char> {
    seq!['p', 'o', 's', 't']
}

pub open spec fn clause_matches(c: AuthorClause, row: ThreadRow) -> bool {
    match c.field {
        AuthorField::Root => c.author_ids@.contains(row.author_id),
        AuthorField::Reply => match row.reply_author_id {
            Some(a) => c.author_ids@.contains(a),
            None => false,
        },
    }
}

/// The clauses are OR'd: a row matches when any clause does, and every row
/// matches when there is no clause.
pub open spec fn selection_matches(any_of: Seq<AuthorClause>, row: ThreadRow) -> bool {
    any_of.len() == 0 || exists|i: int| 0 <= i < any_of.len() && clause_matches(any_of[i], row)
}

pub open spec fn privacy_matches(p: Privacy, row: ThreadRow) -> bool {
    match p {
        Privacy::Public => !row.is_decrypted,
        Privacy::Private => row.is_decrypted,
        Privacy::All => true,
    }
}

pub open spec fn bound_matches(b: SeqBound, seq: i64) -> bool {
    match b {
        SeqBound::Unbounded => true,
        SeqBound::Newer(s) => seq > s,
        SeqBound::Older(s) => seq < s,
    }
}

/// A thread root: a message with no parent whose content type is "post".
pub open spec fn is_thread_root(row: ThreadRow) -> bool {
    row.root_key_id is None && row.content_type@ == post_type()
}

pub open spec fn row_matches(q: ThreadQuery, row: ThreadRow) -> bool {
    &&& selection_matches(q.any_of@, row)
    &&& privacy_matches(q.privacy, row)
    &&& bound_matches(q.bound, row.flume_seq)
    &&& is_thread_root(row)
}

pub open spec fn query_error(e: CursorError) -> QueryError {
    match e {
        CursorError::InvalidEncoding => QueryError::InvalidEncoding,
        CursorError::Truncated => QueryError::Truncated,
    }
}

/// The bound that the `before` and `after` cursors ask for.
pub open spec fn bound_of(before: Option<String>, after: Option<String>) -> Result<SeqBound, QueryError> {
    match (before, after) {
        (Some(_), Some(_)) => Err(QueryError::ConflictingCursors),
        (Some(b), None) => match cursor_value(b@) {
            Ok(s) => Ok(SeqBound::Newer(s)),
            Err(e) => Err(query_error(e)),
        },
        (None, Some(a)) => match cursor_value(a@) {
            Ok(s) => Ok(SeqBound::Older(s)),
            Err(e) => Err(query_error(e)),
        },
        (None, None) => Ok(SeqBound::Unbounded),
    }
}

fn to_query_error(e: CursorError) -> (r: QueryError)
    ensures
        r == query_error(e),
{
    match e {
        CursorError::InvalidEncoding => QueryError::InvalidEncoding,
        CursorError::Truncated => QueryError::Truncated,
    }
}

/// The bound that the cursors ask for. Both cursors together are refused
/// before either is read.
pub fn cursor_bound(before: &Option<String>, after: &Option<String>) -> (r: Result<SeqBound, QueryError>)
    ensures
        r == bound_of(*before, *after),
        before is Some && after is Some ==> r == Err::<SeqBound, QueryError>(
            QueryError::ConflictingCursors,
        ),
{
    match (before, after) {
        (Some(_), Some(_)) => Err(QueryError::ConflictingCursors),
        (Some(b), None) => match decode_cursor(b.as_str()) {
            Ok(s) => Ok(SeqBound::Newer(s)),
            Err(e) => Err(to_query_error(e)),
        },
        (None, Some(a)) => match decode_cursor(a.as_str()) {
            Ok(s) => Ok(SeqBound::Older(s)),
            Err(e) => Err(to_query_error(e)),
        },
        (None, None) => Ok(SeqBound::Unbounded),
    }
}

/// Composes a thread search from resolved author clauses, the privacy mode,
/// the cursors and the page size.
pub fn plan_threads(
    any_of: Vec<AuthorClause>,
    privacy: Privacy,
    before: &Option<String>,
    after: &Option<String>,
    page_size: i32,
) -> (r: Result<ThreadQuery, QueryError>)
    requires
        page_size > 0,
    ensures
        match bound_of(*before, *after) {
            Err(e) => r == Err::<ThreadQuery, QueryError>(e),
            Ok(b) => r is Ok && r->Ok_0.any_of@ == any_of@ && r->Ok_0.privacy == privacy
                && r->Ok_0.bound == b && r->Ok_0.limit == page_size,
        },
{
    match cursor_bound(before, after) {
        Ok(bound) => Ok(ThreadQuery { any_of, privacy, bound, limit: page_size }),
        Err(e) => Err(e),
    }
}

pub(crate) fn ids_contain(ids: &Vec<i32>, id: i32) -> (r: bool)
    ensures
        r == ids@.contains(id),
{
    let mut i: usize = 0;
    while i < ids.len()
        invariant
            i <= ids@.len(),
            forall|j: int| 0 <= j < i ==> ids@[j] != id,
        decreases ids@.len() - i,
    {
        if ids[i] == id {
            return true;
        }
        i = i + 1;
    }
    false
}

/// Whether one clause matches a row.
pub fn clause_matches_row(c: &AuthorClause, row: &ThreadRow) -> (r: bool)
    ensures
        r == clause_matches(*c, *row),
{
    match c.field {
        AuthorField::Root => ids_contain(&c.author_ids, row.author_id),
        AuthorField::Reply => match row.reply_author_id {
            Some(a) => ids_contain(&c.author_ids, a),
            None => false,
        },
    }
}

/// Whether a row matches a search.
pub fn query_matches_row(q: &ThreadQuery, row: &ThreadRow) -> (r: bool)
    ensures
        r == row_matches(*q, *row),
{
    let post = "post".to_owned();
    proof {
        reveal_strlit("post");
        assert(post@ =~= post_type());
    }
    if row.root_key_id.is_some() || row.content_type != post {
        return false;
    }
    let in_bound = match q.bound {
        SeqBound::Unbounded => true,
        SeqBound::Newer(s) => row.flume_seq > s,
        SeqBound::Older(s) => row.flume_seq < s,
    };
    let in_privacy = match q.privacy {
        Privacy::Public => !row.is_decrypted,
        Privacy::Private => row.is_decrypted,
        Privacy::All => true,
    };
    if !in_bound || !in_privacy {
        return false;
    }
    if q.any_of.len() == 0 {
        return true;
    }
    let mut i: usize = 0;
    while i < q.any_of.len()
        invariant
            i <= q.any_of@.len(),
            forall|j: int| 0 <= j < i ==> !clause_matches(q.any_of@[j], *row),
            privacy_matches(q.privacy, *row),
            bound_matches(q.bound, row.flume_seq),
            is_thread_root(*row),
        decreases q.any_of@.len() - i,
    {
        if clause_matches_row(&q.any_of[i], row) {
            assert(clause_matches(q.any_of@[i as int], *row));
            assert(selection_matches(q.any_of@, *row));
            return true;
        }
        i = i + 1;
    }
    false
}

} // verus!
