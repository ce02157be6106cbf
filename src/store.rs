//! An in-memory message store holding the relations a search reads, and the
//! requests answered from it: thread search and lookup by key.

use vstd::prelude::*;
use crate::page::{any_row, connection_from_page, connection_of, is_page, run_query, ThreadConnection};
use crate::query::{
    bound_matches, clause_matches, cursor_bound, bound_of, ids_contain, is_thread_root,
    privacy_matches, row_matches, selection_matches, AuthorClause, AuthorField, OrderBy, Privacy,
    QueryError, SeqBound, ThreadQuery, ThreadRow,
};

verus! {

/// An author: an internal id and the public key it is known by.
#[derive(Debug, Clone)]
pub struct AuthorRow {
    pub id: i32,
    pub author: String,
}

/// A directed contact edge; `state` 1 means that `author_id` follows
/// `contact_author_id`.
#[derive(Debug, Clone, Copy, PartialEq, Eq, Structural)]
pub struct ContactRow {
    pub author_id: i32,
    pub contact_author_id: i32,
    pub state: i32,
}

/// Maps an external message key to an internal id.
#[derive(Debug, Clone)]
pub struct KeyRow {
    pub id: i32,
    pub key: String,
}

/// A message, by internal id.
#[derive(Debug, Clone, Copy, PartialEq, Eq, Structural)]
pub struct Post {
    pub key_id: i32,
}

/// A thread, by its root message.
#[derive(Debug, Clone, Copy, PartialEq, Eq, Structural)]
pub struct Thread {
    pub root: Post,
}

/// The optional criteria of a thread search. Those present are OR'd.
#[derive(Debug, Clone)]
pub struct Selectors {
    /// Threads whose root is by one of these authors.
    pub roots_authored_by: Option<Vec<String>>,
    /// Threads whose root is by someone that one of these authors follows.
    pub roots_authored_by_someone_followed_by: Option<Vec<String>>,
    /// Threads with a reply by one of these authors.
    pub has_replies_authored_by: Option<Vec<String>>,
    /// Threads with a reply by someone that one of these authors follows.
    pub has_replies_authored_by_someone_followed_by: Option<Vec<String>>,
    /// Accepted and not consulted.
    pub mentions_authors: Option<Vec<String>>,
    /// Accepted and not consulted.
    pub mentions_channels: Option<Vec<String>>,
}

/// The relations a search reads.
#[derive(Debug, Clone)]
pub struct Store {
    pub authors: Vec<AuthorRow>,
    pub contacts: Vec<ContactRow>,
    pub keys: Vec<KeyRow>,
    /// The internal ids of the stored messages.
    pub message_key_ids: Vec<i32>,
    pub threads: Vec<ThreadRow>,
}

/// `s` is one of `names`.
pub open spec fn named(names: Seq<String>, s: Seq<char>) -> bool {
    exists|j: int| 0 <= j < names.len() && names[j]@ == s
}

pub open spec fn any_clause(cs: Seq<AuthorClause>, row: ThreadRow) -> bool {
    exists|i: int| 0 <= i < cs.len() && clause_matches(cs[i], row)
}

impl Store {
    /// `id` is the id of an author whose key is one of `names`.
    pub open spec fn is_author_of(&self, names: Seq<String>, id: i32) -> bool {
        exists|i: int|
            0 <= i < self.authors@.len() && self.authors@[i].id == id && named(
                names,
                self.authors@[i].author@,
            )
    }

    /// `id` is followed (state 1) by an author whose key is one of `names`.
    pub open spec fn is_followed_by(&self, names: Seq<String>, id: i32) -> bool {
        exists|c: int|
            0 <= c < self.contacts@.len() && self.contacts@[c].state == 1
                && self.contacts@[c].contact_author_id == id && self.is_author_of(
                names,
                self.contacts@[c].author_id,
            )
    }

    pub open spec fn roots_by(&self, sel: Selectors, row: ThreadRow) -> bool {
        sel.roots_authored_by is Some && self.is_author_of(
            sel.roots_authored_by->Some_0@,
            row.author_id,
        )
    }

    pub open spec fn roots_followed(&self, sel: Selectors, row: ThreadRow) -> bool {
        sel.roots_authored_by_someone_followed_by is Some && self.is_followed_by(
            sel.roots_authored_by_someone_followed_by->Some_0@,
            row.author_id,
        )
    }

    pub open spec fn replies_by(&self, sel: Selectors, row: ThreadRow) -> bool {
        sel.has_replies_authored_by is Some && row.reply_author_id is Some && self.is_author_of(
            sel.has_replies_authored_by->Some_0@,
            row.reply_author_id->Some_0,
        )
    }

    pub open spec fn replies_followed(&self, sel: Selectors, row: ThreadRow) -> bool {
        sel.has_replies_authored_by_someone_followed_by is Some && row.reply_author_id is Some
            && self.is_followed_by(
            sel.has_replies_authored_by_someone_followed_by->Some_0@,
            row.reply_author_id->Some_0,
        )
    }

    pub open spec fn no_selector(sel: Selectors) -> bool {
        &&& sel.roots_authored_by is None
        &&& sel.roots_authored_by_someone_followed_by is None
        &&& sel.has_replies_authored_by is None
        &&& sel.has_replies_authored_by_someone_followed_by is None
    }

    /// A row satisfies the selectors when any present one accepts it, or when
    /// none is present.
    pub open spec fn selectors_match(&self, sel: Selectors, row: ThreadRow) -> bool {
        Self::no_selector(sel) || self.roots_by(sel, row) || self.roots_followed(sel, row)
            || self.replies_by(sel, row) || self.replies_followed(sel, row)
    }

    /// What a thread search with these arguments matches.
    pub open spec fn request_matches(
        &self,
        sel: Selectors,
        privacy: Privacy,
        bound: SeqBound,
        row: ThreadRow,
    ) -> bool {
        &&& self.selectors_match(sel, row)
        &&& privacy_matches(privacy, row)
        &&& bound_matches(bound, row.flume_seq)
        &&& is_thread_root(row)
    }

    /// Row `i` of the key table has key `key` and names a stored message.
    pub open spec fn key_joins(&self, key: Seq<char>, i: int) -> bool {
        &&& 0 <= i < self.keys@.len()
        &&& self.keys@[i].key@ == key
        &&& self.message_key_ids@.contains(self.keys@[i].id)
    }
}

fn names_contain(names: &Vec<String>, s: &String) -> (r: bool)
    ensures
        r == named(names@, s@),
{
    let mut j: usize = 0;
    while j < names.len()
        invariant
            j <= names@.len(),
            forall|i: int| 0 <= i < j ==> names@[i]@ != s@,
        decreases names@.len() - j,
    {
        if names[j] == *s {
            return true;
        }
        j = j + 1;
    }
    false
}

proof fn lemma_push_clause(cs: Seq<AuthorClause>, c: AuthorClause, row: ThreadRow)
    ensures
        any_clause(cs.push(c), row) == (any_clause(cs, row) || clause_matches(c, row)),
{
    let ns = cs.push(c);
    if any_clause(cs, row) {
        let i = choose|i: int| 0 <= i < cs.len() && clause_matches(cs[i], row);
        assert(ns[i] == cs[i]);
    }
    if clause_matches(c, row) {
        assert(ns[cs.len() as int] == c);
    }
    if any_clause(ns, row) {
        let i = choose|i: int| 0 <= i < ns.len() && clause_matches(ns[i], row);
        if i < cs.len() {
            assert(ns[i] == cs[i]);
        }
    }
}

impl Store {
    /// The ids of the authors whose keys are among `names`. Keys that name no
    /// author contribute nothing.
    pub fn author_ids(&self, names: &Vec<String>) -> (r: Vec<i32>)
        ensures
            forall|id: i32| r@.contains(id) <==> self.is_author_of(names@, id),
    {
        let mut r: Vec<i32> = Vec::new();
        let mut i: usize = 0;
        while i < self.authors.len()
            invariant
                i <= self.authors@.len(),
                forall|id: i32|
                    r@.contains(id) <==> exists|k: int|
                        0 <= k < i && self.authors@[k].id == id && named(
                            names@,
                            self.authors@[k].author@,
                        ),
            decreases self.authors@.len() - i,
        {
            let a = &self.authors[i];
            let ghost old_r = r@;
            if names_contain(names, &a.author) {
                r.push(a.id);
            }
            proof {
                assert forall|id: i32|
                    r@.contains(id) <==> exists|k: int|
                        0 <= k < i + 1 && self.authors@[k].id == id && named(
                            names@,
                            self.authors@[k].author@,
                        ) by {
                    if r@.contains(id) && !old_r.contains(id) {
                        let j = choose|j: int| 0 <= j < r@.len() && r@[j] == id;
                        assert(j == old_r.len());
                    }
                    if old_r.contains(id) {
                        let j = choose|j: int| 0 <= j < old_r.len() && old_r[j] == id;
                        assert(r@[j] == id);
                    }
                    if named(names@, self.authors@[i as int].author@) && self.authors@[i as int].id
                        == id {
                        assert(r@[r@.len() - 1] == id);
                    }
                }
            }
            i = i + 1;
        }
        r
    }

    /// The ids of the authors that an author whose key is among `names`
    /// follows (contact state 1).
    pub fn followed_ids(&self, names: &Vec<String>) -> (r: Vec<i32>)
        ensures
            forall|id: i32| r@.contains(id) <==> self.is_followed_by(names@, id),
    {
        let followers = self.author_ids(names);
        let mut r: Vec<i32> = Vec::new();
        let mut i: usize = 0;
        while i < self.contacts.len()
            invariant
                i <= self.contacts@.len(),
                forall|id: i32| followers@.contains(id) <==> self.is_author_of(names@, id),
                forall|id: i32|
                    r@.contains(id) <==> exists|c: int|
                        0 <= c < i && self.contacts@[c].state == 1
                            && self.contacts@[c].contact_author_id == id && self.is_author_of(
                            names@,
                            self.contacts@[c].author_id,
                        ),
            decreases self.contacts@.len() - i,
        {
            let c = self.contacts[i];
            let ghost old_r = r@;
            if c.state == 1 && ids_contain(&followers, c.author_id) {
                r.push(c.contact_author_id);
            }
            proof {
                assert forall|id: i32|
                    r@.contains(id) <==> exists|k: int|
                        0 <= k < i + 1 && self.contacts@[k].state == 1
                            && self.contacts@[k].contact_author_id == id && self.is_author_of(
                            names@,
                            self.contacts@[k].author_id,
                        ) by {
                    if r@.contains(id) && !old_r.contains(id) {
                        let j = choose|j: int| 0 <= j < r@.len() && r@[j] == id;
                        assert(j == old_r.len());
                    }
                    if old_r.contains(id) {
                        let j = choose|j: int| 0 <= j < old_r.len() && old_r[j] == id;
                        assert(r@[j] == id);
                    }
                    if self.contacts@[i as int].state == 1 && self.contacts@[i as int].contact_author_id
                        == id && self.is_author_of(names@, self.contacts@[i as int].author_id) {
                        assert(followers@.contains(c.author_id));
                        assert(r@[r@.len() - 1] == id);
                    }
                }
            }
            i = i + 1;
        }
        r
    }
}

impl Store {
    /// The author clauses for the present selectors, in a fixed order. A row
    /// satisfies some clause exactly when a present selector accepts it; with
    /// no selector present there is no clause.
    pub fn selector_clauses(&self, sel: &Selectors) -> (r: Vec<AuthorClause>)
        ensures
            r@.len() == 0 <==> Self::no_selector(*sel),
            forall|row: ThreadRow|
                selection_matches(r@, row) <==> #[trigger] self.selectors_match(*sel, row),
    {
        let mut r: Vec<AuthorClause> = Vec::new();
        let ghost old_r = r@;
        assert(forall|row: ThreadRow| !#[trigger] any_clause(old_r, row));
        if let Some(names) = &sel.roots_authored_by {
            let c = AuthorClause { field: AuthorField::Root, author_ids: self.author_ids(names) };
            r.push(c);
            proof {
                assert forall|row: ThreadRow| #[trigger] clause_matches(c, row) == self.roots_by(*sel, row) by {
                    if clause_matches(c, row) {
                        assert(c.author_ids@.contains(row.author_id));
                    }
                }
            }
        }
        proof {
            assert forall|row: ThreadRow| #[trigger] any_clause(r@, row) == (any_clause(old_r, row) || self.roots_by(*sel, row)) by {
                if sel.roots_authored_by is Some {
                    lemma_push_clause(old_r, r@.last(), row);
                    assert(r@ == old_r.push(r@.last()));
                } else {
                    assert(r@ == old_r);
                }
            }
        }
        assert(forall|row: ThreadRow| #[trigger] any_clause(r@, row) == (self.roots_by(*sel, row)));
        let ghost old_r = r@;
        if let Some(names) = &sel.roots_authored_by_someone_followed_by {
            let c = AuthorClause { field: AuthorField::Root, author_ids: self.followed_ids(names) };
            r.push(c);
            proof {
                assert forall|row: ThreadRow| #[trigger] clause_matches(c, row) == self.roots_followed(*sel, row) by {
                    if clause_matches(c, row) {
                        assert(c.author_ids@.contains(row.author_id));
                    }
                }
            }
        }
        proof {
            assert forall|row: ThreadRow| #[trigger] any_clause(r@, row) == (any_clause(old_r, row) || self.roots_followed(*sel, row)) by {
                if sel.roots_authored_by_someone_followed_by is Some {
                    lemma_push_clause(old_r, r@.last(), row);
                    assert(r@ == old_r.push(r@.last()));
                } else {
                    assert(r@ == old_r);
                }
            }
        }
        assert(forall|row: ThreadRow| #[trigger] any_clause(r@, row) == (self.roots_by(*sel, row) || self.roots_followed(*sel, row)));
        let ghost old_r = r@;
        if let Some(names) = &sel.has_replies_authored_by_someone_followed_by {
            let c = AuthorClause { field: AuthorField::Reply, author_ids: self.followed_ids(names) };
            r.push(c);
            proof {
                assert forall|row: ThreadRow| #[trigger] clause_matches(c, row) == self.replies_followed(*sel, row) by {
                    if clause_matches(c, row) {
                        assert(c.author_ids@.contains(row.reply_author_id->Some_0));
                    }
                }
            }
        }
        proof {
            assert forall|row: ThreadRow| #[trigger] any_clause(r@, row) == (any_clause(old_r, row) || self.replies_followed(*sel, row)) by {
                if sel.has_replies_authored_by_someone_followed_by is Some {
                    lemma_push_clause(old_r, r@.last(), row);
                    assert(r@ == old_r.push(r@.last()));
                } else {
                    assert(r@ == old_r);
                }
            }
        }
        assert(forall|row: ThreadRow| #[trigger] any_clause(r@, row) == (self.roots_by(*sel, row) || self.roots_followed(*sel, row) || self.replies_followed(*sel, row)));
        let ghost old_r = r@;
        if let Some(names) = &sel.has_replies_authored_by {
            let c = AuthorClause { field: AuthorField::Reply, author_ids: self.author_ids(names) };
            r.push(c);
            proof {
                assert forall|row: ThreadRow| #[trigger] clause_matches(c, row) == self.replies_by(*sel, row) by {
                    if clause_matches(c, row) {
                        assert(c.author_ids@.contains(row.reply_author_id->Some_0));
                    }
                }
            }
        }
        proof {
            assert forall|row: ThreadRow| #[trigger] any_clause(r@, row) == (any_clause(old_r, row) || self.replies_by(*sel, row)) by {
                if sel.has_replies_authored_by is Some {
                    lemma_push_clause(old_r, r@.last(), row);
                    assert(r@ == old_r.push(r@.last()));
                } else {
                    assert(r@ == old_r);
                }
            }
        }
        assert(forall|row: ThreadRow| #[trigger] any_clause(r@, row) == (self.roots_by(*sel, row) || self.roots_followed(*sel, row) || self.replies_followed(*sel, row) || self.replies_by(*sel, row)));
        proof {
            assert forall|row: ThreadRow| selection_matches(r@, row) <==> #[trigger] self.selectors_match(*sel, row) by {
                assert(selection_matches(r@, row) == (r@.len() == 0 || any_clause(r@, row)));
            }
        }
        r
    }

    /// Searches for threads, newest first. A thread matches when any present
    /// selector accepts it (every thread, with none present), it lies in the
    /// privacy partition, it is past the cursor, and its root is a "post"
    /// with no parent. Both cursors together are refused; a bad cursor is
    /// reported as such; an empty result is `NoResultsFound`.
    pub fn threads(
        &self,
        before: &Option<String>,
        after: &Option<String>,
        page_size: i32,
        privacy: Privacy,
        sel: &Selectors,
        order_by: OrderBy,
    ) -> (r: Result<ThreadConnection, QueryError>)
        requires
            page_size > 0,
        ensures
            match bound_of(*before, *after) {
                Err(e) => r == Err::<ThreadConnection, QueryError>(e),
                Ok(b) => {
                    &&& r is Ok || r == Err::<ThreadConnection, QueryError>(QueryError::NoResultsFound)
                    &&& r is Ok <==> any_row(
                        self.threads@,
                        |row: ThreadRow| self.request_matches(*sel, privacy, b, row),
                    )
                    &&& r matches Ok(c) ==> exists|page: Seq<(i32, i64)>|
                        is_page(
                            self.threads@,
                            |row: ThreadRow| self.request_matches(*sel, privacy, b, row),
                            page_size as int,
                            page,
                        ) && connection_of(page_size, page, c)
                },
            },
    {
        let any_of = self.selector_clauses(sel);
        let bound = match cursor_bound(before, after) {
            Ok(b) => b,
            Err(e) => return Err(e),
        };
        let q = ThreadQuery { any_of, privacy, bound, limit: page_size };
        let page = run_query(&self.threads, &q);
        let r = connection_from_page(page_size, &page);
        proof {
            let p1 = |row: ThreadRow| row_matches(q, row);
            let p2 = |row: ThreadRow| self.request_matches(*sel, privacy, bound, row);
            assert forall|row: ThreadRow| #[trigger] p1(row) == p2(row) by {
                assert(selection_matches(q.any_of@, row) == self.selectors_match(*sel, row));
            }
            assert(p1 =~= p2);
            if r is Ok {
                assert(is_page(self.threads@, p2, page_size as int, page@));
            }
        }
        r
    }

    /// The id of the first message whose key is `key`; `NotFound` when no
    /// key row has it and names a stored message.
    pub fn post(&self, key: &String) -> (r: Result<Post, QueryError>)
        ensures
            r is Err <==> forall|i: int| !self.key_joins(key@, i),
            r is Err ==> r == Err::<Post, QueryError>(QueryError::NotFound),
            r matches Ok(p) ==> exists|i: int|
                self.key_joins(key@, i) && p.key_id == self.keys@[i].id && forall|j: int|
                    0 <= j < i ==> !self.key_joins(key@, j),
    {
        let mut i: usize = 0;
        while i < self.keys.len()
            invariant
                i <= self.keys@.len(),
                forall|j: int| 0 <= j < i ==> !self.key_joins(key@, j),
            decreases self.keys@.len() - i,
        {
            let k = &self.keys[i];
            if k.key == *key && ids_contain(&self.message_key_ids, k.id) {
                assert(self.key_joins(key@, i as int));
                return Ok(Post { key_id: k.id });
            }
            i = i + 1;
        }
        Err(QueryError::NotFound)
    }

    /// The thread whose root message has key `root_key`; `NotFound` as for
    /// `post`. Every order is accepted.
    pub fn thread(&self, root_key: &String, order_by: OrderBy) -> (r: Result<Thread, QueryError>)
        ensures
            r is Err <==> forall|i: int| !self.key_joins(root_key@, i),
            r is Err ==> r == Err::<Thread, QueryError>(QueryError::NotFound),
            r matches Ok(t) ==> exists|i: int|
                self.key_joins(root_key@, i) && t.root.key_id == self.keys@[i].id && forall|j: int|
                    0 <= j < i ==> !self.key_joins(root_key@, j),
    {
        match self.post(root_key) {
            Ok(root) => Ok(Thread { root }),
            Err(e) => Err(e),
        }
    }
}

} // verus!
