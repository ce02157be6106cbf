use patchql_query::cursor::encode_cursor;
use patchql_query::page::{connection_from_page, run_query};
use patchql_query::query::{
    cursor_bound, plan_threads, AuthorClause, AuthorField, OrderBy, Privacy, QueryError, SeqBound,
    ThreadQuery, ThreadRow,
};
use patchql_query::store::{AuthorRow, ContactRow, KeyRow, Post, Selectors, Store, Thread};

fn root(key_id: i32, seq: i64, author_id: i32, private: bool) -> ThreadRow {
    ThreadRow {
        key_id,
        flume_seq: seq,
        author_id,
        reply_author_id: None,
        root_key_id: None,
        content_type: "post".to_string(),
        is_decrypted: private,
    }
}

fn reply_row(key_id: i32, seq: i64, author_id: i32, replier: i32) -> ThreadRow {
    ThreadRow { reply_author_id: Some(replier), ..root(key_id, seq, author_id, false) }
}

fn no_selectors() -> Selectors {
    Selectors {
        roots_authored_by: None,
        roots_authored_by_someone_followed_by: None,
        has_replies_authored_by: None,
        has_replies_authored_by_someone_followed_by: None,
        mentions_authors: None,
        mentions_channels: None,
    }
}

fn names(v: &[&str]) -> Option<Vec<String>> {
    Some(v.iter().map(|s| s.to_string()).collect())
}

/// Authors 1 (@alice), 2 (@bob), 3 (@carol); alice follows carol, blocks bob.
fn store(threads: Vec<ThreadRow>) -> Store {
    Store {
        authors: vec![
            AuthorRow { id: 1, author: "@alice".to_string() },
            AuthorRow { id: 2, author: "@bob".to_string() },
            AuthorRow { id: 3, author: "@carol".to_string() },
        ],
        contacts: vec![
            ContactRow { author_id: 1, contact_author_id: 3, state: 1 },
            ContactRow { author_id: 1, contact_author_id: 2, state: -1 },
        ],
        keys: vec![
            KeyRow { id: 10, key: "%root.sha256".to_string() },
            KeyRow { id: 99, key: "%orphan.sha256".to_string() },
        ],
        message_key_ids: vec![10, 20],
        threads,
    }
}

fn four_threads() -> Store {
    store(vec![
        root(7, 70, 1, false),
        root(10, 100, 1, false),
        root(8, 80, 2, false),
        root(9, 90, 3, false),
    ])
}

fn seqs_of(s: &Store, keys: &[i32]) -> Vec<i64> {
    keys.iter()
        .map(|k| s.threads.iter().find(|r| r.key_id == *k).unwrap().flume_seq)
        .collect()
}

#[test]
fn first_page_and_follow_up_page() {
    let s = four_threads();
    let c = s.threads(&None, &None, 2, Privacy::Public, &no_selectors(), OrderBy::Received).unwrap();
    assert_eq!(c.next, 2);
    assert_eq!(c.thread_keys, vec![10, 9]);
    assert_eq!(seqs_of(&s, &c.thread_keys), vec![100, 90]);
    assert_eq!(c.page_info.start_cursor, Some(encode_cursor(100)));
    assert_eq!(c.page_info.end_cursor, encode_cursor(90));
    assert!(c.page_info.has_next_page);

    let after = Some(c.page_info.end_cursor.clone());
    let c2 = s.threads(&None, &after, 2, Privacy::Public, &no_selectors(), OrderBy::Received).unwrap();
    assert_eq!(seqs_of(&s, &c2.thread_keys), vec![80, 70]);
}

#[test]
fn before_cursor_fetches_newer_threads() {
    let s = four_threads();
    let before = Some(encode_cursor(80));
    let c = s.threads(&before, &None, 10, Privacy::Public, &no_selectors(), OrderBy::Received).unwrap();
    assert_eq!(seqs_of(&s, &c.thread_keys), vec![100, 90]);
}

#[test]
fn both_cursors_conflict() {
    let s = four_threads();
    let a = Some(encode_cursor(90));
    let b = Some("not base64!".to_string());
    let r = s.threads(&b, &a, 2, Privacy::All, &no_selectors(), OrderBy::Causal);
    assert!(matches!(r, Err(QueryError::ConflictingCursors)));
    assert_eq!(cursor_bound(&a, &a), Err(QueryError::ConflictingCursors));
}

#[test]
fn bad_cursor_errors_reach_the_caller() {
    let s = four_threads();
    let bad = Some("!!".to_string());
    let short = Some("AQID".to_string());
    let r = s.threads(&bad, &None, 2, Privacy::Public, &no_selectors(), OrderBy::Received);
    assert!(matches!(r, Err(QueryError::InvalidEncoding)));
    let r = s.threads(&None, &short, 2, Privacy::Public, &no_selectors(), OrderBy::Received);
    assert!(matches!(r, Err(QueryError::Truncated)));
}

#[test]
fn cursor_bound_directions() {
    assert_eq!(cursor_bound(&Some(encode_cursor(5)), &None), Ok(SeqBound::Newer(5)));
    assert_eq!(cursor_bound(&None, &Some(encode_cursor(5))), Ok(SeqBound::Older(5)));
    assert_eq!(cursor_bound(&None, &None), Ok(SeqBound::Unbounded));
}

#[test]
fn selectors_are_ored() {
    let s = four_threads();
    let mut only_bob = no_selectors();
    only_bob.roots_authored_by = names(&["@bob"]);
    let a = s.threads(&None, &None, 10, Privacy::Public, &only_bob, OrderBy::Received).unwrap();
    assert_eq!(a.thread_keys, vec![8]);

    let mut followed = no_selectors();
    followed.roots_authored_by_someone_followed_by = names(&["@alice"]);
    let b = s.threads(&None, &None, 10, Privacy::Public, &followed, OrderBy::Received).unwrap();
    assert_eq!(b.thread_keys, vec![9]);

    let mut both = only_bob.clone();
    both.roots_authored_by_someone_followed_by = names(&["@alice"]);
    let ab = s.threads(&None, &None, 10, Privacy::Public, &both, OrderBy::Received).unwrap();
    assert_eq!(ab.thread_keys, vec![9, 8]);
    assert_eq!(ab.thread_keys.len(), a.thread_keys.len() + b.thread_keys.len());
}

#[test]
fn reply_selectors_match_reply_authors() {
    let s = store(vec![
        reply_row(10, 100, 1, 2),
        reply_row(10, 100, 1, 3),
        root(9, 90, 3, false),
        reply_row(8, 80, 2, 1),
    ]);
    let mut by_bob = no_selectors();
    by_bob.has_replies_authored_by = names(&["@bob"]);
    let c = s.threads(&None, &None, 10, Privacy::Public, &by_bob, OrderBy::Received).unwrap();
    assert_eq!(c.thread_keys, vec![10]);

    let mut followed = no_selectors();
    followed.has_replies_authored_by_someone_followed_by = names(&["@alice"]);
    let c = s.threads(&None, &None, 10, Privacy::Public, &followed, OrderBy::Received).unwrap();
    assert_eq!(c.thread_keys, vec![10]);
}

#[test]
fn duplicate_rows_of_a_thread_come_back_once() {
    let s = store(vec![reply_row(10, 100, 1, 2), reply_row(10, 100, 1, 3), root(9, 90, 3, false)]);
    let c = s.threads(&None, &None, 10, Privacy::All, &no_selectors(), OrderBy::Received).unwrap();
    assert_eq!(c.thread_keys, vec![10, 9]);
}

#[test]
fn privacy_partitions_threads() {
    let s = store(vec![
        root(1, 10, 1, false),
        root(2, 20, 1, true),
        root(3, 30, 2, false),
        root(4, 40, 3, true),
    ]);
    let run = |p: Privacy| s.threads(&None, &None, 10, p, &no_selectors(), OrderBy::Received).unwrap().thread_keys;
    let public = run(Privacy::Public);
    let private = run(Privacy::Private);
    let all = run(Privacy::All);
    assert_eq!(public, vec![3, 1]);
    assert_eq!(private, vec![4, 2]);
    assert_eq!(all, vec![4, 3, 2, 1]);
    assert!(public.iter().all(|k| !private.contains(k)));
    let mut union: Vec<i32> = public.iter().chain(private.iter()).cloned().collect();
    union.sort();
    let mut sorted_all = all.clone();
    sorted_all.sort();
    assert_eq!(union, sorted_all);
}

#[test]
fn results_are_newest_first_and_bounded() {
    let rows: Vec<ThreadRow> = (0..25).map(|i| root(i, ((i * 37) % 25) as i64, 1, false)).collect();
    let s = store(rows);
    let c = s.threads(&None, &None, 7, Privacy::Public, &no_selectors(), OrderBy::Received).unwrap();
    assert_eq!(c.thread_keys.len(), 7);
    let seqs = seqs_of(&s, &c.thread_keys);
    assert_eq!(seqs, vec![24, 23, 22, 21, 20, 19, 18]);
    assert!(seqs.windows(2).all(|w| w[0] > w[1]));
}

#[test]
fn only_root_posts_are_threads() {
    let mut reply = root(5, 50, 1, false);
    reply.root_key_id = Some(10);
    let mut vote = root(6, 60, 1, false);
    vote.content_type = "vote".to_string();
    let s = store(vec![reply, vote, root(10, 40, 1, false)]);
    let c = s.threads(&None, &None, 10, Privacy::Public, &no_selectors(), OrderBy::Received).unwrap();
    assert_eq!(c.thread_keys, vec![10]);
}

#[test]
fn unknown_authors_give_no_results() {
    let s = four_threads();
    let mut sel = no_selectors();
    sel.roots_authored_by = names(&["@nobody"]);
    let r = s.threads(&None, &None, 10, Privacy::Public, &sel, OrderBy::Received);
    assert!(matches!(r, Err(QueryError::NoResultsFound)));

    sel.has_replies_authored_by = names(&["@nobody-else"]);
    sel.roots_authored_by_someone_followed_by = names(&["@alice"]);
    let c = s.threads(&None, &None, 10, Privacy::Public, &sel, OrderBy::Received).unwrap();
    assert_eq!(c.thread_keys, vec![9]);
}

#[test]
fn last_thread_at_zero_has_no_next_page() {
    let s = store(vec![root(1, 0, 1, false), root(2, 5, 1, false)]);
    let c = s.threads(&None, &None, 10, Privacy::Public, &no_selectors(), OrderBy::Received).unwrap();
    assert_eq!(c.thread_keys, vec![2, 1]);
    assert!(!c.page_info.has_next_page);
    assert_eq!(c.page_info.end_cursor, encode_cursor(0));
}

#[test]
fn resolves_authors_and_followees() {
    let s = four_threads();
    assert_eq!(s.author_ids(&vec!["@carol".to_string(), "@alice".to_string()]), vec![1, 3]);
    assert_eq!(s.author_ids(&vec!["@zed".to_string()]), Vec::<i32>::new());
    assert_eq!(s.followed_ids(&vec!["@alice".to_string()]), vec![3]);
    assert_eq!(s.followed_ids(&vec!["@bob".to_string()]), Vec::<i32>::new());
}

#[test]
fn thread_by_key() {
    let s = four_threads();
    assert_eq!(s.thread(&"%root.sha256".to_string(), OrderBy::Received), Ok(Thread { root: Post { key_id: 10 } }));
    assert_eq!(s.post(&"%root.sha256".to_string()), Ok(Post { key_id: 10 }));
}

#[test]
fn unknown_root_key_is_not_found() {
    let s = four_threads();
    assert_eq!(s.thread(&"%missing.sha256".to_string(), OrderBy::Received), Err(QueryError::NotFound));
    assert_eq!(s.post(&"%orphan.sha256".to_string()), Err(QueryError::NotFound));
}

#[test]
fn planned_query_runs_and_pages() {
    let s = four_threads();
    let clause = AuthorClause { field: AuthorField::Root, author_ids: vec![1] };
    let q: ThreadQuery = plan_threads(vec![clause], Privacy::Public, &None, &Some(encode_cursor(100)), 5).unwrap();
    assert_eq!(q.bound, SeqBound::Older(100));
    let page = run_query(&s.threads, &q);
    assert_eq!(page, vec![(7, 70)]);
    let c = connection_from_page(5, &page).unwrap();
    assert_eq!(c.thread_keys, vec![7]);
    assert_eq!(c.page_info.start_cursor, Some(encode_cursor(70)));
    assert!(matches!(connection_from_page(5, &vec![]), Err(QueryError::NoResultsFound)));
}
