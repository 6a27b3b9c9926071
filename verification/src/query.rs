//! The search side of the query engine. A query token is resolved like any
//! other identifier: if it parses as an id, search returns the record with
//! exactly that id; otherwise it returns every record whose title contains
//! the query as a case-sensitive substring, in store-native order.

use vstd::prelude::*;
use crate::resolve::{TokenRef, classify, spec_parse_i64};
use crate::store::{TodoRecord, keep, lemma_keep_step};

verus! {

/// The needle occurs in the haystack starting at position `i`.
pub open spec fn spec_contains_at(h: Seq<char>, n: Seq<char>, i: int) -> bool {
    0 <= i && i + n.len() <= h.len() && h.subrange(i, i + n.len()) == n
}

/// Case-sensitive substring containment.
pub open spec fn spec_contains_sub(h: Seq<char>, n: Seq<char>) -> bool {
    exists|i: int| spec_contains_at(h, n, i)
}

/// Records carrying exactly the given id.
pub open spec fn pred_has_id(id: int) -> spec_fn(TodoRecord) -> bool {
    |r: TodoRecord| r.id == id
}

/// Records whose title contains the query as a substring.
pub open spec fn pred_title_contains(q: Seq<char>) -> spec_fn(TodoRecord) -> bool {
    |r: TodoRecord| spec_contains_sub(r.title@, q)
}

/// What a search returns: the id lookup when the query parses as an id,
/// the substring filter otherwise, keeping store-native order.
pub open spec fn spec_search(s: Seq<TodoRecord>, q: Seq<char>) -> Seq<TodoRecord> {
    match spec_parse_i64(q) {
        Some(n) => keep(s, pred_has_id(n)),
        None => keep(s, pred_title_contains(q)),
    }
}

/// Does the needle match the haystack at position `i`?
fn match_at(hay: &str, needle: &str, i: usize) -> (r: bool)
    requires
        i + needle@.len() <= hay@.len(),
        hay@.len() <= usize::MAX,
    ensures
        r == spec_contains_at(hay@, needle@, i as int),
{
    let nn = needle.unicode_len();
    let mut j: usize = 0;
    while j < nn
        invariant
            i + nn <= hay@.len(),
            hay@.len() <= usize::MAX,
            nn == needle@.len(),
            0 <= j <= nn,
            forall|k: int| 0 <= k < j ==> hay@[i + k] == needle@[k],
        decreases nn - j,
    {
        let hc = hay.get_char(i + j);
        let nc = needle.get_char(j);
        if !(hc == nc) {
            proof {
                if spec_contains_at(hay@, needle@, i as int) {
                    let sub = hay@.subrange(i as int, i + needle@.len());
                    assert(sub[j as int] == needle@[j as int]);
                }
            }
            return false;
        }
        j = j + 1;
    }
    proof {
        assert(hay@.subrange(i as int, i + needle@.len()) =~= needle@);
    }
    true
}

/// Case-sensitive substring search over the characters of two strings.
pub fn contains_sub(hay: &str, needle: &str) -> (r: bool)
    ensures
        r == spec_contains_sub(hay@, needle@),
{
    let hn = hay.unicode_len();
    let nn = needle.unicode_len();
    if nn > hn {
        proof {
            if spec_contains_sub(hay@, needle@) {
                let k = choose|k: int| spec_contains_at(hay@, needle@, k);
                assert(false);
            }
        }
        return false;
    }
    if nn == 0 {
        proof {
            assert(hay@.subrange(0, 0) =~= needle@);
            assert(spec_contains_at(hay@, needle@, 0));
        }
        return true;
    }
    let mut i: usize = 0;
    while i <= hn - nn
        invariant
            1 <= nn <= hn,
            hn == hay@.len(),
            nn == needle@.len(),
            0 <= i <= hn - nn + 1,
            forall|k: int| 0 <= k < i ==> !spec_contains_at(hay@, needle@, k),
        decreases hn - nn - i + 1,
    {
        if match_at(hay, needle, i) {
            return true;
        }
        i = i + 1;
    }
    proof {
        if spec_contains_sub(hay@, needle@) {
            let k = choose|k: int| spec_contains_at(hay@, needle@, k);
            assert(0 <= k <= hn - nn);
            assert(false);
        }
    }
    false
}

fn filter_by_id(records: &Vec<TodoRecord>, id: i64) -> (r: Vec<TodoRecord>)
    ensures
        r@ == keep(records@, pred_has_id(id as int)),
{
    let mut out: Vec<TodoRecord> = Vec::new();
    let mut i: usize = 0;
    while i < records.len()
        invariant
            0 <= i <= records@.len(),
            out@ == keep(records@.subrange(0, i as int), pred_has_id(id as int)),
        decreases records@.len() - i,
    {
        let r = &records[i];
        proof {
            lemma_keep_step(records@, pred_has_id(id as int), i as int);
        }
        if r.id == id {
            out.push(TodoRecord { id: r.id, title: r.title.clone(), done: r.done });
            proof {
                assert(out@.last() == records@[i as int]);
                assert(out@ =~= keep(records@.subrange(0, i as int + 1), pred_has_id(id as int)));
            }
        }
        i = i + 1;
    }
    proof {
        assert(records@.subrange(0, records@.len() as int) =~= records@);
    }
    out
}

fn filter_by_substring(records: &Vec<TodoRecord>, q: &str) -> (r: Vec<TodoRecord>)
    ensures
        r@ == keep(records@, pred_title_contains(q@)),
{
    let mut out: Vec<TodoRecord> = Vec::new();
    let mut i: usize = 0;
    while i < records.len()
        invariant
            0 <= i <= records@.len(),
            out@ == keep(records@.subrange(0, i as int), pred_title_contains(q@)),
        decreases records@.len() - i,
    {
        let r = &records[i];
        proof {
            lemma_keep_step(records@, pred_title_contains(q@), i as int);
        }
        if contains_sub(r.title.as_str(), q) {
            out.push(TodoRecord { id: r.id, title: r.title.clone(), done: r.done });
            proof {
                assert(out@.last() == records@[i as int]);
                assert(out@ =~= keep(
                    records@.subrange(0, i as int + 1),
                    pred_title_contains(q@),
                ));
            }
        }
        i = i + 1;
    }
    proof {
        assert(records@.subrange(0, records@.len() as int) =~= records@);
    }
    out
}

/// Search the given records with one query token: an id lookup when the
/// token parses as an integer (even if a title with that text exists), a
/// case-sensitive title substring filter otherwise.
pub fn search_records(records: &Vec<TodoRecord>, query: &str) -> (r: Vec<TodoRecord>)
    ensures
        r@ == spec_search(records@, query@),
{
    match classify(query) {
        TokenRef::Id(n) => filter_by_id(records, n),
        TokenRef::Title => filter_by_substring(records, query),
    }
}

} // verus!
