//! The ordering side of the query engine: sort by id (descending, a
//! reverse-chronological view), by title (ascending, case-insensitive), or
//! by done flag (not-done first, ties in store-native order).

use vstd::prelude::*;
use vstd::multiset::Multiset;
use vstd::seq_lib::group_to_multiset_ensures;
use vstd::seq_lib::lemma_multiset_commutative;
use crate::store::{TodoRecord, keep, lemma_keep_step};

verus! {

/// The lowercased form of a text, as the case-folding routine yields it.
pub uninterp spec fn lower_of(s: Seq<char>) -> Seq<char>;

/// Relies on str::to_lowercase: the lowercased text is a function of the
/// characters alone.
#[verifier::external_body]
fn lowercase(s: &str) -> (r: String)
    ensures
        r@ == lower_of(s@),
{
    s.to_lowercase()
}

/// Lexicographic order on character sequences, by code point.
pub open spec fn lex_le(a: Seq<char>, b: Seq<char>) -> bool
    decreases a.len(),
{
    if a.len() == 0 {
        true
    } else if b.len() == 0 {
        false
    } else if (a.first() as int) < (b.first() as int) {
        true
    } else if (b.first() as int) < (a.first() as int) {
        false
    } else {
        lex_le(a.drop_first(), b.drop_first())
    }
}

pub proof fn lemma_lex_total(a: Seq<char>, b: Seq<char>)
    ensures
        lex_le(a, b) || lex_le(b, a),
    decreases a.len(),
{
    if a.len() > 0 && b.len() > 0 && a.first() as int == b.first() as int {
        lemma_lex_total(a.drop_first(), b.drop_first());
    }
}

pub proof fn lemma_lex_trans(a: Seq<char>, b: Seq<char>, c: Seq<char>)
    requires
        lex_le(a, b),
        lex_le(b, c),
    ensures
        lex_le(a, c),
    decreases a.len(),
{
    if a.len() > 0 && b.len() > 0 && c.len() > 0 {
        if a.first() as int == b.first() as int && b.first() as int == c.first() as int {
            lemma_lex_trans(a.drop_first(), b.drop_first(), c.drop_first());
        }
    }
}

/// If two texts agree on their first `i` characters, their order is decided
/// by the remainders.
proof fn lemma_lex_skip(a: Seq<char>, b: Seq<char>, i: int)
    requires
        0 <= i <= a.len(),
        0 <= i <= b.len(),
        forall|k: int| 0 <= k < i ==> a[k] == b[k],
    ensures
        lex_le(a, b) == lex_le(a.skip(i), b.skip(i)),
    decreases i,
{
    if i > 0 {
        assert(a.first() == b.first());
        let a1 = a.drop_first();
        let b1 = b.drop_first();
        assert(forall|k: int| 0 <= k < i - 1 ==> a1[k] == b1[k]);
        lemma_lex_skip(a1, b1, i - 1);
        assert(a1.skip(i - 1) =~= a.skip(i));
        assert(b1.skip(i - 1) =~= b.skip(i));
    } else {
        assert(a.skip(0) =~= a);
        assert(b.skip(0) =~= b);
    }
}

/// Compare two strings in lexicographic code-point order.
fn str_lex_le(a: &str, b: &str) -> (r: bool)
    ensures
        r == lex_le(a@, b@),
{
    let an = a.unicode_len();
    let bn = b.unicode_len();
    let mut i: usize = 0;
    while i < an && i < bn
        invariant
            an == a@.len(),
            bn == b@.len(),
            0 <= i <= an,
            0 <= i <= bn,
            forall|k: int| 0 <= k < i ==> a@[k] == b@[k],
        decreases an - i,
    {
        let ac = a.get_char(i);
        let bc = b.get_char(i);
        let au = ac as u32;
        let bu = bc as u32;
        proof {
            lemma_lex_skip(a@, b@, i as int);
            assert(a@.skip(i as int).first() == a@[i as int]);
            assert(b@.skip(i as int).first() == b@[i as int]);
        }
        if au < bu {
            return true;
        }
        if bu < au {
            return false;
        }
        proof {
            assert(a@[i as int] == b@[i as int]);
        }
        i = i + 1;
    }
    proof {
        lemma_lex_skip(a@, b@, i as int);
    }
    if i >= an {
        proof {
            assert(a@.skip(i as int).len() == 0);
        }
        true
    } else {
        proof {
            assert(b@.skip(i as int).len() == 0);
            assert(a@.skip(i as int).len() > 0);
        }
        false
    }
}

/// Title order: case-insensitive lexicographic, via the lowercased titles.
pub open spec fn spec_title_le(a: TodoRecord, b: TodoRecord) -> bool {
    lex_le(lower_of(a.title@), lower_of(b.title@))
}

pub proof fn lemma_title_le_total(a: TodoRecord, b: TodoRecord)
    ensures
        spec_title_le(a, b) || spec_title_le(b, a),
{
    lemma_lex_total(lower_of(a.title@), lower_of(b.title@));
}

pub proof fn lemma_title_le_trans(a: TodoRecord, b: TodoRecord, c: TodoRecord)
    requires
        spec_title_le(a, b),
        spec_title_le(b, c),
    ensures
        spec_title_le(a, c),
{
    lemma_lex_trans(lower_of(a.title@), lower_of(b.title@), lower_of(c.title@));
}

/// Compare two records by title, case-insensitively.
fn title_le(a: &TodoRecord, b: &TodoRecord) -> (r: bool)
    ensures
        r == spec_title_le(*a, *b),
{
    let la = lowercase(a.title.as_str());
    let lb = lowercase(b.title.as_str());
    str_lex_le(la.as_str(), lb.as_str())
}

pub open spec fn sorted_by_title(s: Seq<TodoRecord>) -> bool {
    forall|i: int, j: int|
        #![trigger s[i], s[j]]
        0 <= i < j < s.len() ==> spec_title_le(s[i], s[j])
}

pub open spec fn sorted_by_id_desc(s: Seq<TodoRecord>) -> bool {
    forall|i: int, j: int|
        #![trigger s[i].id, s[j].id]
        0 <= i < j < s.len() ==> s[i].id >= s[j].id
}

pub open spec fn strictly_desc_ids(s: Seq<TodoRecord>) -> bool {
    forall|i: int, j: int|
        #![trigger s[i].id, s[j].id]
        0 <= i < j < s.len() ==> s[i].id > s[j].id
}

pub open spec fn distinct_ids(s: Seq<TodoRecord>) -> bool {
    forall|i: int, j: int|
        #![trigger s[i].id, s[j].id]
        0 <= i < j < s.len() ==> s[i].id != s[j].id
}

/// Inserting an element anywhere adds exactly it to the sequence's multiset.
proof fn lemma_insert_multiset(s: Seq<TodoRecord>, p: int, x: TodoRecord)
    requires
        0 <= p <= s.len(),
    ensures
        s.insert(p, x).to_multiset() == s.to_multiset().insert(x),
{
    broadcast use group_to_multiset_ensures;

    let a = s.subrange(0, p);
    let b = s.subrange(p, s.len() as int);
    s.insert_ensures(p, x);
    assert(s =~= a + b);
    assert(s.insert(p, x) =~= a + (seq![x] + b));
    lemma_multiset_commutative(a, seq![x] + b);
    lemma_multiset_commutative(seq![x], b);
    lemma_multiset_commutative(a, b);
    assert(seq![x] =~= Seq::<TodoRecord>::empty().push(x));
    assert(seq![x].to_multiset() =~= Multiset::<TodoRecord>::empty().insert(x));
    assert(s.insert(p, x).to_multiset() =~= s.to_multiset().insert(x));
}

/// A permutation of records with pairwise distinct ids again has pairwise
/// distinct ids.
pub proof fn lemma_permutation_distinct_ids(a: Seq<TodoRecord>, b: Seq<TodoRecord>)
    requires
        a.to_multiset() == b.to_multiset(),
        distinct_ids(a),
    ensures
        distinct_ids(b),
{
    broadcast use group_to_multiset_ensures;

    assert forall|i: int, j: int|
        #![trigger b[i].id, b[j].id]
        0 <= i < j < b.len() implies b[i].id != b[j].id by {
        if b[i].id == b[j].id {
            let x = b[i];
            let y = b[j];
            if x == y {
                b.remove_ensures(i);
                assert(b.remove(i)[j - 1] == b[j]);
                assert(b.remove(i).contains(x));
                assert(b.remove(i).to_multiset() == b.to_multiset().remove(x));
                assert(b.remove(i).to_multiset().count(x) > 0);
                assert(a.to_multiset().count(x) >= 2);
                assert(a.contains(x));
                let i1 = choose|k: int| 0 <= k < a.len() && a[k] == x;
                assert(a.remove(i1).to_multiset() == a.to_multiset().remove(x));
                assert(a.remove(i1).to_multiset().count(x) > 0);
                assert(a.remove(i1).contains(x));
                let k2 = choose|k: int| 0 <= k < a.remove(i1).len() && a.remove(i1)[k] == x;
                a.remove_ensures(i1);
                let i2: int = if k2 < i1 {
                    k2
                } else {
                    k2 + 1
                };
                assert(a[i2] == x);
                assert(a[i1].id == a[i2].id);
                assert(false);
            } else {
                assert(b.contains(x));
                assert(b.contains(y));
                assert(a.to_multiset().count(x) > 0);
                assert(a.to_multiset().count(y) > 0);
                assert(a.contains(x));
                assert(a.contains(y));
                let i1 = choose|k: int| 0 <= k < a.len() && a[k] == x;
                let i2 = choose|k: int| 0 <= k < a.len() && a[k] == y;
                assert(i1 != i2);
                assert(a[i1].id == a[i2].id);
                assert(false);
            }
        }
    }
}

/// The first position whose record is not title-below `x`.
fn insert_pos_title(out: &Vec<TodoRecord>, x: &TodoRecord) -> (p: usize)
    ensures
        p <= out@.len(),
        forall|k: int| 0 <= k < p ==> spec_title_le(#[trigger] out@[k], *x),
        p < out@.len() ==> !spec_title_le(out@[p as int], *x),
{
    let mut p: usize = 0;
    while p < out.len()
        invariant
            0 <= p <= out@.len(),
            forall|k: int| 0 <= k < p ==> spec_title_le(#[trigger] out@[k], *x),
        decreases out@.len() - p,
    {
        if !title_le(&out[p], x) {
            return p;
        }
        p = p + 1;
    }
    p
}

/// The first position whose record's id is below `x`'s.
fn insert_pos_id(out: &Vec<TodoRecord>, x: &TodoRecord) -> (p: usize)
    ensures
        p <= out@.len(),
        forall|k: int| 0 <= k < p ==> (#[trigger] out@[k].id) >= x.id,
        p < out@.len() ==> out@[p as int].id < x.id,
{
    let mut p: usize = 0;
    while p < out.len()
        invariant
            0 <= p <= out@.len(),
            forall|k: int| 0 <= k < p ==> (#[trigger] out@[k].id) >= x.id,
        decreases out@.len() - p,
    {
        if out[p].id < x.id {
            return p;
        }
        p = p + 1;
    }
    p
}

/// Sort by title, ascending and case-insensitive: the result is a
/// permutation of the input ordered by lowercased titles.
pub fn sort_by_title(records: Vec<TodoRecord>) -> (r: Vec<TodoRecord>)
    ensures
        r@.to_multiset() == records@.to_multiset(),
        sorted_by_title(r@),
{
    let mut out: Vec<TodoRecord> = Vec::new();
    proof {
        assert(out@ =~= records@.subrange(0, 0));
    }
    let mut i: usize = 0;
    while i < records.len()
        invariant
            0 <= i <= records@.len(),
            out@.to_multiset() == records@.subrange(0, i as int).to_multiset(),
            sorted_by_title(out@),
        decreases records@.len() - i,
    {
        let rsrc = &records[i];
        let x = TodoRecord { id: rsrc.id, title: rsrc.title.clone(), done: rsrc.done };
        let ghost prev = out@;
        let p = insert_pos_title(&out, &x);
        out.insert(p, x);
        proof {
            broadcast use group_to_multiset_ensures;

            prev.insert_ensures(p as int, x);
            assert forall|a: int, b: int|
                #![trigger out@[a], out@[b]]
                0 <= a < b < out@.len() implies spec_title_le(out@[a], out@[b]) by {
                if b < p {
                    assert(out@[a] == prev[a] && out@[b] == prev[b]);
                } else if b == p {
                    assert(out@[a] == prev[a] && out@[b] == x);
                } else {
                    assert(out@[b] == prev[b - 1]);
                    if a < p {
                        assert(out@[a] == prev[a]);
                    } else if a == p {
                        lemma_title_le_total(prev[p as int], x);
                        if b - 1 > p {
                            lemma_title_le_trans(x, prev[p as int], prev[b - 1]);
                        }
                    } else {
                        assert(out@[a] == prev[a - 1]);
                    }
                }
            }
            lemma_insert_multiset(prev, p as int, x);
            assert(records@.subrange(0, i as int + 1) =~= records@.subrange(0, i as int).push(
                records@[i as int],
            ));
            assert(out@.to_multiset() =~= records@.subrange(0, i as int + 1).to_multiset());
        }
        i = i + 1;
    }
    proof {
        assert(records@.subrange(0, records@.len() as int) =~= records@);
    }
    out
}

/// Sort by id, descending: a reverse-chronological permutation of the
/// input; with pairwise distinct ids (as a store always has) the ids come
/// out strictly descending.
pub fn sort_by_id_desc(records: Vec<TodoRecord>) -> (r: Vec<TodoRecord>)
    ensures
        r@.to_multiset() == records@.to_multiset(),
        sorted_by_id_desc(r@),
        distinct_ids(records@) ==> strictly_desc_ids(r@),
{
    let mut out: Vec<TodoRecord> = Vec::new();
    proof {
        assert(out@ =~= records@.subrange(0, 0));
    }
    let mut i: usize = 0;
    while i < records.len()
        invariant
            0 <= i <= records@.len(),
            out@.to_multiset() == records@.subrange(0, i as int).to_multiset(),
            sorted_by_id_desc(out@),
        decreases records@.len() - i,
    {
        let rsrc = &records[i];
        let x = TodoRecord { id: rsrc.id, title: rsrc.title.clone(), done: rsrc.done };
        let ghost prev = out@;
        let p = insert_pos_id(&out, &x);
        out.insert(p, x);
        proof {
            broadcast use group_to_multiset_ensures;

            prev.insert_ensures(p as int, x);
            assert forall|a: int, b: int|
                #![trigger out@[a].id, out@[b].id]
                0 <= a < b < out@.len() implies out@[a].id >= out@[b].id by {
                if b < p {
                    assert(out@[a] == prev[a] && out@[b] == prev[b]);
                } else if b == p {
                    assert(out@[a] == prev[a] && out@[b] == x);
                } else {
                    assert(out@[b] == prev[b - 1]);
                    if a < p {
                        assert(out@[a] == prev[a]);
                    } else if a == p {
                        assert(prev[p as int].id < x.id);
                    } else {
                        assert(out@[a] == prev[a - 1]);
                    }
                }
            }
            lemma_insert_multiset(prev, p as int, x);
            assert(records@.subrange(0, i as int + 1) =~= records@.subrange(0, i as int).push(
                records@[i as int],
            ));
            assert(out@.to_multiset() =~= records@.subrange(0, i as int + 1).to_multiset());
        }
        i = i + 1;
    }
    proof {
        assert(records@.subrange(0, records@.len() as int) =~= records@);
        if distinct_ids(records@) {
            lemma_permutation_distinct_ids(records@, out@);
        }
    }
    out
}

/// Records still to do.
pub open spec fn pred_not_done() -> spec_fn(TodoRecord) -> bool {
    |r: TodoRecord| !r.done
}

/// Records already done.
pub open spec fn pred_done() -> spec_fn(TodoRecord) -> bool {
    |r: TodoRecord| r.done
}

/// What sorting by the done flag yields: the not-done records first, then
/// the done ones, each group in store-native order (a stable partition).
pub open spec fn spec_sort_by_done(s: Seq<TodoRecord>) -> Seq<TodoRecord> {
    keep(s, pred_not_done()) + keep(s, pred_done())
}

/// Sort by done flag: not-done records first, done records after, ties kept
/// in store-native order.
pub fn sort_by_done(records: Vec<TodoRecord>) -> (r: Vec<TodoRecord>)
    ensures
        r@ == spec_sort_by_done(records@),
{
    let mut out: Vec<TodoRecord> = Vec::new();
    let mut i: usize = 0;
    while i < records.len()
        invariant
            0 <= i <= records@.len(),
            out@ == keep(records@.subrange(0, i as int), pred_not_done()),
        decreases records@.len() - i,
    {
        let r = &records[i];
        proof {
            lemma_keep_step(records@, pred_not_done(), i as int);
        }
        if !r.done {
            out.push(TodoRecord { id: r.id, title: r.title.clone(), done: r.done });
            proof {
                assert(out@.last() == records@[i as int]);
                assert(out@ =~= keep(records@.subrange(0, i as int + 1), pred_not_done()));
            }
        }
        i = i + 1;
    }
    let ghost first_part = out@;
    let mut j: usize = 0;
    while j < records.len()
        invariant
            0 <= j <= records@.len(),
            first_part == keep(records@.subrange(0, records@.len() as int), pred_not_done()),
            out@ == first_part + keep(records@.subrange(0, j as int), pred_done()),
        decreases records@.len() - j,
    {
        let r = &records[j];
        proof {
            lemma_keep_step(records@, pred_done(), j as int);
        }
        if r.done {
            out.push(TodoRecord { id: r.id, title: r.title.clone(), done: r.done });
            proof {
                assert(out@.last() == records@[j as int]);
                assert(out@ =~= first_part + keep(
                    records@.subrange(0, j as int + 1),
                    pred_done(),
                ));
            }
        } else {
            proof {
                assert(out@ =~= first_part + keep(
                    records@.subrange(0, j as int + 1),
                    pred_done(),
                ));
            }
        }
        j = j + 1;
    }
    proof {
        assert(records@.subrange(0, records@.len() as int) =~= records@);
    }
    out
}

} // verus!
