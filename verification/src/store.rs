//! The record store model: a table of todo records with store-assigned
//! unique ids, unique titles, and a done flag. Mutations are single atomic
//! operations per identifier; deleting or toggling an absent identifier is a
//! no-op, while inserting a duplicate title is a constraint error.

use vstd::prelude::*;

verus! {

/// One todo record as the store holds it.
#[derive(Debug, PartialEq, Eq)]
pub struct TodoRecord {
    pub id: i64,
    pub title: String,
    pub done: bool,
}

/// Errors a mutation can surface.
#[derive(Debug, PartialEq, Eq)]
pub enum StoreError {
    /// A record with the same title already exists.
    DuplicateTitle,
    /// Every assignable id has been used; no further insert is possible.
    IdsExhausted,
}

/// Rows a store could hold, in store-native order: ids positive, strictly
/// increasing and below the largest assignable one, titles pairwise
/// distinct.
pub open spec fn spec_rows_storable(s: Seq<TodoRecord>) -> bool {
    &&& forall|i: int| 0 <= i < s.len() ==> 1 <= #[trigger] s[i].id < i64::MAX
    &&& forall|i: int, j: int|
        #![trigger s[i].id, s[j].id]
        0 <= i < j < s.len() ==> s[i].id < s[j].id
    &&& forall|i: int, j: int|
        #![trigger s[i].title, s[j].title]
        0 <= i < j < s.len() ==> s[i].title@ != s[j].title@
}

/// Adjacent increases chain into a strict order between any two positions.
proof fn lemma_chain_increasing(s: Seq<TodoRecord>, a: int, b: int)
    requires
        0 <= a < b < s.len(),
        forall|k: int| 0 < k < s.len() ==> s[k - 1].id < #[trigger] s[k].id,
    ensures
        s[a].id < s[b].id,
    decreases b - a,
{
    if a + 1 == b {
        assert(s[b - 1].id < s[b].id);
    } else {
        lemma_chain_increasing(s, a + 1, b);
        assert(s[a + 1 - 1].id < s[a + 1].id);
    }
}

/// The subsequence of `s` whose elements satisfy `p`, in order.
pub open spec fn keep(s: Seq<TodoRecord>, p: spec_fn(TodoRecord) -> bool) -> Seq<TodoRecord>
    decreases s.len(),
{
    if s.len() == 0 {
        Seq::empty()
    } else if p(s.last()) {
        keep(s.drop_last(), p).push(s.last())
    } else {
        keep(s.drop_last(), p)
    }
}

pub open spec fn spec_has_id(s: Seq<TodoRecord>, id: int) -> bool {
    exists|i: int| 0 <= i < s.len() && #[trigger] s[i].id == id
}

pub open spec fn spec_title_exists(s: Seq<TodoRecord>, t: Seq<char>) -> bool {
    exists|i: int| 0 <= i < s.len() && #[trigger] s[i].title@ == t
}

/// Records that do not carry the given id.
pub open spec fn pred_not_id(id: int) -> spec_fn(TodoRecord) -> bool {
    |r: TodoRecord| r.id != id
}

/// Records that do not carry the given title.
pub open spec fn pred_not_title(t: Seq<char>) -> spec_fn(TodoRecord) -> bool {
    |r: TodoRecord| r.title@ != t
}

/// The same record with its done flag flipped.
pub open spec fn flip_done(r: TodoRecord) -> TodoRecord {
    TodoRecord { id: r.id, title: r.title, done: !r.done }
}

/// Flip the record carrying the given id, leave every other one alone.
pub open spec fn toggler_id(id: int) -> spec_fn(TodoRecord) -> TodoRecord {
    |r: TodoRecord| if r.id == id {
        flip_done(r)
    } else {
        r
    }
}

/// Flip the record carrying the given title, leave every other one alone.
pub open spec fn toggler_title(t: Seq<char>) -> spec_fn(TodoRecord) -> TodoRecord {
    |r: TodoRecord| if r.title@ == t {
        flip_done(r)
    } else {
        r
    }
}

pub open spec fn spec_remove_id(s: Seq<TodoRecord>, id: int) -> Seq<TodoRecord> {
    keep(s, pred_not_id(id))
}

pub open spec fn spec_remove_title(s: Seq<TodoRecord>, t: Seq<char>) -> Seq<TodoRecord> {
    keep(s, pred_not_title(t))
}

pub open spec fn spec_toggle_id(s: Seq<TodoRecord>, id: int) -> Seq<TodoRecord> {
    s.map_values(toggler_id(id))
}

pub open spec fn spec_toggle_title(s: Seq<TodoRecord>, t: Seq<char>) -> Seq<TodoRecord> {
    s.map_values(toggler_title(t))
}

/// Appending one element extends a `keep` of a prefix by that element or not,
/// according to the predicate.
pub proof fn lemma_keep_step(s: Seq<TodoRecord>, p: spec_fn(TodoRecord) -> bool, i: int)
    requires
        0 <= i < s.len(),
    ensures
        keep(s.subrange(0, i + 1), p) == (if p(s[i]) {
            keep(s.subrange(0, i), p).push(s[i])
        } else {
            keep(s.subrange(0, i), p)
        }),
{
    assert(s.subrange(0, i + 1).drop_last() =~= s.subrange(0, i));
    assert(s.subrange(0, i + 1).last() == s[i]);
}

/// Every element of `keep(s, p)` is an element of `s` and satisfies `p`.
pub proof fn lemma_keep_elems(s: Seq<TodoRecord>, p: spec_fn(TodoRecord) -> bool)
    ensures
        keep(s, p).len() <= s.len(),
        forall|j: int|
            0 <= j < keep(s, p).len() ==> s.contains(#[trigger] keep(s, p)[j]) && p(keep(s, p)[j]),
    decreases s.len(),
{
    if s.len() > 0 {
        lemma_keep_elems(s.drop_last(), p);
        let k0 = keep(s.drop_last(), p);
        assert forall|j: int|
            0 <= j < keep(s, p).len() implies s.contains(#[trigger] keep(s, p)[j]) && p(
            keep(s, p)[j],
        ) by {
            if p(s.last()) && j == keep(s, p).len() - 1 {
                assert(keep(s, p)[j] == s.last());
                assert(s[s.len() - 1] == s.last());
            } else {
                assert(keep(s, p)[j] == k0[j]);
                assert(s.drop_last().contains(k0[j]));
                let w = choose|w: int| 0 <= w < s.drop_last().len() && s.drop_last()[w] == k0[j];
                assert(s[w] == k0[j]);
            }
        }
    }
}

/// If every element satisfies `p`, `keep` changes nothing.
pub proof fn lemma_keep_all(s: Seq<TodoRecord>, p: spec_fn(TodoRecord) -> bool)
    requires
        forall|i: int| 0 <= i < s.len() ==> p(#[trigger] s[i]),
    ensures
        keep(s, p) == s,
    decreases s.len(),
{
    if s.len() > 0 {
        assert(forall|i: int| 0 <= i < s.drop_last().len() ==> p(#[trigger] s.drop_last()[i]));
        lemma_keep_all(s.drop_last(), p);
        assert(p(s.last()));
        assert(keep(s, p) =~= s);
    }
}

/// `keep` preserves strictly increasing ids and pairwise distinct titles.
pub proof fn lemma_keep_wf(s: Seq<TodoRecord>, p: spec_fn(TodoRecord) -> bool)
    requires
        forall|i: int, j: int|
            #![trigger s[i].id, s[j].id]
            0 <= i < j < s.len() ==> s[i].id < s[j].id,
        forall|i: int, j: int|
            #![trigger s[i].title, s[j].title]
            0 <= i < j < s.len() ==> s[i].title@ != s[j].title@,
    ensures
        forall|i: int, j: int|
            #![trigger keep(s, p)[i].id, keep(s, p)[j].id]
            0 <= i < j < keep(s, p).len() ==> keep(s, p)[i].id < keep(s, p)[j].id,
        forall|i: int, j: int|
            #![trigger keep(s, p)[i].title, keep(s, p)[j].title]
            0 <= i < j < keep(s, p).len() ==> keep(s, p)[i].title@ != keep(s, p)[j].title@,
    decreases s.len(),
{
    if s.len() > 0 {
        let s0 = s.drop_last();
        assert forall|i: int, j: int|
            #![trigger s0[i].id, s0[j].id]
            0 <= i < j < s0.len() implies s0[i].id < s0[j].id by {
            assert(s[i].id < s[j].id);
        }
        assert forall|i: int, j: int|
            #![trigger s0[i].title, s0[j].title]
            0 <= i < j < s0.len() implies s0[i].title@ != s0[j].title@ by {
            assert(s[i].title@ != s[j].title@);
        }
        lemma_keep_wf(s0, p);
        lemma_keep_elems(s0, p);
        let k0 = keep(s0, p);
        if p(s.last()) {
            assert forall|i: int, j: int|
                #![trigger keep(s, p)[i].id, keep(s, p)[j].id]
                0 <= i < j < keep(s, p).len() implies keep(s, p)[i].id < keep(s, p)[j].id by {
                if j == keep(s, p).len() - 1 {
                    assert(keep(s, p)[i] == k0[i]);
                    assert(s0.contains(k0[i]));
                    let w = choose|w: int| 0 <= w < s0.len() && s0[w] == k0[i];
                    assert(s[w].id < s[s.len() - 1].id);
                } else {
                    assert(keep(s, p)[i] == k0[i]);
                    assert(keep(s, p)[j] == k0[j]);
                }
            }
            assert forall|i: int, j: int|
                #![trigger keep(s, p)[i].title, keep(s, p)[j].title]
                0 <= i < j < keep(s, p).len() implies keep(s, p)[i].title@ != keep(
                s,
                p,
            )[j].title@ by {
                if j == keep(s, p).len() - 1 {
                    assert(keep(s, p)[i] == k0[i]);
                    assert(s0.contains(k0[i]));
                    let w = choose|w: int| 0 <= w < s0.len() && s0[w] == k0[i];
                    assert(s[w].title@ != s[s.len() - 1].title@);
                } else {
                    assert(keep(s, p)[i] == k0[i]);
                    assert(keep(s, p)[j] == k0[j]);
                }
            }
        }
    }
}

/// The store: records in insertion order, and the next id to assign.
/// Ids are assigned in increasing order and never reused, so insertion
/// order coincides with ascending id order.
pub struct TodoStore {
    records: Vec<TodoRecord>,
    next_id: i64,
}

impl TodoStore {
    /// The records currently in the store, in store-native order.
    pub closed spec fn rows(self) -> Seq<TodoRecord> {
        self.records@
    }

    /// The id the next successful insert will assign.
    pub closed spec fn next_id_spec(self) -> int {
        self.next_id as int
    }

    /// Store invariant: ids positive, strictly increasing (hence unique) and
    /// below the next id to assign; titles pairwise distinct.
    pub open spec fn wf(self) -> bool {
        &&& 1 <= self.next_id_spec()
        &&& forall|i: int|
            0 <= i < self.rows().len() ==> 1 <= #[trigger] self.rows()[i].id < self.next_id_spec()
        &&& forall|i: int, j: int|
            #![trigger self.rows()[i].id, self.rows()[j].id]
            0 <= i < j < self.rows().len() ==> self.rows()[i].id < self.rows()[j].id
        &&& forall|i: int, j: int|
            #![trigger self.rows()[i].title, self.rows()[j].title]
            0 <= i < j < self.rows().len() ==> self.rows()[i].title@ != self.rows()[j].title@
    }

    /// An empty store; the first record will get id 1.
    pub fn new() -> (s: TodoStore)
        ensures
            s.wf(),
            s.rows() == Seq::<TodoRecord>::empty(),
            s.next_id_spec() == 1,
    {
        TodoStore { records: Vec::new(), next_id: 1 }
    }

    pub fn len(&self) -> (n: usize)
        ensures
            n == self.rows().len(),
    {
        self.records.len()
    }

    fn title_exists(&self, title: &String) -> (r: bool)
        ensures
            r == spec_title_exists(self.rows(), title@),
    {
        let mut i: usize = 0;
        while i < self.records.len()
            invariant
                0 <= i <= self.rows().len(),
                forall|j: int| 0 <= j < i ==> #[trigger] self.rows()[j].title@ != title@,
            decreases self.rows().len() - i,
        {
            if self.records[i].title == *title {
                return true;
            }
            i = i + 1;
        }
        false
    }

    /// Insert a new record with the given title, not yet done. Fails with a
    /// constraint error, changing nothing, exactly when a record with the
    /// same title already exists; otherwise assigns the next id.
    pub fn insert(&mut self, title: String) -> (r: Result<i64, StoreError>)
        requires
            old(self).wf(),
        ensures
            final(self).wf(),
            match r {
                Ok(id) => {
                    &&& !spec_title_exists(old(self).rows(), title@)
                    &&& old(self).next_id_spec() < i64::MAX
                    &&& id == old(self).next_id_spec()
                    &&& final(self).rows() == old(self).rows().push(
                        (TodoRecord { id: id, title: title, done: false }),
                    )
                    &&& final(self).next_id_spec() == old(self).next_id_spec() + 1
                },
                Err(StoreError::DuplicateTitle) => {
                    &&& spec_title_exists(old(self).rows(), title@)
                    &&& final(self).rows() == old(self).rows()
                    &&& final(self).next_id_spec() == old(self).next_id_spec()
                },
                Err(StoreError::IdsExhausted) => {
                    &&& !spec_title_exists(old(self).rows(), title@)
                    &&& old(self).next_id_spec() == i64::MAX
                    &&& final(self).rows() == old(self).rows()
                    &&& final(self).next_id_spec() == old(self).next_id_spec()
                },
            },
    {
        if self.title_exists(&title) {
            return Err(StoreError::DuplicateTitle);
        }
        if self.next_id == i64::MAX {
            return Err(StoreError::IdsExhausted);
        }
        let id = self.next_id;
        let ghost s0 = self.rows();
        let rec = TodoRecord { id: id, title: title, done: false };
        self.records.push(rec);
        self.next_id = self.next_id + 1;
        proof {
            let s = self.rows();
            assert forall|i: int, j: int|
                #![trigger s[i].id, s[j].id]
                0 <= i < j < s.len() implies s[i].id < s[j].id by {
                if j < s.len() - 1 {
                    assert(s0[i].id < s0[j].id);
                } else {
                    assert(s[i] == s0[i]);
                }
            }
            assert forall|i: int, j: int|
                #![trigger s[i].title, s[j].title]
                0 <= i < j < s.len() implies s[i].title@ != s[j].title@ by {
                if j < s.len() - 1 {
                    assert(s0[i].title@ != s0[j].title@);
                } else {
                    assert(s[i] == s0[i]);
                }
            }
        }
        Ok(id)
    }

    /// Remove the record with this id, if any; absent ids are a no-op.
    pub fn remove_by_id(&mut self, id: i64)
        requires
            old(self).wf(),
        ensures
            final(self).wf(),
            final(self).rows() == spec_remove_id(old(self).rows(), id as int),
            final(self).next_id_spec() == old(self).next_id_spec(),
    {
        let mut kept: Vec<TodoRecord> = Vec::new();
        let mut i: usize = 0;
        while i < self.records.len()
            invariant
                0 <= i <= self.rows().len(),
                old(self).wf(),
                *self == *old(self),
                kept@ == spec_remove_id(self.rows().subrange(0, i as int), id as int),
            decreases self.rows().len() - i,
        {
            let r = &self.records[i];
            proof {
                lemma_keep_step(self.rows(), pred_not_id(id as int), i as int);
            }
            if !(r.id == id) {
                kept.push(TodoRecord { id: r.id, title: r.title.clone(), done: r.done });
                proof {
                    assert(kept@.last() == self.rows()[i as int]);
                    assert(kept@ =~= spec_remove_id(self.rows().subrange(0, i as int + 1), id as int));
                }
            } else {
                proof {
                    assert(kept@ == spec_remove_id(self.rows().subrange(0, i as int + 1), id as int));
                }
            }
            i = i + 1;
        }
        proof {
            assert(self.rows().subrange(0, self.rows().len() as int) =~= self.rows());
            lemma_keep_wf(self.rows(), pred_not_id(id as int));
            lemma_keep_elems(self.rows(), pred_not_id(id as int));
        }
        self.records = kept;
    }

    /// Remove the record with this exact title, if any; absent titles are a
    /// no-op.
    pub fn remove_by_title(&mut self, title: &String)
        requires
            old(self).wf(),
        ensures
            final(self).wf(),
            final(self).rows() == spec_remove_title(old(self).rows(), title@),
            final(self).next_id_spec() == old(self).next_id_spec(),
    {
        let mut kept: Vec<TodoRecord> = Vec::new();
        let mut i: usize = 0;
        while i < self.records.len()
            invariant
                0 <= i <= self.rows().len(),
                old(self).wf(),
                *self == *old(self),
                kept@ == spec_remove_title(self.rows().subrange(0, i as int), title@),
            decreases self.rows().len() - i,
        {
            let r = &self.records[i];
            proof {
                lemma_keep_step(self.rows(), pred_not_title(title@), i as int);
            }
            if !(r.title == *title) {
                kept.push(TodoRecord { id: r.id, title: r.title.clone(), done: r.done });
                proof {
                    assert(kept@.last() == self.rows()[i as int]);
                    assert(kept@ =~= spec_remove_title(self.rows().subrange(0, i as int + 1), title@));
                }
            } else {
                proof {
                    assert(kept@ == spec_remove_title(self.rows().subrange(0, i as int + 1), title@));
                }
            }
            i = i + 1;
        }
        proof {
            assert(self.rows().subrange(0, self.rows().len() as int) =~= self.rows());
            lemma_keep_wf(self.rows(), pred_not_title(title@));
            lemma_keep_elems(self.rows(), pred_not_title(title@));
        }
        self.records = kept;
    }

    /// Flip the done flag of the record with this id; absent ids are a no-op.
    pub fn toggle_by_id(&mut self, id: i64)
        requires
            old(self).wf(),
        ensures
            final(self).wf(),
            final(self).rows() == spec_toggle_id(old(self).rows(), id as int),
            final(self).next_id_spec() == old(self).next_id_spec(),
    {
        let mut out: Vec<TodoRecord> = Vec::new();
        let mut i: usize = 0;
        while i < self.records.len()
            invariant
                0 <= i <= self.rows().len(),
                old(self).wf(),
                *self == *old(self),
                out@ == spec_toggle_id(self.rows().subrange(0, i as int), id as int),
            decreases self.rows().len() - i,
        {
            let r = &self.records[i];
            let done2 = if r.id == id {
                !r.done
            } else {
                r.done
            };
            out.push(TodoRecord { id: r.id, title: r.title.clone(), done: done2 });
            proof {
                assert(out@.last() == toggler_id(id as int)(self.rows()[i as int]));
                assert(out@ =~= spec_toggle_id(self.rows().subrange(0, i as int + 1), id as int));
            }
            i = i + 1;
        }
        proof {
            assert(self.rows().subrange(0, self.rows().len() as int) =~= self.rows());
            let s0 = self.rows();
            let s = spec_toggle_id(s0, id as int);
            assert(forall|k: int|
                0 <= k < s.len() ==> #[trigger] s[k].id == s0[k].id && s[k].title == s0[k].title);
        }
        self.records = out;
    }

    /// Flip the done flag of the record with this exact title; absent titles
    /// are a no-op.
    pub fn toggle_by_title(&mut self, title: &String)
        requires
            old(self).wf(),
        ensures
            final(self).wf(),
            final(self).rows() == spec_toggle_title(old(self).rows(), title@),
            final(self).next_id_spec() == old(self).next_id_spec(),
    {
        let mut out: Vec<TodoRecord> = Vec::new();
        let mut i: usize = 0;
        while i < self.records.len()
            invariant
                0 <= i <= self.rows().len(),
                old(self).wf(),
                *self == *old(self),
                out@ == spec_toggle_title(self.rows().subrange(0, i as int), title@),
            decreases self.rows().len() - i,
        {
            let r = &self.records[i];
            let done2 = if r.title == *title {
                !r.done
            } else {
                r.done
            };
            out.push(TodoRecord { id: r.id, title: r.title.clone(), done: done2 });
            proof {
                assert(out@.last() == toggler_title(title@)(self.rows()[i as int]));
                assert(out@ =~= spec_toggle_title(self.rows().subrange(0, i as int + 1), title@));
            }
            i = i + 1;
        }
        proof {
            assert(self.rows().subrange(0, self.rows().len() as int) =~= self.rows());
            let s0 = self.rows();
            let s = spec_toggle_title(s0, title@);
            assert(forall|k: int|
                0 <= k < s.len() ==> #[trigger] s[k].id == s0[k].id && s[k].title == s0[k].title);
        }
        self.records = out;
    }

    /// Rebuild a store from rows already in store order, as a durable table
    /// hands them back: ids positive, strictly increasing and below the
    /// largest assignable one, titles pairwise distinct. Rows no store could
    /// hold are rejected.
    pub fn from_rows(rows: Vec<TodoRecord>) -> (r: Option<TodoStore>)
        ensures
            match r {
                Some(s) => {
                    &&& spec_rows_storable(rows@)
                    &&& s.wf()
                    &&& s.rows() == rows@
                    &&& s.next_id_spec() == (if rows@.len() == 0 {
                        1int
                    } else {
                        rows@.last().id + 1
                    })
                },
                None => !spec_rows_storable(rows@),
            },
    {
        let n = rows.len();
        let mut i: usize = 0;
        while i < n
            invariant
                n == rows@.len(),
                0 <= i <= n,
                forall|k: int| 0 <= k < i ==> 1 <= #[trigger] rows@[k].id < i64::MAX,
                forall|k: int| 0 < k < i ==> rows@[k - 1].id < #[trigger] rows@[k].id,
            decreases n - i,
        {
            let r = &rows[i];
            if r.id < 1 || r.id == i64::MAX {
                return None;
            }
            if i > 0 && rows[i - 1].id >= r.id {
                return None;
            }
            i = i + 1;
        }
        proof {
            assert forall|a: int, b: int|
                #![trigger rows@[a].id, rows@[b].id]
                0 <= a < b < rows@.len() implies rows@[a].id < rows@[b].id by {
                lemma_chain_increasing(rows@, a, b);
            }
        }
        let mut i: usize = 1;
        while i < n
            invariant
                n == rows@.len(),
                1 <= i <= n || n == 0,
                forall|a: int, b: int|
                    #![trigger rows@[a].title, rows@[b].title]
                    0 <= a < b < i ==> rows@[a].title@ != rows@[b].title@,
            decreases n - i,
        {
            let mut j: usize = 0;
            while j < i
                invariant
                    n == rows@.len(),
                    0 <= j <= i < n,
                    forall|a: int| 0 <= a < j ==> #[trigger] rows@[a].title@ != rows@[i as int].title@,
                decreases i - j,
            {
                if rows[j].title == rows[i].title {
                    return None;
                }
                j = j + 1;
            }
            i = i + 1;
        }
        let next: i64 = if n == 0 {
            1
        } else {
            rows[n - 1].id + 1
        };
        proof {
            if rows@.len() > 0 {
                assert forall|k: int| 0 <= k < rows@.len() implies #[trigger] rows@[k].id
                    < next as int by {
                    if k < rows@.len() - 1 {
                        assert(rows@[k].id < rows@[rows@.len() - 1].id);
                    }
                }
            }
        }
        Some(TodoStore { records: rows, next_id: next })
    }

    /// All records, in store-native order.
    pub fn select_all(&self) -> (r: Vec<TodoRecord>)
        ensures
            r@ == self.rows(),
    {
        let mut out: Vec<TodoRecord> = Vec::new();
        let mut i: usize = 0;
        while i < self.records.len()
            invariant
                0 <= i <= self.rows().len(),
                out@ == self.rows().subrange(0, i as int),
            decreases self.rows().len() - i,
        {
            let r = &self.records[i];
            out.push(TodoRecord { id: r.id, title: r.title.clone(), done: r.done });
            proof {
                assert(out@ =~= self.rows().subrange(0, i as int + 1));
            }
            i = i + 1;
        }
        proof {
            assert(self.rows().subrange(0, self.rows().len() as int) =~= self.rows());
        }
        out
    }
}

/// Toggling the same id twice restores every record: the flip is
/// self-inverse, so Done is its own undo.
pub proof fn lemma_toggle_id_twice(s: Seq<TodoRecord>, id: int)
    ensures
        spec_toggle_id(spec_toggle_id(s, id), id) == s,
{
    assert(spec_toggle_id(spec_toggle_id(s, id), id) =~= s);
}

/// Toggling the same title twice restores every record.
pub proof fn lemma_toggle_title_twice(s: Seq<TodoRecord>, t: Seq<char>)
    ensures
        spec_toggle_title(spec_toggle_title(s, t), t) == s,
{
    assert(spec_toggle_title(spec_toggle_title(s, t), t) =~= s);
}

/// A toggle changes no id and no title: record identity is stable.
pub proof fn lemma_toggle_preserves_identity(s: Seq<TodoRecord>, id: int)
    ensures
        spec_toggle_id(s, id).len() == s.len(),
        forall|i: int|
            0 <= i < s.len() ==> #[trigger] spec_toggle_id(s, id)[i].id == s[i].id
                && spec_toggle_id(s, id)[i].title == s[i].title,
{
}

/// A toggle by title changes no id and no title either.
pub proof fn lemma_toggle_title_preserves_identity(s: Seq<TodoRecord>, t: Seq<char>)
    ensures
        spec_toggle_title(s, t).len() == s.len(),
        forall|i: int|
            0 <= i < s.len() ==> #[trigger] spec_toggle_title(s, t)[i].id == s[i].id
                && spec_toggle_title(s, t)[i].title == s[i].title,
{
}

/// A removal by title leaves every surviving record exactly as it was.
pub proof fn lemma_remove_title_keeps_records(s: Seq<TodoRecord>, t: Seq<char>)
    ensures
        forall|j: int|
            0 <= j < spec_remove_title(s, t).len() ==> s.contains(
                #[trigger] spec_remove_title(s, t)[j],
            ) && spec_remove_title(s, t)[j].title@ != t,
{
    lemma_keep_elems(s, pred_not_title(t));
}

/// A removal leaves every surviving record exactly as it was: surviving ids
/// and fields are stable across unrelated removals.
pub proof fn lemma_remove_id_keeps_records(s: Seq<TodoRecord>, id: int)
    ensures
        forall|j: int|
            0 <= j < spec_remove_id(s, id).len() ==> s.contains(#[trigger] spec_remove_id(s, id)[j])
                && spec_remove_id(s, id)[j].id != id,
{
    lemma_keep_elems(s, pred_not_id(id));
}

/// Removing an id that no record has changes nothing.
pub proof fn lemma_remove_id_absent_noop(s: Seq<TodoRecord>, id: int)
    requires
        !spec_has_id(s, id),
    ensures
        spec_remove_id(s, id) == s,
{
    assert(forall|i: int| 0 <= i < s.len() ==> pred_not_id(id)(#[trigger] s[i]));
    lemma_keep_all(s, pred_not_id(id));
}

/// Removing a title that no record has changes nothing.
pub proof fn lemma_remove_title_absent_noop(s: Seq<TodoRecord>, t: Seq<char>)
    requires
        !spec_title_exists(s, t),
    ensures
        spec_remove_title(s, t) == s,
{
    assert(forall|i: int| 0 <= i < s.len() ==> pred_not_title(t)(#[trigger] s[i]));
    lemma_keep_all(s, pred_not_title(t));
}

/// Toggling an id that no record has changes nothing.
pub proof fn lemma_toggle_id_absent_noop(s: Seq<TodoRecord>, id: int)
    requires
        !spec_has_id(s, id),
    ensures
        spec_toggle_id(s, id) == s,
{
    assert(spec_toggle_id(s, id) =~= s);
}

/// Toggling a title that no record has changes nothing.
pub proof fn lemma_toggle_title_absent_noop(s: Seq<TodoRecord>, t: Seq<char>)
    requires
        !spec_title_exists(s, t),
    ensures
        spec_toggle_title(s, t) == s,
{
    assert(spec_toggle_title(s, t) =~= s);
}

} // verus!
