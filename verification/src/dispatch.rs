//! The dispatcher: route one parsed command to store operations, strictly
//! left-to-right over its tokens, resolving each token independently as an
//! id or a title. Queries leave the store untouched and yield rows for the
//! presenter; mutations yield no rows. The first store failure propagates;
//! earlier operations of the same invocation stay committed.

use vstd::prelude::*;
use crate::command::{TodoCli, TodoCliSubCommands, TodoColumns};
use crate::query::{search_records, spec_search};
use crate::resolve::{TokenRef, classify, spec_parse_i64};
use crate::sort::{
    distinct_ids, sort_by_done, sort_by_id_desc, sort_by_title, sorted_by_id_desc, sorted_by_title,
    spec_sort_by_done, strictly_desc_ids,
};
use crate::store::{
    StoreError, TodoRecord, TodoStore, spec_remove_id, spec_remove_title, spec_title_exists,
    spec_toggle_id, spec_toggle_title,
};

verus! {

/// The store state and outcome after inserting the given titles in order,
/// stopping at the first failure and keeping what was already inserted.
pub open spec fn spec_apply_adds(rows: Seq<TodoRecord>, next: int, titles: Seq<String>) -> (
    Seq<TodoRecord>,
    int,
    Option<StoreError>,
)
    decreases titles.len(),
{
    if titles.len() == 0 {
        (rows, next, None)
    } else {
        let t = titles.first();
        if spec_title_exists(rows, t@) {
            (rows, next, Some(StoreError::DuplicateTitle))
        } else if next == i64::MAX {
            (rows, next, Some(StoreError::IdsExhausted))
        } else {
            spec_apply_adds(
                rows.push(TodoRecord { id: next as i64, title: t, done: false }),
                next + 1,
                titles.drop_first(),
            )
        }
    }
}

/// The rows left after removing each token's referent in order: by id when
/// the token parses as an integer, by title otherwise.
pub open spec fn spec_apply_removes(rows: Seq<TodoRecord>, tokens: Seq<String>) -> Seq<TodoRecord>
    decreases tokens.len(),
{
    if tokens.len() == 0 {
        rows
    } else {
        let t = tokens.first();
        let rows2 = match spec_parse_i64(t@) {
            Some(n) => spec_remove_id(rows, n),
            None => spec_remove_title(rows, t@),
        };
        spec_apply_removes(rows2, tokens.drop_first())
    }
}

/// The rows left after flipping each token's referent in order: by id when
/// the token parses as an integer, by title otherwise.
pub open spec fn spec_apply_toggles(rows: Seq<TodoRecord>, tokens: Seq<String>) -> Seq<TodoRecord>
    decreases tokens.len(),
{
    if tokens.len() == 0 {
        rows
    } else {
        let t = tokens.first();
        let rows2 = match spec_parse_i64(t@) {
            Some(n) => spec_toggle_id(rows, n),
            None => spec_toggle_title(rows, t@),
        };
        spec_apply_toggles(rows2, tokens.drop_first())
    }
}

/// Resolution determinism: a token that parses as an integer is treated as
/// an id lookup by Remove, Done and Search alike, even if a record's title
/// consists of that exact numeric text.
pub proof fn lemma_numeric_token_is_id_lookup(rows: Seq<TodoRecord>, t: String, n: int)
    requires
        spec_parse_i64(t@) == Some(n),
    ensures
        spec_apply_removes(rows, seq![t]) == spec_remove_id(rows, n),
        spec_apply_toggles(rows, seq![t]) == spec_toggle_id(rows, n),
        spec_search(rows, t@) == crate::store::keep(rows, crate::query::pred_has_id(n)),
{
    assert(seq![t].first() == t);
    assert(seq![t].drop_first() =~= Seq::<String>::empty());
    assert(spec_apply_removes(spec_remove_id(rows, n), Seq::<String>::empty()) == spec_remove_id(
        rows,
        n,
    ));
    assert(spec_apply_toggles(spec_toggle_id(rows, n), Seq::<String>::empty()) == spec_toggle_id(
        rows,
        n,
    ));
}

/// Insert every title, in order; stop at the first failure, which leaves
/// the earlier inserts committed.
pub fn add_all(store: &mut TodoStore, titles: &Vec<String>) -> (r: Result<(), StoreError>)
    requires
        old(store).wf(),
    ensures
        final(store).wf(),
        final(store).rows() == spec_apply_adds(
            old(store).rows(),
            old(store).next_id_spec(),
            titles@,
        ).0,
        final(store).next_id_spec() == spec_apply_adds(
            old(store).rows(),
            old(store).next_id_spec(),
            titles@,
        ).1,
        match r {
            Ok(u) => spec_apply_adds(old(store).rows(), old(store).next_id_spec(), titles@).2
                is None,
            Err(e) => spec_apply_adds(old(store).rows(), old(store).next_id_spec(), titles@).2
                == Some(e),
        },
{
    let ghost whole = spec_apply_adds(old(store).rows(), old(store).next_id_spec(), titles@);
    proof {
        assert(titles@.skip(0) =~= titles@);
    }
    let mut i: usize = 0;
    while i < titles.len()
        invariant
            0 <= i <= titles@.len(),
            store.wf(),
            whole == spec_apply_adds(old(store).rows(), old(store).next_id_spec(), titles@),
            whole == spec_apply_adds(store.rows(), store.next_id_spec(), titles@.skip(i as int)),
        decreases titles@.len() - i,
    {
        let t = titles[i].clone();
        let ghost pre_rows = store.rows();
        let ghost pre_next = store.next_id_spec();
        proof {
            assert(titles@.skip(i as int).first() == titles@[i as int]);
            assert(titles@.skip(i as int).drop_first() =~= titles@.skip(i as int + 1));
        }
        match store.insert(t) {
            Ok(id) => {
                proof {
                    assert(store.rows() == pre_rows.push(
                        TodoRecord { id: pre_next as i64, title: titles@[i as int], done: false },
                    ));
                }
            },
            Err(e) => {
                proof {
                    assert(spec_apply_adds(pre_rows, pre_next, titles@.skip(i as int)) == (
                        pre_rows,
                        pre_next,
                        Some(e),
                    ));
                }
                return Err(e);
            },
        }
        i = i + 1;
    }
    proof {
        assert(titles@.skip(titles@.len() as int) =~= Seq::<String>::empty());
    }
    Ok(())
}

/// Remove every token's referent, in order. Absent referents are no-ops,
/// so removal never fails.
pub fn remove_all(store: &mut TodoStore, tokens: &Vec<String>)
    requires
        old(store).wf(),
    ensures
        final(store).wf(),
        final(store).rows() == spec_apply_removes(old(store).rows(), tokens@),
        final(store).next_id_spec() == old(store).next_id_spec(),
{
    proof {
        assert(tokens@.skip(0) =~= tokens@);
    }
    let mut i: usize = 0;
    while i < tokens.len()
        invariant
            0 <= i <= tokens@.len(),
            store.wf(),
            store.next_id_spec() == old(store).next_id_spec(),
            spec_apply_removes(old(store).rows(), tokens@) == spec_apply_removes(
                store.rows(),
                tokens@.skip(i as int),
            ),
        decreases tokens@.len() - i,
    {
        let t = &tokens[i];
        proof {
            assert(tokens@.skip(i as int).first() == tokens@[i as int]);
            assert(tokens@.skip(i as int).drop_first() =~= tokens@.skip(i as int + 1));
        }
        match classify(t.as_str()) {
            TokenRef::Id(n) => {
                store.remove_by_id(n);
            },
            TokenRef::Title => {
                store.remove_by_title(t);
            },
        }
        i = i + 1;
    }
    proof {
        assert(tokens@.skip(tokens@.len() as int) =~= Seq::<String>::empty());
    }
}

/// Flip every token's referent, in order. Absent referents are no-ops, so
/// toggling never fails.
pub fn toggle_all(store: &mut TodoStore, tokens: &Vec<String>)
    requires
        old(store).wf(),
    ensures
        final(store).wf(),
        final(store).rows() == spec_apply_toggles(old(store).rows(), tokens@),
        final(store).next_id_spec() == old(store).next_id_spec(),
{
    proof {
        assert(tokens@.skip(0) =~= tokens@);
    }
    let mut i: usize = 0;
    while i < tokens.len()
        invariant
            0 <= i <= tokens@.len(),
            store.wf(),
            store.next_id_spec() == old(store).next_id_spec(),
            spec_apply_toggles(old(store).rows(), tokens@) == spec_apply_toggles(
                store.rows(),
                tokens@.skip(i as int),
            ),
        decreases tokens@.len() - i,
    {
        let t = &tokens[i];
        proof {
            assert(tokens@.skip(i as int).first() == tokens@[i as int]);
            assert(tokens@.skip(i as int).drop_first() =~= tokens@.skip(i as int + 1));
        }
        match classify(t.as_str()) {
            TokenRef::Id(n) => {
                store.toggle_by_id(n);
            },
            TokenRef::Title => {
                store.toggle_by_title(t);
            },
        }
        i = i + 1;
    }
    proof {
        assert(tokens@.skip(tokens@.len() as int) =~= Seq::<String>::empty());
    }
}

/// Route one parsed invocation. Precedence: search token, then sort
/// option, then subcommand, then bare list. Query paths return the rows to
/// present and leave the store unchanged; mutation paths return no rows.
pub fn dispatch(cli: TodoCli, store: &mut TodoStore) -> (r: Result<
    Option<Vec<TodoRecord>>,
    StoreError,
>)
    requires
        old(store).wf(),
    ensures
        final(store).wf(),
        match cli.search {
            Some(q) => {
                &&& final(store).rows() == old(store).rows()
                &&& final(store).next_id_spec() == old(store).next_id_spec()
                &&& match r {
                    Ok(Some(rows)) => rows@ == spec_search(old(store).rows(), q@),
                    _ => false,
                }
            },
            None => match cli.sort {
                Some(col) => {
                    &&& final(store).rows() == old(store).rows()
                    &&& final(store).next_id_spec() == old(store).next_id_spec()
                    &&& match r {
                        Ok(Some(rows)) => match col {
                            TodoColumns::Id => {
                                &&& rows@.to_multiset() == old(store).rows().to_multiset()
                                &&& sorted_by_id_desc(rows@)
                                &&& strictly_desc_ids(rows@)
                            },
                            TodoColumns::Title => {
                                &&& rows@.to_multiset() == old(store).rows().to_multiset()
                                &&& sorted_by_title(rows@)
                            },
                            TodoColumns::Done => rows@ == spec_sort_by_done(old(store).rows()),
                        },
                        _ => false,
                    }
                },
                None => match cli.subcommand {
                    None => {
                        &&& final(store).rows() == old(store).rows()
                        &&& final(store).next_id_spec() == old(store).next_id_spec()
                        &&& match r {
                            Ok(Some(rows)) => rows@ == old(store).rows(),
                            _ => false,
                        }
                    },
                    Some(TodoCliSubCommands::Add(args)) => {
                        &&& final(store).rows() == spec_apply_adds(
                            old(store).rows(),
                            old(store).next_id_spec(),
                            args.todos@,
                        ).0
                        &&& final(store).next_id_spec() == spec_apply_adds(
                            old(store).rows(),
                            old(store).next_id_spec(),
                            args.todos@,
                        ).1
                        &&& match r {
                            Ok(None) => spec_apply_adds(
                                old(store).rows(),
                                old(store).next_id_spec(),
                                args.todos@,
                            ).2 is None,
                            Err(e) => spec_apply_adds(
                                old(store).rows(),
                                old(store).next_id_spec(),
                                args.todos@,
                            ).2 == Some(e),
                            _ => false,
                        }
                    },
                    Some(TodoCliSubCommands::Remove(args)) => {
                        &&& final(store).rows() == spec_apply_removes(
                            old(store).rows(),
                            args.todos@,
                        )
                        &&& final(store).next_id_spec() == old(store).next_id_spec()
                        &&& r matches Ok(rows) && rows is None
                    },
                    Some(TodoCliSubCommands::Done(args)) => {
                        &&& final(store).rows() == spec_apply_toggles(
                            old(store).rows(),
                            args.todos@,
                        )
                        &&& final(store).next_id_spec() == old(store).next_id_spec()
                        &&& r matches Ok(rows) && rows is None
                    },
                },
            },
        },
{
    let TodoCli { subcommand, sort, search } = cli;
    match search {
        Some(q) => {
            let all = store.select_all();
            let rows = search_records(&all, q.as_str());
            Ok(Some(rows))
        },
        None => match sort {
            Some(col) => {
                let all = store.select_all();
                proof {
                    assert(distinct_ids(all@)) by {
                        assert(forall|i: int, j: int|
                            #![trigger all@[i].id, all@[j].id]
                            0 <= i < j < all@.len() ==> all@[i].id < all@[j].id);
                    }
                }
                let rows = match col {
                    TodoColumns::Id => sort_by_id_desc(all),
                    TodoColumns::Title => sort_by_title(all),
                    TodoColumns::Done => sort_by_done(all),
                };
                Ok(Some(rows))
            },
            None => match subcommand {
                None => Ok(Some(store.select_all())),
                Some(TodoCliSubCommands::Add(args)) => match add_all(store, &args.todos) {
                    Ok(u) => Ok(None),
                    Err(e) => Err(e),
                },
                Some(TodoCliSubCommands::Remove(args)) => {
                    remove_all(store, &args.todos);
                    Ok(None)
                },
                Some(TodoCliSubCommands::Done(args)) => {
                    toggle_all(store, &args.todos);
                    Ok(None)
                },
            },
        },
    }
}

} // verus!
