//! The replica: one synchronizable collection per item kind, tagged with a
//! client or server role fixed at creation.

use vstd::assert_seqs_equal;
use vstd::prelude::*;

use crate::date::{today, Date};
use crate::item::{Task, TaskValue, Todo, TodoValue};
use crate::sync::{
    client_sync_result, drop_removed, has_sid, item_model, models, norm, ref_models,
    server_sync_result, sids_unique, ItemModel, ItemState, SyncItem, SyncList,
};
use crate::Error;

verus! {

/// True when the dated item with mutable fields `v` is shown for `date`, with
/// `today` given: on its own date, and from then on for the current day.
pub open spec fn todo_for_date_v(v: TodoValue, date: Date, today: Date) -> bool {
    date.days >= v.date.days && (date.days == today.days || v.date.days > today.days)
}

/// True when the dated item with mutable fields `v` is done.
pub open spec fn todo_done_v(v: TodoValue) -> bool {
    v.done is Some
}

/// True when the dated item with mutable fields `v` may be swept: one full
/// day has passed since its completion.
pub open spec fn todo_can_remove_v(v: TodoValue, today: Date) -> bool {
    match v.done {
        Some(done_date) => today.days > done_date.days,
        None => false,
    }
}

/// True when the recurring item with mutable fields `v` is for the given
/// date's weekday.
pub open spec fn task_for_date_v(v: TaskValue, date: Date) -> bool {
    v.weekdays.contains(date.spec_weekday())
}

/// True when the recurring item with mutable fields `v` is done for the given
/// date; vacuously true when the item is not for that date.
pub open spec fn task_done_v(v: TaskValue, date: Date) -> bool {
    if v.weekdays.contains(date.spec_weekday()) {
        match v.done_map.spec_get(date.spec_weekday()) {
            Some(d) => d.days >= date.days,
            None => false,
        }
    } else {
        true
    }
}

/// Every dated item completed strictly before `today` marked `Removed`; the
/// others as they were.
pub open spec fn mark_old(m: Seq<ItemModel<TodoValue>>, today: Date) -> Seq<
    ItemModel<TodoValue>,
> {
    m.map(
        |i: int, r: ItemModel<TodoValue>|
            if todo_can_remove_v(r.val, today) {
                ItemModel { st: ItemState::Removed, ..r }
            } else {
                r
            },
    )
}

/// What the pre-sync sweep of old completed items leaves of a dated-item
/// collection: tombstones on a client, immediate removal on a server.
pub open spec fn after_remove_old(
    m: Seq<ItemModel<TodoValue>>,
    server: bool,
    today: Date,
) -> Seq<ItemModel<TodoValue>> {
    if server {
        drop_removed(mark_old(m, today))
    } else {
        mark_old(m, today)
    }
}

/// The models of the live dated items shown for `date` (with `today` given)
/// whose done-ness matches `done`.
pub open spec fn todos_for_date_view(
    m: Seq<ItemModel<TodoValue>>,
    date: Date,
    today: Date,
    done: bool,
) -> Seq<ItemModel<TodoValue>> {
    m.filter(
        |im: ItemModel<TodoValue>|
            im.st != ItemState::Removed && todo_for_date_v(im.val, date, today) && todo_done_v(
                im.val,
            ) == done,
    )
}

/// A synchronizable list of all tracked `Todo`s and `Task`s: one replica of
/// the full state, with a role fixed at creation. Positional ids of live
/// items match their positions after every normalize sweep.
pub struct TdList {
    /// The dated one-shot items.
    pub todos: SyncList<Todo>,
    /// The weekday-recurring items.
    pub tasks: SyncList<Task>,
    /// Whether this replica has the server role.
    pub server: bool,
}

impl TdList {
    /// Both collections carry the replica's own role.
    pub open spec fn wf(&self) -> bool {
        self.todos.server == self.server && self.tasks.server == self.server
    }

    /// Creates an empty client replica.
    pub fn new_client() -> (r: Self)
        ensures
            r.wf(),
            !r.server,
            r.todos.m().len() == 0,
            r.tasks.m().len() == 0,
    {
        TdList { todos: SyncList::new(false), tasks: SyncList::new(false), server: false }
    }

    /// Creates an empty server replica.
    pub fn new_server() -> (r: Self)
        ensures
            r.wf(),
            r.server,
            r.todos.m().len() == 0,
            r.tasks.m().len() == 0,
    {
        TdList { todos: SyncList::new(true), tasks: SyncList::new(true), server: true }
    }

    /// True when this replica has the server role.
    pub fn is_server(&self) -> (r: bool)
        ensures
            r == self.server,
    {
        self.server
    }

    /// Returns references to the live `Todo`s, in order.
    pub fn todos(&self) -> (r: Vec<&Todo>)
        ensures
            ref_models(r@) == drop_removed(self.todos.m()),
    {
        self.todos.items()
    }

    /// Returns references to the live `Task`s, in order.
    pub fn tasks(&self) -> (r: Vec<&Task>)
        ensures
            ref_models(r@) == drop_removed(self.tasks.m()),
    {
        self.tasks.items()
    }

    /// Appends a `Todo`, giving it the next positional id and marking it
    /// `New`.
    pub fn add_todo(&mut self, todo: Todo)
        ensures
            final(self).server == old(self).server,
            final(self).todos.server == old(self).todos.server,
            final(self).tasks == old(self).tasks,
            final(self).todos.m() == old(self).todos.m().push(
                ItemModel {
                    sid: todo.sync_id,
                    pid: old(self).todos.m().len() as u64,
                    st: ItemState::New,
                    val: todo.value(),
                },
            ),
    {
        let mut todo = todo;
        let next_id = self.todos.items.len() as u64;
        todo.set_id(next_id);
        self.todos.add(todo);
    }

    /// Appends a `Task`, giving it the next positional id and marking it
    /// `New`.
    pub fn add_task(&mut self, task: Task)
        ensures
            final(self).server == old(self).server,
            final(self).tasks.server == old(self).tasks.server,
            final(self).todos == old(self).todos,
            final(self).tasks.m() == old(self).tasks.m().push(
                ItemModel {
                    sid: task.sync_id,
                    pid: old(self).tasks.m().len() as u64,
                    st: ItemState::New,
                    val: task.value(),
                },
            ),
    {
        let mut task = task;
        let next_id = self.tasks.items.len() as u64;
        task.set_id(next_id);
        self.tasks.add(task);
    }

    /// Removes the `Todo` with the given positional id: a tombstone on a
    /// client, immediate removal with renumbering on a server. Fails with
    /// `NoTodoWithGivenIdErr` when no such item exists or it is already
    /// removed.
    pub fn remove_todo(&mut self, id: u64) -> (r: Result<(), Error>)
        ensures
            final(self).server == old(self).server,
            final(self).todos.server == old(self).todos.server,
            final(self).tasks == old(self).tasks,
            match r {
                Ok(_) => {
                    &&& id < old(self).todos.m().len()
                    &&& old(self).todos.m()[id as int].st != ItemState::Removed
                    &&& final(self).todos.m() == if old(self).todos.server {
                        crate::sync::compact(
                            old(self).todos.m().update(
                                id as int,
                                ItemModel {
                                    st: ItemState::Removed,
                                    ..old(self).todos.m()[id as int]
                                },
                            ),
                        )
                    } else {
                        old(self).todos.m().update(
                            id as int,
                            ItemModel { st: ItemState::Removed, ..old(self).todos.m()[id as int] },
                        )
                    }
                },
                Err(e) => {
                    &&& e == Error::NoTodoWithGivenIdErr(id)
                    &&& (id >= old(self).todos.m().len() || old(self).todos.m()[id as int].st
                        == ItemState::Removed)
                    &&& final(self).todos.items@ == old(self).todos.items@
                },
            },
    {
        match self.todos.mark_removed(id) {
            Ok(_) => Ok(()),
            Err(_) => Err(Error::NoTodoWithGivenIdErr(id)),
        }
    }

    /// Removes the `Task` with the given positional id: a tombstone on a
    /// client, immediate removal with renumbering on a server. Fails with
    /// `NoTaskWithGivenIdErr` when no such item exists or it is already
    /// removed.
    pub fn remove_task(&mut self, id: u64) -> (r: Result<(), Error>)
        ensures
            final(self).server == old(self).server,
            final(self).tasks.server == old(self).tasks.server,
            final(self).todos == old(self).todos,
            match r {
                Ok(_) => {
                    &&& id < old(self).tasks.m().len()
                    &&& old(self).tasks.m()[id as int].st != ItemState::Removed
                    &&& final(self).tasks.m() == if old(self).tasks.server {
                        crate::sync::compact(
                            old(self).tasks.m().update(
                                id as int,
                                ItemModel {
                                    st: ItemState::Removed,
                                    ..old(self).tasks.m()[id as int]
                                },
                            ),
                        )
                    } else {
                        old(self).tasks.m().update(
                            id as int,
                            ItemModel { st: ItemState::Removed, ..old(self).tasks.m()[id as int] },
                        )
                    }
                },
                Err(e) => {
                    &&& e == Error::NoTaskWithGivenIdErr(id)
                    &&& (id >= old(self).tasks.m().len() || old(self).tasks.m()[id as int].st
                        == ItemState::Removed)
                    &&& final(self).tasks.items@ == old(self).tasks.items@
                },
            },
    {
        match self.tasks.mark_removed(id) {
            Ok(_) => Ok(()),
            Err(_) => Err(Error::NoTaskWithGivenIdErr(id)),
        }
    }

    /// Returns a mutable handle on the `Todo` at positional index `id`, if
    /// any. Any setter called on the handle marks the item `Changed`.
    pub fn get_todo_mut(&mut self, id: u64) -> (r: Option<&mut Todo>)
        ensures
            final(self).server == old(self).server,
            final(self).todos.server == old(self).todos.server,
            final(self).tasks == old(self).tasks,
            id < old(self).todos.m().len() ==> r is Some,
            id >= old(self).todos.m().len() ==> r is None && final(self).todos.items@ == old(
                self,
            ).todos.items@,
            r matches Some(it) ==> id < old(self).todos.m().len() && *it == old(
                self,
            ).todos.items@[id as int] && final(self).todos.items@ == old(
                self,
            ).todos.items@.update(id as int, *final(it)),
    {
        self.todos.get_item_mut(id)
    }

    /// Returns the live `Todo`s shown for the given date and not yet done,
    /// with today given explicitly.
    pub fn undone_todos_for_date_wtd(&self, date: Date, today: Date) -> (r: Vec<&Todo>)
        ensures
            ref_models(r@) == todos_for_date_view(self.todos.m(), date, today, false),
    {
        let ghost p = |im: ItemModel<TodoValue>|
            im.st != ItemState::Removed && todo_for_date_v(im.val, date, today) && todo_done_v(
                im.val,
            ) == false;
        let mut out: Vec<&Todo> = Vec::new();
        let mut i: usize = 0;
        while i < self.todos.items.len()
            invariant
                i <= self.todos.items@.len(),
                p == (|im: ItemModel<TodoValue>|
                    im.st != ItemState::Removed && todo_for_date_v(im.val, date, today)
                        && todo_done_v(im.val) == false),
                ref_models(out@) == models(self.todos.items@.take(i as int)).filter(p),
            decreases self.todos.items@.len() - i,
        {
            let it = &self.todos.items[i];
            proof {
                assert(self.todos.items@.take(i + 1) == self.todos.items@.take(i as int).push(
                    self.todos.items@[i as int],
                ));
                crate::sync::lemma_models_push(
                    self.todos.items@.take(i as int),
                    self.todos.items@[i as int],
                );
                crate::sync::lemma_filter_push(
                    models(self.todos.items@.take(i as int)),
                    item_model(self.todos.items@[i as int]),
                    p,
                );
            }
            let keep = !matches!(it.state(), ItemState::Removed) && it.for_date_wtd(date, today)
                && !it.done();
            if keep {
                out.push(it);
                proof {
                    assert_seqs_equal!(
                        ref_models(out@),
                        ref_models(out@.drop_last()).push(
                            item_model(self.todos.items@[i as int]),
                        ),
                    );
                }
            }
            i += 1;
        }
        proof {
            assert(self.todos.items@.take(self.todos.items@.len() as int) == self.todos.items@);
        }
        out
    }

    /// Returns the live `Todo`s shown for the given date and already done,
    /// with today given explicitly.
    pub fn done_todos_for_date_wtd(&self, date: Date, today: Date) -> (r: Vec<&Todo>)
        ensures
            ref_models(r@) == todos_for_date_view(self.todos.m(), date, today, true),
    {
        let ghost p = |im: ItemModel<TodoValue>|
            im.st != ItemState::Removed && todo_for_date_v(im.val, date, today) && todo_done_v(
                im.val,
            ) == true;
        let mut out: Vec<&Todo> = Vec::new();
        let mut i: usize = 0;
        while i < self.todos.items.len()
            invariant
                i <= self.todos.items@.len(),
                p == (|im: ItemModel<TodoValue>|
                    im.st != ItemState::Removed && todo_for_date_v(im.val, date, today)
                        && todo_done_v(im.val) == true),
                ref_models(out@) == models(self.todos.items@.take(i as int)).filter(p),
            decreases self.todos.items@.len() - i,
        {
            let it = &self.todos.items[i];
            proof {
                assert(self.todos.items@.take(i + 1) == self.todos.items@.take(i as int).push(
                    self.todos.items@[i as int],
                ));
                crate::sync::lemma_models_push(
                    self.todos.items@.take(i as int),
                    self.todos.items@[i as int],
                );
                crate::sync::lemma_filter_push(
                    models(self.todos.items@.take(i as int)),
                    item_model(self.todos.items@[i as int]),
                    p,
                );
            }
            let keep = !matches!(it.state(), ItemState::Removed) && it.for_date_wtd(date, today)
                && it.done();
            if keep {
                out.push(it);
                proof {
                    assert_seqs_equal!(
                        ref_models(out@),
                        ref_models(out@.drop_last()).push(
                            item_model(self.todos.items@[i as int]),
                        ),
                    );
                }
            }
            i += 1;
        }
        proof {
            assert(self.todos.items@.take(self.todos.items@.len() as int) == self.todos.items@);
        }
        out
    }

    /// Returns the live `Todo`s shown for the given date and not yet done,
    /// taking today from the system clock.
    pub fn undone_todos_for_date(&self, date: Date) -> (r: Vec<&Todo>)
        ensures
            exists|t: Date| ref_models(r@) == todos_for_date_view(self.todos.m(), date, t, false),
    {
        let t = today();
        let r = self.undone_todos_for_date_wtd(date, t);
        proof {
            assert(ref_models(r@) == todos_for_date_view(self.todos.m(), date, t, false));
        }
        r
    }

    /// Returns the live `Todo`s shown for the given date and already done,
    /// taking today from the system clock.
    pub fn done_todos_for_date(&self, date: Date) -> (r: Vec<&Todo>)
        ensures
            exists|t: Date| ref_models(r@) == todos_for_date_view(self.todos.m(), date, t, true),
    {
        let t = today();
        let r = self.done_todos_for_date_wtd(date, t);
        proof {
            assert(ref_models(r@) == todos_for_date_view(self.todos.m(), date, t, true));
        }
        r
    }

    /// Returns the live `Task`s for the given date's weekday not yet done for
    /// that date.
    pub fn undone_tasks_for_date(&self, date: Date) -> (r: Vec<&Task>)
        ensures
            ref_models(r@) == self.tasks.m().filter(
                |im: ItemModel<TaskValue>|
                    im.st != ItemState::Removed && task_for_date_v(im.val, date) && !task_done_v(
                        im.val,
                        date,
                    ),
            ),
    {
        let ghost p = |im: ItemModel<TaskValue>|
            im.st != ItemState::Removed && task_for_date_v(im.val, date) && !task_done_v(
                im.val,
                date,
            );
        let mut out: Vec<&Task> = Vec::new();
        let mut i: usize = 0;
        while i < self.tasks.items.len()
            invariant
                i <= self.tasks.items@.len(),
                p == (|im: ItemModel<TaskValue>|
                    im.st != ItemState::Removed && task_for_date_v(im.val, date) && !task_done_v(
                        im.val,
                        date,
                    )),
                ref_models(out@) == models(self.tasks.items@.take(i as int)).filter(p),
            decreases self.tasks.items@.len() - i,
        {
            let it = &self.tasks.items[i];
            proof {
                assert(self.tasks.items@.take(i + 1) == self.tasks.items@.take(i as int).push(
                    self.tasks.items@[i as int],
                ));
                crate::sync::lemma_models_push(
                    self.tasks.items@.take(i as int),
                    self.tasks.items@[i as int],
                );
                crate::sync::lemma_filter_push(
                    models(self.tasks.items@.take(i as int)),
                    item_model(self.tasks.items@[i as int]),
                    p,
                );
            }
            let keep = !matches!(it.state(), ItemState::Removed) && it.for_date(date) && !it.done(
                date,
            );
            if keep {
                out.push(it);
                proof {
                    assert_seqs_equal!(
                        ref_models(out@),
                        ref_models(out@.drop_last()).push(
                            item_model(self.tasks.items@[i as int]),
                        ),
                    );
                }
            }
            i += 1;
        }
        proof {
            assert(self.tasks.items@.take(self.tasks.items@.len() as int) == self.tasks.items@);
        }
        out
    }

    /// Returns the live `Task`s for the given date's weekday already done for
    /// that date.
    pub fn done_tasks_for_date(&self, date: Date) -> (r: Vec<&Task>)
        ensures
            ref_models(r@) == self.tasks.m().filter(
                |im: ItemModel<TaskValue>|
                    im.st != ItemState::Removed && task_for_date_v(im.val, date) && task_done_v(
                        im.val,
                        date,
                    ),
            ),
    {
        let ghost p = |im: ItemModel<TaskValue>|
            im.st != ItemState::Removed && task_for_date_v(im.val, date) && task_done_v(
                im.val,
                date,
            );
        let mut out: Vec<&Task> = Vec::new();
        let mut i: usize = 0;
        while i < self.tasks.items.len()
            invariant
                i <= self.tasks.items@.len(),
                p == (|im: ItemModel<TaskValue>|
                    im.st != ItemState::Removed && task_for_date_v(im.val, date) && task_done_v(
                        im.val,
                        date,
                    )),
                ref_models(out@) == models(self.tasks.items@.take(i as int)).filter(p),
            decreases self.tasks.items@.len() - i,
        {
            let it = &self.tasks.items[i];
            proof {
                assert(self.tasks.items@.take(i + 1) == self.tasks.items@.take(i as int).push(
                    self.tasks.items@[i as int],
                ));
                crate::sync::lemma_models_push(
                    self.tasks.items@.take(i as int),
                    self.tasks.items@[i as int],
                );
                crate::sync::lemma_filter_push(
                    models(self.tasks.items@.take(i as int)),
                    item_model(self.tasks.items@[i as int]),
                    p,
                );
            }
            let keep = !matches!(it.state(), ItemState::Removed) && it.for_date(date) && it.done(
                date,
            );
            if keep {
                out.push(it);
                proof {
                    assert_seqs_equal!(
                        ref_models(out@),
                        ref_models(out@.drop_last()).push(
                            item_model(self.tasks.items@[i as int]),
                        ),
                    );
                }
            }
            i += 1;
        }
        proof {
            assert(self.tasks.items@.take(self.tasks.items@.len() as int) == self.tasks.items@);
        }
        out
    }

    /// Returns a mutable handle on the `Task` at positional index `id`, if
    /// any. Any setter called on the handle marks the item `Changed`.
    pub fn get_task_mut(&mut self, id: u64) -> (r: Option<&mut Task>)
        ensures
            final(self).server == old(self).server,
            final(self).tasks.server == old(self).tasks.server,
            final(self).todos == old(self).todos,
            id < old(self).tasks.m().len() ==> r is Some,
            id >= old(self).tasks.m().len() ==> r is None && final(self).tasks.items@ == old(
                self,
            ).tasks.items@,
            r matches Some(it) ==> id < old(self).tasks.m().len() && *it == old(
                self,
            ).tasks.items@[id as int] && final(self).tasks.items@ == old(
                self,
            ).tasks.items@.update(id as int, *final(it)),
    {
        self.tasks.get_item_mut(id)
    }
}

/// The sweep of old completed items keeps every entry's identity at its
/// index, so unique identities stay unique.
pub proof fn lemma_mark_old_unique(m: Seq<ItemModel<TodoValue>>, today: Date)
    requires
        sids_unique(m),
    ensures
        sids_unique(mark_old(m, today)),
        sids_unique(after_remove_old(m, true, today)),
        sids_unique(after_remove_old(m, false, today)),
{
    let mm = mark_old(m, today);
    assert(mm.len() == m.len());
    assert forall|i: int| 0 <= i < mm.len() implies (#[trigger] mm[i]).sid == m[i].sid by {}
    crate::sync::lemma_filter_sids_unique(
        mm,
        |r: ItemModel<TodoValue>| r.st != ItemState::Removed,
    );
}

impl TdList {
    /// Marks every `Todo` completed strictly before `today` as removed; a
    /// server drops them on the spot (ids are left for the next normalize
    /// sweep to renumber), a client keeps the tombstones until then.
    pub fn remove_old_todos_wtd(&mut self, today: Date)
        ensures
            final(self).server == old(self).server,
            final(self).todos.server == old(self).todos.server,
            final(self).tasks == old(self).tasks,
            final(self).todos.m() == after_remove_old(
                old(self).todos.m(),
                old(self).server,
                today,
            ),
    {
        let ghost m0 = self.todos.m();
        let ghost dropit = |r: ItemModel<TodoValue>| r.st != ItemState::Removed;
        let server = self.server;
        let mut out: Vec<Todo> = Vec::new();
        let mut i: usize = 0;
        while i < self.todos.items.len()
            invariant
                i <= self.todos.items@.len(),
                self.todos.m() == m0,
                self.todos.items@.len() == m0.len(),
                server == self.server,
                dropit == (|r: ItemModel<TodoValue>| r.st != ItemState::Removed),
                models(out@) == if server {
                    mark_old(m0.take(i as int), today).filter(dropit)
                } else {
                    mark_old(m0.take(i as int), today)
                },
            decreases self.todos.items@.len() - i,
        {
            let it = &self.todos.items[i];
            proof {
                assert(item_model(self.todos.items@[i as int]) == m0[i as int]);
                assert(m0.take(i + 1) == m0.take(i as int).push(m0[i as int]));
                assert_seqs_equal!(
                    mark_old(m0.take(i + 1), today),
                    mark_old(m0.take(i as int), today).push(
                        if todo_can_remove_v(m0[i as int].val, today) {
                            ItemModel { st: ItemState::Removed, ..m0[i as int] }
                        } else {
                            m0[i as int]
                        },
                    ),
                );
                crate::sync::lemma_filter_push(
                    mark_old(m0.take(i as int), today),
                    if todo_can_remove_v(m0[i as int].val, today) {
                        ItemModel { st: ItemState::Removed, ..m0[i as int] }
                    } else {
                        m0[i as int]
                    },
                    dropit,
                );
            }
            let can = it.can_remove_wtd(today);
            if server {
                if !can && !matches!(it.state(), ItemState::Removed) {
                    let d = it.duplicate();
                    out.push(d);
                    proof {
                        crate::sync::lemma_models_push(out@.drop_last(), out@.last());
                    }
                }
            } else {
                let mut d = it.duplicate();
                if can {
                    d.set_state(ItemState::Removed);
                }
                out.push(d);
                proof {
                    crate::sync::lemma_models_push(out@.drop_last(), out@.last());
                }
            }
            i += 1;
        }
        proof {
            assert(m0.take(m0.len() as int) == m0);
        }
        self.todos.items = out;
    }

    /// Marks every `Todo` completed strictly before today (by the system
    /// clock) as removed; a server drops them on the spot, a client keeps the
    /// tombstones until the next normalize sweep.
    pub fn remove_old_todos(&mut self)
        ensures
            final(self).server == old(self).server,
            final(self).todos.server == old(self).todos.server,
            final(self).tasks == old(self).tasks,
            exists|t: Date|
                final(self).todos.m() == after_remove_old(
                    old(self).todos.m(),
                    old(self).server,
                    t,
                ),
    {
        let t = today();
        self.remove_old_todos_wtd(t);
        proof {
            assert(final(self).todos.m() == after_remove_old(
                old(self).todos.m(),
                old(self).server,
                t,
            ));
        }
    }

    /// Synchronizes the replica with itself, with today given explicitly:
    /// sweeps old completed `Todo`s, then normalizes both collections,
    /// actually removing tombstoned items, renumbering ids and resetting
    /// markers.
    pub fn self_sync_wtd(&mut self, today: Date)
        ensures
            final(self).server == old(self).server,
            final(self).todos.server == old(self).todos.server,
            final(self).tasks.server == old(self).tasks.server,
            final(self).todos.m() == norm(
                after_remove_old(old(self).todos.m(), old(self).server, today),
            ),
            final(self).tasks.m() == norm(old(self).tasks.m()),
    {
        self.remove_old_todos_wtd(today);
        self.todos.sync_self();
        self.tasks.sync_self();
    }

    /// Synchronizes the replica with itself, taking today from the system
    /// clock: sweeps old completed `Todo`s, then normalizes both collections,
    /// actually removing tombstoned items, renumbering ids and resetting
    /// markers.
    pub fn self_sync(&mut self)
        ensures
            final(self).server == old(self).server,
            final(self).todos.server == old(self).todos.server,
            final(self).tasks.server == old(self).tasks.server,
            exists|t: Date|
                final(self).todos.m() == norm(
                    after_remove_old(old(self).todos.m(), old(self).server, t),
                ),
            final(self).tasks.m() == norm(old(self).tasks.m()),
    {
        let t = today();
        self.self_sync_wtd(t);
        proof {
            assert(final(self).todos.m() == norm(
                after_remove_old(old(self).todos.m(), old(self).server, t),
            ));
        }
    }
}

/// Law: synchronizing a replica with itself twice in a row leaves the same
/// collection as doing it once. The first pass sweeps every dated item whose
/// completion lies behind `today` and normalizes; the survivors give the
/// second pass nothing to sweep and nothing to change.
pub proof fn lemma_self_sync_idempotent(
    m: Seq<ItemModel<TodoValue>>,
    server: bool,
    today: Date,
)
    requires
        m.len() <= u64::MAX,
    ensures
        norm(after_remove_old(norm(after_remove_old(m, server, today)), server, today)) == norm(
            after_remove_old(m, server, today),
        ),
{
    let live = |r: ItemModel<TodoValue>| r.st != ItemState::Removed;
    let m1 = after_remove_old(m, server, today);
    mark_old(m, today).lemma_filter_len(live);
    let n1 = norm(m1);
    crate::sync::lemma_norm_idempotent(m1);
    assert forall|i: int| 0 <= i < n1.len() implies !todo_can_remove_v(
        (#[trigger] n1[i]).val,
        today,
    ) by {
        assert(n1[i].val == drop_removed(m1)[i].val);
        crate::sync::lemma_filter_source(m1, live, i);
        let j = choose|j: int| 0 <= j < m1.len() && m1[j] == drop_removed(m1)[i];
        m1.lemma_filter_pred(live, i);
        if server {
            crate::sync::lemma_filter_source(mark_old(m, today), live, j);
            let j2 = choose|j2: int|
                0 <= j2 < mark_old(m, today).len() && mark_old(m, today)[j2] == drop_removed(
                    mark_old(m, today),
                )[j];
            mark_old(m, today).lemma_filter_pred(live, j);
            if todo_can_remove_v(m[j2].val, today) {
                assert(mark_old(m, today)[j2].st == ItemState::Removed);
            }
        } else {
            if todo_can_remove_v(m[j].val, today) {
                assert(m1[j].st == ItemState::Removed);
            }
        }
    }
    assert(mark_old(n1, today) =~= n1);
    if server {
        assert forall|i: int| 0 <= i < n1.len() implies live(#[trigger] n1[i]) by {}
        crate::sync::lemma_filter_all(n1, live);
        assert(after_remove_old(n1, server, today) == n1);
    } else {
        assert(after_remove_old(n1, server, today) == n1);
    }
}

/// The sweep of old completed items keeps an identity present exactly when it
/// was present: it changes markers and drops entries, never identities of
/// what stays.
pub proof fn lemma_remove_old_keeps_sids(m: Seq<ItemModel<TodoValue>>, today: Date, x: u64)
    ensures
        has_sid(mark_old(m, today), x) <==> has_sid(m, x),
        has_sid(after_remove_old(m, true, today), x) ==> has_sid(m, x),
{
    let mm = mark_old(m, today);
    if has_sid(mm, x) {
        let i = choose|i: int| 0 <= i < mm.len() && mm[i].sid == x;
        assert(m[i].sid == x);
    }
    if has_sid(m, x) {
        let i = choose|i: int| 0 <= i < m.len() && m[i].sid == x;
        assert(mm[i].sid == x);
    }
    if has_sid(after_remove_old(m, true, today), x) {
        let live = |r: ItemModel<TodoValue>| r.st != ItemState::Removed;
        let j = choose|j: int|
            0 <= j < drop_removed(mm).len() && drop_removed(mm)[j].sid == x;
        crate::sync::lemma_filter_source(mm, live, j);
        let i = choose|i: int| 0 <= i < mm.len() && mm[i] == drop_removed(mm)[j];
        assert(m[i].sid == x);
    }
}

/// The sweep of old completed items preserves the preconditions under which
/// the reconciliation laws characterize a merge, so those laws apply to the
/// dated-item collections that a replica-level sync hands to the engine.
pub proof fn lemma_remove_old_keeps_merge_pre(
    c: Seq<ItemModel<TodoValue>>,
    s: Seq<ItemModel<TodoValue>>,
    today: Date,
)
    requires
        crate::sync::merge_pre(c, s),
    ensures
        crate::sync::merge_pre(
            after_remove_old(c, false, today),
            after_remove_old(s, true, today),
        ),
{
    let live = |r: ItemModel<TodoValue>| r.st != ItemState::Removed;
    let c2 = after_remove_old(c, false, today);
    let s2 = after_remove_old(s, true, today);
    lemma_mark_old_unique(c, today);
    lemma_mark_old_unique(s, today);
    assert forall|j: int| 0 <= j < s2.len() implies (#[trigger] s2[j]).st != ItemState::Removed by {
        mark_old(s, today).lemma_filter_pred(live, j);
    }
    assert forall|i: int|
        0 <= i < c2.len() && c2[i].st == ItemState::New implies !has_sid(
        s2,
        #[trigger] c2[i].sid,
    ) by {
        assert(c2[i].sid == c[i].sid);
        if c2[i].st == ItemState::New {
            assert(c[i].st == ItemState::New);
            if has_sid(s2, c[i].sid) {
                lemma_remove_old_keeps_sids(s, today, c[i].sid);
            }
        }
    }
    assert forall|j: int|
        0 <= j < s2.len() && s2[j].st == ItemState::New implies !has_sid(
        c2,
        #[trigger] s2[j].sid,
    ) by {
        crate::sync::lemma_filter_source(mark_old(s, today), live, j);
        let i = choose|i: int|
            0 <= i < mark_old(s, today).len() && mark_old(s, today)[i] == drop_removed(
                mark_old(s, today),
            )[j];
        assert(s2[j].sid == s[i].sid);
        if s2[j].st == ItemState::New {
            assert(s[i].st == ItemState::New);
            if has_sid(c2, s[i].sid) {
                lemma_remove_old_keeps_sids(c, today, s[i].sid);
            }
        }
    }
}

/// Law: a freshly added dated item reaches both replicas through a sync. A
/// client `Todo` marked `New` and not completed before `today` survives the
/// pre-merge sweep of old completed items and lands, value-equal, in both
/// dated-item collections the sync leaves behind.
pub proof fn lemma_new_todo_reaches_both_sides(
    c: Seq<ItemModel<TodoValue>>,
    s: Seq<ItemModel<TodoValue>>,
    today: Date,
    k: int,
)
    requires
        crate::sync::merge_pre(c, s),
        0 <= k < c.len(),
        c[k].st == ItemState::New,
        !todo_can_remove_v(c[k].val, today),
    ensures
        crate::sync::present_with(
            client_sync_result(
                after_remove_old(c, false, today),
                after_remove_old(s, true, today),
            ),
            c[k].sid,
            c[k].val,
        ),
        crate::sync::present_with(
            server_sync_result(
                after_remove_old(c, false, today),
                after_remove_old(s, true, today),
            ),
            c[k].sid,
            c[k].val,
        ),
{
    lemma_remove_old_keeps_merge_pre(c, s, today);
    let c2 = after_remove_old(c, false, today);
    assert(c2[k] == c[k]);
    crate::sync::lemma_new_item_propagates(c2, after_remove_old(s, true, today), k);
}

impl TdList {
    /// True when this replica and a peer satisfy the preconditions of `sync`:
    /// both well-formed, of opposite roles, each collection's stable
    /// identities unique. Unverified callers check this before merging.
    pub fn can_sync_with(&self, other: &TdList) -> (r: bool)
        ensures
            r == ({
                &&& self.wf()
                &&& other.wf()
                &&& self.server != other.server
                &&& sids_unique(self.todos.m())
                &&& sids_unique(self.tasks.m())
                &&& sids_unique(other.todos.m())
                &&& sids_unique(other.tasks.m())
            }),
    {
        let wf_self = self.todos.server == self.server && self.tasks.server == self.server;
        let wf_other = other.todos.server == other.server && other.tasks.server == other.server;
        wf_self && wf_other && self.server != other.server && self.todos.sids_are_unique()
            && self.tasks.sids_are_unique() && other.todos.sids_are_unique()
            && other.tasks.sids_are_unique()
    }
}

/// What one sync leaves in the two replicas, stated from the client's side:
/// old completed `Todo`s swept on both sides, then each item-kind collection
/// merged by the reconciliation engine and normalized.
pub open spec fn synced_replicas(
    c_pre: TdList,
    s_pre: TdList,
    c_post: TdList,
    s_post: TdList,
    today: Date,
) -> bool {
    let ct = after_remove_old(c_pre.todos.m(), false, today);
    let st = after_remove_old(s_pre.todos.m(), true, today);
    &&& c_post.todos.m() == client_sync_result(ct, st)
    &&& s_post.todos.m() == server_sync_result(ct, st)
    &&& c_post.tasks.m() == client_sync_result(c_pre.tasks.m(), s_pre.tasks.m())
    &&& s_post.tasks.m() == server_sync_result(c_pre.tasks.m(), s_pre.tasks.m())
}

impl TdList {
    /// Merges this replica with a peer of the other role, with today given
    /// explicitly: sweeps old completed `Todo`s on both sides, then runs the
    /// reconciliation engine over each item-kind collection and normalizes
    /// both sides. Called from unverified code with two replicas of the same
    /// role, this panics: role misuse is a usage error, not a data condition.
    pub fn sync_wtd(&mut self, other: &mut Self, today: Date)
        requires
            old(self).wf(),
            old(other).wf(),
            old(self).server != old(other).server,
            sids_unique(old(self).todos.m()),
            sids_unique(old(self).tasks.m()),
            sids_unique(old(other).todos.m()),
            sids_unique(old(other).tasks.m()),
        ensures
            final(self).wf(),
            final(other).wf(),
            final(self).server == old(self).server,
            final(other).server == old(other).server,
            !old(self).server ==> synced_replicas(
                *old(self),
                *old(other),
                *final(self),
                *final(other),
                today,
            ),
            old(self).server ==> synced_replicas(
                *old(other),
                *old(self),
                *final(other),
                *final(self),
                today,
            ),
    {
        if self.server == other.server {
            return vstd::pervasive::unreached();
        }
        proof {
            lemma_mark_old_unique(self.todos.m(), today);
            lemma_mark_old_unique(other.todos.m(), today);
        }
        self.remove_old_todos_wtd(today);
        other.remove_old_todos_wtd(today);
        self.todos.sync(&mut other.todos);
        self.tasks.sync(&mut other.tasks);
    }

    /// Merges this replica with a peer of the other role, taking today from
    /// the system clock. Called from unverified code with two replicas of the
    /// same role, this panics: role misuse is a usage error, not a data
    /// condition.
    pub fn sync(&mut self, other: &mut Self)
        requires
            old(self).wf(),
            old(other).wf(),
            old(self).server != old(other).server,
            sids_unique(old(self).todos.m()),
            sids_unique(old(self).tasks.m()),
            sids_unique(old(other).todos.m()),
            sids_unique(old(other).tasks.m()),
        ensures
            final(self).wf(),
            final(other).wf(),
            final(self).server == old(self).server,
            final(other).server == old(other).server,
            !old(self).server ==> exists|t: Date|
                synced_replicas(*old(self), *old(other), *final(self), *final(other), t),
            old(self).server ==> exists|t: Date|
                synced_replicas(*old(other), *old(self), *final(other), *final(self), t),
    {
        let t = today();
        self.sync_wtd(other, t);
        proof {
            if !old(self).server {
                assert(synced_replicas(*old(self), *old(other), *final(self), *final(other), t));
            } else {
                assert(synced_replicas(*old(other), *old(self), *final(other), *final(self), t));
            }
        }
    }
}

} // verus!
