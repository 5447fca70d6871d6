//! The two item kinds: a dated one-shot `Todo` and a weekday-recurring
//! `Task`. Both carry a stable `sync_id`, a positional `id`, and a change
//! marker; equality for merge and display purposes covers the mutable fields
//! only.

use vstd::assert_seqs_equal;
use vstd::prelude::*;

use crate::date::{weekday_to_date, today, Date, Weekday};
use crate::rng::random_u64;
use crate::sync::{ItemState, SyncItem};

verus! {

/// The mutable fields of a `Todo`, as one value.
pub struct TodoValue {
    /// The text of the item.
    pub body: Seq<char>,
    /// The date the item is due.
    pub date: Date,
    /// The date of completion, when completed.
    pub done: Option<Date>,
}

/// A one-time task to be done at a specific date. The date is given as a
/// weekday counted from today; without one, today is used. After its date has
/// passed, the `Todo` shows up for the current day.
#[derive(Debug, Clone)]
pub struct Todo {
    /// The text of the item.
    pub body: String,
    /// The date the item is due.
    pub date: Date,
    /// The positional id within the owning collection.
    pub id: u64,
    /// The date of completion, when completed.
    pub done: Option<Date>,
    /// The stable cross-replica identity.
    pub sync_id: u64,
    /// The change marker.
    pub state: ItemState,
}

/// True when `a` and `b` hold the same date or are both empty.
fn date_opt_eq(a: &Option<Date>, b: &Option<Date>) -> (r: bool)
    ensures
        r == (a == b),
{
    match (a, b) {
        (Some(x), Some(y)) => x.days == y.days,
        (None, None) => true,
        _ => false,
    }
}

impl Todo {
    /// The mutable fields of this item, as one value.
    pub open spec fn value(&self) -> TodoValue {
        TodoValue { body: self.body@, date: self.date, done: self.done }
    }

    /// True when this item is shown for `date`, with `today` given explicitly:
    /// on its own date, and from then on for the current day.
    pub open spec fn spec_for_date(&self, date: Date, today: Date) -> bool {
        date.days >= self.date.days && (date.days == today.days || self.date.days > today.days)
    }

    /// True when this item may be swept: one full day has passed since its
    /// completion.
    pub open spec fn spec_can_remove(&self, today: Date) -> bool {
        match self.done {
            Some(done_date) => today.days > done_date.days,
            None => false,
        }
    }

    /// Creates a `Todo` that shows up to be done for the current day.
    pub fn new_undated(body: String) -> (r: Todo)
        ensures
            r.body@ == body@,
            r.id == 0,
            r.done is None,
            r.state == ItemState::Unchanged,
    {
        Todo {
            body,
            date: today(),
            id: 0,
            done: None,
            sync_id: random_u64(),
            state: ItemState::Unchanged,
        }
    }

    /// Creates a `Todo` that shows up to be done at the next occurrence of the
    /// given weekday.
    pub fn new_dated(body: String, weekday: Weekday) -> (r: Todo)
        ensures
            r.body@ == body@,
            r.id == 0,
            r.done is None,
            r.state == ItemState::Unchanged,
            r.date.spec_weekday_num() == weekday.spec_num(),
    {
        Todo {
            body,
            date: weekday_to_date(weekday, today()),
            id: 0,
            done: None,
            sync_id: random_u64(),
            state: ItemState::Unchanged,
        }
    }

    /// Creates a `Todo` for the given date.
    pub fn new_specific_date(body: String, date: Date) -> (r: Todo)
        ensures
            r.body@ == body@,
            r.date == date,
            r.id == 0,
            r.done is None,
            r.state == ItemState::Unchanged,
    {
        Todo {
            body,
            date,
            id: 0,
            done: None,
            sync_id: random_u64(),
            state: ItemState::Unchanged,
        }
    }

    /// True when the `Todo` is shown for the given date, taking today from the
    /// system clock.
    pub fn for_date(&self, date: Date) -> (r: bool)
        ensures
            exists|t: Date| r == self.spec_for_date(date, t),
    {
        let t = today();
        let r = self.for_date_wtd(date, t);
        proof {
            assert(r == self.spec_for_date(date, t));
        }
        r
    }

    /// True when the `Todo` is shown for the given date, with today given
    /// explicitly.
    pub fn for_date_wtd(&self, date: Date, today: Date) -> (r: bool)
        ensures
            r == self.spec_for_date(date, today),
    {
        date.days >= self.date.days && (date.days == today.days || self.date.days > today.days)
    }

    /// Returns the `body` of the `Todo`.
    pub fn body(&self) -> (r: &str)
        ensures
            r@ == self.body@,
    {
        self.body.as_str()
    }

    /// Returns the weekday of the `Todo`'s date.
    pub fn weekday(&self) -> (r: Weekday)
        ensures
            r.spec_num() == self.date.spec_weekday_num(),
    {
        self.date.weekday()
    }

    /// Returns the `id` of the `Todo`.
    pub fn id(&self) -> (r: u64)
        ensures
            r == self.id,
    {
        self.id
    }

    /// Sets the `body` of the `Todo`, marking it `Changed`.
    pub fn set_body(&mut self, body: String)
        ensures
            final(self).body@ == body@,
            final(self).state == ItemState::Changed,
            final(self).date == old(self).date,
            final(self).done == old(self).done,
            final(self).id == old(self).id,
            final(self).sync_id == old(self).sync_id,
    {
        self.body = body;
        self.state = ItemState::Changed;
    }

    /// Moves the `Todo` to the next occurrence of the given weekday, counted
    /// from today, marking it `Changed`.
    pub fn set_weekday(&mut self, weekday: Weekday)
        ensures
            final(self).date.spec_weekday_num() == weekday.spec_num(),
            final(self).state == ItemState::Changed,
            final(self).body@ == old(self).body@,
            final(self).done == old(self).done,
            final(self).id == old(self).id,
            final(self).sync_id == old(self).sync_id,
    {
        self.date = weekday_to_date(weekday, today());
        self.state = ItemState::Changed;
    }

    /// True when the `Todo` is done.
    pub fn done(&self) -> (r: bool)
        ensures
            r == (self.done is Some),
    {
        match self.done {
            Some(_) => true,
            None => false,
        }
    }

    /// Sets the done state of the `Todo`, dating a completion today by the
    /// system clock, and marks it `Changed`.
    pub fn set_done(&mut self, done: bool)
        ensures
            final(self).done is Some <==> done,
            final(self).state == ItemState::Changed,
            final(self).body@ == old(self).body@,
            final(self).date == old(self).date,
            final(self).id == old(self).id,
            final(self).sync_id == old(self).sync_id,
    {
        let t = today();
        self.set_done_wtd(done, t);
    }

    /// Sets the done state of the `Todo` with today given explicitly, and
    /// marks it `Changed`.
    pub fn set_done_wtd(&mut self, done: bool, today: Date)
        ensures
            final(self).done == if done {
                Some(today)
            } else {
                None::<Date>
            },
            final(self).state == ItemState::Changed,
            final(self).body@ == old(self).body@,
            final(self).date == old(self).date,
            final(self).id == old(self).id,
            final(self).sync_id == old(self).sync_id,
    {
        if done {
            self.done = Some(today);
        } else {
            self.done = None;
        }
        self.state = ItemState::Changed;
    }

    /// True when the `Todo` can be swept: one day has passed since its
    /// completion, taking today from the system clock.
    pub fn can_remove(&self) -> (r: bool)
        ensures
            exists|t: Date| r == self.spec_can_remove(t),
    {
        let t = today();
        let r = self.can_remove_wtd(t);
        proof {
            assert(r == self.spec_can_remove(t));
        }
        r
    }

    /// True when the `Todo` can be swept, with today given explicitly.
    pub fn can_remove_wtd(&self, today: Date) -> (r: bool)
        ensures
            r == self.spec_can_remove(today),
    {
        match self.done {
            Some(done_date) => today.days > done_date.days,
            None => false,
        }
    }
}

impl Todo {
    /// The one-line display form: the body, then the positional id.
    pub fn to_display_string(&self) -> (r: String)
        ensures
            r@ == self.body@ + (" (ID: ")@ + crate::codec::dec_str(self.id) + (")")@,
    {
        let mut s = self.body.clone();
        s.append(" (ID: ");
        let digits = crate::codec::chars_string(&crate::codec::dec_chars(self.id));
        s.append(digits.as_str());
        s.append(")");
        s
    }
}

impl PartialEq for Todo {
    /// Equality by the mutable fields (body, date, done); `id` and `sync_id`
    /// are excluded.
    fn eq(&self, other: &Self) -> (r: bool) {
        self.body == other.body && self.date.days == other.date.days && date_opt_eq(
            &self.done,
            &other.done,
        )
    }
}

impl vstd::std_specs::cmp::PartialEqSpecImpl for Todo {
    open spec fn obeys_eq_spec() -> bool {
        true
    }

    open spec fn eq_spec(&self, other: &Todo) -> bool {
        self.value() == other.value()
    }
}

impl SyncItem for Todo {
    type Val = TodoValue;

    open spec fn sid(&self) -> u64 {
        self.sync_id
    }

    open spec fn pid(&self) -> u64 {
        self.id
    }

    open spec fn st(&self) -> ItemState {
        self.state
    }

    open spec fn val(&self) -> TodoValue {
        self.value()
    }

    fn state(&self) -> ItemState {
        self.state
    }

    fn sync_id(&self) -> u64 {
        self.sync_id
    }

    fn set_state(&mut self, state: ItemState) {
        self.state = state;
    }

    fn set_id(&mut self, id: u64) {
        self.id = id;
    }

    fn update_old(&self, old_item: &mut Self) {
        old_item.body = self.body.clone();
        old_item.date = self.date;
        old_item.done = self.done;
    }

    fn duplicate(&self) -> Self {
        Todo {
            body: self.body.clone(),
            date: self.date,
            id: self.id,
            done: self.done,
            sync_id: self.sync_id,
            state: self.state,
        }
    }
}

/// For each weekday, the latest date on which that weekday-occurrence of a
/// `Task` was marked done, if any.
#[derive(Debug, Clone, Copy)]
pub struct DoneMap {
    /// The latest completion for Monday occurrences.
    pub mon: Option<Date>,
    /// The latest completion for Tuesday occurrences.
    pub tue: Option<Date>,
    /// The latest completion for Wednesday occurrences.
    pub wed: Option<Date>,
    /// The latest completion for Thursday occurrences.
    pub thu: Option<Date>,
    /// The latest completion for Friday occurrences.
    pub fri: Option<Date>,
    /// The latest completion for Saturday occurrences.
    pub sat: Option<Date>,
    /// The latest completion for Sunday occurrences.
    pub sun: Option<Date>,
}

impl DoneMap {
    /// The entry for the given weekday.
    pub open spec fn spec_get(self, wd: Weekday) -> Option<Date> {
        match wd {
            Weekday::Mon => self.mon,
            Weekday::Tue => self.tue,
            Weekday::Wed => self.wed,
            Weekday::Thu => self.thu,
            Weekday::Fri => self.fri,
            Weekday::Sat => self.sat,
            Weekday::Sun => self.sun,
        }
    }

    /// A map with no completions.
    pub fn new() -> (r: DoneMap)
        ensures
            forall|w: Weekday| r.spec_get(w) is None,
    {
        DoneMap { mon: None, tue: None, wed: None, thu: None, fri: None, sat: None, sun: None }
    }

    /// Returns the entry for the given weekday.
    pub fn get(&self, wd: Weekday) -> (r: Option<Date>)
        ensures
            r == self.spec_get(wd),
    {
        match wd {
            Weekday::Mon => self.mon,
            Weekday::Tue => self.tue,
            Weekday::Wed => self.wed,
            Weekday::Thu => self.thu,
            Weekday::Fri => self.fri,
            Weekday::Sat => self.sat,
            Weekday::Sun => self.sun,
        }
    }

    /// Sets the entry for the given weekday, leaving the others unchanged.
    pub fn set(&mut self, wd: Weekday, v: Option<Date>)
        ensures
            forall|w: Weekday|
                final(self).spec_get(w) == if w == wd {
                    v
                } else {
                    old(self).spec_get(w)
                },
    {
        match wd {
            Weekday::Mon => self.mon = v,
            Weekday::Tue => self.tue = v,
            Weekday::Wed => self.wed = v,
            Weekday::Thu => self.thu = v,
            Weekday::Fri => self.fri = v,
            Weekday::Sat => self.sat = v,
            Weekday::Sun => self.sun = v,
        }
        proof {
            assert forall|w: Weekday|
                final(self).spec_get(w) == if w == wd {
                    v
                } else {
                    old(self).spec_get(w)
                } by {
                match w {
                    Weekday::Mon => {},
                    Weekday::Tue => {},
                    Weekday::Wed => {},
                    Weekday::Thu => {},
                    Weekday::Fri => {},
                    Weekday::Sat => {},
                    Weekday::Sun => {},
                }
            }
        }
    }

    /// True when `self` and `other` hold the same entries.
    pub fn same_as(&self, other: &DoneMap) -> (r: bool)
        ensures
            r == (*self == *other),
    {
        let r = date_opt_eq(&self.mon, &other.mon) && date_opt_eq(&self.tue, &other.tue)
            && date_opt_eq(&self.wed, &other.wed) && date_opt_eq(&self.thu, &other.thu)
            && date_opt_eq(&self.fri, &other.fri) && date_opt_eq(&self.sat, &other.sat)
            && date_opt_eq(&self.sun, &other.sun);
        r
    }
}

/// The mutable fields of a `Task`, as one value.
pub struct TaskValue {
    /// The text of the item.
    pub body: Seq<char>,
    /// The weekdays the task recurs on, duplicates permitted.
    pub weekdays: Seq<Weekday>,
    /// The latest completion date per weekday.
    pub done_map: DoneMap,
}

/// A recurring task for the given weekday(s).
#[derive(Debug, Clone)]
pub struct Task {
    /// The text of the item.
    pub body: String,
    /// The weekdays the task recurs on, duplicates permitted.
    pub weekdays: Vec<Weekday>,
    /// The latest completion date per weekday.
    pub done_map: DoneMap,
    /// The positional id within the owning collection.
    pub id: u64,
    /// The change marker.
    pub state: ItemState,
    /// The stable cross-replica identity.
    pub sync_id: u64,
}

/// True when `a` and `b` hold the same weekdays in the same order.
fn weekdays_eq(a: &Vec<Weekday>, b: &Vec<Weekday>) -> (r: bool)
    ensures
        r == (a@ == b@),
{
    if a.len() != b.len() {
        proof {
            assert(a@ != b@);
        }
        return false;
    }
    let mut i: usize = 0;
    while i < a.len()
        invariant
            i <= a@.len(),
            a@.len() == b@.len(),
            forall|j: int| 0 <= j < i ==> a@[j] == b@[j],
        decreases a@.len() - i,
    {
        if a[i] != b[i] {
            proof {
                assert(a@[i as int] != b@[i as int]);
            }
            return false;
        }
        i += 1;
    }
    proof {
        assert_seqs_equal!(a@, b@);
    }
    true
}

/// True when `v` lists the given weekday.
fn contains_weekday(v: &Vec<Weekday>, wd: Weekday) -> (r: bool)
    ensures
        r == v@.contains(wd),
{
    let mut i: usize = 0;
    while i < v.len()
        invariant
            i <= v@.len(),
            forall|j: int| 0 <= j < i ==> v@[j] != wd,
        decreases v@.len() - i,
    {
        if v[i] == wd {
            return true;
        }
        i += 1;
    }
    false
}

impl Task {
    /// The mutable fields of this item, as one value.
    pub open spec fn value(&self) -> TaskValue {
        TaskValue { body: self.body@, weekdays: self.weekdays@, done_map: self.done_map }
    }

    /// True when the `Task` is done for the given date: vacuously when the
    /// task is not for that date's weekday, otherwise when that weekday was
    /// last completed on or after the date.
    pub open spec fn spec_done(&self, date: Date) -> bool {
        if self.weekdays@.contains(date.spec_weekday()) {
            match self.done_map.spec_get(date.spec_weekday()) {
                Some(d) => d.days >= date.days,
                None => false,
            }
        } else {
            true
        }
    }

    /// Creates a task for the given weekday(s). A task must have at least one
    /// weekday; called on an empty list from unverified code, this panics.
    pub fn new(body: String, weekdays: Vec<Weekday>) -> (r: Task)
        requires
            weekdays@.len() > 0,
        ensures
            r.body@ == body@,
            r.weekdays@ == weekdays@,
            r.id == 0,
            r.state == ItemState::Unchanged,
            forall|w: Weekday| r.done_map.spec_get(w) is None,
    {
        if weekdays.len() == 0 {
            return vstd::pervasive::unreached();
        }
        Task {
            body,
            weekdays,
            id: 0,
            done_map: DoneMap::new(),
            sync_id: random_u64(),
            state: ItemState::Unchanged,
        }
    }

    /// Returns the `body` of the `Task`.
    pub fn body(&self) -> (r: &str)
        ensures
            r@ == self.body@,
    {
        self.body.as_str()
    }

    /// Returns the `weekdays` of the `Task`; duplicates are permitted.
    pub fn weekdays(&self) -> (r: &Vec<Weekday>)
        ensures
            r@ == self.weekdays@,
    {
        &self.weekdays
    }

    /// Returns the `id` of the `Task`.
    pub fn id(&self) -> (r: u64)
        ensures
            r == self.id,
    {
        self.id
    }

    /// Sets the `body` of the `Task`, marking it `Changed`.
    pub fn set_body(&mut self, body: String)
        ensures
            final(self).body@ == body@,
            final(self).state == ItemState::Changed,
            final(self).weekdays@ == old(self).weekdays@,
            final(self).done_map == old(self).done_map,
            final(self).id == old(self).id,
            final(self).sync_id == old(self).sync_id,
    {
        self.body = body;
        self.state = ItemState::Changed;
    }

    /// Sets the `weekdays` of the `Task`, marking it `Changed`.
    pub fn set_weekdays(&mut self, weekdays: Vec<Weekday>)
        ensures
            final(self).weekdays@ == weekdays@,
            final(self).state == ItemState::Changed,
            final(self).body@ == old(self).body@,
            final(self).done_map == old(self).done_map,
            final(self).id == old(self).id,
            final(self).sync_id == old(self).sync_id,
    {
        self.weekdays = weekdays;
        self.state = ItemState::Changed;
    }

    /// Appends a weekday to the weekdays list, marking the task `Changed`.
    /// Duplicate weekdays are permitted.
    pub fn add_weekday(&mut self, weekday: Weekday)
        ensures
            final(self).weekdays@ == old(self).weekdays@.push(weekday),
            final(self).state == ItemState::Changed,
            final(self).body@ == old(self).body@,
            final(self).done_map == old(self).done_map,
            final(self).id == old(self).id,
            final(self).sync_id == old(self).sync_id,
    {
        self.weekdays.push(weekday);
        self.state = ItemState::Changed;
    }

    /// Removes a weekday from the weekdays list, duplicates included, marking
    /// the task `Changed`.
    pub fn remove_weekday(&mut self, removed_wd: Weekday)
        ensures
            final(self).weekdays@ == old(self).weekdays@.filter(|w: Weekday| w != removed_wd),
            final(self).state == ItemState::Changed,
            final(self).body@ == old(self).body@,
            final(self).done_map == old(self).done_map,
            final(self).id == old(self).id,
            final(self).sync_id == old(self).sync_id,
    {
        broadcast use vstd::seq_lib::group_filter_ensures;

        let mut new_weekdays: Vec<Weekday> = Vec::new();
        let mut i: usize = 0;
        while i < self.weekdays.len()
            invariant
                i <= self.weekdays@.len(),
                new_weekdays@ == self.weekdays@.take(i as int).filter(
                    |w: Weekday| w != removed_wd,
                ),
            decreases self.weekdays@.len() - i,
        {
            let wd = self.weekdays[i];
            proof {
                let p = |w: Weekday| w != removed_wd;
                assert(self.weekdays@.take(i + 1) == self.weekdays@.take(i as int).push(wd));
                Seq::filter_distributes_over_add(
                    self.weekdays@.take(i as int),
                    seq![wd],
                    p,
                );
                assert(self.weekdays@.take(i as int) + seq![wd] == self.weekdays@.take(i + 1));
                reveal(Seq::filter);
                assert(Seq::<Weekday>::empty().filter(p) == Seq::<Weekday>::empty());
                assert(seq![wd].drop_last() == Seq::<Weekday>::empty());
                assert(seq![wd].last() == wd);
                assert(seq![wd].filter(p) == if p(wd) {
                    seq![wd]
                } else {
                    Seq::<Weekday>::empty()
                });
            }
            if wd != removed_wd {
                new_weekdays.push(wd);
                proof {
                    assert(new_weekdays@ == self.weekdays@.take(i + 1).filter(
                        |w: Weekday| w != removed_wd,
                    ));
                }
            }
            i += 1;
        }
        proof {
            assert(self.weekdays@.take(self.weekdays@.len() as int) == self.weekdays@);
        }
        self.set_weekdays(new_weekdays);
    }

    /// True when the `Task` is for the given date's weekday.
    pub fn for_date(&self, date: Date) -> (r: bool)
        ensures
            r == self.weekdays@.contains(date.spec_weekday()),
    {
        contains_weekday(&self.weekdays, date.weekday())
    }

    /// True when the `Task` is done for the given date. Vacuously true when
    /// the task is not for the given date.
    pub fn done(&self, date: Date) -> (r: bool)
        ensures
            r == self.spec_done(date),
    {
        if self.for_date(date) {
            match self.done_map.get(date.weekday()) {
                Some(d) => d.days >= date.days,
                None => false,
            }
        } else {
            true
        }
    }

    /// Sets the done state of the `Task` for the given date's weekday,
    /// marking the task `Changed`.
    pub fn set_done(&mut self, done: bool, date: Date)
        ensures
            forall|w: Weekday|
                final(self).done_map.spec_get(w) == if w == date.spec_weekday() {
                    if done {
                        Some(date)
                    } else {
                        None::<Date>
                    }
                } else {
                    old(self).done_map.spec_get(w)
                },
            final(self).body@ == old(self).body@,
            final(self).weekdays@ == old(self).weekdays@,
            final(self).state == ItemState::Changed,
            final(self).id == old(self).id,
            final(self).sync_id == old(self).sync_id,
    {
        if done {
            self.done_map.set(date.weekday(), Some(date));
        } else {
            self.done_map.set(date.weekday(), None);
        }
        self.state = ItemState::Changed;
    }
}

impl Task {
    /// The one-line display form: the body, then the positional id.
    pub fn to_display_string(&self) -> (r: String)
        ensures
            r@ == self.body@ + (" (ID: ")@ + crate::codec::dec_str(self.id) + (")")@,
    {
        let mut s = self.body.clone();
        s.append(" (ID: ");
        let digits = crate::codec::chars_string(&crate::codec::dec_chars(self.id));
        s.append(digits.as_str());
        s.append(")");
        s
    }
}

impl PartialEq for Task {
    /// Equality by the mutable fields (body, weekdays, done map); `id` and
    /// `sync_id` are excluded.
    fn eq(&self, other: &Self) -> (r: bool) {
        self.body == other.body && weekdays_eq(&self.weekdays, &other.weekdays)
            && self.done_map.same_as(&other.done_map)
    }
}

impl vstd::std_specs::cmp::PartialEqSpecImpl for Task {
    open spec fn obeys_eq_spec() -> bool {
        true
    }

    open spec fn eq_spec(&self, other: &Task) -> bool {
        self.value() == other.value()
    }
}

impl SyncItem for Task {
    type Val = TaskValue;

    open spec fn sid(&self) -> u64 {
        self.sync_id
    }

    open spec fn pid(&self) -> u64 {
        self.id
    }

    open spec fn st(&self) -> ItemState {
        self.state
    }

    open spec fn val(&self) -> TaskValue {
        self.value()
    }

    fn state(&self) -> ItemState {
        self.state
    }

    fn sync_id(&self) -> u64 {
        self.sync_id
    }

    fn set_state(&mut self, state: ItemState) {
        self.state = state;
    }

    fn set_id(&mut self, id: u64) {
        self.id = id;
    }

    fn update_old(&self, old_item: &mut Self) {
        old_item.body = self.body.clone();
        old_item.weekdays = clone_weekdays(&self.weekdays);
        old_item.done_map = self.done_map;
    }

    fn duplicate(&self) -> Self {
        Task {
            body: self.body.clone(),
            weekdays: clone_weekdays(&self.weekdays),
            done_map: self.done_map,
            id: self.id,
            state: self.state,
            sync_id: self.sync_id,
        }
    }
}

/// Returns a copy of a weekday list.
fn clone_weekdays(v: &Vec<Weekday>) -> (r: Vec<Weekday>)
    ensures
        r@ == v@,
{
    let mut out: Vec<Weekday> = Vec::new();
    let mut i: usize = 0;
    while i < v.len()
        invariant
            i <= v@.len(),
            out@ == v@.take(i as int),
        decreases v@.len() - i,
    {
        out.push(v[i]);
        proof {
            assert_seqs_equal!(out@, v@.take(i + 1));
        }
        i += 1;
    }
    proof {
        assert(v@.take(v@.len() as int) == v@);
    }
    out
}

} // verus!
