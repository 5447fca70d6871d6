//! The reconciliation engine: change markers, the capability interface shared
//! by both item kinds, and the generic synchronizable collection `SyncList`.
//!
//! Contracts are stated over `ItemModel`, the mathematical image of one item
//! (stable identity, positional id, change marker and mutable-field value),
//! so that the merge can be described as a function on sequences of models.

use vstd::assert_seqs_equal;
use vstd::prelude::*;

verus! {

/// The change marker: what happened to an item locally since the last sync.
#[derive(Debug, Clone, Copy, PartialEq, Eq, Structural)]
pub enum ItemState {
    /// Created locally, never seen by the peer.
    New,
    /// Marked for deletion; dropped by the next normalize sweep.
    Removed,
    /// Present on both sides, not locally mutated since the last sync.
    Unchanged,
    /// Present on both sides, locally mutated since the last sync.
    Changed,
}

/// The mathematical image of one synchronizable item: its stable identity,
/// its positional id, its change marker, and the value of its mutable fields.
pub struct ItemModel<V> {
    /// The stable cross-replica identity (`sync_id`).
    pub sid: u64,
    /// The positional id within the owning collection.
    pub pid: u64,
    /// The change marker.
    pub st: ItemState,
    /// The mutable fields, as one value; identity fields are excluded.
    pub val: V,
}

/// The capability interface shared by the two item kinds. The reconciliation
/// engine is written once against this trait.
pub trait SyncItem: Sized {
    /// The type of the item's mutable-field value.
    type Val;

    /// The stable cross-replica identity.
    spec fn sid(&self) -> u64;

    /// The positional id.
    spec fn pid(&self) -> u64;

    /// The change marker.
    spec fn st(&self) -> ItemState;

    /// The mutable fields, as one value.
    spec fn val(&self) -> Self::Val;

    /// Returns the change marker.
    fn state(&self) -> (r: ItemState)
        ensures
            r == self.st(),
    ;

    /// Returns the stable identity.
    fn sync_id(&self) -> (r: u64)
        ensures
            r == self.sid(),
    ;

    /// Sets the change marker, leaving everything else unchanged.
    fn set_state(&mut self, state: ItemState)
        ensures
            final(self).st() == state,
            final(self).sid() == old(self).sid(),
            final(self).pid() == old(self).pid(),
            final(self).val() == old(self).val(),
    ;

    /// Sets the positional id, leaving everything else unchanged.
    fn set_id(&mut self, id: u64)
        ensures
            final(self).pid() == id,
            final(self).sid() == old(self).sid(),
            final(self).st() == old(self).st(),
            final(self).val() == old(self).val(),
    ;

    /// Overwrites `old_item`'s mutable fields with `self`'s, leaving
    /// `old_item`'s identity fields and marker untouched.
    fn update_old(&self, old_item: &mut Self)
        ensures
            final(old_item).val() == self.val(),
            final(old_item).sid() == old(old_item).sid(),
            final(old_item).pid() == old(old_item).pid(),
            final(old_item).st() == old(old_item).st(),
    ;

    /// Returns a copy of the item, equal to it in every modeled field.
    fn duplicate(&self) -> (r: Self)
        ensures
            r.sid() == self.sid(),
            r.pid() == self.pid(),
            r.st() == self.st(),
            r.val() == self.val(),
    ;
}

/// The model of one item.
pub open spec fn item_model<T: SyncItem>(x: T) -> ItemModel<T::Val> {
    ItemModel { sid: x.sid(), pid: x.pid(), st: x.st(), val: x.val() }
}

/// The model of a sequence of items.
pub open spec fn models<T: SyncItem>(s: Seq<T>) -> Seq<ItemModel<T::Val>> {
    s.map(|i: int, x: T| item_model(x))
}

/// An ordered collection of items of one kind, synchronizable against a peer
/// collection of the same kind.
pub struct SyncList<T> {
    /// The items, live ones and (on a client) tombstones.
    pub items: Vec<T>,
    /// Whether the owning replica has the server role.
    pub server: bool,
}

impl<T: SyncItem> SyncList<T> {
    /// The model of this collection's items.
    pub open spec fn m(&self) -> Seq<ItemModel<T::Val>> {
        models(self.items@)
    }

    /// Creates an empty collection with the given role.
    pub fn new(server: bool) -> (r: Self)
        ensures
            r.items@.len() == 0,
            r.server == server,
    {
        SyncList { items: Vec::new(), server }
    }

    /// Appends an item, marking it `New`.
    pub fn add(&mut self, item: T)
        ensures
            final(self).server == old(self).server,
            final(self).m() == old(self).m().push(
                ItemModel { sid: item.sid(), pid: item.pid(), st: ItemState::New, val: item.val() },
            ),
    {
        let mut item = item;
        item.set_state(ItemState::New);
        self.items.push(item);
        proof {
            assert_seqs_equal!(
                self.m(),
                old(self).m().push(
                    ItemModel { sid: item.sid(), pid: item.pid(), st: ItemState::New, val: item.val() },
                ),
            );
        }
    }

    /// True when no two items of this collection share a stable identity.
    pub fn sids_are_unique(&self) -> (r: bool)
        ensures
            r == sids_unique(self.m()),
    {
        let mut i: usize = 0;
        while i < self.items.len()
            invariant
                i <= self.items@.len(),
                forall|a: int, b: int|
                    0 <= a < i && a < b < self.items@.len() ==> self.m()[a].sid
                        != self.m()[b].sid,
            decreases self.items@.len() - i,
        {
            let mut j: usize = i + 1;
            while j < self.items.len()
                invariant
                    i < j <= self.items@.len(),
                    i < self.items@.len(),
                    forall|a: int, b: int|
                        0 <= a < i && a < b < self.items@.len() ==> self.m()[a].sid
                            != self.m()[b].sid,
                    forall|b: int| i < b < j ==> self.m()[i as int].sid != self.m()[b].sid,
                decreases self.items@.len() - j,
            {
                if self.items[i].sync_id() == self.items[j].sync_id() {
                    proof {
                        assert(self.m()[i as int].sid == self.m()[j as int].sid);
                    }
                    return false;
                }
                j += 1;
            }
            i += 1;
        }
        proof {
            assert forall|a: int, b: int|
                0 <= a < b < self.m().len() implies self.m()[a].sid != self.m()[b].sid by {}
        }
        true
    }

    /// Returns the index of the first item with the given `sync_id`, if any.
    pub fn find_index_by_sync_id(&self, sync_id: u64) -> (r: Option<usize>)
        ensures
            match r {
                Some(k) => {
                    &&& k < self.m().len()
                    &&& self.m()[k as int].sid == sync_id
                    &&& forall|j: int| 0 <= j < k ==> self.m()[j].sid != sync_id
                },
                None => !has_sid(self.m(), sync_id),
            },
    {
        let mut k: usize = 0;
        while k < self.items.len()
            invariant
                k <= self.items@.len(),
                forall|j: int| 0 <= j < k ==> self.m()[j].sid != sync_id,
            decreases self.items@.len() - k,
        {
            if self.items[k].sync_id() == sync_id {
                return Some(k);
            }
            k += 1;
        }
        None
    }
}

/// The model of a sequence of item references.
pub open spec fn ref_models<T: SyncItem>(s: Seq<&T>) -> Seq<ItemModel<T::Val>> {
    s.map(|i: int, x: &T| item_model(*x))
}

/// `m` without its tombstones, order kept.
pub open spec fn drop_removed<V>(m: Seq<ItemModel<V>>) -> Seq<ItemModel<V>> {
    m.filter(|r: ItemModel<V>| r.st != ItemState::Removed)
}

/// `m` with positional ids renumbered to match positions.
pub open spec fn renumber<V>(m: Seq<ItemModel<V>>) -> Seq<ItemModel<V>> {
    m.map(|i: int, r: ItemModel<V>| ItemModel { pid: i as u64, ..r })
}

/// The normalize sweep: drop tombstones, renumber positional ids, and reset
/// every surviving marker to `Unchanged`.
pub open spec fn norm<V>(m: Seq<ItemModel<V>>) -> Seq<ItemModel<V>> {
    drop_removed(m).map(
        |i: int, r: ItemModel<V>| ItemModel { pid: i as u64, st: ItemState::Unchanged, ..r },
    )
}

/// Drop tombstones and renumber, markers kept: what a server-role collection
/// does on the spot when an item is removed.
pub open spec fn compact<V>(m: Seq<ItemModel<V>>) -> Seq<ItemModel<V>> {
    renumber(drop_removed(m))
}

/// Filtering a sequence extended by one element keeps the filtered prefix and
/// appends the element exactly when it passes.
pub proof fn lemma_filter_push<A>(s: Seq<A>, x: A, p: spec_fn(A) -> bool)
    ensures
        s.push(x).filter(p) == if p(x) {
            s.filter(p).push(x)
        } else {
            s.filter(p)
        },
{
    assert(s.push(x) == s + seq![x]);
    Seq::filter_distributes_over_add(s, seq![x], p);
    reveal(Seq::filter);
    assert(Seq::<A>::empty().filter(p) == Seq::<A>::empty());
    assert(seq![x].drop_last() == Seq::<A>::empty());
    assert(seq![x].last() == x);
    if p(x) {
        assert(s.filter(p) + seq![x] == s.filter(p).push(x));
    } else {
        assert(s.filter(p) + Seq::<A>::empty() == s.filter(p));
    }
}

/// The model of a sequence extended by one item is the model of the sequence
/// extended by the item's model.
pub proof fn lemma_models_push<T: SyncItem>(s: Seq<T>, x: T)
    ensures
        models(s.push(x)) == models(s).push(item_model(x)),
{
    assert_seqs_equal!(models(s.push(x)), models(s).push(item_model(x)));
}

impl<T: SyncItem> SyncList<T> {
    /// Replaces the items with the live (non-tombstone) ones, order kept.
    fn retain_live(&mut self)
        ensures
            final(self).server == old(self).server,
            final(self).m() == drop_removed(old(self).m()),
    {
        let ghost m0 = self.m();
        let mut out: Vec<T> = Vec::new();
        let mut i: usize = 0;
        while i < self.items.len()
            invariant
                i <= self.items@.len(),
                self == old(self),
                models(out@) == drop_removed(models(self.items@.take(i as int))),
            decreases self.items@.len() - i,
        {
            proof {
                assert(self.items@.take(i + 1) == self.items@.take(i as int).push(
                    self.items@[i as int],
                ));
                lemma_models_push(self.items@.take(i as int), self.items@[i as int]);
                lemma_filter_push(
                    models(self.items@.take(i as int)),
                    item_model(self.items@[i as int]),
                    |r: ItemModel<T::Val>| r.st != ItemState::Removed,
                );
            }
            let it = &self.items[i];
            if !matches!(it.state(), ItemState::Removed) {
                let d = it.duplicate();
                out.push(d);
                proof {
                    lemma_models_push(out@.drop_last(), d);
                    assert(item_model(d) == item_model(self.items@[i as int]));
                    assert(models(out@) == drop_removed(models(self.items@.take(i + 1))));
                }
            }
            i += 1;
        }
        proof {
            assert(self.items@.take(self.items@.len() as int) == self.items@);
        }
        self.items = out;
    }

    /// Renumbers every item's positional id to its position.
    pub fn map_indices_to_ids(&mut self)
        ensures
            final(self).server == old(self).server,
            final(self).m() == renumber(old(self).m()),
    {
        let mut i: usize = 0;
        while i < self.items.len()
            invariant
                i <= self.items@.len(),
                self.server == old(self).server,
                self.items@.len() == old(self).items@.len(),
                forall|j: int|
                    i <= j < self.items@.len() ==> #[trigger] self.items@[j] == old(
                        self,
                    ).items@[j],
                forall|j: int|
                    0 <= j < i ==> (#[trigger] self.items@[j]).pid() == j as u64
                        && self.items@[j].sid() == old(self).items@[j].sid()
                        && self.items@[j].st() == old(self).items@[j].st()
                        && self.items@[j].val() == old(self).items@[j].val(),
            decreases self.items@.len() - i,
        {
            let ghost pre = self.items@;
            let idx: u64 = i as u64;
            let it = &mut self.items[i];
            it.set_id(idx);
            proof {
                assert forall|j: int| 0 <= j < self.items@.len() && j != i implies self.items@[j]
                    == pre[j] by {}
            }
            i += 1;
        }
        proof {
            assert_seqs_equal!(self.m(), renumber(old(self).m()), j => {
                assert(self.m()[j] == item_model(self.items@[j]));
            });
        }
    }

    /// Returns references to the live (non-tombstone) items, order kept.
    pub fn items(&self) -> (r: Vec<&T>)
        ensures
            ref_models(r@) == drop_removed(self.m()),
    {
        let mut out: Vec<&T> = Vec::new();
        let mut i: usize = 0;
        while i < self.items.len()
            invariant
                i <= self.items@.len(),
                ref_models(out@) == drop_removed(models(self.items@.take(i as int))),
            decreases self.items@.len() - i,
        {
            proof {
                assert(self.items@.take(i + 1) == self.items@.take(i as int).push(
                    self.items@[i as int],
                ));
                lemma_models_push(self.items@.take(i as int), self.items@[i as int]);
                lemma_filter_push(
                    models(self.items@.take(i as int)),
                    item_model(self.items@[i as int]),
                    |r: ItemModel<T::Val>| r.st != ItemState::Removed,
                );
            }
            let it = &self.items[i];
            if !matches!(it.state(), ItemState::Removed) {
                out.push(it);
                proof {
                    assert_seqs_equal!(
                        ref_models(out@),
                        ref_models(out@.drop_last()).push(item_model(self.items@[i as int])),
                    );
                }
            }
            i += 1;
        }
        proof {
            assert(self.items@.take(self.items@.len() as int) == self.items@);
        }
        out
    }

    /// Returns a mutable handle on the item at positional index `id`, if any.
    pub fn get_item_mut(&mut self, id: u64) -> (r: Option<&mut T>)
        ensures
            final(self).server == old(self).server,
            id < old(self).m().len() ==> r is Some,
            id >= old(self).m().len() ==> r is None && final(self).items@ == old(self).items@,
            r matches Some(it) ==> id < old(self).m().len() && *it == old(self).items@[id as int]
                && final(self).items@ == old(self).items@.update(id as int, *final(it)),
    {
        if id < self.items.len() as u64 {
            Some(&mut self.items[id as usize])
        } else {
            None
        }
    }

    /// Marks the item at positional index `id` removed. On a server-role
    /// collection the tombstone is dropped on the spot and ids are renumbered.
    /// Fails, changing nothing, when no such item exists or it is already
    /// removed.
    pub fn mark_removed(&mut self, id: u64) -> (r: Result<(), ()>)
        ensures
            final(self).server == old(self).server,
            match r {
                Ok(_) => {
                    &&& id < old(self).m().len()
                    &&& old(self).m()[id as int].st != ItemState::Removed
                    &&& final(self).m() == if old(self).server {
                        compact(
                            old(self).m().update(
                                id as int,
                                ItemModel { st: ItemState::Removed, ..old(self).m()[id as int] },
                            ),
                        )
                    } else {
                        old(self).m().update(
                            id as int,
                            ItemModel { st: ItemState::Removed, ..old(self).m()[id as int] },
                        )
                    }
                },
                Err(_) => {
                    &&& (id >= old(self).m().len() || old(self).m()[id as int].st
                        == ItemState::Removed)
                    &&& final(self).items@ == old(self).items@
                },
            },
    {
        if id >= self.items.len() as u64 {
            return Err(());
        }
        let idx = id as usize;
        if matches!(self.items[idx].state(), ItemState::Removed) {
            return Err(());
        }
        self.items[idx].set_state(ItemState::Removed);
        proof {
            assert_seqs_equal!(
                self.m(),
                old(self).m().update(
                    id as int,
                    ItemModel { st: ItemState::Removed, ..old(self).m()[id as int] },
                ),
            );
        }
        if self.server {
            self.retain_live();
            self.map_indices_to_ids();
        }
        Ok(())
    }

    /// The normalize sweep: drops tombstones, renumbers positional ids, and
    /// resets every surviving marker to `Unchanged`.
    pub fn sync_self(&mut self)
        ensures
            final(self).server == old(self).server,
            final(self).m() == norm(old(self).m()),
    {
        self.retain_live();
        self.map_indices_to_ids();
        let ghost mid = self.items@;
        let mut i: usize = 0;
        while i < self.items.len()
            invariant
                i <= self.items@.len(),
                self.server == old(self).server,
                self.items@.len() == mid.len(),
                models(mid) == renumber(drop_removed(old(self).m())),
                forall|j: int|
                    i <= j < self.items@.len() ==> #[trigger] self.items@[j] == mid[j],
                forall|j: int|
                    0 <= j < i ==> (#[trigger] self.items@[j]).st() == ItemState::Unchanged
                        && self.items@[j].sid() == mid[j].sid() && self.items@[j].pid()
                        == mid[j].pid() && self.items@[j].val() == mid[j].val(),
            decreases self.items@.len() - i,
        {
            let ghost pre = self.items@;
            let it = &mut self.items[i];
            it.set_state(ItemState::Unchanged);
            proof {
                assert forall|j: int| 0 <= j < self.items@.len() && j != i implies self.items@[j]
                    == pre[j] by {}
            }
            i += 1;
        }
        proof {
            let dr = drop_removed(old(self).m());
            assert(models(mid) == renumber(dr));
            assert(self.m().len() == self.items@.len());
            assert(models(mid).len() == mid.len());
            assert(renumber(dr).len() == dr.len());
            assert(mid.len() == dr.len());
            assert(norm(old(self).m()).len() == dr.len());
            assert(self.m().len() == norm(old(self).m()).len());
            assert forall|j: int| 0 <= j < self.m().len() implies self.m()[j] == norm(
                old(self).m(),
            )[j] by {
                assert(self.m()[j] == item_model(self.items@[j]));
                assert(models(mid)[j] == item_model(mid[j]));
                assert(item_model(mid[j]) == renumber(dr)[j]);
                assert(renumber(dr)[j] == (ItemModel { pid: j as u64, ..dr[j] }));
                assert(norm(old(self).m())[j] == (ItemModel {
                    pid: j as u64,
                    st: ItemState::Unchanged,
                    ..dr[j]
                }));
                assert(self.items@[j].st() == ItemState::Unchanged);
                assert(self.items@[j].sid() == mid[j].sid());
                assert(self.items@[j].pid() == mid[j].pid());
                assert(self.items@[j].val() == mid[j].val());
            }
            assert(self.m() =~= norm(old(self).m()));
        }
    }
}

/// True when some entry of `m` has the stable identity `x`.
pub open spec fn has_sid<V>(m: Seq<ItemModel<V>>, x: u64) -> bool {
    exists|i: int| 0 <= i < m.len() && m[i].sid == x
}

/// The index of the first entry of `m` with the stable identity `x`.
pub open spec fn idx_of<V>(m: Seq<ItemModel<V>>, x: u64) -> int {
    choose|i: int| 0 <= i < m.len() && m[i].sid == x
}

/// True when no two entries of `m` share a stable identity.
pub open spec fn sids_unique<V>(m: Seq<ItemModel<V>>) -> bool {
    forall|i: int, j: int| 0 <= i < j < m.len() ==> m[i].sid != m[j].sid
}

/// True when every entry of `a` marked `New` has an identity absent from `b`:
/// a `New` item has never been seen by the peer.
pub open spec fn new_items_fresh<V>(a: Seq<ItemModel<V>>, b: Seq<ItemModel<V>>) -> bool {
    forall|i: int|
        0 <= i < a.len() && a[i].st == ItemState::New ==> !has_sid(b, #[trigger] a[i].sid)
}

/// True when no entry of `m` is a tombstone. A server-role collection never
/// keeps tombstones between syncs.
pub open spec fn no_removed<V>(m: Seq<ItemModel<V>>) -> bool {
    forall|i: int| 0 <= i < m.len() ==> m[i].st != ItemState::Removed
}

/// True when `m` is the result of a normalize sweep: no tombstones, every
/// marker reset to `Unchanged`, and positional ids dense in order.
pub open spec fn normalized<V>(m: Seq<ItemModel<V>>) -> bool {
    forall|i: int|
        0 <= i < m.len() ==> m[i].st == ItemState::Unchanged && m[i].pid == i
}

/// An identity present after filtering was present before.
pub proof fn lemma_filter_has_sid<V>(
    m: Seq<ItemModel<V>>,
    p: spec_fn(ItemModel<V>) -> bool,
    x: u64,
)
    requires
        has_sid(m.filter(p), x),
    ensures
        has_sid(m, x),
    decreases m.len(),
{
    reveal(Seq::filter);
    if m.len() == 0 {
    } else {
        let fu = m.drop_last().filter(p);
        let k = choose|k: int| 0 <= k < m.filter(p).len() && m.filter(p)[k].sid == x;
        if p(m.last()) && k == m.filter(p).len() - 1 {
            assert(m[m.len() - 1].sid == x);
        } else {
            assert(fu[k].sid == x);
            lemma_filter_has_sid(m.drop_last(), p, x);
            let j = choose|j: int| 0 <= j < m.drop_last().len() && m.drop_last()[j].sid == x;
            assert(m[j].sid == x);
        }
    }
}

/// Filtering keeps identities unique.
pub proof fn lemma_filter_sids_unique<V>(m: Seq<ItemModel<V>>, p: spec_fn(ItemModel<V>) -> bool)
    requires
        sids_unique(m),
    ensures
        sids_unique(m.filter(p)),
    decreases m.len(),
{
    reveal(Seq::filter);
    if m.len() == 0 {
    } else {
        let prefix = m.drop_last();
        assert(sids_unique(prefix)) by {
            assert(forall|i: int, j: int|
                0 <= i < j < prefix.len() ==> prefix[i] == m[i] && prefix[j] == m[j]);
        }
        lemma_filter_sids_unique(prefix, p);
        if p(m.last()) {
            let fu = prefix.filter(p);
            assert forall|i: int, j: int|
                0 <= i < j < m.filter(p).len() implies m.filter(p)[i].sid != m.filter(
                p,
            )[j].sid by {
                if j < m.filter(p).len() - 1 {
                    assert(m.filter(p)[i] == fu[i] && m.filter(p)[j] == fu[j]);
                } else {
                    assert(m.filter(p)[i] == fu[i]);
                    assert(m.filter(p)[j] == m.last());
                    if fu[i].sid == m.last().sid {
                        assert(has_sid(fu, m.last().sid));
                        lemma_filter_has_sid(prefix, p, m.last().sid);
                        let q = choose|q: int|
                            0 <= q < prefix.len() && prefix[q].sid == m.last().sid;
                        assert(m[q].sid == m[m.len() - 1].sid);
                        assert(false);
                    }
                }
            }
        }
    }
}

/// In a collection with unique identities, an entry's index is the index
/// `idx_of` names for its identity.
pub proof fn lemma_unique_sid_index<V>(m: Seq<ItemModel<V>>, k: int)
    requires
        sids_unique(m),
        0 <= k < m.len(),
    ensures
        has_sid(m, m[k].sid),
        idx_of(m, m[k].sid) == k,
{
    assert(has_sid(m, m[k].sid));
    let j = idx_of(m, m[k].sid);
    assert(0 <= j < m.len() && m[j].sid == m[k].sid);
    if j != k {
        assert(false);
    }
}

/// What the merge leaves in the client collection, before normalization, for
/// one client item: an `Unchanged` item takes the server's value when the
/// server still has its identity and is tombstoned when the server dropped
/// it; items in any other state pass through.
pub open spec fn client_entry<V>(r: ItemModel<V>, s: Seq<ItemModel<V>>) -> ItemModel<V> {
    if r.st == ItemState::Unchanged {
        if has_sid(s, r.sid) {
            ItemModel { val: s[idx_of(s, r.sid)].val, ..r }
        } else {
            ItemModel { st: ItemState::Removed, ..r }
        }
    } else {
        r
    }
}

/// What the merge leaves in the server collection, before normalization, for
/// one server item: the client's marker decides. A client tombstone marks the
/// server item removed; a client edit overwrites the server item's value; a
/// client with no counterpart, or an `Unchanged` or `New` one, leaves it be.
pub open spec fn server_entry<V>(r: ItemModel<V>, c: Seq<ItemModel<V>>) -> ItemModel<V> {
    if has_sid(c, r.sid) {
        let k = idx_of(c, r.sid);
        if c[k].st == ItemState::Removed {
            ItemModel { st: ItemState::Removed, ..r }
        } else if c[k].st == ItemState::Changed {
            ItemModel { val: c[k].val, ..r }
        } else {
            r
        }
    } else {
        r
    }
}

/// The client items that the merge appends to the server, in client order:
/// `New` ones, and `Changed` ones whose identity the server no longer has,
/// each as a `New` copy.
pub open spec fn server_appends<V>(c: Seq<ItemModel<V>>, s: Seq<ItemModel<V>>) -> Seq<
    ItemModel<V>,
>
    decreases c.len(),
{
    if c.len() == 0 {
        Seq::empty()
    } else {
        let rest = server_appends(c.drop_last(), s);
        let r = c.last();
        if r.st == ItemState::New || (r.st == ItemState::Changed && !has_sid(s, r.sid)) {
            rest.push(ItemModel { st: ItemState::New, ..r })
        } else {
            rest
        }
    }
}

/// The server items that the merge appends to the client, in server order:
/// live ones whose identity the client has never seen, each as a `New` copy.
pub open spec fn client_appends<V>(c: Seq<ItemModel<V>>, s: Seq<ItemModel<V>>) -> Seq<
    ItemModel<V>,
>
    decreases s.len(),
{
    if s.len() == 0 {
        Seq::empty()
    } else {
        let rest = client_appends(c, s.drop_last());
        let r = s.last();
        if r.st != ItemState::Removed && !has_sid(c, r.sid) {
            rest.push(ItemModel { st: ItemState::New, ..r })
        } else {
            rest
        }
    }
}

/// The merged client collection, before normalization.
pub open spec fn client_after_merge<V>(c: Seq<ItemModel<V>>, s: Seq<ItemModel<V>>) -> Seq<
    ItemModel<V>,
> {
    c.map(|i: int, r: ItemModel<V>| client_entry(r, s)) + client_appends(c, s)
}

/// The merged server collection, before normalization.
pub open spec fn server_after_merge<V>(c: Seq<ItemModel<V>>, s: Seq<ItemModel<V>>) -> Seq<
    ItemModel<V>,
> {
    s.map(|j: int, r: ItemModel<V>| server_entry(r, c)) + server_appends(c, s)
}

/// The client collection that one sync leaves behind, given the client and
/// server collections it started from.
pub open spec fn client_sync_result<V>(c: Seq<ItemModel<V>>, s: Seq<ItemModel<V>>) -> Seq<
    ItemModel<V>,
> {
    norm(client_after_merge(c, s))
}

/// The server collection that one sync leaves behind, given the client and
/// server collections it started from.
pub open spec fn server_sync_result<V>(c: Seq<ItemModel<V>>, s: Seq<ItemModel<V>>) -> Seq<
    ItemModel<V>,
> {
    norm(server_after_merge(c, s))
}

impl<T: SyncItem> SyncList<T> {
    /// Runs the merge with the roles fixed: `client` is the client-side
    /// collection, `server` the server-side one.
    fn sync_impl(client: &mut SyncList<T>, server: &mut SyncList<T>)
        requires
            sids_unique(old(client).m()),
            sids_unique(old(server).m()),
        ensures
            final(client).server == old(client).server,
            final(server).server == old(server).server,
            final(client).m() == client_sync_result(old(client).m(), old(server).m()),
            final(server).m() == server_sync_result(old(client).m(), old(server).m()),
    {
        let ghost c0 = client.m();
        let ghost s0 = server.m();

        // The client entries: every client item as it stood, `Unchanged` ones
        // reconciled against the server.
        let mut new_client: Vec<T> = Vec::new();
        let mut i: usize = 0;
        while i < client.items.len()
            invariant
                i <= c0.len(),
                client.m() == c0,
                client.items@.len() == c0.len(),
                server.m() == s0,
                sids_unique(s0),
                models(new_client@).len() == i as int,
                forall|j: int|
                    0 <= j < i ==> models(new_client@)[j] == client_entry(c0[j], s0),
            decreases c0.len() - i,
        {
            let it = &client.items[i];
            proof {
                assert(item_model(client.items@[i as int]) == c0[i as int]);
            }
            let d = match it.state() {
                ItemState::Unchanged => {
                    match server.find_index_by_sync_id(it.sync_id()) {
                        Some(k) => {
                            proof {
                                lemma_unique_sid_index(s0, k as int);
                                assert(item_model(server.items@[k as int]) == s0[k as int]);
                            }
                            let mut d = it.duplicate();
                            server.items[k].update_old(&mut d);
                            d
                        },
                        None => {
                            let mut d = it.duplicate();
                            d.set_state(ItemState::Removed);
                            d
                        },
                    }
                },
                _ => it.duplicate(),
            };
            proof {
                assert(item_model(d) == client_entry(c0[i as int], s0));
            }
            let ghost pre = new_client@;
            new_client.push(d);
            proof {
                assert forall|j: int|
                    0 <= j < i + 1 implies models(new_client@)[j] == client_entry(
                    c0[j],
                    s0,
                ) by {
                    if j < i {
                        assert(new_client@[j] == pre[j]);
                        assert(models(pre)[j] == client_entry(c0[j], s0));
                    } else {
                        assert(new_client@[j] == d);
                    }
                }
            }
            i += 1;
        }

        // The server entries: every server item as it stood, reconciled against
        // the marker of its client counterpart, if any.
        let mut new_server: Vec<T> = Vec::new();
        let mut j: usize = 0;
        while j < server.items.len()
            invariant
                j <= s0.len(),
                client.m() == c0,
                client.items@.len() == c0.len(),
                server.m() == s0,
                server.items@.len() == s0.len(),
                sids_unique(c0),
                models(new_server@).len() == j as int,
                forall|jj: int|
                    0 <= jj < j ==> models(new_server@)[jj] == server_entry(s0[jj], c0),
            decreases s0.len() - j,
        {
            let sit = &server.items[j];
            proof {
                assert(item_model(server.items@[j as int]) == s0[j as int]);
            }
            let d = match client.find_index_by_sync_id(sit.sync_id()) {
                Some(k) => {
                    proof {
                        lemma_unique_sid_index(c0, k as int);
                        assert(item_model(client.items@[k as int]) == c0[k as int]);
                    }
                    match client.items[k].state() {
                        ItemState::Removed => {
                            let mut d = sit.duplicate();
                            d.set_state(ItemState::Removed);
                            d
                        },
                        ItemState::Changed => {
                            let mut d = sit.duplicate();
                            client.items[k].update_old(&mut d);
                            d
                        },
                        _ => sit.duplicate(),
                    }
                },
                None => sit.duplicate(),
            };
            proof {
                assert(item_model(d) == server_entry(s0[j as int], c0));
            }
            let ghost pre = new_server@;
            new_server.push(d);
            proof {
                assert forall|jj: int|
                    0 <= jj < j + 1 implies models(new_server@)[jj] == server_entry(
                    s0[jj],
                    c0,
                ) by {
                    if jj < j {
                        assert(new_server@[jj] == pre[jj]);
                        assert(models(pre)[jj] == server_entry(s0[jj], c0));
                    } else {
                        assert(new_server@[jj] == d);
                    }
                }
            }
            j += 1;
        }

        // Client items the server has yet to learn of: `New` ones, and
        // `Changed` ones whose identity the server dropped.
        let mut i2: usize = 0;
        while i2 < client.items.len()
            invariant
                i2 <= c0.len(),
                client.m() == c0,
                client.items@.len() == c0.len(),
                server.m() == s0,
                models(new_server@).skip(s0.len() as int) == server_appends(
                    c0.take(i2 as int),
                    s0,
                ),
                models(new_server@).len() >= s0.len(),
                models(new_server@).take(s0.len() as int) == models(new_server@).take(
                    s0.len() as int,
                ),
                models(new_server@).take(s0.len() as int) =~= s0.map(
                    |jj: int, r: ItemModel<T::Val>| server_entry(r, c0),
                ),
            decreases c0.len() - i2,
        {
            let it = &client.items[i2];
            proof {
                assert(item_model(client.items@[i2 as int]) == c0[i2 as int]);
                assert(c0.take(i2 + 1).drop_last() == c0.take(i2 as int));
                assert(c0.take(i2 + 1).last() == c0[i2 as int]);
            }
            let st = it.state();
            let append = match st {
                ItemState::New => true,
                ItemState::Changed => server.find_index_by_sync_id(it.sync_id()).is_none(),
                _ => false,
            };
            if append {
                let mut d = it.duplicate();
                d.set_state(ItemState::New);
                new_server.push(d);
                proof {
                    assert_seqs_equal!(
                        models(new_server@).skip(s0.len() as int),
                        server_appends(c0.take(i2 as int), s0)
                            .push(ItemModel { st: ItemState::New, ..c0[i2 as int] }),
                    );
                }
            }
            i2 += 1;
        }

        // Server items the client has never seen: live ones with no client
        // counterpart.
        let mut j2: usize = 0;
        while j2 < server.items.len()
            invariant
                j2 <= s0.len(),
                client.m() == c0,
                client.items@.len() == c0.len(),
                server.m() == s0,
                server.items@.len() == s0.len(),
                models(new_client@).skip(c0.len() as int) == client_appends(
                    c0,
                    s0.take(j2 as int),
                ),
                models(new_client@).len() >= c0.len(),
                models(new_client@).take(c0.len() as int) =~= c0.map(
                    |ii: int, r: ItemModel<T::Val>| client_entry(r, s0),
                ),
            decreases s0.len() - j2,
        {
            let sit = &server.items[j2];
            proof {
                assert(item_model(server.items@[j2 as int]) == s0[j2 as int]);
                assert(s0.take(j2 + 1).drop_last() == s0.take(j2 as int));
                assert(s0.take(j2 + 1).last() == s0[j2 as int]);
            }
            let live = match sit.state() {
                ItemState::Removed => false,
                _ => true,
            };
            if live && client.find_index_by_sync_id(sit.sync_id()).is_none() {
                let mut d = sit.duplicate();
                d.set_state(ItemState::New);
                new_client.push(d);
                proof {
                    assert_seqs_equal!(
                        models(new_client@).skip(c0.len() as int),
                        client_appends(c0, s0.take(j2 as int))
                            .push(ItemModel { st: ItemState::New, ..s0[j2 as int] }),
                    );
                }
            }
            j2 += 1;
        }

        proof {
            assert(c0.take(c0.len() as int) == c0);
            assert(s0.take(s0.len() as int) == s0);
        }
        client.items = new_client;
        server.items = new_server;
        proof {
            assert_seqs_equal!(client.m(), client_after_merge(c0, s0));
            assert_seqs_equal!(server.m(), server_after_merge(c0, s0));
        }
        client.sync_self();
        server.sync_self();
    }

    /// Merges this collection with a peer collection of the other role. After
    /// the merge both collections are normalized; which is reconciled as the
    /// client side depends on the roles, never on the argument order. Called
    /// from unverified code with two collections of the same role, this
    /// panics: role misuse is a usage error, not a data condition.
    pub fn sync(&mut self, other: &mut Self)
        requires
            old(self).server != old(other).server,
            sids_unique(old(self).m()),
            sids_unique(old(other).m()),
        ensures
            final(self).server == old(self).server,
            final(other).server == old(other).server,
            old(self).server ==> final(other).m() == client_sync_result(
                old(other).m(),
                old(self).m(),
            ) && final(self).m() == server_sync_result(old(other).m(), old(self).m()),
            !old(self).server ==> final(self).m() == client_sync_result(
                old(self).m(),
                old(other).m(),
            ) && final(other).m() == server_sync_result(old(self).m(), old(other).m()),
    {
        if self.server == other.server {
            return vstd::pervasive::unreached();
        }
        if self.server {
            Self::sync_impl(other, self);
        } else {
            Self::sync_impl(self, other);
        }
    }

    /// Returns a mutable handle on the first item with the given `sync_id`.
    pub fn get_item_by_sync_id(&mut self, sync_id: u64) -> (r: Option<&mut T>)
        ensures
            final(self).server == old(self).server,
            has_sid(old(self).m(), sync_id) ==> r is Some,
            !has_sid(old(self).m(), sync_id) ==> r is None && final(self).items@ == old(
                self,
            ).items@,
            r matches Some(it) ==> exists|k: int|
                {
                    &&& 0 <= k < old(self).items@.len()
                    &&& old(self).m()[k].sid == sync_id
                    &&& forall|j: int| 0 <= j < k ==> old(self).m()[j].sid != sync_id
                    &&& *it == old(self).items@[k]
                    &&& final(self).items@ == old(self).items@.update(k, *final(it))
                },
    {
        match self.find_index_by_sync_id(sync_id) {
            Some(k) => {
                let r = &mut self.items[k];
                Some(r)
            },
            None => None,
        }
    }
}

/// True when `m` holds an entry with identity `x` and value `v`.
pub open spec fn present_with<V>(m: Seq<ItemModel<V>>, x: u64, v: V) -> bool {
    exists|i: int| 0 <= i < m.len() && m[i].sid == x && m[i].val == v
}

/// An entry of a filtered sequence is an entry of the source.
pub proof fn lemma_filter_source<A>(s: Seq<A>, p: spec_fn(A) -> bool, j: int)
    requires
        0 <= j < s.filter(p).len(),
    ensures
        exists|i: int| 0 <= i < s.len() && s[i] == s.filter(p)[j],
    decreases s.len(),
{
    reveal(Seq::filter);
    if s.len() == 0 {
    } else {
        let fu = s.drop_last().filter(p);
        if p(s.last()) && j == s.filter(p).len() - 1 {
            assert(s[s.len() - 1] == s.filter(p)[j]);
        } else {
            assert(s.filter(p)[j] == fu[j]);
            lemma_filter_source(s.drop_last(), p, j);
            let i = choose|i: int| 0 <= i < s.drop_last().len() && s.drop_last()[i] == fu[j];
            assert(s[i] == s.filter(p)[j]);
        }
    }
}

/// A live entry survives the normalize sweep with its identity and value.
pub proof fn lemma_norm_present<V>(m: Seq<ItemModel<V>>, i: int)
    requires
        0 <= i < m.len(),
        m[i].st != ItemState::Removed,
    ensures
        present_with(norm(m), m[i].sid, m[i].val),
{
    let p = |r: ItemModel<V>| r.st != ItemState::Removed;
    m.lemma_filter_contains(p, i);
    let j = choose|j: int| 0 <= j < m.filter(p).len() && m.filter(p)[j] == m[i];
    assert(norm(m)[j].sid == m[i].sid && norm(m)[j].val == m[i].val);
}

/// An identity carried only by tombstones is gone after the normalize sweep.
pub proof fn lemma_norm_absent<V>(m: Seq<ItemModel<V>>, x: u64)
    requires
        forall|i: int| 0 <= i < m.len() && #[trigger] m[i].sid == x ==> m[i].st == ItemState::Removed,
    ensures
        !has_sid(norm(m), x),
{
    let p = |r: ItemModel<V>| r.st != ItemState::Removed;
    assert forall|j: int| 0 <= j < norm(m).len() implies #[trigger] norm(m)[j].sid != x by {
        assert(norm(m)[j].sid == m.filter(p)[j].sid);
        lemma_filter_source(m, p, j);
        let i = choose|i: int| 0 <= i < m.len() && m[i] == m.filter(p)[j];
        m.lemma_filter_pred(p, j);
        if m[i].sid == x {
            assert(m[i].st == ItemState::Removed);
        }
    }
}

/// A client item owed to the server (a `New` one, or a `Changed` one whose
/// identity the server dropped) stands in the merge's server-side appends.
pub proof fn lemma_server_appends_mem<V>(c: Seq<ItemModel<V>>, s: Seq<ItemModel<V>>, k: int)
    requires
        0 <= k < c.len(),
        c[k].st == ItemState::New || (c[k].st == ItemState::Changed && !has_sid(s, c[k].sid)),
    ensures
        exists|j: int|
            0 <= j < server_appends(c, s).len() && server_appends(c, s)[j].sid == c[k].sid
                && #[trigger] server_appends(c, s)[j].val == c[k].val && server_appends(
                c,
                s,
            )[j].st == ItemState::New,
    decreases c.len(),
{
    if k == c.len() - 1 {
        let j = server_appends(c.drop_last(), s).len() as int;
        assert(server_appends(c, s)[j].val == c[k].val);
    } else {
        lemma_server_appends_mem(c.drop_last(), s, k);
        let rest = server_appends(c.drop_last(), s);
        let j = choose|j: int|
            0 <= j < rest.len() && rest[j].sid == c[k].sid && #[trigger] rest[j].val == c[k].val
                && rest[j].st == ItemState::New;
        assert(server_appends(c, s)[j].val == c[k].val);
    }
}

/// Every merge server-side append comes from a client item owed to the
/// server, with its identity and value.
pub proof fn lemma_server_appends_src<V>(c: Seq<ItemModel<V>>, s: Seq<ItemModel<V>>, j: int)
    requires
        0 <= j < server_appends(c, s).len(),
    ensures
        exists|k: int|
            0 <= k < c.len() && (#[trigger] c[k].sid) == server_appends(c, s)[j].sid && c[k].val
                == server_appends(c, s)[j].val && (c[k].st == ItemState::New || (c[k].st
                == ItemState::Changed && !has_sid(s, c[k].sid))),
    decreases c.len(),
{
    if c.len() == 0 {
    } else {
        let rest = server_appends(c.drop_last(), s);
        let r = c.last();
        if (r.st == ItemState::New || (r.st == ItemState::Changed && !has_sid(s, r.sid))) && j
            == rest.len() {
            assert(c[c.len() - 1].sid == server_appends(c, s)[j].sid);
        } else {
            lemma_server_appends_src(c.drop_last(), s, j);
            let k = choose|k: int|
                0 <= k < c.drop_last().len() && (#[trigger] c.drop_last()[k].sid) == rest[j].sid
                    && c.drop_last()[k].val == rest[j].val && (c.drop_last()[k].st
                    == ItemState::New || (c.drop_last()[k].st == ItemState::Changed && !has_sid(
                    s,
                    c.drop_last()[k].sid,
                )));
            assert(c[k].sid == server_appends(c, s)[j].sid);
        }
    }
}

/// A live server item the client has never seen stands in the merge's
/// client-side appends.
pub proof fn lemma_client_appends_mem<V>(c: Seq<ItemModel<V>>, s: Seq<ItemModel<V>>, j: int)
    requires
        0 <= j < s.len(),
        s[j].st != ItemState::Removed,
        !has_sid(c, s[j].sid),
    ensures
        exists|i: int|
            0 <= i < client_appends(c, s).len() && client_appends(c, s)[i].sid == s[j].sid
                && #[trigger] client_appends(c, s)[i].val == s[j].val && client_appends(
                c,
                s,
            )[i].st == ItemState::New,
    decreases s.len(),
{
    if j == s.len() - 1 {
        let i = client_appends(c, s.drop_last()).len() as int;
        assert(client_appends(c, s)[i].val == s[j].val);
    } else {
        lemma_client_appends_mem(c, s.drop_last(), j);
        let rest = client_appends(c, s.drop_last());
        let i = choose|i: int|
            0 <= i < rest.len() && rest[i].sid == s[j].sid && #[trigger] rest[i].val == s[j].val
                && rest[i].st == ItemState::New;
        assert(client_appends(c, s)[i].val == s[j].val);
    }
}

/// Every merge client-side append comes from a live server item the client
/// has never seen, with its identity and value.
pub proof fn lemma_client_appends_src<V>(c: Seq<ItemModel<V>>, s: Seq<ItemModel<V>>, i: int)
    requires
        0 <= i < client_appends(c, s).len(),
    ensures
        exists|j: int|
            0 <= j < s.len() && (#[trigger] s[j].sid) == client_appends(c, s)[i].sid && s[j].val
                == client_appends(c, s)[i].val && s[j].st != ItemState::Removed && !has_sid(
                c,
                s[j].sid,
            ),
    decreases s.len(),
{
    if s.len() == 0 {
    } else {
        let rest = client_appends(c, s.drop_last());
        let r = s.last();
        if r.st != ItemState::Removed && !has_sid(c, r.sid) && i == rest.len() {
            assert(s[s.len() - 1].sid == client_appends(c, s)[i].sid);
        } else {
            lemma_client_appends_src(c, s.drop_last(), i);
            let j = choose|j: int|
                0 <= j < s.drop_last().len() && (#[trigger] s.drop_last()[j].sid) == rest[i].sid
                    && s.drop_last()[j].val == rest[i].val && s.drop_last()[j].st
                    != ItemState::Removed && !has_sid(c, s.drop_last()[j].sid);
            assert(s[j].sid == client_appends(c, s)[i].sid);
        }
    }
}

/// The preconditions under which one sync's outcome is characterized per
/// item: roles aside, each side's identities are unique, a `New` item's
/// identity is unknown to the peer, and the server side holds no tombstones.
pub open spec fn merge_pre<V>(c: Seq<ItemModel<V>>, s: Seq<ItemModel<V>>) -> bool {
    &&& sids_unique(c)
    &&& sids_unique(s)
    &&& new_items_fresh(c, s)
    &&& new_items_fresh(s, c)
    &&& no_removed(s)
}

/// Law: adding an item and syncing puts a value-equal item on both sides. A
/// client item marked `New` is present, with its value, in both collections a
/// sync leaves behind.
pub proof fn lemma_new_item_propagates<V>(c: Seq<ItemModel<V>>, s: Seq<ItemModel<V>>, k: int)
    requires
        merge_pre(c, s),
        0 <= k < c.len(),
        c[k].st == ItemState::New,
    ensures
        present_with(client_sync_result(c, s), c[k].sid, c[k].val),
        present_with(server_sync_result(c, s), c[k].sid, c[k].val),
{
    let ca = client_after_merge(c, s);
    assert(ca[k] == client_entry(c[k], s));
    assert(ca[k].sid == c[k].sid && ca[k].val == c[k].val && ca[k].st == ItemState::New);
    lemma_norm_present(ca, k);

    lemma_server_appends_mem(c, s, k);
    let sa = server_after_merge(c, s);
    let j = choose|j: int|
        0 <= j < server_appends(c, s).len() && server_appends(c, s)[j].sid == c[k].sid
            && #[trigger] server_appends(c, s)[j].val == c[k].val && server_appends(c, s)[j].st
            == ItemState::New;
    assert(sa[s.len() + j] == server_appends(c, s)[j]);
    lemma_norm_present(sa, s.len() + j);
}

/// Law: removing an item and syncing removes its identity from both sides. A
/// client tombstone's identity is absent from both collections a sync leaves
/// behind.
pub proof fn lemma_removal_propagates<V>(c: Seq<ItemModel<V>>, s: Seq<ItemModel<V>>, k: int)
    requires
        merge_pre(c, s),
        0 <= k < c.len(),
        c[k].st == ItemState::Removed,
    ensures
        !has_sid(client_sync_result(c, s), c[k].sid),
        !has_sid(server_sync_result(c, s), c[k].sid),
{
    let x = c[k].sid;
    let ca = client_after_merge(c, s);
    assert forall|i: int| 0 <= i < ca.len() && #[trigger] ca[i].sid == x implies ca[i].st
        == ItemState::Removed by {
        if i < c.len() {
            assert(ca[i] == client_entry(c[i], s));
            assert(c[i].sid == x);
            if i != k {
                assert(false);
            }
        } else {
            let j = i - c.len();
            assert(ca[i] == client_appends(c, s)[j]);
            lemma_client_appends_src(c, s, j);
            assert(false);
        }
    }
    lemma_norm_absent(ca, x);

    let sa = server_after_merge(c, s);
    assert forall|i: int| 0 <= i < sa.len() && #[trigger] sa[i].sid == x implies sa[i].st
        == ItemState::Removed by {
        if i < s.len() {
            assert(sa[i] == server_entry(s[i], c));
            assert(s[i].sid == x);
            assert(has_sid(c, x));
            lemma_unique_sid_index(c, k);
            assert(idx_of(c, x) == k);
        } else {
            let j = i - s.len();
            assert(sa[i] == server_appends(c, s)[j]);
            lemma_server_appends_src(c, s, j);
            let k2 = choose|k2: int|
                0 <= k2 < c.len() && (#[trigger] c[k2].sid) == server_appends(c, s)[j].sid
                    && c[k2].val == server_appends(c, s)[j].val && (c[k2].st == ItemState::New
                    || (c[k2].st == ItemState::Changed && !has_sid(s, c[k2].sid)));
            if k2 != k {
                assert(false);
            }
            assert(false);
        }
    }
    lemma_norm_absent(sa, x);
}

/// Law: an edit wins over a peer that has not touched the item. A client item
/// marked `Changed` is present, with the client's value, in both collections
/// a sync leaves behind.
pub proof fn lemma_edit_wins<V>(c: Seq<ItemModel<V>>, s: Seq<ItemModel<V>>, k: int)
    requires
        merge_pre(c, s),
        0 <= k < c.len(),
        c[k].st == ItemState::Changed,
    ensures
        present_with(client_sync_result(c, s), c[k].sid, c[k].val),
        present_with(server_sync_result(c, s), c[k].sid, c[k].val),
{
    let x = c[k].sid;
    let ca = client_after_merge(c, s);
    assert(ca[k] == client_entry(c[k], s));
    lemma_norm_present(ca, k);

    let sa = server_after_merge(c, s);
    if has_sid(s, x) {
        let j = idx_of(s, x);
        assert(0 <= j < s.len() && s[j].sid == x);
        assert(sa[j] == server_entry(s[j], c));
        lemma_unique_sid_index(c, k);
        assert(sa[j].val == c[k].val && sa[j].st == s[j].st);
        assert(s[j].st != ItemState::Removed);
        lemma_norm_present(sa, j);
    } else {
        lemma_server_appends_mem(c, s, k);
        let j = choose|j: int|
            0 <= j < server_appends(c, s).len() && server_appends(c, s)[j].sid == c[k].sid
                && #[trigger] server_appends(c, s)[j].val == c[k].val && server_appends(
                c,
                s,
            )[j].st == ItemState::New;
        assert(sa[s.len() + j] == server_appends(c, s)[j]);
        lemma_norm_present(sa, s.len() + j);
    }
}

/// Law: an untouched item follows the server. A client item marked
/// `Unchanged` whose identity the server still has is present, with the
/// server's value, in both collections a sync leaves behind; one whose
/// identity the server dropped is absent from both.
pub proof fn lemma_unchanged_follows_server<V>(
    c: Seq<ItemModel<V>>,
    s: Seq<ItemModel<V>>,
    k: int,
)
    requires
        merge_pre(c, s),
        0 <= k < c.len(),
        c[k].st == ItemState::Unchanged,
    ensures
        has_sid(s, c[k].sid) ==> present_with(
            client_sync_result(c, s),
            c[k].sid,
            s[idx_of(s, c[k].sid)].val,
        ) && present_with(server_sync_result(c, s), c[k].sid, s[idx_of(s, c[k].sid)].val),
        !has_sid(s, c[k].sid) ==> !has_sid(client_sync_result(c, s), c[k].sid) && !has_sid(
            server_sync_result(c, s),
            c[k].sid,
        ),
{
    let x = c[k].sid;
    let ca = client_after_merge(c, s);
    let sa = server_after_merge(c, s);
    if has_sid(s, x) {
        let j = idx_of(s, x);
        assert(0 <= j < s.len() && s[j].sid == x);
        assert(ca[k] == client_entry(c[k], s));
        assert(ca[k].val == s[j].val && ca[k].st == ItemState::Unchanged);
        lemma_norm_present(ca, k);
        assert(sa[j] == server_entry(s[j], c));
        lemma_unique_sid_index(c, k);
        assert(sa[j] == s[j]);
        assert(s[j].st != ItemState::Removed);
        lemma_norm_present(sa, j);
    } else {
        assert forall|i: int| 0 <= i < ca.len() && #[trigger] ca[i].sid == x implies ca[i].st
            == ItemState::Removed by {
            if i < c.len() {
                assert(ca[i] == client_entry(c[i], s));
                assert(c[i].sid == x);
                if i != k {
                    assert(false);
                }
            } else {
                let j = i - c.len();
                assert(ca[i] == client_appends(c, s)[j]);
                lemma_client_appends_src(c, s, j);
                let j2 = choose|j2: int|
                    0 <= j2 < s.len() && (#[trigger] s[j2].sid) == client_appends(c, s)[j].sid
                        && s[j2].val == client_appends(c, s)[j].val && s[j2].st
                        != ItemState::Removed && !has_sid(c, s[j2].sid);
                assert(s[j2].sid == x);
                assert(false);
            }
        }
        lemma_norm_absent(ca, x);
        assert forall|i: int| 0 <= i < sa.len() && #[trigger] sa[i].sid == x implies sa[i].st
            == ItemState::Removed by {
            if i < s.len() {
                assert(sa[i] == server_entry(s[i], c));
                assert(s[i].sid == x);
                assert(false);
            } else {
                let j = i - s.len();
                assert(sa[i] == server_appends(c, s)[j]);
                lemma_server_appends_src(c, s, j);
                let k2 = choose|k2: int|
                    0 <= k2 < c.len() && (#[trigger] c[k2].sid) == server_appends(c, s)[j].sid
                        && c[k2].val == server_appends(c, s)[j].val && (c[k2].st
                        == ItemState::New || (c[k2].st == ItemState::Changed && !has_sid(
                        s,
                        c[k2].sid,
                    )));
                if k2 != k {
                    assert(false);
                }
                assert(false);
            }
        }
        lemma_norm_absent(sa, x);
    }
}

/// Law: a live server item the client has never seen is present, with its
/// value, in both collections a sync leaves behind.
pub proof fn lemma_server_item_propagates<V>(c: Seq<ItemModel<V>>, s: Seq<ItemModel<V>>, j: int)
    requires
        merge_pre(c, s),
        0 <= j < s.len(),
        !has_sid(c, s[j].sid),
    ensures
        present_with(client_sync_result(c, s), s[j].sid, s[j].val),
        present_with(server_sync_result(c, s), s[j].sid, s[j].val),
{
    let ca = client_after_merge(c, s);
    let sa = server_after_merge(c, s);
    assert(s[j].st != ItemState::Removed);
    lemma_client_appends_mem(c, s, j);
    let i = choose|i: int|
        0 <= i < client_appends(c, s).len() && client_appends(c, s)[i].sid == s[j].sid
            && #[trigger] client_appends(c, s)[i].val == s[j].val && client_appends(c, s)[i].st
            == ItemState::New;
    assert(ca[c.len() + i] == client_appends(c, s)[i]);
    lemma_norm_present(ca, c.len() + i);
    assert(sa[j] == server_entry(s[j], c));
    assert(sa[j] == s[j]);
    lemma_norm_present(sa, j);
}

/// An identity present after the normalize sweep was present before it.
pub proof fn lemma_norm_source<V>(m: Seq<ItemModel<V>>, x: u64)
    requires
        has_sid(norm(m), x),
    ensures
        has_sid(m, x),
{
    let p = |r: ItemModel<V>| r.st != ItemState::Removed;
    let j = choose|j: int| 0 <= j < norm(m).len() && norm(m)[j].sid == x;
    assert(norm(m)[j].sid == m.filter(p)[j].sid);
    lemma_filter_source(m, p, j);
    let i = choose|i: int| 0 <= i < m.len() && m[i] == m.filter(p)[j];
    assert(m[i].sid == x);
}

/// Law: a sync invents no items. Every identity present in either collection
/// a sync leaves behind was present in one of the two collections it started
/// from.
pub proof fn lemma_no_invented_items<V>(c: Seq<ItemModel<V>>, s: Seq<ItemModel<V>>, x: u64)
    ensures
        has_sid(client_sync_result(c, s), x) ==> has_sid(c, x) || has_sid(s, x),
        has_sid(server_sync_result(c, s), x) ==> has_sid(c, x) || has_sid(s, x),
{
    if has_sid(client_sync_result(c, s), x) {
        let ca = client_after_merge(c, s);
        lemma_norm_source(ca, x);
        let i = choose|i: int| 0 <= i < ca.len() && ca[i].sid == x;
        if i < c.len() {
            assert(ca[i] == client_entry(c[i], s));
            assert(c[i].sid == x);
        } else {
            let j = i - c.len();
            assert(ca[i] == client_appends(c, s)[j]);
            lemma_client_appends_src(c, s, j);
        }
    }
    if has_sid(server_sync_result(c, s), x) {
        let sa = server_after_merge(c, s);
        lemma_norm_source(sa, x);
        let i = choose|i: int| 0 <= i < sa.len() && sa[i].sid == x;
        if i < s.len() {
            assert(sa[i] == server_entry(s[i], c));
            assert(s[i].sid == x);
        } else {
            let j = i - s.len();
            assert(sa[i] == server_appends(c, s)[j]);
            lemma_server_appends_src(c, s, j);
        }
    }
}

/// The merge's client-side appends carry pairwise distinct identities, none
/// of them known to the client.
proof fn lemma_client_appends_unique<V>(c: Seq<ItemModel<V>>, s: Seq<ItemModel<V>>)
    requires
        sids_unique(s),
    ensures
        sids_unique(client_appends(c, s)),
        forall|i: int|
            0 <= i < client_appends(c, s).len() ==> !has_sid(
                c,
                #[trigger] client_appends(c, s)[i].sid,
            ),
    decreases s.len(),
{
    if s.len() == 0 {
    } else {
        assert(sids_unique(s.drop_last())) by {
            assert(forall|i: int, j: int|
                0 <= i < j < s.drop_last().len() ==> s.drop_last()[i] == s[i]
                    && s.drop_last()[j] == s[j]);
        }
        lemma_client_appends_unique(c, s.drop_last());
        let rest = client_appends(c, s.drop_last());
        let r = s.last();
        if r.st != ItemState::Removed && !has_sid(c, r.sid) {
            assert forall|i: int| 0 <= i < rest.len() implies (#[trigger] rest[i]).sid
                != r.sid by {
                lemma_client_appends_src(c, s.drop_last(), i);
                let j = choose|j: int|
                    0 <= j < s.drop_last().len() && (#[trigger] s.drop_last()[j].sid)
                        == rest[i].sid && s.drop_last()[j].val == rest[i].val
                        && s.drop_last()[j].st != ItemState::Removed && !has_sid(
                        c,
                        s.drop_last()[j].sid,
                    );
                if s[j].sid == s[s.len() - 1].sid {
                    assert(false);
                }
            }
        }
    }
}

/// The merge's server-side appends carry pairwise distinct identities, none
/// of them known to the server.
proof fn lemma_server_appends_unique<V>(c: Seq<ItemModel<V>>, s: Seq<ItemModel<V>>)
    requires
        sids_unique(c),
        new_items_fresh(c, s),
    ensures
        sids_unique(server_appends(c, s)),
        forall|i: int|
            0 <= i < server_appends(c, s).len() ==> !has_sid(
                s,
                #[trigger] server_appends(c, s)[i].sid,
            ),
    decreases c.len(),
{
    if c.len() == 0 {
    } else {
        assert(sids_unique(c.drop_last())) by {
            assert(forall|i: int, j: int|
                0 <= i < j < c.drop_last().len() ==> c.drop_last()[i] == c[i]
                    && c.drop_last()[j] == c[j]);
        }
        assert(new_items_fresh(c.drop_last(), s)) by {
            assert(forall|i: int|
                0 <= i < c.drop_last().len() ==> c.drop_last()[i] == c[i]);
        }
        lemma_server_appends_unique(c.drop_last(), s);
        let rest = server_appends(c.drop_last(), s);
        let r = c.last();
        if r.st == ItemState::New || (r.st == ItemState::Changed && !has_sid(s, r.sid)) {
            assert(!has_sid(s, r.sid));
            assert forall|i: int| 0 <= i < rest.len() implies (#[trigger] rest[i]).sid
                != r.sid by {
                lemma_server_appends_src(c.drop_last(), s, i);
                let k = choose|k: int|
                    0 <= k < c.drop_last().len() && (#[trigger] c.drop_last()[k].sid)
                        == rest[i].sid && c.drop_last()[k].val == rest[i].val && (
                    c.drop_last()[k].st == ItemState::New || (c.drop_last()[k].st
                        == ItemState::Changed && !has_sid(s, c.drop_last()[k].sid)));
                if c[k].sid == c[c.len() - 1].sid {
                    assert(false);
                }
            }
        }
    }
}

/// The normalize sweep keeps identities unique.
pub proof fn lemma_norm_sids_unique<V>(m: Seq<ItemModel<V>>)
    requires
        sids_unique(m),
    ensures
        sids_unique(norm(m)),
{
    let p = |r: ItemModel<V>| r.st != ItemState::Removed;
    lemma_filter_sids_unique(m, p);
    assert forall|i: int, j: int|
        0 <= i < j < norm(m).len() implies norm(m)[i].sid != norm(m)[j].sid by {
        assert(norm(m)[i].sid == m.filter(p)[i].sid);
        assert(norm(m)[j].sid == m.filter(p)[j].sid);
    }
}

/// Both collections a sync leaves behind carry each identity at most once.
pub proof fn lemma_sync_results_unique<V>(c: Seq<ItemModel<V>>, s: Seq<ItemModel<V>>)
    requires
        merge_pre(c, s),
    ensures
        sids_unique(client_sync_result(c, s)),
        sids_unique(server_sync_result(c, s)),
{
    let ca = client_after_merge(c, s);
    lemma_client_appends_unique(c, s);
    assert forall|i: int, j: int| 0 <= i < j < ca.len() implies ca[i].sid != ca[j].sid by {
        if j < c.len() {
            assert(ca[i] == client_entry(c[i], s) && ca[j] == client_entry(c[j], s));
        } else if i < c.len() {
            assert(ca[i] == client_entry(c[i], s));
            assert(ca[j] == client_appends(c, s)[j - c.len()]);
            assert(!has_sid(c, client_appends(c, s)[j - c.len()].sid));
            if ca[i].sid == ca[j].sid {
                assert(c[i].sid == ca[j].sid);
                assert(false);
            }
        } else {
            assert(ca[i] == client_appends(c, s)[i - c.len()]);
            assert(ca[j] == client_appends(c, s)[j - c.len()]);
        }
    }
    lemma_norm_sids_unique(ca);

    let sa = server_after_merge(c, s);
    lemma_server_appends_unique(c, s);
    assert forall|i: int, j: int| 0 <= i < j < sa.len() implies sa[i].sid != sa[j].sid by {
        if j < s.len() {
            assert(sa[i] == server_entry(s[i], c) && sa[j] == server_entry(s[j], c));
        } else if i < s.len() {
            assert(sa[i] == server_entry(s[i], c));
            assert(sa[j] == server_appends(c, s)[j - s.len()]);
            assert(!has_sid(s, server_appends(c, s)[j - s.len()].sid));
            if sa[i].sid == sa[j].sid {
                assert(s[i].sid == sa[j].sid);
                assert(false);
            }
        } else {
            assert(sa[i] == server_appends(c, s)[i - s.len()]);
            assert(sa[j] == server_appends(c, s)[j - s.len()]);
        }
    }
    lemma_norm_sids_unique(sa);
}

/// The value that one sync settles on for the identity `x`: the client's for
/// an item the client created or edited, the server's everywhere else.
pub open spec fn merged_val<V>(c: Seq<ItemModel<V>>, s: Seq<ItemModel<V>>, x: u64) -> V {
    if has_sid(c, x) && c[idx_of(c, x)].st != ItemState::Unchanged {
        c[idx_of(c, x)].val
    } else {
        s[idx_of(s, x)].val
    }
}

/// An identity present in either collection a sync leaves behind is present
/// in both, carrying the merged value.
proof fn lemma_sid_in_results<V>(c: Seq<ItemModel<V>>, s: Seq<ItemModel<V>>, x: u64)
    requires
        merge_pre(c, s),
        has_sid(client_sync_result(c, s), x) || has_sid(server_sync_result(c, s), x),
    ensures
        present_with(client_sync_result(c, s), x, merged_val(c, s, x)),
        present_with(server_sync_result(c, s), x, merged_val(c, s, x)),
{
    lemma_no_invented_items(c, s, x);
    if has_sid(c, x) {
        let k = idx_of(c, x);
        assert(0 <= k < c.len() && c[k].sid == x);
        match c[k].st {
            ItemState::New => {
                lemma_new_item_propagates(c, s, k);
            },
            ItemState::Removed => {
                lemma_removal_propagates(c, s, k);
                assert(false);
            },
            ItemState::Unchanged => {
                lemma_unchanged_follows_server(c, s, k);
                if !has_sid(s, x) {
                    assert(false);
                }
            },
            ItemState::Changed => {
                lemma_edit_wins(c, s, k);
            },
        }
    } else {
        let j = idx_of(s, x);
        assert(0 <= j < s.len() && s[j].sid == x);
        lemma_server_item_propagates(c, s, j);
    }
}

/// Law (convergence): after one sync both collections hold exactly the same
/// identities, each once, and for each identity the same mutable-field value.
pub proof fn lemma_sync_converges<V>(c: Seq<ItemModel<V>>, s: Seq<ItemModel<V>>)
    requires
        merge_pre(c, s),
    ensures
        sids_unique(client_sync_result(c, s)),
        sids_unique(server_sync_result(c, s)),
        forall|x: u64| has_sid(client_sync_result(c, s), x) <==> has_sid(
            server_sync_result(c, s),
            x,
        ),
        forall|i: int, j: int|
            0 <= i < client_sync_result(c, s).len() && 0 <= j < server_sync_result(c, s).len()
                && (#[trigger] client_sync_result(c, s)[i]).sid == (#[trigger] server_sync_result(
                c,
                s,
            )[j]).sid ==> client_sync_result(c, s)[i].val == server_sync_result(c, s)[j].val,
{
    let cr = client_sync_result(c, s);
    let sr = server_sync_result(c, s);
    lemma_sync_results_unique(c, s);
    assert forall|x: u64| has_sid(cr, x) <==> has_sid(sr, x) by {
        if has_sid(cr, x) || has_sid(sr, x) {
            lemma_sid_in_results(c, s, x);
        }
    }
    assert forall|i: int, j: int|
        0 <= i < cr.len() && 0 <= j < sr.len() && (#[trigger] cr[i]).sid == (#[trigger] sr[j]).sid
            implies cr[i].val == sr[j].val by {
        let x = cr[i].sid;
        assert(has_sid(cr, x));
        lemma_sid_in_results(c, s, x);
        let v = merged_val(c, s, x);
        let i2 = choose|i2: int| 0 <= i2 < cr.len() && cr[i2].sid == x && cr[i2].val == v;
        if i2 != i {
            assert(false);
        }
        let j2 = choose|j2: int| 0 <= j2 < sr.len() && sr[j2].sid == x && sr[j2].val == v;
        if j2 != j {
            assert(false);
        }
    }
}

/// Law: the collections a sync leaves behind are normalized, and the
/// normalize sweep is idempotent: running it on its own output changes
/// nothing.
pub proof fn lemma_norm_idempotent<V>(m: Seq<ItemModel<V>>)
    requires
        m.len() <= u64::MAX,
    ensures
        normalized(norm(m)),
        norm(norm(m)) == norm(m),
{
    let p = |r: ItemModel<V>| r.st != ItemState::Removed;
    let nm = norm(m);
    m.lemma_filter_len(p);
    assert forall|i: int| 0 <= i < nm.len() implies (#[trigger] nm[i]).st == ItemState::Unchanged
        && nm[i].pid == i by {
        assert(nm[i].pid == i as u64);
    }
    assert forall|i: int| 0 <= i < nm.len() implies p(#[trigger] nm[i]) by {}
    lemma_filter_all(nm, p);
    assert(drop_removed(nm) == nm);
    assert_seqs_equal!(norm(nm), nm);
}

/// Filtering keeps a sequence whole when every entry passes.
pub proof fn lemma_filter_all<A>(s: Seq<A>, p: spec_fn(A) -> bool)
    requires
        forall|i: int| 0 <= i < s.len() ==> p(#[trigger] s[i]),
    ensures
        s.filter(p) == s,
    decreases s.len(),
{
    reveal(Seq::filter);
    if s.len() == 0 {
        assert(s.filter(p) =~= s);
    } else {
        assert(forall|i: int|
            0 <= i < s.drop_last().len() ==> p(#[trigger] s.drop_last()[i]));
        lemma_filter_all(s.drop_last(), p);
        assert(p(s.last()));
        assert(s.filter(p) == s.drop_last() + seq![s.last()]);
        assert(s.drop_last() + seq![s.last()] =~= s);
    }
}

} // verus!
