//! The watcher's bookkeeping of the items it follows.
use vstd::prelude::*;

use super::model::{same_id, ItemId};
use crate::text::str_eq;

verus! {

broadcast use vstd::string::group_string_axioms;

/// Whether a `NameOwnerChanged` signal says that `name` lost its owner, rather
/// than passed to a new one or concerned another name.
pub fn name_owner_lost(args: &(String, String, String), name: &str) -> (r: bool)
    ensures
        r == (args.0@ == name@ && args.2@.len() == 0),
{
    str_eq(args.0.as_str(), name) && args.2.as_str().is_empty()
}

/// Whether the next owner change of an item's bus name reports that the name
/// lost its owner: an ended stream of changes is not a loss.
pub fn owner_was_lost<T>(change: Option<Option<T>>) -> (r: bool)
    ensures
        r == (change matches Some(c) && c is None),
{
    match change {
        Some(None) => true,
        _ => false,
    }
}

// ---------------------------------------------------------------------------
// Started items
// ---------------------------------------------------------------------------
/// An item the watcher follows: the generation of its worker, the bus name
/// that owns it when known, and what the watcher keeps for it.
pub struct StartedItem<T> {
    pub id: ItemId,
    pub generation: u64,
    pub owner: Option<String>,
    pub data: T,
}

/// The items the watcher follows, each id at most once. A worker knows its
/// item by id and generation, so a worker of an item that was removed and
/// started again cannot touch the new registration.
pub struct StartedItems<T> {
    items: Vec<StartedItem<T>>,
    next_generation: u64,
}

/// Ids occur at most once.
pub open spec fn distinct_ids<T>(items: Seq<StartedItem<T>>) -> bool {
    forall|i: int, j: int|
        0 <= i < items.len() && 0 <= j < items.len() && i != j ==> !same_id(
            #[trigger] items[i].id,
            #[trigger] items[j].id,
        )
}

/// Where the item with id `id` is.
pub open spec fn position<T>(items: Seq<StartedItem<T>>, id: ItemId, k: int) -> bool {
    0 <= k < items.len() && same_id(items[k].id, id)
}

/// Whether the item with id `id` is followed by the worker of `generation`.
pub open spec fn current<T>(items: Seq<StartedItem<T>>, id: ItemId, generation: u64) -> bool {
    exists|k: int| #[trigger] position(items, id, k) && items[k].generation == generation
}

/// How an owner change leaves an item: served by the changed name, it is
/// stopped when the name lost its owner and otherwise takes the new owner
/// and is refreshed; other items stay as they are.
pub open spec fn changed_owner<T>(
    before: StartedItem<T>,
    after: StartedItem<T>,
    change: (String, String, String),
    stopped: bool,
    refreshed: bool,
) -> bool {
    let served = before.id.service@ == change.0@;
    let lost = served && change.2@.len() == 0;
    &&& after.id == before.id
    &&& after.generation == before.generation
    &&& after.data == before.data
    &&& after.owner == if served && !lost {
        Some(change.2)
    } else {
        before.owner
    }
    &&& stopped == lost
    &&& refreshed == (served && !lost)
}

proof fn lemma_push_contains(s: Seq<usize>, v: usize, x: usize)
    ensures
        s.push(v).contains(x) == (s.contains(x) || x == v),
{
    if s.contains(x) {
        let j = choose|j: int| 0 <= j < s.len() && s[j] == x;
        assert(s.push(v)[j] == x);
    }
    if x == v {
        assert(s.push(v)[s.len() as int] == x);
    }
    if s.push(v).contains(x) {
        let j = choose|j: int| 0 <= j < s.len() + 1 && s.push(v)[j] == x;
        if j < s.len() {
            assert(s[j] == x);
        }
    }
}

/// Whether an item signal from `sender` on object `path` concerns `item`.
pub open spec fn signalled_by<T>(item: StartedItem<T>, path: Seq<char>, sender: Seq<char>) -> bool {
    &&& item.id.path@ == path
    &&& item.owner matches Some(o) && o@ == sender
}

impl<T> StartedItems<T> {
    pub closed spec fn entries(&self) -> Seq<StartedItem<T>> {
        self.items@
    }

    pub closed spec fn last_generation(&self) -> u64 {
        self.next_generation
    }

    pub open spec fn wf(&self) -> bool {
        distinct_ids(self.entries())
    }

    pub fn new() -> (r: Self)
        ensures
            r.wf(),
            r.entries().len() == 0,
            r.last_generation() == 0,
    {
        StartedItems { items: Vec::new(), next_generation: 0 }
    }

    fn find(&self, id: &ItemId) -> (r: Option<usize>)
        ensures
            match r {
                Some(k) => position(self.entries(), *id, k as int),
                None => forall|k: int| !#[trigger] position(self.entries(), *id, k),
            },
    {
        let mut i: usize = 0;
        while i < self.items.len()
            invariant
                i <= self.items@.len(),
                forall|k: int| 0 <= k < i ==> !#[trigger] position(self.items@, *id, k),
            decreases self.items.len() - i,
        {
            if str_eq(self.items[i].id.service.as_str(), id.service.as_str()) && str_eq(
                self.items[i].id.path.as_str(),
                id.path.as_str(),
            ) {
                return Some(i);
            }
            i += 1;
        }
        None
    }

    /// The number of items followed.
    pub fn len(&self) -> (r: usize)
        ensures
            r == self.entries().len(),
    {
        self.items.len()
    }

    /// The data of the item at `index` in the registry, none past its end.
    pub fn data_at(&self, index: usize) -> (r: Option<&T>)
        ensures
            index < self.entries().len() ==> r == Some(&self.entries()[index as int].data),
            index >= self.entries().len() ==> r is None,
    {
        if index < self.items.len() {
            Some(&self.items[index].data)
        } else {
            None
        }
    }

    /// The id of the item at `index` in the registry, none past its end.
    pub fn id_at(&self, index: usize) -> (r: Option<&ItemId>)
        ensures
            index < self.entries().len() ==> r == Some(&self.entries()[index as int].id),
            index >= self.entries().len() ==> r is None,
    {
        if index < self.items.len() {
            Some(&self.items[index].id)
        } else {
            None
        }
    }

    /// Whether the item is followed at all.
    pub fn contains(&self, id: &ItemId) -> (r: bool)
        ensures
            r == exists|k: int| #[trigger] position(self.entries(), *id, k),
    {
        self.find(id).is_some()
    }

    /// Starts following an item that is not followed yet: it gets the next
    /// generation. An item already followed is left as it is, and `data`
    /// handed back.
    pub fn start(&mut self, id: ItemId, data: T) -> (r: Result<u64, T>)
        requires
            old(self).wf(),
        ensures
            final(self).wf(),
            (exists|k: int| #[trigger] position(old(self).entries(), id, k)) ==> r == Err::<u64, T>(
                data,
            ) && final(self).entries() == old(self).entries() && final(self).last_generation()
                == old(self).last_generation(),
            !(exists|k: int| #[trigger] position(old(self).entries(), id, k)) ==> {
                let g = if old(self).last_generation() == u64::MAX {
                    0
                } else {
                    (old(self).last_generation() + 1) as u64
                };
                &&& r == Ok::<u64, T>(g)
                &&& final(self).last_generation() == g
                &&& final(self).entries() == old(self).entries().push(
                    StartedItem { id, generation: g, owner: None, data },
                )
            },
    {
        if self.find(&id).is_some() {
            return Err(data);
        }
        self.next_generation = self.next_generation.wrapping_add(1);
        let generation = self.next_generation;
        let ghost before = self.items@;
        self.items.push(StartedItem { id, generation, owner: None, data });
        assert forall|i: int, j: int|
            0 <= i < self.items@.len() && 0 <= j < self.items@.len() && i != j implies !same_id(
            #[trigger] self.items@[i].id,
            #[trigger] self.items@[j].id,
        ) by {
            if i == before.len() {
                assert(!position(before, self.items@[i].id, j));
            } else if j == before.len() {
                assert(!position(before, self.items@[j].id, i));
            }
        }
        Ok(generation)
    }

    /// Whether the worker of `generation` still follows the item.
    pub fn is_current(&self, id: &ItemId, generation: u64) -> (r: bool)
        requires
            self.wf(),
        ensures
            r == current(self.entries(), *id, generation),
    {
        match self.find(id) {
            Some(k) => {
                proof {
                    assert forall|q: int| #[trigger] position(self.items@, *id, q) implies q == k by {
                        if q != k {
                            assert(!same_id(self.items@[q].id, self.items@[k as int].id));
                        }
                    }
                }
                self.items[k].generation == generation
            },
            None => false,
        }
    }

    /// Records the item's owner for its current worker; a stale worker
    /// changes nothing.
    pub fn set_owner(&mut self, id: &ItemId, generation: u64, owner: String) -> (r: bool)
        requires
            old(self).wf(),
        ensures
            final(self).wf(),
            r == current(old(self).entries(), *id, generation),
            final(self).last_generation() == old(self).last_generation(),
            r ==> exists|k: int|
                #[trigger] position(old(self).entries(), *id, k) && final(self).entries()
                    == old(self).entries().update(
                    k,
                    StartedItem { owner: Some(owner), ..old(self).entries()[k] },
                ),
            !r ==> final(self).entries() == old(self).entries(),
    {
        let k = match self.find(id) {
            Some(k) => k,
            None => return false,
        };
        proof {
            assert forall|q: int| #[trigger] position(self.items@, *id, q) implies q == k by {
                if q != k {
                    assert(!same_id(self.items@[q].id, self.items@[k as int].id));
                }
            }
        }
        if self.items[k].generation != generation {
            return false;
        }
        let ghost before = self.items@;
        let mut item = self.items.remove(k);
        item.owner = Some(owner);
        self.items.insert(k, item);
        assert(self.items@ =~= before.update(k as int, self.items@[k as int]));
        assert forall|i: int, j: int|
            0 <= i < self.items@.len() && 0 <= j < self.items@.len() && i != j implies !same_id(
            #[trigger] self.items@[i].id,
            #[trigger] self.items@[j].id,
        ) by {
            assert(self.items@[i].id == before[i].id);
            assert(self.items@[j].id == before[j].id);
        }
        assert(position(before, *id, k as int));
        true
    }

    /// Stops following the item for the worker of `generation`, handing back
    /// what the watcher kept for it; a stale worker changes nothing.
    pub fn remove_generation(&mut self, id: &ItemId, generation: u64) -> (r: Option<T>)
        requires
            old(self).wf(),
        ensures
            final(self).wf(),
            final(self).last_generation() == old(self).last_generation(),
            r is Some == current(old(self).entries(), *id, generation),
            r is Some ==> exists|k: int|
                #[trigger] position(old(self).entries(), *id, k) && final(self).entries()
                    == old(self).entries().remove(k) && r == Some(old(self).entries()[k].data),
            r is None ==> final(self).entries() == old(self).entries(),
    {
        let k = match self.find(id) {
            Some(k) => k,
            None => return None,
        };
        proof {
            assert forall|q: int| #[trigger] position(self.items@, *id, q) implies q == k by {
                if q != k {
                    assert(!same_id(self.items@[q].id, self.items@[k as int].id));
                }
            }
        }
        if self.items[k].generation != generation {
            return None;
        }
        let ghost before = self.items@;
        let item = self.items.remove(k);
        assert forall|i: int, j: int|
            0 <= i < self.items@.len() && 0 <= j < self.items@.len() && i != j implies !same_id(
            #[trigger] self.items@[i].id,
            #[trigger] self.items@[j].id,
        ) by {
            let bi = if i < k {
                i
            } else {
                i + 1
            };
            let bj = if j < k {
                j
            } else {
                j + 1
            };
            assert(self.items@[i] == before[bi]);
            assert(self.items@[j] == before[bj]);
        }
        assert(position(before, *id, k as int));
        Some(item.data)
    }

    /// Stops following the item, whichever worker follows it.
    pub fn cancel(&mut self, id: &ItemId) -> (r: Option<T>)
        requires
            old(self).wf(),
        ensures
            final(self).wf(),
            final(self).last_generation() == old(self).last_generation(),
            r is Some == exists|k: int| #[trigger] position(old(self).entries(), *id, k),
            r is Some ==> exists|k: int|
                #[trigger] position(old(self).entries(), *id, k) && final(self).entries()
                    == old(self).entries().remove(k) && r == Some(old(self).entries()[k].data),
            r is None ==> final(self).entries() == old(self).entries(),
    {
        let k = match self.find(id) {
            Some(k) => k,
            None => return None,
        };
        let ghost before = self.items@;
        let item = self.items.remove(k);
        assert forall|i: int, j: int|
            0 <= i < self.items@.len() && 0 <= j < self.items@.len() && i != j implies !same_id(
            #[trigger] self.items@[i].id,
            #[trigger] self.items@[j].id,
        ) by {
            let bi = if i < k {
                i
            } else {
                i + 1
            };
            let bj = if j < k {
                j
            } else {
                j + 1
            };
            assert(self.items@[i] == before[bi]);
            assert(self.items@[j] == before[bj]);
        }
        assert(position(before, *id, k as int));
        Some(item.data)
    }

    /// The items an item signal from `sender` on object `path` concerns:
    /// those at that path whose owner is the sender.
    pub fn signal_targets(&self, path: &str, sender: &str) -> (r: Vec<usize>)
        ensures
            forall|i: int|
                0 <= i < r@.len() ==> r@[i] < self.entries().len() && signalled_by(
                    self.entries()[r@[i] as int],
                    path@,
                    sender@,
                ),
            forall|k: int|
                0 <= k < self.entries().len() && signalled_by(self.entries()[k], path@, sender@)
                    ==> r@.contains(k as usize),
    {
        let mut r: Vec<usize> = Vec::new();
        let mut i: usize = 0;
        while i < self.items.len()
            invariant
                i <= self.items@.len(),
                forall|j: int|
                    0 <= j < r@.len() ==> r@[j] < i && signalled_by(
                        self.items@[r@[j] as int],
                        path@,
                        sender@,
                    ),
                forall|k: int|
                    0 <= k < i && signalled_by(self.items@[k], path@, sender@) ==> r@.contains(
                        k as usize,
                    ),
            decreases self.items.len() - i,
        {
            let item = &self.items[i];
            let owned = match &item.owner {
                Some(o) => str_eq(o.as_str(), sender),
                None => false,
            };
            let ghost before = r@;
            if str_eq(item.id.path.as_str(), path) && owned {
                r.push(i);
            }
            proof {
                assert forall|k: int|
                    0 <= k < i + 1 && signalled_by(self.items@[k], path@, sender@) implies r@.contains(
                    k as usize,
                ) by {
                    lemma_push_contains(before, i, k as usize);
                }
            }
            i += 1;
        }
        r
    }

    /// A `NameOwnerChanged` signal: items served by `name` stop when it lost
    /// its owner, and otherwise take the new owner. Returns the positions
    /// of the items to stop and of those to refresh.
    pub fn owner_changed(&mut self, change: &(String, String, String)) -> (r: (
        Vec<usize>,
        Vec<usize>,
    ))
        requires
            old(self).wf(),
        ensures
            final(self).wf(),
            final(self).entries().len() == old(self).entries().len(),
            final(self).last_generation() == old(self).last_generation(),
            forall|k: int|
                0 <= k < old(self).entries().len() ==> changed_owner(
                    old(self).entries()[k],
                    #[trigger] final(self).entries()[k],
                    *change,
                    r.0@.contains(k as usize),
                    r.1@.contains(k as usize),
                ),
    {
        let mut stop: Vec<usize> = Vec::new();
        let mut refresh: Vec<usize> = Vec::new();
        let ghost start = self.items@;
        let mut i: usize = 0;
        while i < self.items.len()
            invariant
                i <= self.items@.len(),
                self.items@.len() == start.len(),
                self.next_generation == old(self).next_generation,
                distinct_ids(self.items@),
                forall|k: int|
                    i <= k < start.len() ==> #[trigger] self.items@[k] == start[k],
                forall|k: int|
                    0 <= k < i ==> changed_owner(
                        start[k],
                        #[trigger] self.items@[k],
                        *change,
                        stop@.contains(k as usize),
                        refresh@.contains(k as usize),
                    ),
                forall|j: int| 0 <= j < stop@.len() ==> stop@[j] < i,
                forall|j: int| 0 <= j < refresh@.len() ==> refresh@[j] < i,
            decreases self.items.len() - i,
        {
            let served = str_eq(self.items[i].id.service.as_str(), change.0.as_str());
            let ghost stop_before = stop@;
            let ghost refresh_before = refresh@;
            let ghost items_before = self.items@;
            if served {
                if name_owner_lost(change, self.items[i].id.service.as_str()) {
                    stop.push(i);
                } else {
                    let mut item = self.items.remove(i);
                    item.owner = Some(change.2.clone());
                    self.items.insert(i, item);
                    assert(self.items@ =~= items_before.update(i as int, self.items@[i as int]));
                    assert forall|a: int, b: int|
                        0 <= a < self.items@.len() && 0 <= b < self.items@.len() && a != b
                            implies !same_id(
                            #[trigger] self.items@[a].id,
                            #[trigger] self.items@[b].id,
                        ) by {
                        assert(self.items@[a].id == items_before[a].id);
                        assert(self.items@[b].id == items_before[b].id);
                    }
                    refresh.push(i);
                }
            }
            proof {
                assert forall|k: int|
                    0 <= k < i + 1 implies changed_owner(
                    start[k],
                    #[trigger] self.items@[k],
                    *change,
                    stop@.contains(k as usize),
                    refresh@.contains(k as usize),
                ) by {
                    lemma_push_contains(stop_before, i, k as usize);
                    lemma_push_contains(refresh_before, i, k as usize);
                    if k == i {
                        assert(!stop_before.contains(i)) by {
                            if stop_before.contains(i) {
                                let j = choose|j: int| 0 <= j < stop_before.len() && stop_before[j] == i;
                            }
                        }
                        assert(!refresh_before.contains(i)) by {
                            if refresh_before.contains(i) {
                                let j = choose|j: int|
                                    0 <= j < refresh_before.len() && refresh_before[j] == i;
                            }
                        }
                    } else {
                        assert(self.items@[k] == items_before[k]);
                    }
                }
            }
            i += 1;
        }
        (stop, refresh)
    }
}

// ---------------------------------------------------------------------------
// Routing signals
// ---------------------------------------------------------------------------
/// The interface status notifier items implement.
pub const ITEM_INTERFACE: &'static str = "org.kde.StatusNotifierItem";

/// The interface of the message bus itself.
pub const DBUS_INTERFACE: &'static str = "org.freedesktop.DBus";

/// What the host does with a signal it receives.
#[derive(Clone, Copy, Debug, PartialEq, Eq, Structural)]
pub enum SignalRoute {
    /// An item changed what it shows: the items at the signal's path, owned
    /// by its sender, are read again.
    RefreshItems,
    /// A bus name changed owner: the items of that name follow it.
    OwnerChange,
    /// Nothing to do.
    Ignore,
}

/// The item signals that change what an item shows.
pub open spec fn refresh_member(member: Seq<char>) -> bool {
    ||| member == "NewIcon"@
    ||| member == "NewAttentionIcon"@
    ||| member == "NewStatus"@
    ||| member == "NewTitle"@
    ||| member == "NewToolTip"@
    ||| member == "NewMenu"@
}

pub open spec fn spec_signal_route(interface: Option<Seq<char>>, member: Option<Seq<char>>) -> SignalRoute {
    match interface {
        Some(i) => if i == ITEM_INTERFACE@ {
            match member {
                Some(m) => if refresh_member(m) {
                    SignalRoute::RefreshItems
                } else {
                    SignalRoute::Ignore
                },
                None => SignalRoute::Ignore,
            }
        } else if i == DBUS_INTERFACE@ && member == Some("NameOwnerChanged"@) {
            SignalRoute::OwnerChange
        } else {
            SignalRoute::Ignore
        },
        None => SignalRoute::Ignore,
    }
}

/// Where a signal with this interface and member goes.
pub fn signal_route(interface: Option<&str>, member: Option<&str>) -> (r: SignalRoute)
    ensures
        r == spec_signal_route(
            match interface {
                Some(i) => Some(i@),
                None => None,
            },
            match member {
                Some(m) => Some(m@),
                None => None,
            },
        ),
{
    let i = match interface {
        Some(i) => i,
        None => return SignalRoute::Ignore,
    };
    if str_eq(i, ITEM_INTERFACE) {
        match member {
            Some(m) => if str_eq(m, "NewIcon") || str_eq(m, "NewAttentionIcon") || str_eq(
                m,
                "NewStatus",
            ) || str_eq(m, "NewTitle") || str_eq(m, "NewToolTip") || str_eq(m, "NewMenu") {
                SignalRoute::RefreshItems
            } else {
                SignalRoute::Ignore
            },
            None => SignalRoute::Ignore,
        }
    } else if str_eq(i, DBUS_INTERFACE) && match member {
        Some(m) => str_eq(m, "NameOwnerChanged"),
        None => false,
    } {
        SignalRoute::OwnerChange
    } else {
        SignalRoute::Ignore
    }
}

/// The bus name of the item watcher.
pub const WATCHER_NAME: &'static str = "org.kde.StatusNotifierWatcher";

/// The object path the item watcher serves.
pub const WATCHER_PATH: &'static str = "/StatusNotifierWatcher";

/// The interface of the item watcher.
pub const WATCHER_INTERFACE: &'static str = "org.kde.StatusNotifierWatcher";

/// What a host of another process's watcher does with one message.
#[derive(Debug, PartialEq, Eq)]
pub enum WatcherMessage {
    /// The watcher's bus name changed owner: stop hosting it.
    Stop,
    /// The watcher registered this item: start following it.
    Start(ItemId),
    /// The watcher unregistered this item: stop following it.
    Cancel(ItemId),
    /// Nothing to do.
    Ignore,
}

/// The text of an optional string, as a sequence.
pub open spec fn text_of(value: Option<&str>) -> Option<Seq<char>> {
    match value {
        Some(v) => Some(v@),
        None => None,
    }
}

/// A message comes from the watcher when its sender is the watcher's owner
/// and it carries the watcher's interface and path.
pub open spec fn from_watcher(
    sender: Option<Seq<char>>,
    interface: Option<Seq<char>>,
    path: Option<Seq<char>>,
    owner: Seq<char>,
) -> bool {
    &&& sender == Some(owner)
    &&& interface == Some(WATCHER_INTERFACE@)
    &&& path == Some(WATCHER_PATH@)
}

pub open spec fn spec_watcher_message(
    member: Option<Seq<char>>,
    owner_change: Option<(String, String, String)>,
    item: Option<ItemId>,
    sender: Option<Seq<char>>,
    interface: Option<Seq<char>>,
    path: Option<Seq<char>>,
    owner: Seq<char>,
) -> WatcherMessage {
    if member == Some("NameOwnerChanged"@) && (owner_change matches Some(c) && c.0@ == WATCHER_NAME@) {
        WatcherMessage::Stop
    } else if (member == Some("StatusNotifierItemRegistered"@) || member == Some(
        "StatusNotifierItemUnregistered"@,
    )) && from_watcher(sender, interface, path, owner) {
        match item {
            Some(id) => if member == Some("StatusNotifierItemRegistered"@) {
                WatcherMessage::Start(id)
            } else {
                WatcherMessage::Cancel(id)
            },
            None => WatcherMessage::Ignore,
        }
    } else {
        WatcherMessage::Ignore
    }
}

/// The decision for one message while hosting another process's watcher,
/// from its member, its body read as an owner change (`owner_change`) or as
/// an item registration (`item`, `None` where it does not read as one), its
/// sender, interface and path, and the watcher's current owner: the loss or
/// change of the watcher's name stops the host, and a registration or
/// removal that the watcher itself sends starts or cancels the item.
pub fn watcher_message(
    member: Option<&str>,
    owner_change: Option<&(String, String, String)>,
    item: Option<ItemId>,
    sender: Option<&str>,
    interface: Option<&str>,
    path: Option<&str>,
    watcher_owner: &str,
) -> (r: WatcherMessage)
    ensures
        r == spec_watcher_message(
            text_of(member),
            match owner_change {
                Some(c) => Some(*c),
                None => None,
            },
            item,
            text_of(sender),
            text_of(interface),
            text_of(path),
            watcher_owner@,
        ),
{
    proof {
        reveal_strlit("NameOwnerChanged");
        reveal_strlit("StatusNotifierItemRegistered");
        reveal_strlit("StatusNotifierItemUnregistered");
        assert("NameOwnerChanged"@.len() != "StatusNotifierItemRegistered"@.len());
        assert("NameOwnerChanged"@.len() != "StatusNotifierItemUnregistered"@.len());
        assert("StatusNotifierItemRegistered"@[19] != "StatusNotifierItemUnregistered"@[19]);
    }
    let m = match member {
        Some(m) => m,
        None => return WatcherMessage::Ignore,
    };
    if str_eq(m, "NameOwnerChanged") {
        if let Some(change) = owner_change {
            if str_eq(change.0.as_str(), WATCHER_NAME) {
                return WatcherMessage::Stop;
            }
        }
        return WatcherMessage::Ignore;
    }
    let registered = str_eq(m, "StatusNotifierItemRegistered");
    if !registered && !str_eq(m, "StatusNotifierItemUnregistered") {
        return WatcherMessage::Ignore;
    }
    let from_owner = match (sender, interface, path) {
        (Some(s), Some(i), Some(p)) => str_eq(s, watcher_owner) && str_eq(i, WATCHER_INTERFACE)
            && str_eq(p, WATCHER_PATH),
        _ => false,
    };
    if !from_owner {
        return WatcherMessage::Ignore;
    }
    match item {
        Some(id) => if registered {
            WatcherMessage::Start(id)
        } else {
            WatcherMessage::Cancel(id)
        },
        None => WatcherMessage::Ignore,
    }
}

} // verus!
