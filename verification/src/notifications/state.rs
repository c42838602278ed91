//! The live notifications and the rules that add, replace, hide and close them.
//!
//! Times are milliseconds of a monotonic clock; `received_at` is Unix seconds.
use std::sync::Arc;
use vstd::prelude::*;

verus! {

/// The most notifications kept at once.
pub const MAX_NOTIFICATIONS: usize = 100;

/// How long a non-critical popup stays up once it has been displayed.
pub const POPUP_TIMEOUT_MS: u64 = 5000;

#[derive(Clone, Copy, Debug, PartialEq, Eq, Structural)]
pub enum Urgency {
    Low,
    Normal,
    Critical,
}

impl Default for Urgency {
    fn default() -> (r: Self)
        ensures
            r == Urgency::Normal,
    {
        Urgency::Normal
    }
}

#[derive(Clone, Debug, PartialEq, Eq)]
pub struct Action {
    pub key: String,
    pub label: String,
}

impl Action {
    pub fn duplicate(&self) -> (r: Self)
        ensures
            r == *self,
    {
        Action { key: self.key.clone(), label: self.label.clone() }
    }
}

/// Decoded pixels: tightly packed RGBA rows.
#[derive(Clone, Debug, PartialEq, Eq)]
pub struct Thumbnail {
    pub width: i32,
    pub height: i32,
    pub rowstride: usize,
    pub bytes: Arc<[u8]>,
}

/// A second handle on shared pixel bytes (`Arc::clone`).
#[verifier::external_body]
fn share_bytes(bytes: &Arc<[u8]>) -> (r: Arc<[u8]>)
    ensures
        r == *bytes,
{
    Arc::clone(bytes)
}

impl Thumbnail {
    pub fn duplicate(&self) -> (r: Self)
        ensures
            r == *self,
    {
        Thumbnail {
            width: self.width,
            height: self.height,
            rowstride: self.rowstride,
            bytes: share_bytes(&self.bytes),
        }
    }
}

#[derive(Clone, Debug, PartialEq, Eq)]
pub enum Picture {
    Pixels(Thumbnail),
    Themed(String),
}

impl Picture {
    pub fn duplicate(&self) -> (r: Self)
        ensures
            r == *self,
    {
        match self {
            Picture::Pixels(t) => Picture::Pixels(t.duplicate()),
            Picture::Themed(name) => Picture::Themed(name.clone()),
        }
    }
}

pub fn duplicate_actions(actions: &Vec<Action>) -> (r: Vec<Action>)
    ensures
        r@ == actions@,
{
    let mut r: Vec<Action> = Vec::new();
    let mut i: usize = 0;
    while i < actions.len()
        invariant
            i <= actions.len(),
            r@ == actions@.take(i as int),
        decreases actions.len() - i,
    {
        r.push(actions[i].duplicate());
        i += 1;
        assert(actions@.take(i as int) == actions@.take(i - 1).push(actions@[i - 1]));
    }
    assert(actions@.take(actions.len() as int) == actions@);
    r
}

pub fn duplicate_picture(picture: &Option<Picture>) -> (r: Option<Picture>)
    ensures
        r == *picture,
{
    match picture {
        Some(p) => Some(p.duplicate()),
        None => None,
    }
}

#[derive(Clone, Debug, PartialEq, Eq)]
pub struct Notification {
    pub id: u32,
    pub revision: u64,
    pub received_at: i64,
    pub app_name: String,
    pub app_icon: String,
    pub picture: Option<Picture>,
    pub progress: Option<u8>,
    pub summary: String,
    pub body: String,
    pub actions: Vec<Action>,
    pub urgency: Urgency,
    pub desktop_entry: String,
    pub resident: bool,
}

/// A notification as a client sends it.
#[derive(Clone, Debug, PartialEq, Eq)]
pub struct Incoming {
    pub replaces_id: u32,
    pub app_name: String,
    pub app_icon: String,
    pub picture: Option<Picture>,
    pub progress: Option<u8>,
    pub summary: String,
    pub body: String,
    pub actions: Vec<Action>,
    pub urgency: Urgency,
    pub desktop_entry: String,
    pub tag: String,
    pub transient: bool,
    pub resident: bool,
}

impl Default for Incoming {
    fn default() -> (r: Self)
        ensures
            r.replaces_id == 0,
            r.app_name@.len() == 0,
            r.app_icon@.len() == 0,
            r.picture is None,
            r.progress is None,
            r.summary@.len() == 0,
            r.body@.len() == 0,
            r.actions@.len() == 0,
            r.urgency == Urgency::Normal,
            r.desktop_entry@.len() == 0,
            r.tag@.len() == 0,
            !r.transient,
            !r.resident,
    {
        Incoming {
            replaces_id: 0,
            app_name: String::new(),
            app_icon: String::new(),
            picture: None,
            progress: None,
            summary: String::new(),
            body: String::new(),
            actions: Vec::new(),
            urgency: Urgency::Normal,
            desktop_entry: String::new(),
            tag: String::new(),
            transient: false,
            resident: false,
        }
    }
}

/// Why a notification was closed, as the notification protocol numbers it.
#[derive(Clone, Copy, Debug, PartialEq, Eq, Structural)]
pub enum CloseReason {
    Expired,
    Dismissed,
    Requested,
    Undefined,
}

impl CloseReason {
    pub open spec fn spec_code(self) -> u32 {
        match self {
            CloseReason::Expired => 1,
            CloseReason::Dismissed => 2,
            CloseReason::Requested => 3,
            CloseReason::Undefined => 4,
        }
    }

    /// The reason's number in the `NotificationClosed` signal.
    pub fn code(self) -> (r: u32)
        ensures
            r == self.spec_code(),
    {
        match self {
            CloseReason::Expired => 1,
            CloseReason::Dismissed => 2,
            CloseReason::Requested => 3,
            CloseReason::Undefined => 4,
        }
    }
}

/// A notification together with its presentation state.
pub struct Stored {
    pub notification: Notification,
    pub tag: String,
    pub transient: bool,
    pub popup_timeout: Option<u64>,
    pub popup_deadline: Option<u64>,
    pub show_popup: bool,
}

/// The model of a store: its counters, its notifications newest first, and
/// whether do-not-disturb is on.
pub struct StoreView {
    pub next_id: u32,
    pub next_revision: u64,
    pub entries: Seq<Stored>,
    pub dnd: bool,
}

pub struct Store {
    next_id: u32,
    next_revision: u64,
    notifications: Vec<Stored>,
    dnd: bool,
}

impl View for Store {
    type V = StoreView;

    closed spec fn view(&self) -> StoreView {
        StoreView {
            next_id: self.next_id,
            next_revision: self.next_revision,
            entries: self.notifications@,
            dnd: self.dnd,
        }
    }
}

// ---------------------------------------------------------------------------
// The model
// ---------------------------------------------------------------------------
/// The popup timeout an urgency gets: critical popups stay until dismissed.
pub open spec fn spec_popup_timeout(urgency: Urgency) -> Option<u64> {
    match urgency {
        Urgency::Critical => None,
        _ => Some(POPUP_TIMEOUT_MS),
    }
}

pub open spec fn id_at(entries: Seq<Stored>, i: int) -> u32 {
    entries[i].notification.id
}

pub open spec fn has_id(entries: Seq<Stored>, id: u32) -> bool {
    exists|i: int| 0 <= i < entries.len() && #[trigger] id_at(entries, i) == id
}

/// The index of the notification with `id`; ids are unique in a well-formed store.
pub open spec fn index_of_id(entries: Seq<Stored>, id: u32) -> int {
    choose|i: int| 0 <= i < entries.len() && #[trigger] id_at(entries, i) == id
}

pub open spec fn unique_ids(entries: Seq<Stored>) -> bool {
    forall|i: int, j: int|
        0 <= i < entries.len() && 0 <= j < entries.len() && i != j ==> #[trigger] id_at(
            entries,
            i,
        ) != #[trigger] id_at(entries, j)
}

/// A stored notification has a non-zero id and revision, a deadline only
/// when its popup has a timeout, and the popup timeout of its urgency: none
/// when it is critical, five seconds otherwise.
pub open spec fn entry_ok(s: Stored) -> bool {
    &&& s.notification.id != 0
    &&& s.notification.revision != 0
    &&& s.popup_deadline is Some ==> s.popup_timeout is Some
    &&& s.popup_timeout == spec_popup_timeout(s.notification.urgency)
}

impl StoreView {
    /// What every store keeps: a bounded count, unique non-zero ids, non-zero
    /// revisions, deadlines only on popups that have a timeout, and the
    /// popup timeout of each notification's urgency.
    pub open spec fn wf(self) -> bool {
        &&& self.entries.len() <= MAX_NOTIFICATIONS
        &&& unique_ids(self.entries)
        &&& forall|i: int| 0 <= i < self.entries.len() ==> entry_ok(#[trigger] self.entries[i])
    }
}

/// Whether `entries[i]` is stacked with an incoming notification: the same
/// stack tag from the same application.
pub open spec fn tag_matches(entries: Seq<Stored>, i: int, incoming: Incoming) -> bool {
    &&& entries[i].tag@ == incoming.tag@
    &&& entries[i].notification.app_name@ == incoming.app_name@
}

pub open spec fn first_tag_match(entries: Seq<Stored>, i: int, incoming: Incoming) -> bool {
    &&& 0 <= i < entries.len()
    &&& tag_matches(entries, i, incoming)
    &&& forall|j: int| 0 <= j < i ==> !tag_matches(entries, j, incoming)
}

/// The notification an incoming one replaces: the one whose id it names, else
/// the first one stacked under the same non-empty tag.
pub open spec fn replacement(entries: Seq<Stored>, incoming: Incoming) -> Option<int> {
    if incoming.replaces_id != 0 && has_id(entries, incoming.replaces_id) {
        Some(index_of_id(entries, incoming.replaces_id))
    } else if incoming.tag@.len() == 0 {
        None
    } else if exists|i: int| first_tag_match(entries, i, incoming) {
        Some(choose|i: int| first_tag_match(entries, i, incoming))
    } else {
        None
    }
}

/// `entries[m]` is the first of the notifications with the oldest revision.
pub open spec fn first_oldest(entries: Seq<Stored>, m: int) -> bool {
    &&& 0 <= m < entries.len()
    &&& forall|j: int|
        0 <= j < entries.len() ==> entries[m].notification.revision
            <= #[trigger] entries[j].notification.revision
    &&& forall|j: int|
        0 <= j < m ==> entries[m].notification.revision
            < #[trigger] entries[j].notification.revision
}

pub open spec fn oldest(entries: Seq<Stored>) -> int {
    choose|m: int| first_oldest(entries, m)
}

/// The `k`-th id after `start`, counting round the 32-bit range.
pub open spec fn candidate(start: u32, k: int) -> u32 {
    if start + k < 0x1_0000_0000 {
        (start + k) as u32
    } else {
        (start + k - 0x1_0000_0000) as u32
    }
}

pub open spec fn free_id(entries: Seq<Stored>, id: u32) -> bool {
    id != 0 && !has_id(entries, id)
}

/// The first id after `start` that is neither zero nor in use, at step `k`.
pub open spec fn first_free_step(entries: Seq<Stored>, start: u32, k: int) -> bool {
    &&& 1 <= k
    &&& free_id(entries, candidate(start, k))
    &&& forall|j: int| 1 <= j < k ==> !free_id(entries, #[trigger] candidate(start, j))
}

pub open spec fn allocated_id(entries: Seq<Stored>, start: u32) -> u32 {
    candidate(start, choose|k: int| first_free_step(entries, start, k))
}

/// The revision after `r`, skipping zero when the counter wraps.
pub open spec fn next_revision(r: u64) -> u64 {
    if r == u64::MAX {
        1
    } else {
        (r + 1) as u64
    }
}

/// The stored form of an incoming notification.
pub open spec fn stored_from(
    incoming: Incoming,
    id: u32,
    revision: u64,
    received_at: i64,
    show_popup: bool,
    popup_deadline: Option<u64>,
) -> Stored {
    Stored {
        notification: Notification {
            id,
            revision,
            received_at,
            app_name: incoming.app_name,
            app_icon: incoming.app_icon,
            picture: incoming.picture,
            progress: incoming.progress,
            summary: incoming.summary,
            body: incoming.body,
            actions: incoming.actions,
            urgency: incoming.urgency,
            desktop_entry: incoming.desktop_entry,
            resident: incoming.resident,
        },
        tag: incoming.tag,
        transient: incoming.transient,
        popup_timeout: spec_popup_timeout(incoming.urgency),
        popup_deadline,
        show_popup,
    }
}

/// Whether a popup's deadline has passed at `now`.
pub open spec fn is_due(s: Stored, now: u64) -> bool {
    match s.popup_deadline {
        Some(at) => at <= now,
        None => false,
    }
}

/// A notification whose popup has been taken down.
pub open spec fn hidden(s: Stored) -> Stored {
    Stored { show_popup: false, popup_deadline: None, ..s }
}

/// The notifications left once due popups are taken down: due transient
/// notifications go, other due ones stay without a popup.
pub open spec fn after_hiding(entries: Seq<Stored>, now: u64) -> Seq<Stored>
    decreases entries.len(),
{
    if entries.len() == 0 {
        seq![]
    } else {
        let rest = after_hiding(entries.drop_last(), now);
        let last = entries.last();
        if is_due(last, now) {
            if last.transient {
                rest
            } else {
                rest.push(hidden(last))
            }
        } else {
            rest.push(last)
        }
    }
}

/// The due transient notifications, oldest position first.
pub open spec fn expiring(entries: Seq<Stored>, now: u64) -> Seq<(u32, CloseReason)>
    decreases entries.len(),
{
    if entries.len() == 0 {
        seq![]
    } else {
        let rest = expiring(entries.drop_last(), now);
        let last = entries.last();
        if is_due(last, now) && last.transient {
            rest.push((last.notification.id, CloseReason::Expired))
        } else {
            rest
        }
    }
}

pub open spec fn dismissed_all(entries: Seq<Stored>) -> Seq<(u32, CloseReason)> {
    Seq::new(entries.len(), |i: int| (entries[i].notification.id, CloseReason::Dismissed))
}

proof fn lemma_after_hiding_props(entries: Seq<Stored>, now: u64)
    ensures
        after_hiding(entries, now).len() <= entries.len(),
        forall|k: int|
            0 <= k < after_hiding(entries, now).len() ==> exists|i: int|
                0 <= i < entries.len() && (#[trigger] after_hiding(entries, now)[k] == entries[i]
                    || after_hiding(entries, now)[k] == hidden(entries[i])),
    decreases entries.len(),
{
    if entries.len() > 0 {
        let d = entries.drop_last();
        lemma_after_hiding_props(d, now);
        let rest = after_hiding(d, now);
        assert forall|k: int|
            0 <= k < after_hiding(entries, now).len() implies exists|i: int|
                0 <= i < entries.len() && (#[trigger] after_hiding(entries, now)[k] == entries[i]
                    || after_hiding(entries, now)[k] == hidden(entries[i])) by {
            if k < rest.len() {
                let i = choose|i: int|
                    0 <= i < d.len() && (#[trigger] rest[k] == d[i] || rest[k] == hidden(d[i]));
                assert(entries[i] == d[i]);
            } else {
                assert(entries[entries.len() - 1] == entries.last());
            }
        }
    }
}

proof fn lemma_after_hiding_unique(entries: Seq<Stored>, now: u64)
    requires
        unique_ids(entries),
    ensures
        unique_ids(after_hiding(entries, now)),
    decreases entries.len(),
{
    if entries.len() > 0 {
        let d = entries.drop_last();
        assert(unique_ids(d)) by {
            assert forall|i: int, j: int|
                0 <= i < d.len() && 0 <= j < d.len() && i != j implies #[trigger] id_at(d, i)
                != #[trigger] id_at(d, j) by {
                assert(id_at(d, i) == id_at(entries, i));
                assert(id_at(d, j) == id_at(entries, j));
            }
        }
        lemma_after_hiding_unique(d, now);
        lemma_after_hiding_props(d, now);
        let rest = after_hiding(d, now);
        let r = after_hiding(entries, now);
        let last = entries.last();
        assert forall|k: int| 0 <= k < rest.len() implies #[trigger] id_at(rest, k)
            != last.notification.id by {
            let i = choose|i: int|
                0 <= i < d.len() && (#[trigger] rest[k] == d[i] || rest[k] == hidden(d[i]));
            assert(id_at(entries, i) != id_at(entries, entries.len() - 1));
        }
        assert forall|i: int, j: int|
            0 <= i < r.len() && 0 <= j < r.len() && i != j implies #[trigger] id_at(r, i)
            != #[trigger] id_at(r, j) by {
            if i < rest.len() && j < rest.len() {
                assert(id_at(r, i) == id_at(rest, i));
                assert(id_at(r, j) == id_at(rest, j));
            } else if i < rest.len() {
                assert(id_at(r, i) == id_at(rest, i));
            } else if j < rest.len() {
                assert(id_at(r, j) == id_at(rest, j));
            }
        }
    }
}

proof fn lemma_hiding_keeps_wf(v: StoreView, now: u64)
    requires
        v.wf(),
    ensures
        (StoreView { entries: after_hiding(v.entries, now), ..v }).wf(),
{
    let e = v.entries;
    let r = after_hiding(e, now);
    lemma_after_hiding_props(e, now);
    lemma_after_hiding_unique(e, now);
    assert forall|i: int| 0 <= i < r.len() implies entry_ok(#[trigger] r[i]) by {
        let k = choose|k: int| 0 <= k < e.len() && (#[trigger] r[i] == e[k] || r[i] == hidden(e[k]));
        assert(entry_ok(e[k]));
    }
}

/// What adding `incoming` at `received_at` does to a store `v`: `w` is the
/// store after it and `r` the id it got and the eviction it caused.
pub open spec fn notify_outcome(
    v: StoreView,
    incoming: Incoming,
    received_at: i64,
    r: (u32, Option<(u32, CloseReason)>),
    w: StoreView,
) -> bool {
    let e = v.entries;
    let revision = next_revision(v.next_revision);
    &&& w.dnd == v.dnd
    &&& w.next_revision == revision
    &&& match replacement(e, incoming) {
        Some(k) => {
            &&& r.0 == id_at(e, k)
            &&& r.1 is None
            &&& w.next_id == v.next_id
            &&& w.entries == e.update(
                k,
                stored_from(
                    incoming,
                    r.0,
                    revision,
                    received_at,
                    e[k].show_popup,
                    if spec_popup_timeout(incoming.urgency) is Some {
                        e[k].popup_deadline
                    } else {
                        None
                    },
                ),
            )
        },
        None => {
            let kept = if e.len() >= MAX_NOTIFICATIONS {
                e.remove(oldest(e))
            } else {
                e
            };
            &&& r.1 == if e.len() >= MAX_NOTIFICATIONS {
                Some((id_at(e, oldest(e)), CloseReason::Undefined))
            } else {
                None
            }
            &&& r.0 == allocated_id(kept, v.next_id)
            &&& free_id(kept, r.0)
            &&& w.next_id == r.0
            &&& w.entries == seq![stored_from(incoming, r.0, revision, received_at, true, None)]
                + kept
        },
    }
}

// ---------------------------------------------------------------------------
// The store
// ---------------------------------------------------------------------------
/// The time now, in Unix seconds (`SystemTime::now`); depends on the clock.
#[verifier::external_body]
fn unix_now() -> i64 {
    std::time::SystemTime::now().duration_since(std::time::UNIX_EPOCH).unwrap_or_default().as_secs() as i64
}

/// When a popup shown at `now` with timeout `t` is due, if that is a time.
pub open spec fn deadline_after(timeout: Option<u64>, now: u64) -> Option<u64> {
    match timeout {
        Some(t) => if now + t <= u64::MAX {
            Some((now + t) as u64)
        } else {
            None
        },
        None => None,
    }
}

/// The store after notification `id` was shown at revision `revision` at
/// `now`: its popup's timeout starts then. A stale revision changes nothing.
pub open spec fn after_displayed(v: StoreView, id: u32, revision: u64, now: u64) -> StoreView {
    if has_id(v.entries, id) && v.entries[index_of_id(v.entries, id)].notification.revision
        == revision {
        let k = index_of_id(v.entries, id);
        let s = v.entries[k];
        StoreView {
            entries: v.entries.update(
                k,
                Stored { popup_deadline: deadline_after(s.popup_timeout, now), ..s },
            ),
            ..v
        }
    } else {
        v
    }
}

/// The store after notification `id` was closed, if it was there.
pub open spec fn after_close(v: StoreView, id: u32) -> StoreView {
    if has_id(v.entries, id) {
        StoreView { entries: v.entries.remove(index_of_id(v.entries, id)), ..v }
    } else {
        v
    }
}

pub fn popup_timeout(urgency: Urgency) -> (r: Option<u64>)
    ensures
        r == spec_popup_timeout(urgency),
{
    match urgency {
        Urgency::Low | Urgency::Normal => Some(POPUP_TIMEOUT_MS),
        Urgency::Critical => None,
    }
}

impl Default for Store {
    fn default() -> (r: Self)
        ensures
            r@.wf(),
            r@.entries.len() == 0,
            r@.next_id == 0,
            r@.next_revision == 0,
            !r@.dnd,
    {
        Store { next_id: 0, next_revision: 0, notifications: Vec::new(), dnd: false }
    }
}

impl Store {
    pub fn new() -> (r: Self)
        ensures
            r@.wf(),
            r@.entries.len() == 0,
            r@.next_id == 0,
            r@.next_revision == 0,
            !r@.dnd,
    {
        Store::default()
    }

    pub fn len(&self) -> (r: usize)
        ensures
            r == self@.entries.len(),
    {
        self.notifications.len()
    }

    fn position_of(&self, id: u32) -> (r: Option<usize>)
        requires
            self@.wf(),
        ensures
            r matches Some(i) ==> i < self@.entries.len() && id_at(self@.entries, i as int) == id
                && i == index_of_id(self@.entries, id),
            r is None ==> !has_id(self@.entries, id),
    {
        let mut i: usize = 0;
        while i < self.notifications.len()
            invariant
                self@.wf(),
                i <= self.notifications.len(),
                forall|j: int| 0 <= j < i ==> id_at(self.notifications@, j) != id,
            decreases self.notifications.len() - i,
        {
            if self.notifications[i].notification.id == id {
                proof {
                    let k = index_of_id(self@.entries, id);
                    assert(id_at(self@.entries, i as int) == id);
                    if k != i {
                        assert(unique_ids(self@.entries));
                    }
                }
                return Some(i);
            }
            i += 1;
        }
        None
    }

    fn replacement_index(&self, incoming: &Incoming) -> (r: Option<usize>)
        requires
            self@.wf(),
        ensures
            match r {
                Some(i) => replacement(self@.entries, *incoming) == Some(i as int),
                None => replacement(self@.entries, *incoming) is None,
            },
    {
        if incoming.replaces_id != 0 {
            if let Some(index) = self.position_of(incoming.replaces_id) {
                return Some(index);
            }
        }
        if incoming.tag.as_str().is_empty() {
            return None;
        }
        let mut i: usize = 0;
        while i < self.notifications.len()
            invariant
                self@.wf(),
                !(incoming.replaces_id != 0 && has_id(self@.entries, incoming.replaces_id)),
                incoming.tag@.len() != 0,
                i <= self.notifications.len(),
                forall|j: int| 0 <= j < i ==> !tag_matches(self.notifications@, j, *incoming),
            decreases self.notifications.len() - i,
        {
            let stored = &self.notifications[i];
            if stored.tag.eq(&incoming.tag) && stored.notification.app_name.eq(&incoming.app_name) {
                assert(first_tag_match(self@.entries, i as int, *incoming));
                proof {
                    let k = choose|k: int| first_tag_match(self@.entries, k, *incoming);
                    if k < i {
                        assert(!tag_matches(self@.entries, k, *incoming));
                    } else if k > i {
                        assert(!tag_matches(self@.entries, i as int, *incoming));
                    }
                }
                return Some(i);
            }
            i += 1;
        }
        None
    }

    fn oldest_index(&self) -> (r: usize)
        requires
            self@.entries.len() > 0,
        ensures
            first_oldest(self@.entries, r as int),
            r == oldest(self@.entries),
    {
        let mut best: usize = 0;
        let mut i: usize = 1;
        while i < self.notifications.len()
            invariant
                1 <= i <= self.notifications.len(),
                best < i,
                forall|j: int|
                    0 <= j < i ==> self.notifications@[best as int].notification.revision
                        <= #[trigger] self.notifications@[j].notification.revision,
                forall|j: int|
                    0 <= j < best ==> self.notifications@[best as int].notification.revision
                        < #[trigger] self.notifications@[j].notification.revision,
            decreases self.notifications.len() - i,
        {
            if self.notifications[i].notification.revision < self.notifications[best].notification.revision {
                best = i;
            }
            i += 1;
        }
        proof {
            let m = oldest(self@.entries);
            assert(first_oldest(self@.entries, best as int));
            assert(first_oldest(self@.entries, m));
            if m < best {
                assert(self@.entries[best as int].notification.revision
                    < self@.entries[m].notification.revision);
            } else if m > best {
                assert(self@.entries[m].notification.revision
                    < self@.entries[best as int].notification.revision);
            }
        }
        best
    }

    fn evict_at_capacity(&mut self) -> (r: Option<(u32, CloseReason)>)
        requires
            old(self)@.wf(),
        ensures
            final(self)@.wf(),
            final(self)@.next_id == old(self)@.next_id,
            final(self)@.next_revision == old(self)@.next_revision,
            final(self)@.dnd == old(self)@.dnd,
            old(self)@.entries.len() < MAX_NOTIFICATIONS ==> r is None && final(self)@.entries
                == old(self)@.entries,
            old(self)@.entries.len() >= MAX_NOTIFICATIONS ==> {
                let m = oldest(old(self)@.entries);
                &&& first_oldest(old(self)@.entries, m)
                &&& r == Some((id_at(old(self)@.entries, m), CloseReason::Undefined))
                &&& final(self)@.entries == old(self)@.entries.remove(m)
            },
    {
        if self.notifications.len() < MAX_NOTIFICATIONS {
            return None;
        }
        let index = self.oldest_index();
        let stored = self.notifications.remove(index);
        proof {
            let e = old(self)@.entries;
            let r = self@.entries;
            assert(r == e.remove(index as int));
            assert forall|i: int, j: int|
                0 <= i < r.len() && 0 <= j < r.len() && i != j implies #[trigger] id_at(r, i)
                != #[trigger] id_at(r, j) by {
                let a = if i < index { i } else { i + 1 };
                let b = if j < index { j } else { j + 1 };
                assert(id_at(r, i) == id_at(e, a));
                assert(id_at(r, j) == id_at(e, b));
            }
            assert forall|i: int| 0 <= i < r.len() implies entry_ok(#[trigger] r[i]) by {
                let a = if i < index { i } else { i + 1 };
                assert(r[i] == e[a]);
                assert(id_at(r, i) == id_at(e, a));
            }
        }
        Some((stored.notification.id, CloseReason::Undefined))
    }

    fn allocate_id(&mut self) -> (r: u32)
        requires
            old(self)@.wf(),
        ensures
            final(self)@ == (StoreView { next_id: r, ..old(self)@ }),
            r == allocated_id(old(self)@.entries, old(self)@.next_id),
            free_id(old(self)@.entries, r),
    {
        let ghost start = self.next_id;
        let ghost e = self@.entries;
        let ghost mut hit: Set<int> = Set::empty();
        let mut step: u64 = 0;
        loop
            invariant
                e == self@.entries,
                e == old(self)@.entries,
                start == old(self)@.next_id,
                old(self)@.wf(),
                e.len() <= MAX_NOTIFICATIONS,
                unique_ids(e),
                self@ == (StoreView { next_id: self.next_id, ..old(self)@ }),
                step < 0x1_0000_0000,
                self.next_id == candidate(start, step as int),
                forall|j: int| 1 <= j <= step ==> !free_id(e, #[trigger] candidate(start, j)),
                hit.finite(),
                hit.subset_of(vstd::set_lib::set_int_range(0, e.len() as int)),
                forall|m: int|
                    #[trigger] hit.contains(m) ==> exists|j: int|
                        1 <= j <= step && id_at(e, m) == #[trigger] candidate(start, j),
                forall|j: int|
                    1 <= j <= step && #[trigger] candidate(start, j) != 0 ==> exists|m: int|
                        hit.contains(m) && id_at(e, m) == candidate(start, j),
                step <= hit.len() + 1,
                step > hit.len() ==> exists|j: int|
                    1 <= j <= step && #[trigger] candidate(start, j) == 0,
            decreases 0x1_0000_0000 - step,
        {
            proof {
                vstd::set_lib::lemma_int_range(0, e.len() as int);
                vstd::set_lib::lemma_len_subset(hit, vstd::set_lib::set_int_range(0, e.len() as int));
            }
            self.next_id = self.next_id.wrapping_add(1);
            step = step + 1;
            assert(self.next_id == candidate(start, step as int));
            if self.next_id != 0 {
                if let Some(index) = self.position_of(self.next_id) {
                    proof {
                        let old_hit = hit;
                        assert(!old_hit.contains(index as int)) by {
                            if old_hit.contains(index as int) {
                                let j = choose|j: int|
                                    1 <= j <= step - 1 && id_at(e, index as int)
                                        == #[trigger] candidate(start, j);
                                assert(candidate(start, j) != candidate(start, step as int));
                            }
                        }
                        hit = old_hit.insert(index as int);
                        assert forall|j: int|
                            1 <= j <= step && #[trigger] candidate(start, j) != 0 implies exists|m: int|
                            hit.contains(m) && id_at(e, m) == candidate(start, j) by {
                            if j == step {
                                assert(hit.contains(index as int));
                            } else {
                                let m = choose|m: int|
                                    old_hit.contains(m) && id_at(e, m) == candidate(start, j);
                                assert(hit.contains(m));
                            }
                        }
                        assert forall|m: int| #[trigger] hit.contains(m) implies exists|j: int|
                            1 <= j <= step && id_at(e, m) == #[trigger] candidate(start, j) by {
                            if m == index {
                                assert(id_at(e, m) == candidate(start, step as int));
                            } else {
                                assert(old_hit.contains(m));
                            }
                        }
                        if step > hit.len() {
                            let j0 = choose|j: int| 1 <= j <= step - 1 && #[trigger] candidate(start, j) == 0;
                        }
                    }
                    continue;
                } else {
                    proof {
                        assert(first_free_step(e, start, step as int));
                        let k = choose|k: int| first_free_step(e, start, k);
                        if k < step {
                            assert(!free_id(e, candidate(start, k)));
                        } else if k > step {
                            assert(!free_id(e, candidate(start, step as int)));
                        }
                        assert(k == step);

                    }
                    return self.next_id;
                }
            } else {
                proof {
                    assert(!free_id(e, candidate(start, step as int)));
                    if step - 1 > hit.len() {
                        let j0 = choose|j: int| 1 <= j <= step - 1 && #[trigger] candidate(start, j) == 0;
                        assert(candidate(start, j0) != candidate(start, step as int));
                    }
                }
            }
        }
    }

    /// Adds an incoming notification, or replaces the one it names or stacks
    /// with, received at `received_at`. Returns its id and the notification
    /// evicted to make room, if any.
    pub fn notify_at(&mut self, incoming: Incoming, received_at: i64) -> (r: (
        u32,
        Option<(u32, CloseReason)>,
    ))
        requires
            old(self)@.wf(),
        ensures
            final(self)@.wf(),
            notify_outcome(old(self)@, incoming, received_at, r, final(self)@),
    {
        let replacement = self.replacement_index(&incoming);
        let ghost e0 = self@.entries;
        let evicted = if replacement.is_none() {
            self.evict_at_capacity()
        } else {
            None
        };
        assert(self@.wf());
        let id = match replacement {
            Some(index) => self.notifications[index].notification.id,
            None => {
                let ghost before = self@;
                let id = self.allocate_id();
                assert(self@.entries == before.entries);
                id
            },
        };
        let ghost e1 = self@.entries;
        assert(self@.wf());
        let revision = self.allocate_revision();
        assert(self@.entries == e1);
        let popup_timeout = popup_timeout(incoming.urgency);
        let show_popup = match replacement {
            Some(index) => self.notifications[index].show_popup,
            None => true,
        };
        let popup_deadline = match popup_timeout {
            Some(_) => match replacement {
                Some(index) => self.notifications[index].popup_deadline,
                None => None,
            },
            None => None,
        };
        let ghost inc = incoming;
        let stored = Stored {
            notification: Notification {
                id,
                revision,
                received_at,
                app_name: incoming.app_name,
                app_icon: incoming.app_icon,
                picture: incoming.picture,
                progress: incoming.progress,
                summary: incoming.summary,
                body: incoming.body,
                actions: incoming.actions,
                urgency: incoming.urgency,
                desktop_entry: incoming.desktop_entry,
                resident: incoming.resident,
            },
            tag: incoming.tag,
            transient: incoming.transient,
            popup_timeout,
            popup_deadline,
            show_popup,
        };
        assert(stored == stored_from(inc, id, revision, received_at, show_popup, popup_deadline));
        match replacement {
            Some(index) => {
                self.notifications.set(index, stored);
                proof {
                    let r = self@.entries;
                    assert forall|i: int, j: int|
                        0 <= i < r.len() && 0 <= j < r.len() && i != j implies #[trigger] id_at(
                            r,
                            i,
                        ) != #[trigger] id_at(r, j) by {
                        assert(id_at(r, i) == id_at(e1, i));
                        assert(id_at(r, j) == id_at(e1, j));
                    }
                    assert forall|i: int| 0 <= i < r.len() implies entry_ok(#[trigger] r[i]) by {
                        if i != index {
                            assert(r[i] == e1[i]);
                            assert(entry_ok(e1[i]));
                        } else {
                            assert(r[i] == stored);
                            assert(entry_ok(e1[i]));
                        }
                    }
                }
            },
            None => {
                assert(e1.len() < MAX_NOTIFICATIONS);
                self.notifications.insert(0, stored);
                proof {
                    let r = self@.entries;
                    assert(r == seq![stored] + e1);
                    assert forall|i: int, j: int|
                        0 <= i < r.len() && 0 <= j < r.len() && i != j implies #[trigger] id_at(
                            r,
                            i,
                        ) != #[trigger] id_at(r, j) by {
                        if i > 0 && j > 0 {
                            assert(id_at(r, i) == id_at(e1, i - 1));
                            assert(id_at(r, j) == id_at(e1, j - 1));
                        } else if i == 0 {
                            assert(id_at(r, j) == id_at(e1, j - 1));
                            assert(!has_id(e1, id));
                        } else {
                            assert(id_at(r, i) == id_at(e1, i - 1));
                            assert(!has_id(e1, id));
                        }
                    }
                    assert forall|i: int| 0 <= i < r.len() implies entry_ok(#[trigger] r[i]) by {
                        if i > 0 {
                            assert(r[i] == e1[i - 1]);
                            assert(entry_ok(e1[i - 1]));
                        } else {
                            assert(r[i] == stored);
                        }
                    }
                }
            },
        }
        (id, evicted)
    }

    /// Adds an incoming notification stamped with the current time; see
    /// `notify_at` for what it does with the store.
    pub fn notify_with_eviction(&mut self, incoming: Incoming) -> (r: (
        u32,
        Option<(u32, CloseReason)>,
    ))
        requires
            old(self)@.wf(),
        ensures
            final(self)@.wf(),
            exists|received_at: i64| #[trigger] notify_outcome(old(self)@, incoming, received_at, r, final(self)@),
    {
        let received_at = unix_now();
        self.notify_at(incoming, received_at)
    }

    /// `notify_with_eviction` without the eviction report.
    pub fn notify(&mut self, incoming: Incoming) -> (id: u32)
        requires
            old(self)@.wf(),
        ensures
            final(self)@.wf(),
            final(self)@.dnd == old(self)@.dnd,
            final(self)@.next_revision == next_revision(old(self)@.next_revision),
            match replacement(old(self)@.entries, incoming) {
                Some(k) => id == id_at(old(self)@.entries, k) && final(self)@.entries.len()
                    == old(self)@.entries.len(),
                None => id != 0 && !has_id(old(self)@.entries, id) || old(self)@.entries.len()
                    >= MAX_NOTIFICATIONS,
            },
            has_id(final(self)@.entries, id),
            id_at(final(self)@.entries, index_of_id(final(self)@.entries, id)) == id,
            final(self)@.entries[index_of_id(
                final(self)@.entries,
                id,
            )].notification.revision == next_revision(old(self)@.next_revision),
            exists|received_at: i64, evicted: Option<(u32, CloseReason)>|
                #[trigger] notify_outcome(old(self)@, incoming, received_at, (id, evicted), final(self)@),
    {
        let ghost e = self@.entries;
        let r = self.notify_with_eviction(incoming);
        proof {
            let f = self@.entries;
            let received_at = choose|t: i64| #[trigger] notify_outcome(old(self)@, incoming, t, r, self@);
            match replacement(e, incoming) {
                Some(k) => {
                    assert(id_at(f, k) == r.0);
                },
                None => {
                    assert(id_at(f, 0) == r.0);
                    if e.len() < MAX_NOTIFICATIONS {
                    }
                },
            }
            let k = index_of_id(f, r.0);
            assert(has_id(f, r.0));
            assert(notify_outcome(old(self)@, incoming, received_at, (r.0, r.1), self@));
        }
        r.0
    }

    /// Removes the notification with `id`; reports whether there was one.
    pub fn close(&mut self, id: u32) -> (closed: bool)
        requires
            old(self)@.wf(),
        ensures
            final(self)@.wf(),
            closed == has_id(old(self)@.entries, id),
            closed ==> final(self)@ == (StoreView {
                entries: old(self)@.entries.remove(index_of_id(old(self)@.entries, id)),
                ..old(self)@
            }),
            !closed ==> final(self)@ == old(self)@,
            final(self)@ == after_close(old(self)@, id),
    {
        match self.position_of(id) {
            Some(index) => {
                let ghost e = self@.entries;
                self.notifications.remove(index);
                proof {
                    let r = self@.entries;
                    assert(r == e.remove(index as int));
                    assert forall|i: int, j: int|
                        0 <= i < r.len() && 0 <= j < r.len() && i != j implies #[trigger] id_at(
                            r,
                            i,
                        ) != #[trigger] id_at(r, j) by {
                        let a = if i < index { i } else { i + 1 };
                        let b = if j < index { j } else { j + 1 };
                        assert(id_at(r, i) == id_at(e, a));
                        assert(id_at(r, j) == id_at(e, b));
                    }
                    assert forall|i: int| 0 <= i < r.len() implies entry_ok(#[trigger] r[i]) by {
                        let a = if i < index { i } else { i + 1 };
                        assert(r[i] == e[a]);
                    }
                }
                true
            },
            None => false,
        }
    }

    /// Takes down every popup whose deadline has passed at `now`. A transient
    /// notification goes with its popup and is reported as expired, newest
    /// position first; any other stays without a popup.
    pub fn hide_due_popups(&mut self, now: u64) -> (closed: Vec<(u32, CloseReason)>)
        requires
            old(self)@.wf(),
        ensures
            final(self)@.wf(),
            final(self)@ == (StoreView {
                entries: after_hiding(old(self)@.entries, now),
                ..old(self)@
            }),
            closed@ == expiring(old(self)@.entries, now).reverse(),
    {
        let ghost e = self@.entries;
        let mut entries: Vec<Stored> = Vec::new();
        std::mem::swap(&mut entries, &mut self.notifications);
        let mut kept: Vec<Stored> = Vec::new();
        let mut expired: Vec<(u32, CloseReason)> = Vec::new();
        let ghost mut i: int = 0;
        for stored in it: entries
            invariant
                e == it.seq(),
                i == it.index(),
                0 <= i <= e.len(),
                kept@ == after_hiding(e.take(i), now),
                expired@ == expiring(e.take(i), now),
        {
            assert(e.take(i + 1).drop_last() == e.take(i));
            assert(e.take(i + 1).last() == stored);
            let due = match stored.popup_deadline {
                Some(at) => at <= now,
                None => false,
            };
            if due {
                if stored.transient {
                    expired.push((stored.notification.id, CloseReason::Expired));
                } else {
                    let mut hidden_one = stored;
                    hidden_one.show_popup = false;
                    hidden_one.popup_deadline = None;
                    kept.push(hidden_one);
                }
            } else {
                kept.push(stored);
            }
            proof {
                i = i + 1;
            }
        }
        assert(e.take(e.len() as int) == e);
        self.notifications = kept;
        let mut closed: Vec<(u32, CloseReason)> = Vec::new();
        let mut k = expired.len();
        while k > 0
            invariant
                k <= expired.len(),
                expired@ == expiring(e, now),
                closed@ == expired@.subrange(k as int, expired@.len() as int).reverse(),
            decreases k,
        {
            k -= 1;
            closed.push(expired[k]);
            assert(expired@.subrange(k as int, expired@.len() as int) == seq![expired@[k as int]]
                + expired@.subrange(k + 1, expired@.len() as int));
            assert(expired@.subrange(k as int, expired@.len() as int).reverse() == expired@.subrange(
                k + 1,
                expired@.len() as int,
            ).reverse().push(expired@[k as int]));
        }
        assert(expired@.subrange(0, expired@.len() as int) == expired@);
        proof {
            lemma_hiding_keeps_wf(old(self)@, now);
        }
        closed
    }

    /// Starts the popup timeout of the notification with this id and revision,
    /// now that it is on screen; reports whether there is such a notification.
    pub fn displayed(&mut self, id: u32, revision: u64, now: u64) -> (found: bool)
        requires
            old(self)@.wf(),
        ensures
            final(self)@.wf(),
            found == (has_id(old(self)@.entries, id) && old(self)@.entries[index_of_id(
                old(self)@.entries,
                id,
            )].notification.revision == revision),
            found ==> {
                let k = index_of_id(old(self)@.entries, id);
                let s = old(self)@.entries[k];
                final(self)@ == (StoreView {
                    entries: old(self)@.entries.update(
                        k,
                        Stored {
                            popup_deadline: match s.popup_timeout {
                                Some(t) => if now + t <= u64::MAX {
                                    Some((now + t) as u64)
                                } else {
                                    None
                                },
                                None => None,
                            },
                            ..s
                        },
                    ),
                    ..old(self)@
                })
            },
            !found ==> final(self)@ == old(self)@,
            final(self)@ == after_displayed(old(self)@, id, revision, now),
    {
        let index = match self.position_of(id) {
            Some(index) => index,
            None => return false,
        };
        if self.notifications[index].notification.revision != revision {
            return false;
        }
        let deadline = match self.notifications[index].popup_timeout {
            Some(timeout) => now.checked_add(timeout),
            None => None,
        };
        let ghost e = self@.entries;
        let mut stored = self.notifications.remove(index);
        stored.popup_deadline = deadline;
        self.notifications.insert(index, stored);
        proof {
            let r = self@.entries;
            assert(r == e.update(index as int, stored));
            assert forall|i: int, j: int|
                0 <= i < r.len() && 0 <= j < r.len() && i != j implies #[trigger] id_at(r, i)
                != #[trigger] id_at(r, j) by {
                assert(id_at(r, i) == id_at(e, i));
                assert(id_at(r, j) == id_at(e, j));
            }
            assert forall|i: int| 0 <= i < r.len() implies entry_ok(#[trigger] r[i]) by {
                assert(entry_ok(e[i]));
            }
        }
        true
    }

    /// The earliest popup deadline, if any popup has one.
    pub fn next_popup_deadline(&self) -> (r: Option<u64>)
        ensures
            r is None <==> forall|i: int|
                0 <= i < self@.entries.len() ==> (#[trigger] self@.entries[i]).popup_deadline is None,
            r matches Some(d) ==> (exists|i: int|
                0 <= i < self@.entries.len() && (#[trigger] self@.entries[i]).popup_deadline
                    == Some(d)) && forall|i: int|
                0 <= i < self@.entries.len() ==> match (#[trigger] self@.entries[i]).popup_deadline {
                    Some(at) => d <= at,
                    None => true,
                },
    {
        let mut best: Option<u64> = None;
        let mut i: usize = 0;
        while i < self.notifications.len()
            invariant
                i <= self.notifications.len(),
                best is None <==> forall|j: int|
                    0 <= j < i ==> (#[trigger] self@.entries[j]).popup_deadline is None,
                best matches Some(d) ==> (exists|j: int|
                    0 <= j < i && (#[trigger] self@.entries[j]).popup_deadline == Some(d))
                    && forall|j: int|
                    0 <= j < i ==> match (#[trigger] self@.entries[j]).popup_deadline {
                        Some(at) => d <= at,
                        None => true,
                    },
            decreases self.notifications.len() - i,
        {
            let ghost before = best;
            if let Some(at) = self.notifications[i].popup_deadline {
                best = match best {
                    Some(d) => if at < d {
                        Some(at)
                    } else {
                        Some(d)
                    },
                    None => Some(at),
                };
                proof {
                    assert(self@.entries[i as int].popup_deadline == Some(at));
                }
            }
            i += 1;
        }
        best
    }

    /// Dismisses every notification, reporting each in order.
    pub fn clear(&mut self) -> (closed: Vec<(u32, CloseReason)>)
        requires
            old(self)@.wf(),
        ensures
            final(self)@.wf(),
            final(self)@ == (StoreView { entries: seq![], ..old(self)@ }),
            closed@ == dismissed_all(old(self)@.entries),
    {
        let mut closed: Vec<(u32, CloseReason)> = Vec::new();
        let mut i: usize = 0;
        while i < self.notifications.len()
            invariant
                i <= self.notifications.len(),
                closed@ == dismissed_all(self@.entries.take(i as int)),
            decreases self.notifications.len() - i,
        {
            closed.push((self.notifications[i].notification.id, CloseReason::Dismissed));
            i += 1;
            assert(closed@ =~= dismissed_all(self@.entries.take(i as int)));
        }
        assert(self@.entries.take(i as int) == self@.entries);
        self.notifications.clear();
        closed
    }

    pub fn set_dnd(&mut self, dnd: bool)
        ensures
            final(self)@ == (StoreView { dnd, ..old(self)@ }),
    {
        self.dnd = dnd;
    }

    pub fn dnd(&self) -> (r: bool)
        ensures
            r == self@.dnd,
    {
        self.dnd
    }

    /// Every notification, newest first, with whether its popup is still shown.
    pub fn notifications(&self) -> (r: Vec<(&Notification, bool)>)
        ensures
            r@.len() == self@.entries.len(),
            forall|i: int|
                0 <= i < r@.len() ==> (#[trigger] r@[i]).0 == self@.entries[i].notification
                    && r@[i].1 == self@.entries[i].show_popup,
    {
        let mut r: Vec<(&Notification, bool)> = Vec::new();
        let mut i: usize = 0;
        while i < self.notifications.len()
            invariant
                i <= self.notifications.len(),
                r@.len() == i,
                forall|j: int|
                    0 <= j < i ==> (#[trigger] r@[j]).0 == self@.entries[j].notification && r@[j].1
                        == self@.entries[j].show_popup,
            decreases self.notifications.len() - i,
        {
            let stored = &self.notifications[i];
            r.push((&stored.notification, stored.show_popup));
            i += 1;
        }
        r
    }

    fn allocate_revision(&mut self) -> (r: u64)
        ensures
            final(self)@ == (StoreView { next_revision: r, ..old(self)@ }),
            r == next_revision(old(self)@.next_revision),
            r != 0,
    {
        self.next_revision = self.next_revision.wrapping_add(1);
        if self.next_revision == 0 {
            self.next_revision = 1;
        }
        self.next_revision
    }
}

} // verus!

verus! {

/// No revision in the store is newer than the last one handed out.
pub open spec fn revisions_bounded(v: StoreView) -> bool {
    forall|i: int|
        0 <= i < v.entries.len() ==> (#[trigger] v.entries[i]).notification.revision
            <= v.next_revision
}

/// Every notify, a new one or a replacement, gets a revision newer than every
/// revision already in the store, as long as the revision counter has not
/// wrapped; and the store keeps that property.
pub proof fn law_notify_gives_the_newest_revision(
    v: StoreView,
    incoming: Incoming,
    received_at: i64,
    r: (u32, Option<(u32, CloseReason)>),
    w: StoreView,
)
    requires
        v.wf(),
        revisions_bounded(v),
        v.next_revision < u64::MAX,
        notify_outcome(v, incoming, received_at, r, w),
    ensures
        revisions_bounded(w),
        forall|i: int|
            0 <= i < v.entries.len() ==> (#[trigger] v.entries[i]).notification.revision
                < w.next_revision,
        exists|k: int|
            0 <= k < w.entries.len() && #[trigger] id_at(w.entries, k) == r.0
                && w.entries[k].notification.revision == w.next_revision,
{
    let e = v.entries;
    match replacement(e, incoming) {
        Some(k) => {
            assert(id_at(w.entries, k) == r.0);
            assert forall|i: int| 0 <= i < w.entries.len() implies (
            #[trigger] w.entries[i]).notification.revision <= w.next_revision by {
                if i != k {
                    assert(w.entries[i] == e[i]);
                }
            }
        },
        None => {
            let kept = if e.len() >= MAX_NOTIFICATIONS {
                e.remove(oldest(e))
            } else {
                e
            };
            assert(id_at(w.entries, 0) == r.0);
            assert forall|i: int| 0 <= i < w.entries.len() implies (
            #[trigger] w.entries[i]).notification.revision <= w.next_revision by {
                if i > 0 {
                    assert(w.entries[i] == kept[i - 1]);
                    if e.len() >= MAX_NOTIFICATIONS {
                        lemma_first_oldest_exists(e, e.len() as int);
                        let m = oldest(e);
                        if i - 1 < m {
                            assert(kept[i - 1] == e[i - 1]);
                        } else {
                            assert(kept[i - 1] == e[i]);
                        }
                    }
                }
            }
        },
    }
}

pub open spec fn revision_at(entries: Seq<Stored>, i: int) -> u64 {
    entries[i].notification.revision
}

/// No two stored notifications share a revision, and none is newer than the
/// last one handed out.
pub open spec fn revisions_ok(v: StoreView) -> bool {
    &&& revisions_bounded(v)
    &&& forall|i: int, j: int|
        0 <= i < v.entries.len() && 0 <= j < v.entries.len() && i != j ==> #[trigger] revision_at(
            v.entries,
            i,
        ) != #[trigger] revision_at(v.entries, j)
}

/// Stored notifications keep distinct revisions across a notify, as long as
/// the revision counter has not wrapped.
pub proof fn law_notify_keeps_revisions_distinct(
    v: StoreView,
    incoming: Incoming,
    received_at: i64,
    r: (u32, Option<(u32, CloseReason)>),
    w: StoreView,
)
    requires
        v.wf(),
        revisions_ok(v),
        v.next_revision < u64::MAX,
        notify_outcome(v, incoming, received_at, r, w),
    ensures
        revisions_ok(w),
{
    law_notify_gives_the_newest_revision(v, incoming, received_at, r, w);
    let e = v.entries;
    match replacement(e, incoming) {
        Some(k) => {
            assert forall|i: int, j: int|
                0 <= i < w.entries.len() && 0 <= j < w.entries.len() && i != j implies #[trigger] revision_at(
                w.entries,
                i,
            ) != #[trigger] revision_at(w.entries, j) by {
                if i != k {
                    assert(w.entries[i] == e[i]);
                    assert(e[i].notification.revision < w.next_revision);
                }
                if j != k {
                    assert(w.entries[j] == e[j]);
                    assert(e[j].notification.revision < w.next_revision);
                }
                if i != k && j != k {
                    assert(revision_at(e, i) != revision_at(e, j));
                }
                if i == k || j == k {
                    assert(w.entries[k].notification.revision == w.next_revision) by {
                        let q = choose|q: int|
                            0 <= q < w.entries.len() && #[trigger] id_at(w.entries, q) == r.0
                                && w.entries[q].notification.revision == w.next_revision;
                        assert(id_at(w.entries, k) == r.0);
                    }
                }
            }
        },
        None => {
            let kept = if e.len() >= MAX_NOTIFICATIONS {
                e.remove(oldest(e))
            } else {
                e
            };
            let m = if e.len() >= MAX_NOTIFICATIONS {
                lemma_first_oldest_exists(e, e.len() as int);
                oldest(e)
            } else {
                e.len() as int
            };
            // Where the notification at position `i > 0` of `w` was in `e`.
            assert forall|i: int| 0 < i < w.entries.len() implies #[trigger] w.entries[i] == e[
                if i - 1 < m {
                    i - 1
                } else {
                    i
                }
            ] by {
                assert(w.entries[i] == kept[i - 1]);
            }
            assert(w.entries[0].notification.revision == w.next_revision) by {
                let q = choose|q: int|
                    0 <= q < w.entries.len() && #[trigger] id_at(w.entries, q) == r.0
                        && w.entries[q].notification.revision == w.next_revision;
                assert(id_at(w.entries, 0) == r.0);
            }
            assert forall|i: int, j: int|
                0 <= i < w.entries.len() && 0 <= j < w.entries.len() && i != j implies #[trigger] revision_at(
                w.entries,
                i,
            ) != #[trigger] revision_at(w.entries, j) by {
                let ei = if i - 1 < m {
                    i - 1
                } else {
                    i
                };
                let ej = if j - 1 < m {
                    j - 1
                } else {
                    j
                };
                if i > 0 {
                    assert(w.entries[i] == e[ei]);
                    assert(e[ei].notification.revision < w.next_revision);
                }
                if j > 0 {
                    assert(w.entries[j] == e[ej]);
                    assert(e[ej].notification.revision < w.next_revision);
                }
                if i > 0 && j > 0 {
                    assert(revision_at(e, ei) != revision_at(e, ej));
                }
            }
        },
    }
}

/// Closing, displaying, hiding due popups, clearing and switching
/// do-not-disturb never make two stored notifications share a revision, nor
/// hand out a newer one.
pub proof fn law_revisions_stay_distinct(v: StoreView, id: u32, revision: u64, now: u64, dnd: bool)
    requires
        v.wf(),
        revisions_ok(v),
    ensures
        revisions_ok(after_close(v, id)),
        revisions_ok(after_displayed(v, id, revision, now)),
        revisions_ok(StoreView { entries: after_hiding(v.entries, now), ..v }),
        revisions_ok(StoreView { entries: seq![], ..v }),
        revisions_ok(StoreView { dnd, ..v }),
{
    let e = v.entries;
    if has_id(e, id) {
        let k = index_of_id(e, id);
        let c = e.remove(k);
        assert forall|i: int| 0 <= i < c.len() implies #[trigger] c[i] == e[
            if i < k {
                i
            } else {
                i + 1
            }
        ] by {}
        assert forall|i: int, j: int|
            0 <= i < c.len() && 0 <= j < c.len() && i != j implies #[trigger] revision_at(c, i)
            != #[trigger] revision_at(c, j) by {
            let ei = if i < k {
                i
            } else {
                i + 1
            };
            let ej = if j < k {
                j
            } else {
                j + 1
            };
            assert(c[i] == e[ei]);
            assert(c[j] == e[ej]);
            assert(revision_at(e, ei) != revision_at(e, ej));
        }
        assert forall|i: int| 0 <= i < c.len() implies (#[trigger] c[i]).notification.revision
            <= v.next_revision by {
            if i < k {
                assert(c[i] == e[i]);
            } else {
                assert(c[i] == e[i + 1]);
            }
        }
        if e[k].notification.revision == revision {
            let d = after_displayed(v, id, revision, now).entries;
            assert forall|i: int| 0 <= i < d.len() implies #[trigger] revision_at(d, i)
                == revision_at(e, i) by {}
            assert forall|i: int| 0 <= i < d.len() implies (#[trigger] d[i]).notification.revision
                <= v.next_revision by {
                assert(revision_at(d, i) == revision_at(e, i));
            }
        }
    }
    let h = after_hiding(e, now);
    lemma_after_hiding_props(e, now);
    lemma_after_hiding_unique(e, now);
    assert forall|k: int| 0 <= k < h.len() implies exists|i: int|
        0 <= i < e.len() && (#[trigger] h[k]).notification == e[i].notification by {
        let i = choose|i: int|
            0 <= i < e.len() && (#[trigger] after_hiding(e, now)[k] == e[i] || after_hiding(e, now)[k]
                == hidden(e[i]));
    }
    assert forall|a: int, b: int|
        0 <= a < h.len() && 0 <= b < h.len() && a != b implies #[trigger] revision_at(h, a)
        != #[trigger] revision_at(h, b) by {
        let i = choose|i: int| 0 <= i < e.len() && (#[trigger] h[a]).notification == e[i].notification;
        let j = choose|j: int| 0 <= j < e.len() && (#[trigger] h[b]).notification == e[j].notification;
        assert(id_at(h, a) != id_at(h, b));
        assert(i != j);
        assert(revision_at(e, i) != revision_at(e, j));
    }
    assert forall|a: int| 0 <= a < h.len() implies (#[trigger] h[a]).notification.revision
        <= v.next_revision by {
        let i = choose|i: int| 0 <= i < e.len() && (#[trigger] h[a]).notification == e[i].notification;
    }
}

/// A notify leaves a well-formed store.
proof fn lemma_notify_outcome_wf(
    v: StoreView,
    incoming: Incoming,
    received_at: i64,
    r: (u32, Option<(u32, CloseReason)>),
    w: StoreView,
)
    requires
        v.wf(),
        notify_outcome(v, incoming, received_at, r, w),
    ensures
        w.wf(),
{
    lemma_notify_keeps_wf(v, incoming, received_at, r, w);
    law_notification_count_is_bounded(v, incoming, received_at, r, w);
    let e = v.entries;
    match replacement(e, incoming) {
        Some(k) => {
            assert(0 <= k < e.len()) by {
                if incoming.replaces_id != 0 && has_id(e, incoming.replaces_id) {
                } else {
                    let c = choose|c: int| first_tag_match(e, c, incoming);
                }
            }
            assert forall|i: int| 0 <= i < w.entries.len() implies entry_ok(#[trigger] w.entries[i]) by {
                assert(entry_ok(e[i]));
            }
        },
        None => {
            let kept = if e.len() >= MAX_NOTIFICATIONS {
                e.remove(oldest(e))
            } else {
                e
            };
            if e.len() >= MAX_NOTIFICATIONS {
                lemma_first_oldest_exists(e, e.len() as int);
            }
            assert forall|i: int| 0 <= i < w.entries.len() implies entry_ok(#[trigger] w.entries[i]) by {
                if i > 0 {
                    assert(w.entries[i] == kept[i - 1]);
                    if e.len() >= MAX_NOTIFICATIONS {
                        let m = oldest(e);
                        if i - 1 < m {
                            assert(kept[i - 1] == e[i - 1]);
                        } else {
                            assert(kept[i - 1] == e[i]);
                        }
                    } else {
                        assert(kept[i - 1] == e[i - 1]);
                    }
                }
            }
        },
    }
}

/// A notify's outcome is a function of the store, the notification and its
/// arrival time alone: the same three give the same id, the same eviction
/// and the same store, and the new entry's popup timeout is that of its
/// urgency.
pub proof fn law_notify_outcome_is_determined(
    v: StoreView,
    incoming: Incoming,
    received_at: i64,
    r1: (u32, Option<(u32, CloseReason)>),
    w1: StoreView,
    r2: (u32, Option<(u32, CloseReason)>),
    w2: StoreView,
)
    requires
        notify_outcome(v, incoming, received_at, r1, w1),
        notify_outcome(v, incoming, received_at, r2, w2),
    ensures
        r1 == r2,
        w1 == w2,
        match replacement(v.entries, incoming) {
            Some(k) => w1.entries[k].popup_timeout == spec_popup_timeout(incoming.urgency),
            None => w1.entries[0].popup_timeout == spec_popup_timeout(incoming.urgency),
        },
{
    assert(w1.entries =~= w2.entries);
}

/// A call that changes a store, with what it was given (and, for a notify,
/// the arrival time the store read).
pub enum StoreCall {
    Notify(Incoming, i64),
    Close(u32),
    Displayed(u32, u64, u64),
    HideDuePopups(u64),
    Clear,
    SetDnd(bool),
}

/// `w` is what the call makes of the store `v`, as the method's contract
/// says.
pub open spec fn store_step(v: StoreView, call: StoreCall, w: StoreView) -> bool {
    match call {
        StoreCall::Notify(incoming, received_at) => exists|r: (u32, Option<(u32, CloseReason)>)|
            #[trigger] notify_outcome(v, incoming, received_at, r, w),
        StoreCall::Close(id) => w == after_close(v, id),
        StoreCall::Displayed(id, revision, now) => w == after_displayed(v, id, revision, now),
        StoreCall::HideDuePopups(now) => w == (StoreView { entries: after_hiding(v.entries, now), ..v }),
        StoreCall::Clear => w == (StoreView { entries: seq![], ..v }),
        StoreCall::SetDnd(dnd) => w == (StoreView { dnd, ..v }),
    }
}

/// The view of a new store.
pub open spec fn fresh_store() -> StoreView {
    StoreView { next_id: 0, next_revision: 0, entries: seq![], dnd: false }
}

proof fn lemma_close_keeps_wf(v: StoreView, id: u32)
    requires
        v.wf(),
    ensures
        after_close(v, id).wf(),
{
    let e = v.entries;
    if has_id(e, id) {
        let k = index_of_id(e, id);
        let c = e.remove(k);
        assert forall|i: int| 0 <= i < c.len() implies #[trigger] c[i] == e[
            if i < k {
                i
            } else {
                i + 1
            }
        ] by {}
        assert forall|i: int, j: int|
            0 <= i < c.len() && 0 <= j < c.len() && i != j implies #[trigger] id_at(c, i)
            != #[trigger] id_at(c, j) by {
            let ei = if i < k {
                i
            } else {
                i + 1
            };
            let ej = if j < k {
                j
            } else {
                j + 1
            };
            assert(c[i] == e[ei]);
            assert(c[j] == e[ej]);
            assert(id_at(e, ei) != id_at(e, ej));
        }
        assert forall|i: int| 0 <= i < c.len() implies entry_ok(#[trigger] c[i]) by {
            if i < k {
                assert(c[i] == e[i]);
            } else {
                assert(c[i] == e[i + 1]);
            }
        }
    }
}

proof fn lemma_displayed_keeps_wf(v: StoreView, id: u32, revision: u64, now: u64)
    requires
        v.wf(),
    ensures
        after_displayed(v, id, revision, now).wf(),
{
    let w = after_displayed(v, id, revision, now);
    assert forall|i: int, j: int|
        0 <= i < w.entries.len() && 0 <= j < w.entries.len() && i != j implies #[trigger] id_at(
        w.entries,
        i,
    ) != #[trigger] id_at(w.entries, j) by {
        assert(id_at(w.entries, i) == id_at(v.entries, i));
        assert(id_at(w.entries, j) == id_at(v.entries, j));
    }
    assert forall|i: int| 0 <= i < w.entries.len() implies entry_ok(#[trigger] w.entries[i]) by {
        assert(entry_ok(v.entries[i]));
    }
}

/// Every store that calls make of a new one stays consistent: at most
/// `MAX_NOTIFICATIONS` notifications, with non-zero, distinct ids and
/// non-zero revisions, each with the popup timeout of its urgency; and, as
/// long as the revision counter has not wrapped, distinct revisions none
/// newer than the last one handed out.
pub proof fn law_stores_stay_consistent(calls: Seq<StoreCall>, views: Seq<StoreView>)
    requires
        views.len() == calls.len() + 1,
        views[0] == fresh_store(),
        forall|i: int| 0 <= i < calls.len() ==> store_step(views[i], #[trigger] calls[i], views[i + 1]),
    ensures
        forall|i: int| 0 <= i < views.len() ==> (#[trigger] views[i]).wf(),
        forall|i: int|
            0 <= i < views.len() && (forall|j: int| 0 <= j < i ==> (#[trigger] views[j]).next_revision
                < u64::MAX) ==> revisions_ok(#[trigger] views[i]),
    decreases calls.len(),
{
    if calls.len() > 0 {
        let n = calls.len() - 1;
        let c = calls.take(n);
        let vs = views.take(n + 1);
        assert forall|i: int| 0 <= i < c.len() implies store_step(vs[i], #[trigger] c[i], vs[i + 1]) by {
            assert(store_step(views[i], calls[i], views[i + 1]));
        }
        law_stores_stay_consistent(c, vs);
        let v = views[n];
        let w = views[n + 1];
        assert(vs[n] == v);
        assert(v.wf());
        let call = calls[n];
        assert(store_step(v, call, w));
        match call {
            StoreCall::Notify(incoming, received_at) => {
                let r = choose|r: (u32, Option<(u32, CloseReason)>)|
                    #[trigger] notify_outcome(v, incoming, received_at, r, w);
                lemma_notify_outcome_wf(v, incoming, received_at, r, w);
                if (forall|j: int| 0 <= j < n + 1 ==> (#[trigger] views[j]).next_revision < u64::MAX) {
                    assert forall|j: int| 0 <= j < n implies (#[trigger] vs[j]).next_revision
                        < u64::MAX by {
                        assert(vs[j] == views[j]);
                    }
                    assert(revisions_ok(vs[n]));
                    assert(views[n].next_revision < u64::MAX);
                    law_notify_keeps_revisions_distinct(v, incoming, received_at, r, w);
                }
            },
            StoreCall::Close(id) => {
                lemma_close_keeps_wf(v, id);
            },
            StoreCall::Displayed(id, revision, now) => {
                lemma_displayed_keeps_wf(v, id, revision, now);
            },
            StoreCall::HideDuePopups(now) => {
                lemma_hiding_keeps_wf(v, now);
            },
            StoreCall::Clear => {
                assert(w.entries.len() == 0);
            },
            StoreCall::SetDnd(dnd) => {
                assert(w.entries == v.entries);
            },
        }
        assert(w.wf());
        if (forall|j: int| 0 <= j < n + 1 ==> (#[trigger] views[j]).next_revision < u64::MAX) {
            assert forall|j: int| 0 <= j < n implies (#[trigger] vs[j]).next_revision < u64::MAX by {
                assert(vs[j] == views[j]);
            }
            assert(revisions_ok(v));
            match call {
                StoreCall::Close(id) => {
                    law_revisions_stay_distinct(v, id, 0, 0, false);
                },
                StoreCall::Displayed(id, revision, now) => {
                    law_revisions_stay_distinct(v, id, revision, now, false);
                },
                StoreCall::HideDuePopups(now) => {
                    law_revisions_stay_distinct(v, 0, 0, now, false);
                },
                StoreCall::Clear => {
                    law_revisions_stay_distinct(v, 0, 0, 0, false);
                },
                StoreCall::SetDnd(dnd) => {
                    law_revisions_stay_distinct(v, 0, 0, 0, dnd);
                },
                _ => {},
            }
        }
        assert forall|i: int| 0 <= i < views.len() implies (#[trigger] views[i]).wf() by {
            if i <= n {
                assert(vs[i] == views[i]);
            }
        }
        assert forall|i: int|
            0 <= i < views.len() && (forall|j: int| 0 <= j < i ==> (#[trigger] views[j]).next_revision
                < u64::MAX) implies revisions_ok(#[trigger] views[i]) by {
            if i <= n {
                assert(vs[i] == views[i]);
                assert forall|j: int| 0 <= j < i implies (#[trigger] vs[j]).next_revision < u64::MAX by {
                    assert(vs[j] == views[j]);
                }
            }
        }
    }
}

/// What taking down due popups does to one notification: one not yet due
/// stays as it is, a due one that is not transient stays without its popup.
proof fn lemma_hiding_outcome(entries: Seq<Stored>, now: u64, i: int)
    requires
        0 <= i < entries.len(),
    ensures
        !is_due(entries[i], now) ==> exists|k: int|
            0 <= k < after_hiding(entries, now).len() && #[trigger] after_hiding(entries, now)[k]
                == entries[i],
        is_due(entries[i], now) && !entries[i].transient ==> exists|k: int|
            0 <= k < after_hiding(entries, now).len() && #[trigger] after_hiding(entries, now)[k]
                == hidden(entries[i]),
    decreases entries.len(),
{
    let d = entries.drop_last();
    if i < entries.len() - 1 {
        lemma_hiding_outcome(d, now, i);
        assert(d[i] == entries[i]);
        if !is_due(entries[i], now) {
            let k = choose|k: int|
                0 <= k < after_hiding(d, now).len() && #[trigger] after_hiding(d, now)[k] == d[i];
            assert(after_hiding(entries, now)[k] == after_hiding(d, now)[k]);
        }
        if is_due(entries[i], now) && !entries[i].transient {
            let k = choose|k: int|
                0 <= k < after_hiding(d, now).len() && #[trigger] after_hiding(d, now)[k] == hidden(
                    d[i],
                );
            assert(after_hiding(entries, now)[k] == after_hiding(d, now)[k]);
        }
    } else {
        let n = after_hiding(d, now).len();
        if !is_due(entries[i], now) || !entries[i].transient {
            assert(after_hiding(entries, now)[n as int] == after_hiding(entries, now).last());
        }
    }
}

/// A due transient notification goes: no notification with its id is left.
proof fn lemma_hiding_drops(entries: Seq<Stored>, now: u64, i: int)
    requires
        0 <= i < entries.len(),
        unique_ids(entries),
        is_due(entries[i], now),
        entries[i].transient,
    ensures
        forall|k: int|
            0 <= k < after_hiding(entries, now).len() ==> #[trigger] id_at(after_hiding(entries, now), k)
                != id_at(entries, i),
    decreases entries.len(),
{
    let d = entries.drop_last();
    let h = after_hiding(entries, now);
    let hd = after_hiding(d, now);
    lemma_after_hiding_props(d, now);
    assert(unique_ids(d)) by {
        assert forall|a: int, b: int| 0 <= a < d.len() && 0 <= b < d.len() && a != b implies #[trigger] id_at(d, a)
            != #[trigger] id_at(d, b) by {
            assert(id_at(d, a) == id_at(entries, a));
            assert(id_at(d, b) == id_at(entries, b));
        }
    }
    if i < entries.len() - 1 {
        assert(d[i] == entries[i]);
        lemma_hiding_drops(d, now, i);
        assert forall|k: int| 0 <= k < h.len() implies #[trigger] id_at(h, k) != id_at(entries, i) by {
            if k < hd.len() {
                assert(h[k] == hd[k]);
                assert(id_at(hd, k) != id_at(d, i));
            } else {
                assert(id_at(h, k) == id_at(entries, entries.len() - 1));
            }
        }
    } else {
        assert forall|k: int| 0 <= k < h.len() implies #[trigger] id_at(h, k) != id_at(entries, i) by {
            assert(h[k] == hd[k]);
            let j = choose|j: int|
                0 <= j < d.len() && (#[trigger] after_hiding(d, now)[k] == d[j] || after_hiding(d, now)[k]
                    == hidden(d[j]));
            assert(id_at(d, j) == id_at(entries, j));
        }
    }
}

/// A displayed popup that is not critical is taken down exactly
/// `POPUP_TIMEOUT_MS` (five seconds) after it was displayed: until then it
/// stays as it is; from then on it goes if it is transient, and otherwise
/// stays without its popup.
pub proof fn law_displayed_popups_hide_after_the_timeout(
    v: StoreView,
    id: u32,
    revision: u64,
    displayed_at: u64,
    now: u64,
)
    requires
        v.wf(),
        has_id(v.entries, id),
        v.entries[index_of_id(v.entries, id)].notification.revision == revision,
        v.entries[index_of_id(v.entries, id)].notification.urgency != Urgency::Critical,
        displayed_at + POPUP_TIMEOUT_MS <= u64::MAX,
    ensures
        ({
            let w = after_displayed(v, id, revision, displayed_at);
            let k = index_of_id(v.entries, id);
            let e = w.entries[k];
            let h = after_hiding(w.entries, now);
            &&& e == (Stored { popup_deadline: Some((displayed_at + POPUP_TIMEOUT_MS) as u64), ..v.entries[k] })
            &&& now < displayed_at + POPUP_TIMEOUT_MS ==> exists|j: int|
                0 <= j < h.len() && #[trigger] h[j] == e
            &&& now >= displayed_at + POPUP_TIMEOUT_MS && !e.transient ==> exists|j: int|
                0 <= j < h.len() && #[trigger] h[j] == hidden(e) && !h[j].show_popup
            &&& now >= displayed_at + POPUP_TIMEOUT_MS && e.transient ==> forall|j: int|
                0 <= j < h.len() ==> #[trigger] id_at(h, j) != id
        }),
{
    let w = after_displayed(v, id, revision, displayed_at);
    let k = index_of_id(v.entries, id);
    assert(entry_ok(v.entries[k]));
    lemma_displayed_keeps_wf(v, id, revision, displayed_at);
    lemma_hiding_outcome(w.entries, now, k);
    if now >= displayed_at + POPUP_TIMEOUT_MS && w.entries[k].transient {
        lemma_hiding_drops(w.entries, now, k);
    }
}

/// A new notification never grows the store past its bound: at capacity the
/// oldest one makes room, and a replacement keeps the count.
pub proof fn law_notification_count_is_bounded(
    v: StoreView,
    incoming: Incoming,
    received_at: i64,
    r: (u32, Option<(u32, CloseReason)>),
    w: StoreView,
)
    requires
        v.wf(),
        notify_outcome(v, incoming, received_at, r, w),
    ensures
        w.entries.len() <= MAX_NOTIFICATIONS,
        replacement(v.entries, incoming) is Some ==> w.entries.len() == v.entries.len() && r.1 is None,
        replacement(v.entries, incoming) is None && v.entries.len() == MAX_NOTIFICATIONS ==> r.1
            is Some && w.entries.len() == MAX_NOTIFICATIONS,
        replacement(v.entries, incoming) is None && v.entries.len() < MAX_NOTIFICATIONS ==> r.1
            is None && w.entries.len() == v.entries.len() + 1,
{
    let e = v.entries;
    if replacement(e, incoming) is None && e.len() >= MAX_NOTIFICATIONS {
        let m = oldest(e);
        lemma_first_oldest_exists(e, e.len() as int);
    }
}

/// Some notification among the first `n` carries the first oldest revision
/// of those `n`.
proof fn lemma_first_oldest_exists(e: Seq<Stored>, n: int)
    requires
        0 < n <= e.len(),
    ensures
        exists|m: int| first_oldest(e.take(n), m),
        n == e.len() ==> exists|m: int| first_oldest(e, m),
    decreases n,
{
    let t = e.take(n);
    if n == 1 {
        assert(first_oldest(t, 0));
    } else {
        lemma_first_oldest_exists(e, n - 1);
        let p = e.take(n - 1);
        let m = choose|m: int| first_oldest(p, m);
        assert forall|j: int| 0 <= j < n - 1 implies #[trigger] t[j] == p[j] by {}
        if t[n - 1].notification.revision < t[m].notification.revision {
            assert(first_oldest(t, n - 1));
        } else {
            assert(first_oldest(t, m));
        }
    }
    if n == e.len() {
        assert(t == e);
    }
}

/// Taking down due popups only removes transient notifications: every other
/// notification stays, with the same content, and only loses its popup.
pub proof fn law_hiding_keeps_persistent_notifications(entries: Seq<Stored>, now: u64, i: int)
    requires
        0 <= i < entries.len(),
        !entries[i].transient,
    ensures
        exists|k: int|
            0 <= k < after_hiding(entries, now).len() && (#[trigger] after_hiding(
                entries,
                now,
            )[k]).notification == entries[i].notification,
    decreases entries.len(),
{
    let d = entries.drop_last();
    if i < entries.len() - 1 {
        law_hiding_keeps_persistent_notifications(d, now, i);
        let k = choose|k: int|
            0 <= k < after_hiding(d, now).len() && (#[trigger] after_hiding(d, now)[k]).notification
                == d[i].notification;
        assert(after_hiding(entries, now)[k] == after_hiding(d, now)[k]);
    } else {
        let n = after_hiding(d, now).len();
        assert(after_hiding(entries, now)[n as int].notification == entries[i].notification);
    }
}

/// A popup without a deadline is never taken down: critical notifications,
/// and popups that have not been displayed yet, stay up whatever the time.
pub proof fn law_popups_without_deadline_stay(entries: Seq<Stored>, now: u64, i: int)
    requires
        0 <= i < entries.len(),
        entries[i].popup_deadline is None,
    ensures
        exists|k: int|
            0 <= k < after_hiding(entries, now).len() && #[trigger] after_hiding(entries, now)[k]
                == entries[i],
    decreases entries.len(),
{
    let d = entries.drop_last();
    if i < entries.len() - 1 {
        law_popups_without_deadline_stay(d, now, i);
        let k = choose|k: int|
            0 <= k < after_hiding(d, now).len() && #[trigger] after_hiding(d, now)[k] == d[i];
        assert(after_hiding(entries, now)[k] == after_hiding(d, now)[k]);
    } else {
        let n = after_hiding(d, now).len();
        assert(after_hiding(entries, now)[n as int] == entries[i]);
    }
}

/// A critical notification's popup is never taken down by time: in any
/// well-formed store it has no deadline, so hiding due popups at any moment
/// keeps it as it is.
pub proof fn law_critical_popups_never_time_out(v: StoreView, now: u64, i: int)
    requires
        v.wf(),
        0 <= i < v.entries.len(),
        v.entries[i].notification.urgency == Urgency::Critical,
    ensures
        v.entries[i].popup_deadline is None,
        exists|k: int|
            0 <= k < after_hiding(v.entries, now).len() && #[trigger] after_hiding(v.entries, now)[k]
                == v.entries[i],
{
    assert(entry_ok(v.entries[i]));
    law_popups_without_deadline_stay(v.entries, now, i);
}

/// Critical notifications never get a popup timeout, and a new notification
/// gets no deadline until it is displayed.
pub proof fn law_timeouts_start_on_display(
    v: StoreView,
    incoming: Incoming,
    received_at: i64,
    r: (u32, Option<(u32, CloseReason)>),
    w: StoreView,
)
    requires
        v.wf(),
        notify_outcome(v, incoming, received_at, r, w),
    ensures
        incoming.urgency == Urgency::Critical ==> forall|k: int|
            0 <= k < w.entries.len() && #[trigger] id_at(w.entries, k) == r.0
                ==> w.entries[k].popup_timeout is None && w.entries[k].popup_deadline is None,
        replacement(v.entries, incoming) is None ==> w.entries[0].popup_deadline is None
            && w.entries[0].show_popup && id_at(w.entries, 0) == r.0,
{
    lemma_notify_keeps_wf(v, incoming, received_at, r, w);
    let e = v.entries;
    match replacement(e, incoming) {
        Some(k) => {
            assert(id_at(w.entries, k) == r.0);
        },
        None => {
            assert(id_at(w.entries, 0) == r.0);
        },
    }
}

/// `notify_outcome` leaves a well-formed store (what `notify_at` proves of its result).
proof fn lemma_notify_keeps_wf(
    v: StoreView,
    incoming: Incoming,
    received_at: i64,
    r: (u32, Option<(u32, CloseReason)>),
    w: StoreView,
)
    requires
        v.wf(),
        notify_outcome(v, incoming, received_at, r, w),
    ensures
        unique_ids(w.entries),
{
    let e = v.entries;
    match replacement(e, incoming) {
        Some(k) => {
            assert forall|i: int, j: int|
                0 <= i < w.entries.len() && 0 <= j < w.entries.len() && i != j implies #[trigger] id_at(
                w.entries,
                i,
            ) != #[trigger] id_at(w.entries, j) by {
                assert(0 <= k < e.len()) by {
                    if incoming.replaces_id != 0 && has_id(e, incoming.replaces_id) {
                    } else {
                        let c = choose|c: int| first_tag_match(e, c, incoming);
                    }
                }
                assert(id_at(w.entries, i) == id_at(e, i));
                assert(id_at(w.entries, j) == id_at(e, j));
            }
        },
        None => {
            let kept = if e.len() >= MAX_NOTIFICATIONS {
                e.remove(oldest(e))
            } else {
                e
            };
            if e.len() >= MAX_NOTIFICATIONS {
                lemma_first_oldest_exists(e, e.len() as int);
            }
            assert forall|i: int, j: int|
                0 <= i < w.entries.len() && 0 <= j < w.entries.len() && i != j implies #[trigger] id_at(
                w.entries,
                i,
            ) != #[trigger] id_at(w.entries, j) by {
                assert forall|a: int, b: int|
                    0 <= a < kept.len() && 0 <= b < kept.len() && a != b implies #[trigger] id_at(
                    kept,
                    a,
                ) != #[trigger] id_at(kept, b) by {
                    if e.len() >= MAX_NOTIFICATIONS {
                        let m = oldest(e);
                        let a2 = if a < m { a } else { a + 1 };
                        let b2 = if b < m { b } else { b + 1 };
                        assert(id_at(kept, a) == id_at(e, a2));
                        assert(id_at(kept, b) == id_at(e, b2));
                    }
                }
                if i > 0 {
                    assert(id_at(w.entries, i) == id_at(kept, i - 1));
                }
                if j > 0 {
                    assert(id_at(w.entries, j) == id_at(kept, j - 1));
                }
            }
        },
    }
}

/// A notification that was just added can be closed, which removes it.
pub proof fn law_close_removes(v: StoreView, id: u32)
    requires
        v.wf(),
        has_id(v.entries, id),
    ensures
        !has_id(v.entries.remove(index_of_id(v.entries, id)), id),
        v.entries.remove(index_of_id(v.entries, id)).len() == v.entries.len() - 1,
{
    let k = index_of_id(v.entries, id);
    let r = v.entries.remove(k);
    assert forall|i: int| 0 <= i < r.len() implies #[trigger] id_at(r, i) != id by {
        let a = if i < k { i } else { i + 1 };
        assert(id_at(r, i) == id_at(v.entries, a));
    }
}

} // verus!
