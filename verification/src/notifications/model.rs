//! The snapshot the notification views draw: notifications grouped by the
//! application that sent them, with the bell's state.
use vstd::prelude::*;

use super::state::{self, duplicate_actions, duplicate_picture, Action, Picture, Store, Urgency};
use crate::text::{chars_of, decimal, lowercase, push_decimal, push_str, to_lowercase, trim, trimmed};

verus! {

broadcast use vstd::string::group_string_axioms;

pub struct Snapshot {
    pub groups: Vec<Group>,
    pub count: usize,
    pub dnd: bool,
    pub available: bool,
}

pub struct Group {
    pub key: String,
    pub desktop_entry: Option<String>,
    pub name: String,
    pub icon: Option<String>,
    pub notifications: Vec<Notification>,
}

pub struct Notification {
    pub id: u32,
    pub revision: u64,
    pub received_at: Option<i64>,
    pub active: bool,
    pub app_name: Option<String>,
    pub app_icon: Option<String>,
    pub picture: Option<Picture>,
    pub progress: Option<u8>,
    pub desktop_entry: Option<String>,
    pub summary: String,
    pub body: String,
    pub actions: Vec<Action>,
    pub urgency: Option<String>,
}

impl Snapshot {
    /// The snapshot shown while the notification server is not running.
    pub fn unavailable() -> (r: Self)
        ensures
            r.groups@.len() == 0,
            r.count == 0,
            !r.dnd,
            !r.available,
    {
        Snapshot { groups: Vec::new(), count: 0, dnd: false, available: false }
    }

    /// A snapshot of a running server with no notifications.
    pub fn empty(dnd: bool) -> (r: Self)
        ensures
            r.groups@.len() == 0,
            r.count == 0,
            r.dnd == dnd,
            r.available,
    {
        Snapshot { groups: Vec::new(), count: 0, dnd, available: true }
    }

    pub open spec fn spec_alt(&self) -> Seq<char> {
        if self.dnd {
            if self.count > 0 {
                "dnd-notification"@
            } else {
                "dnd-none"@
            }
        } else if self.count > 0 {
            "notification"@
        } else {
            "none"@
        }
    }

    /// The bell's state: whether do-not-disturb is on and whether there is
    /// anything to read.
    pub fn alt(&self) -> (r: &'static str)
        ensures
            r@ == self.spec_alt(),
    {
        if self.dnd {
            if self.count > 0 {
                "dnd-notification"
            } else {
                "dnd-none"
            }
        } else if self.count > 0 {
            "notification"
        } else {
            "none"
        }
    }

    pub open spec fn spec_tooltip(&self) -> Seq<char> {
        if !self.available {
            "Notifications unavailable"@
        } else if self.dnd {
            if self.count == 0 {
                "Do Not Disturb"@
            } else {
                "Do Not Disturb — "@ + decimal(self.count as nat) + " notification(s)"@
            }
        } else if self.count == 0 {
            "No notifications"@
        } else {
            decimal(self.count as nat) + " notification(s)"@
        }
    }

    /// The bell's tooltip.
    pub fn tooltip(&self) -> (r: String)
        ensures
            r@ == self.spec_tooltip(),
    {
        if !self.available {
            return String::from_str("Notifications unavailable");
        }
        if self.count == 0 {
            if self.dnd {
                return String::from_str("Do Not Disturb");
            } else {
                return String::from_str("No notifications");
            }
        }
        let mut r = String::new();
        if self.dnd {
            push_str(&mut r, "Do Not Disturb — ");
        }
        push_decimal(&mut r, self.count as u128);
        push_str(&mut r, " notification(s)");
        proof {
            if self.dnd {
                assert(r@ == "Do Not Disturb — "@ + decimal(self.count as nat)
                    + " notification(s)"@);
            } else {
                assert(r@ == decimal(self.count as nat) + " notification(s)"@);
            }
        }
        r
    }
}

// ---------------------------------------------------------------------------
// Application identity
// ---------------------------------------------------------------------------
/// A value with surrounding whitespace removed, if anything is left.
pub open spec fn spec_nonempty(value: Option<String>) -> Option<Seq<char>> {
    match value {
        Some(v) => if trim(v@).len() > 0 {
            Some(trim(v@))
        } else {
            None
        },
        None => None,
    }
}

pub fn nonempty(value: &Option<String>) -> (r: Option<String>)
    ensures
        match r {
            Some(s) => spec_nonempty(*value) == Some(s@),
            None => spec_nonempty(*value) is None,
        },
{
    match value {
        Some(v) => {
            let chars = chars_of(v.as_str());
            let t = trimmed(&chars);
            if t.len() > 0 {
                Some(crate::text::string_of(&t))
            } else {
                None
            }
        },
        None => None,
    }
}

/// What groups notifications: the desktop entry, else the application name,
/// else nothing, compared without case.
pub open spec fn spec_application_key(n: Notification) -> Seq<char> {
    match spec_nonempty(n.desktop_entry) {
        Some(d) => "desktop:"@ + lowercase(d),
        None => match spec_nonempty(n.app_name) {
            Some(a) => "name:"@ + lowercase(a),
            None => "other"@,
        },
    }
}

pub fn application_key(n: &Notification) -> (r: String)
    ensures
        r@ == spec_application_key(*n),
{
    if let Some(desktop) = nonempty(&n.desktop_entry) {
        let mut r = String::from_str("desktop:");
        let lower = to_lowercase(desktop.as_str());
        push_str(&mut r, lower.as_str());
        r
    } else if let Some(name) = nonempty(&n.app_name) {
        let mut r = String::from_str("name:");
        let lower = to_lowercase(name.as_str());
        push_str(&mut r, lower.as_str());
        r
    } else {
        String::from_str("other")
    }
}

/// The name a group is shown under: the application name, else the desktop
/// entry, else "Other".
pub open spec fn spec_application_name(n: Notification) -> Seq<char> {
    match spec_nonempty(n.app_name) {
        Some(a) => a,
        None => match spec_nonempty(n.desktop_entry) {
            Some(d) => d,
            None => "Other"@,
        },
    }
}

pub fn application_name(n: &Notification) -> (r: String)
    ensures
        r@ == spec_application_name(*n),
{
    if let Some(name) = nonempty(&n.app_name) {
        name
    } else if let Some(desktop) = nonempty(&n.desktop_entry) {
        desktop
    } else {
        String::from_str("Other")
    }
}

// ---------------------------------------------------------------------------
// Grouping
// ---------------------------------------------------------------------------
/// The model of a group: its key, display fields and notification ids.
pub open spec fn group_opened(n: Notification, key: Seq<char>, g: Group) -> bool {
    &&& g.key@ == key
    &&& match g.desktop_entry {
        Some(d) => spec_nonempty(n.desktop_entry) == Some(d@),
        None => spec_nonempty(n.desktop_entry) is None,
    }
    &&& g.name@ == spec_application_name(n)
    &&& match g.icon {
        Some(i) => n.app_icon matches Some(a) && a@.len() > 0 && i@ == a@,
        None => !(n.app_icon matches Some(a) && a@.len() > 0),
    }
}

pub open spec fn notification_ids(ns: Seq<Notification>) -> Seq<u32> {
    ns.map_values(|n: Notification| n.id)
}

/// The index of the group with `key` among `groups`, if there is one.
pub open spec fn group_index(groups: Seq<Group>, key: Seq<char>) -> Option<int> {
    if exists|g: int| 0 <= g < groups.len() && (#[trigger] groups[g]).key@ == key {
        Some(choose|g: int| 0 <= g < groups.len() && (#[trigger] groups[g]).key@ == key)
    } else {
        None
    }
}

/// The notifications of `s` with application key `key`, in order.
pub open spec fn with_key(s: Seq<Notification>, key: Seq<char>) -> Seq<Notification>
    decreases s.len(),
{
    if s.len() == 0 {
        seq![]
    } else {
        let rest = with_key(s.drop_last(), key);
        if spec_application_key(s.last()) == key {
            rest.push(s.last())
        } else {
            rest
        }
    }
}

/// Key `first` appears in `fo` before key `second` first does: every
/// notification with `second` has one with `first` somewhere before it.
#[verifier::opaque]
pub open spec fn appears_before(fo: Seq<Notification>, first: Seq<char>, second: Seq<char>) -> bool {
    forall|i: int|
        0 <= i < fo.len() && spec_application_key(#[trigger] fo[i]) == second ==> exists|j: int|
            0 <= j < i && spec_application_key(#[trigger] fo[j]) == first
}

/// The keys of `groups` come in the order in which they first appear in
/// `fo`.
pub open spec fn keys_in_order(groups: Seq<Group>, fo: Seq<Notification>) -> bool {
    forall|g: int, h: int|
        0 <= g < h < groups.len() ==> appears_before(
            fo,
            (#[trigger] groups[g]).key@,
            (#[trigger] groups[h]).key@,
        )
}

/// Every key of `groups` is the key of some notification of `fo`.
pub open spec fn keys_seen(groups: Seq<Group>, fo: Seq<Notification>) -> bool {
    forall|g: int|
        0 <= g < groups.len() ==> exists|i: int|
            0 <= i < fo.len() && (#[trigger] groups[g]).key@ == spec_application_key(
                #[trigger] fo[i],
            )
}

/// `groups` groups the notifications `fo` (no id twice): one group per
/// application key, keys in order of first appearance, each group holding
/// the notifications of its key in order and shown as its first one says.
pub open spec fn grouped(groups: Seq<Group>, fo: Seq<Notification>) -> bool {
    &&& forall|g: int, h: int|
        0 <= g < h < groups.len() ==> (#[trigger] groups[g]).key@ != (#[trigger] groups[h]).key@
    &&& keys_in_order(groups, fo)
    &&& forall|g: int|
        0 <= g < groups.len() ==> (#[trigger] groups[g]).notifications@ == with_key(
            fo,
            groups[g].key@,
        )
    &&& forall|g: int|
        0 <= g < groups.len() ==> (#[trigger] groups[g]).notifications@.len() > 0 && group_opened(
            groups[g].notifications@[0],
            groups[g].key@,
            groups[g],
        )
    &&& forall|i: int|
        0 <= i < fo.len() ==> exists|g: int|
            0 <= g < groups.len() && (#[trigger] groups[g]).key@ == spec_application_key(
                #[trigger] fo[i],
            )
    &&& keys_seen(groups, fo)
}

/// `grouped`, kept folded while `group` builds its result.
#[verifier::opaque]
spec fn grouped_so_far(groups: Seq<Group>, fo: Seq<Notification>) -> bool {
    grouped(groups, fo)
}

/// The notifications whose id has not come earlier, in order.
pub open spec fn first_occurrences(ns: Seq<Notification>) -> Seq<Notification>
    decreases ns.len(),
{
    if ns.len() == 0 {
        seq![]
    } else {
        let rest = first_occurrences(ns.drop_last());
        if notification_ids(rest).contains(ns.last().id) {
            rest
        } else {
            rest.push(ns.last())
        }
    }
}

/// The number of distinct ids.
pub open spec fn count_distinct(ns: Seq<Notification>) -> nat {
    first_occurrences(ns).len()
}

proof fn lemma_first_occurrences_ids(ns: Seq<Notification>)
    ensures
        notification_ids(first_occurrences(ns)).no_duplicates(),
        forall|i: int|
            0 <= i < ns.len() ==> notification_ids(first_occurrences(ns)).contains(
                #[trigger] ns[i].id,
            ),
        forall|j: int|
            0 <= j < first_occurrences(ns).len() ==> exists|i: int|
                0 <= i < ns.len() && #[trigger] first_occurrences(ns)[j] == ns[i],
    decreases ns.len(),
{
    if ns.len() > 0 {
        let d = ns.drop_last();
        lemma_first_occurrences_ids(d);
        let rest = first_occurrences(d);
        let r = first_occurrences(ns);
        assert forall|i: int| 0 <= i < ns.len() implies notification_ids(r).contains(
            #[trigger] ns[i].id,
        ) by {
            if i < ns.len() - 1 {
                assert(d[i] == ns[i]);
                let k = choose|k: int| 0 <= k < notification_ids(rest).len() && notification_ids(rest)[k] == d[i].id;
                if !notification_ids(rest).contains(ns.last().id) {
                    assert(notification_ids(r)[k] == notification_ids(rest)[k]);
                }
            } else {
                if !notification_ids(rest).contains(ns.last().id) {
                    assert(notification_ids(r)[rest.len() as int] == ns.last().id);
                }
            }
        }
        assert forall|j: int| 0 <= j < r.len() implies exists|i: int|
            0 <= i < ns.len() && #[trigger] r[j] == ns[i] by {
            if j < rest.len() {
                let i = choose|i: int| 0 <= i < d.len() && #[trigger] rest[j] == d[i];
                assert(ns[i] == d[i]);
            } else {
                assert(r[j] == ns[ns.len() - 1]);
            }
        }
        if !notification_ids(rest).contains(ns.last().id) {
            assert(notification_ids(r) == notification_ids(rest).push(ns.last().id));
        }
    }
}


proof fn lemma_with_key_push(s: Seq<Notification>, n: Notification, key: Seq<char>)
    ensures
        with_key(s.push(n), key) == if spec_application_key(n) == key {
            with_key(s, key).push(n)
        } else {
            with_key(s, key)
        },
{
    assert(s.push(n).drop_last() == s);
}

proof fn lemma_with_key_absent(s: Seq<Notification>, key: Seq<char>)
    requires
        forall|i: int| 0 <= i < s.len() ==> spec_application_key(#[trigger] s[i]) != key,
    ensures
        with_key(s, key) == Seq::<Notification>::empty(),
    decreases s.len(),
{
    if s.len() > 0 {
        lemma_with_key_absent(s.drop_last(), key);
        assert(spec_application_key(s[s.len() - 1]) != key);
    }
}

proof fn lemma_with_key_nonempty(s: Seq<Notification>, i: int)
    requires
        0 <= i < s.len(),
    ensures
        with_key(s, spec_application_key(s[i])).len() > 0,
    decreases s.len(),
{
    if i < s.len() - 1 {
        lemma_with_key_nonempty(s.drop_last(), i);
        assert(s.drop_last()[i] == s[i]);
    }
}

/// Appending a notification keeps the keys of `groups` in order.
proof fn lemma_order_push(groups: Seq<Group>, fo: Seq<Notification>, n: Notification)
    requires
        keys_in_order(groups, fo),
        keys_seen(groups, fo),
    ensures
        keys_in_order(groups, fo.push(n)),
{
    reveal(appears_before);
    let fo2 = fo.push(n);
    assert forall|a: int, b: int| 0 <= a < b < groups.len() implies appears_before(
        fo2,
        (#[trigger] groups[a]).key@,
        (#[trigger] groups[b]).key@,
    ) by {
        assert(appears_before(fo, groups[a].key@, groups[b].key@));
        let ka = choose|k: int|
            0 <= k < fo.len() && (#[trigger] groups[a]).key@ == spec_application_key(#[trigger] fo[k]);
        assert forall|x: int|
            0 <= x < fo2.len() && spec_application_key(#[trigger] fo2[x]) == groups[b].key@ implies exists|
            y: int,
        | 0 <= y < x && spec_application_key(#[trigger] fo2[y]) == groups[a].key@ by {
            if x < fo.len() {
                assert(fo2[x] == fo[x]);
                let y = choose|y: int|
                    0 <= y < x && spec_application_key(#[trigger] fo[y]) == groups[a].key@;
                assert(fo2[y] == fo[y]);
            } else {
                assert(fo2[ka] == fo[ka]);
            }
        }
    }
}

/// Adding a notification to an existing group keeps the groups in order.
proof fn lemma_order_same_keys(
    before: Seq<Group>,
    after: Seq<Group>,
    fo: Seq<Notification>,
    n: Notification,
)
    requires
        keys_in_order(before, fo),
        keys_seen(before, fo),
        after.len() == before.len(),
        forall|g: int| 0 <= g < after.len() ==> (#[trigger] after[g]).key@ == before[g].key@,
    ensures
        keys_in_order(after, fo.push(n)),
{
    reveal(appears_before);
    lemma_order_push(before, fo, n);
    assert forall|g: int, h: int| 0 <= g < h < after.len() implies appears_before(
        fo.push(n),
        (#[trigger] after[g]).key@,
        (#[trigger] after[h]).key@,
    ) by {
        assert(after[g].key@ == before[g].key@);
        assert(after[h].key@ == before[h].key@);
        assert(appears_before(fo.push(n), before[g].key@, before[h].key@));
    }
}

/// Adding a notification of a new key as a last group keeps the groups in
/// order.
proof fn lemma_order_new_group(
    before: Seq<Group>,
    after: Seq<Group>,
    fo: Seq<Notification>,
    n: Notification,
)
    requires
        keys_in_order(before, fo),
        keys_seen(before, fo),
        forall|i: int| 0 <= i < fo.len() ==> spec_application_key(#[trigger] fo[i]) != spec_application_key(n),
        after.len() == before.len() + 1,
        forall|g: int| 0 <= g < before.len() ==> (#[trigger] after[g]).key@ == before[g].key@,
        after[before.len() as int].key@ == spec_application_key(n),
    ensures
        keys_in_order(after, fo.push(n)),
{
    reveal(appears_before);
    let fo2 = fo.push(n);
    lemma_order_push(before, fo, n);
    assert forall|g: int, h: int| 0 <= g < h < after.len() implies appears_before(
        fo2,
        (#[trigger] after[g]).key@,
        (#[trigger] after[h]).key@,
    ) by {
        assert(after[g].key@ == before[g].key@);
        if h < before.len() {
            assert(after[h].key@ == before[h].key@);
            assert(appears_before(fo2, before[g].key@, before[h].key@));
        } else {
            let ka = choose|k: int|
                0 <= k < fo.len() && (#[trigger] before[g]).key@ == spec_application_key(
                    #[trigger] fo[k],
                );
            assert forall|x: int|
                0 <= x < fo2.len() && spec_application_key(#[trigger] fo2[x]) == after[h].key@ implies exists|
                y: int,
            | 0 <= y < x && spec_application_key(#[trigger] fo2[y]) == after[g].key@ by {
                if x < fo.len() {
                    assert(fo2[x] == fo[x]);
                } else {
                    assert(fo2[ka] == fo[ka]);
                }
            }
        }
    }
}

/// Adding `n` to the existing group `g` of its key keeps `groups` a
/// grouping of the notifications with `n` appended.
#[verifier::rlimit(40)]
proof fn lemma_grouped_join(
    before: Seq<Group>,
    grp: Group,
    fo: Seq<Notification>,
    n: Notification,
    g: int,
)
    requires
        grouped_so_far(before, fo),
        0 <= g < before.len(),
        before[g].key@ == spec_application_key(n),
        grp.key == before[g].key,
        grp.desktop_entry == before[g].desktop_entry,
        grp.name == before[g].name,
        grp.icon == before[g].icon,
        grp.notifications@ == before[g].notifications@.push(n),
    ensures
        grouped_so_far(before.update(g, grp), fo.push(n)),
{
    reveal(grouped_so_far);
    let fo2 = fo.push(n);
    let after = before.update(g, grp);
    let key = spec_application_key(n);
    assert forall|h: int| 0 <= h < after.len() implies (#[trigger] after[h]).key@ == before[h].key@ by {
        if h != g {
            assert(after[h] == before[h]);
        }
    }
    assert forall|h: int| 0 <= h < after.len() implies (#[trigger] after[h]).notifications@
        == with_key(fo2, after[h].key@) by {
        lemma_with_key_push(fo, n, after[h].key@);
        if h != g {
            assert(after[h] == before[h]);
            assert(before[h].key@ != before[g].key@);
        }
    }
    assert forall|h: int| 0 <= h < after.len() implies (#[trigger] after[h]).notifications@.len() > 0
        && group_opened(after[h].notifications@[0], after[h].key@, after[h]) by {
        if h != g {
            assert(after[h] == before[h]);
        } else {
            assert(after[h].notifications@[0] == before[g].notifications@[0]);
        }
    }
    assert forall|k: int| 0 <= k < fo2.len() implies exists|h: int|
        0 <= h < after.len() && (#[trigger] after[h]).key@ == spec_application_key(
            #[trigger] fo2[k],
        ) by {
        if k < fo.len() {
            assert(fo2[k] == fo[k]);
            let h = choose|h: int|
                0 <= h < before.len() && (#[trigger] before[h]).key@ == spec_application_key(
                    fo[k],
                );
            assert(after[h].key@ == before[h].key@);
        } else {
            assert(after[g].key@ == key);
        }
    }
    assert forall|h: int| 0 <= h < after.len() implies exists|k: int|
        0 <= k < fo2.len() && (#[trigger] after[h]).key@ == spec_application_key(
            #[trigger] fo2[k],
        ) by {
        let k = choose|k: int|
            0 <= k < fo.len() && (#[trigger] before[h]).key@ == spec_application_key(
                #[trigger] fo[k],
            );
        assert(fo2[k] == fo[k]);
        assert(after[h].key@ == before[h].key@);
    }
    assert forall|a: int, b: int| 0 <= a < b < after.len() implies (
    #[trigger] after[a]).key@ != (#[trigger] after[b]).key@ by {
        assert(after[a].key@ == before[a].key@);
        assert(after[b].key@ == before[b].key@);
    }
    lemma_order_same_keys(before, after, fo, n);
}

/// Opening a new last group `grp` for `n`, whose key no earlier
/// notification has, keeps `groups` a grouping of the notifications with
/// `n` appended.
proof fn lemma_grouped_open(before: Seq<Group>, grp: Group, fo: Seq<Notification>, n: Notification)
    requires
        grouped_so_far(before, fo),
        forall|h: int| 0 <= h < before.len() ==> (#[trigger] before[h]).key@ != spec_application_key(n),
        grp.key@ == spec_application_key(n),
        grp.notifications@ == seq![n],
        group_opened(n, grp.key@, grp),
    ensures
        grouped_so_far(before.push(grp), fo.push(n)),
{
    reveal(grouped_so_far);
    let fo2 = fo.push(n);
    let after = before.push(grp);
    let key = spec_application_key(n);
    let last = before.len() as int;
    assert forall|k: int| 0 <= k < fo.len() implies spec_application_key(#[trigger] fo[k]) != key by {
        let h = choose|h: int|
            0 <= h < before.len() && (#[trigger] before[h]).key@ == spec_application_key(fo[k]);
    }
    lemma_with_key_absent(fo, key);
    assert forall|h: int| 0 <= h < after.len() implies (#[trigger] after[h]).notifications@
        == with_key(fo2, after[h].key@) by {
        lemma_with_key_push(fo, n, after[h].key@);
        if h < last {
            assert(after[h] == before[h]);
        } else {
            assert(with_key(fo, key).push(n) =~= seq![n]);
        }
    }
    assert forall|h: int| 0 <= h < after.len() implies (#[trigger] after[h]).notifications@.len() > 0
        && group_opened(after[h].notifications@[0], after[h].key@, after[h]) by {
        if h < last {
            assert(after[h] == before[h]);
        }
    }
    assert forall|k: int| 0 <= k < fo2.len() implies exists|h: int|
        0 <= h < after.len() && (#[trigger] after[h]).key@ == spec_application_key(
            #[trigger] fo2[k],
        ) by {
        if k < fo.len() {
            assert(fo2[k] == fo[k]);
            let h = choose|h: int|
                0 <= h < before.len() && (#[trigger] before[h]).key@ == spec_application_key(
                    fo[k],
                );
            assert(after[h] == before[h]);
        } else {
            assert(after[last].key@ == key);
        }
    }
    assert forall|h: int| 0 <= h < after.len() implies exists|k: int|
        0 <= k < fo2.len() && (#[trigger] after[h]).key@ == spec_application_key(
            #[trigger] fo2[k],
        ) by {
        if h < last {
            let k = choose|k: int|
                0 <= k < fo.len() && (#[trigger] before[h]).key@ == spec_application_key(
                    #[trigger] fo[k],
                );
            assert(fo2[k] == fo[k]);
            assert(after[h] == before[h]);
        } else {
            assert(fo2[fo.len() as int] == n);
        }
    }
    assert forall|a: int, b: int| 0 <= a < b < after.len() implies (
    #[trigger] after[a]).key@ != (#[trigger] after[b]).key@ by {
        assert(after[a] == before[a]);
        if b < last {
            assert(after[b] == before[b]);
        }
    }
    assert forall|h: int| 0 <= h < before.len() implies (#[trigger] after[h]).key@
        == before[h].key@ by {
        assert(after[h] == before[h]);
    }
    lemma_order_new_group(before, after, fo, n);
}

fn contains_id(ids: &Vec<u32>, id: u32) -> (r: bool)
    ensures
        r == ids@.contains(id),
{
    let mut i: usize = 0;
    while i < ids.len()
        invariant
            i <= ids.len(),
            forall|j: int| 0 <= j < i ==> ids@[j] != id,
        decreases ids.len() - i,
    {
        if ids[i] == id {
            return true;
        }
        i += 1;
    }
    false
}

fn find_group(groups: &Vec<Group>, key: &String) -> (r: Option<usize>)
    ensures
        match r {
            Some(g) => g < groups@.len() && groups@[g as int].key@ == key@,
            None => forall|g: int| 0 <= g < groups@.len() ==> (#[trigger] groups@[g]).key@ != key@,
        },
{
    let mut g: usize = 0;
    while g < groups.len()
        invariant
            g <= groups.len(),
            forall|h: int| 0 <= h < g ==> (#[trigger] groups@[h]).key@ != key@,
        decreases groups.len() - g,
    {
        if groups[g].key.eq(key) {
            return Some(g);
        }
        g += 1;
    }
    None
}

fn application_icon(n: &Notification) -> (r: Option<String>)
    ensures
        match r {
            Some(i) => n.app_icon matches Some(a) && a@.len() > 0 && i@ == a@,
            None => !(n.app_icon matches Some(a) && a@.len() > 0),
        },
{
    match &n.app_icon {
        Some(icon) => if icon.as_str().is_empty() {
            None
        } else {
            Some(icon.clone())
        },
        None => None,
    }
}

/// Groups notifications by application, dropping repeated ids.
#[verifier::rlimit(80)]
pub fn group(notifications: Vec<Notification>, dnd: bool) -> (r: Snapshot)
    ensures
        r.count == count_distinct(notifications@),
        grouped(r.groups@, first_occurrences(notifications@)),
        r.dnd == dnd,
        r.available,
{
    let ghost ns = notifications@;
    let mut groups: Vec<Group> = Vec::new();
    let mut ids: Vec<u32> = Vec::new();
    let ghost mut i: int = 0;
    assert(ns.take(0) =~= Seq::<Notification>::empty());
    assert(notification_ids(first_occurrences(ns.take(0))) =~= Seq::<u32>::empty());
    assert(grouped_so_far(groups@, first_occurrences(ns.take(0)))) by {
        reveal(grouped_so_far);
    }
    for n in it: notifications
        invariant
            ns == it.seq(),
            i == it.index(),
            0 <= i <= ns.len(),
            ids@ == notification_ids(first_occurrences(ns.take(i))),
            grouped_so_far(groups@, first_occurrences(ns.take(i))),
    {
        let ghost fo = first_occurrences(ns.take(i));
        assert(ns.take(i + 1).drop_last() == ns.take(i));
        assert(ns.take(i + 1).last() == n);
        if !contains_id(&ids, n.id) {
            let ghost fo2 = fo.push(n);
            assert(first_occurrences(ns.take(i + 1)) == fo2);
            assert(notification_ids(fo2) =~= notification_ids(fo).push(n.id));
            let key = application_key(&n);
            ids.push(n.id);
            match find_group(&groups, &key) {
                Some(g) => {
                    let ghost before = groups@;
                    let mut grp = groups.remove(g);
                    grp.notifications.push(n);
                    groups.insert(g, grp);
                    proof {
                        assert(groups@ =~= before.update(g as int, grp));
                        lemma_grouped_join(before, grp, fo, n, g as int);
                    }
                },
                None => {
                    let desktop_entry = nonempty(&n.desktop_entry);
                    let name = application_name(&n);
                    let icon = application_icon(&n);
                    let ghost before = groups@;
                    let mut members: Vec<Notification> = Vec::new();
                    members.push(n);
                    groups.push(Group { key, desktop_entry, name, icon, notifications: members });
                    proof {
                        assert(groups@[before.len() as int].notifications@ =~= seq![n]);
                        assert(groups@ =~= before.push(groups@[before.len() as int]));
                        lemma_grouped_open(before, groups@[before.len() as int], fo, n);
                    }
                },
            }
        } else {
            assert(first_occurrences(ns.take(i + 1)) == fo);
        }
        proof {
            i = i + 1;
        }
    }
    assert(ns.take(ns.len() as int) == ns);
    assert(grouped(groups@, first_occurrences(ns))) by {
        reveal(grouped_so_far);
    }
    let count = ids.len();
    Snapshot { groups, count, dnd, available: true }
}

// ---------------------------------------------------------------------------
// From the store
// ---------------------------------------------------------------------------
pub open spec fn urgency_name(u: Urgency) -> Seq<char> {
    match u {
        Urgency::Low => "low"@,
        Urgency::Normal => "normal"@,
        Urgency::Critical => "critical"@,
    }
}

pub open spec fn optional_text(s: String) -> Option<String> {
    if s@.len() == 0 {
        None
    } else {
        Some(s)
    }
}

/// `r` is the snapshot form of the stored notification `n`.
pub open spec fn from_state_fields(r: Notification, n: state::Notification, active: bool) -> bool {
    &&& r.id == n.id
    &&& r.revision == n.revision
    &&& r.received_at == Some(n.received_at)
    &&& r.active == active
    &&& r.app_name == Some(n.app_name)
    &&& r.app_icon == optional_text(n.app_icon)
    &&& r.picture == n.picture
    &&& r.progress == n.progress
    &&& r.desktop_entry == optional_text(n.desktop_entry)
    &&& r.summary == n.summary
    &&& r.body == n.body
    &&& r.actions@ == n.actions@
    &&& r.urgency matches Some(u) && u@ == urgency_name(n.urgency)
}

pub fn from_state_notification(n: &state::Notification, active: bool) -> (r: Notification)
    ensures
        from_state_fields(r, *n, active),
{
    let app_icon = if n.app_icon.as_str().is_empty() {
        None
    } else {
        Some(n.app_icon.clone())
    };
    let desktop_entry = if n.desktop_entry.as_str().is_empty() {
        None
    } else {
        Some(n.desktop_entry.clone())
    };
    let urgency = match n.urgency {
        Urgency::Low => String::from_str("low"),
        Urgency::Normal => String::from_str("normal"),
        Urgency::Critical => String::from_str("critical"),
    };
    Notification {
        id: n.id,
        revision: n.revision,
        received_at: Some(n.received_at),
        active,
        app_name: Some(n.app_name.clone()),
        app_icon,
        picture: duplicate_picture(&n.picture),
        progress: n.progress,
        desktop_entry,
        summary: n.summary.clone(),
        body: n.body.clone(),
        actions: duplicate_actions(&n.actions),
        urgency: Some(urgency),
    }
}

/// Whether `ns` is the snapshot form of the store's notifications, in order,
/// active while their popup is shown.
pub open spec fn converted(entries: Seq<state::Stored>, ns: Seq<Notification>) -> bool {
    &&& ns.len() == entries.len()
    &&& forall|i: int| 0 <= i < ns.len() ==> converts(#[trigger] ns[i], entries[i])
}

/// `n` is the snapshot form of the stored notification `s`.
pub open spec fn converts(n: Notification, s: state::Stored) -> bool {
    from_state_fields(n, s.notification, s.show_popup)
}

/// The snapshot of the store: its notifications grouped by application,
/// active while their popup is shown.
pub fn from_state(store: &Store) -> (r: Snapshot)
    ensures
        exists|ns: Seq<Notification>|
            #[trigger] converted(store@.entries, ns) && r.count == count_distinct(ns) && grouped(
                r.groups@,
                first_occurrences(ns),
            ),
        r.dnd == store@.dnd,
        r.available,
{
    let list = store.notifications();
    let mut ns: Vec<Notification> = Vec::new();
    let mut i: usize = 0;
    while i < list.len()
        invariant
            i <= list.len(),
            list@.len() == store@.entries.len(),
            forall|j: int|
                0 <= j < list@.len() ==> (#[trigger] list@[j]).0 == store@.entries[j].notification
                    && list@[j].1 == store@.entries[j].show_popup,
            ns@.len() == i,
            forall|j: int| 0 <= j < i ==> converts(#[trigger] ns@[j], store@.entries[j]),
        decreases list.len() - i,
    {
        let (n, active) = list[i];
        ns.push(from_state_notification(n, active));
        i += 1;
    }
    let ghost converted_ns = ns@;
    assert(converted(store@.entries, converted_ns));
    group(ns, store.dnd())
}

// ---------------------------------------------------------------------------
// Building snapshot notifications directly
// ---------------------------------------------------------------------------
fn optional_string(value: Option<&str>) -> (r: Option<String>)
    ensures
        match value {
            Some(v) => r matches Some(s) && s@ == v@,
            None => r is None,
        },
{
    match value {
        Some(v) => Some(String::from_str(v)),
        None => None,
    }
}

/// A bare notification with only an identity: no text, picture or actions.
pub fn notification(
    id: u32,
    revision: u64,
    app_name: Option<&str>,
    desktop_entry: Option<&str>,
    active: bool,
) -> (r: Notification)
    ensures
        r.id == id,
        r.revision == revision,
        r.active == active,
        match app_name {
            Some(v) => r.app_name matches Some(s) && s@ == v@,
            None => r.app_name is None,
        },
        match desktop_entry {
            Some(v) => r.desktop_entry matches Some(s) && s@ == v@,
            None => r.desktop_entry is None,
        },
        r.received_at is None,
        r.app_icon is None,
        r.picture is None,
        r.progress is None,
        r.summary@.len() == 0,
        r.body@.len() == 0,
        r.actions@.len() == 0,
        r.urgency is None,
{
    Notification {
        id,
        revision,
        received_at: None,
        active,
        app_name: optional_string(app_name),
        app_icon: None,
        picture: None,
        progress: None,
        desktop_entry: optional_string(desktop_entry),
        summary: String::new(),
        body: String::new(),
        actions: Vec::new(),
        urgency: None,
    }
}

/// A snapshot of active, anonymous notifications with these ids and revisions.
pub fn test_snapshot(notifications: &[(u32, u64)]) -> (r: Snapshot)
    ensures
        exists|ns: Seq<Notification>|
            #[trigger] ns.len() == notifications@.len() && (forall|i: int|
                0 <= i < ns.len() ==> (#[trigger] ns[i]).id == notifications@[i].0 && ns[i].revision
                    == notifications@[i].1 && ns[i].active && ns[i].app_name is None
                    && ns[i].desktop_entry is None) && r.count == count_distinct(ns) && grouped(
                r.groups@,
                first_occurrences(ns),
            ),
        !r.dnd,
        r.available,
{
    let mut ns: Vec<Notification> = Vec::new();
    let mut i: usize = 0;
    while i < notifications.len()
        invariant
            i <= notifications@.len(),
            ns@.len() == i,
            forall|j: int|
                0 <= j < i ==> (#[trigger] ns@[j]).id == notifications@[j].0 && ns@[j].revision
                    == notifications@[j].1 && ns@[j].active && ns@[j].app_name is None
                    && ns@[j].desktop_entry is None,
        decreases notifications.len() - i,
    {
        let (id, revision) = notifications[i];
        ns.push(notification(id, revision, None, None, true));
        i += 1;
    }
    let ghost all = ns@;
    group(ns, false)
}
} // verus!
