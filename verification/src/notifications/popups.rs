//! Which notifications the popup stack shows: at most `MAX_POPUPS` at once,
//! the oldest waiting ones first, each shown revision reported once.
use std::collections::{HashMap, HashSet};
use vstd::prelude::*;

use super::model::{Group, Notification, Snapshot};

verus! {

broadcast use vstd::std_specs::hash::group_hash_axioms;

/// The most popups shown at once.
pub const MAX_POPUPS: usize = 5;

/// The id and revision of each active notification of a group list, in order.
pub open spec fn active_in(ns: Seq<Notification>) -> Seq<(u32, u64)>
    decreases ns.len(),
{
    if ns.len() == 0 {
        seq![]
    } else {
        let rest = active_in(ns.drop_last());
        if ns.last().active {
            rest.push((ns.last().id, ns.last().revision))
        } else {
            rest
        }
    }
}

pub open spec fn active_of(gs: Seq<Group>) -> Seq<(u32, u64)>
    decreases gs.len(),
{
    if gs.len() == 0 {
        seq![]
    } else {
        active_of(gs.drop_last()) + active_in(gs.last().notifications@)
    }
}

pub open spec fn id_list(a: Seq<(u32, u64)>) -> Seq<u32> {
    a.map_values(|x: (u32, u64)| x.0)
}

pub open spec fn ids_of(a: Seq<(u32, u64)>) -> Set<u32> {
    id_list(a).to_set()
}

/// The first pass: visible popups whose notification changed revision are
/// shown again.
pub open spec fn refresh(a: Seq<(u32, u64)>, d: Map<u32, u64>, v: Set<u32>) -> (
    Map<u32, u64>,
    Seq<(u32, u64)>,
)
    decreases a.len(),
{
    if a.len() == 0 {
        (d, seq![])
    } else {
        let (d2, out) = refresh(a.drop_last(), d, v);
        let x = a.last();
        if v.contains(x.0) && !(d2.contains_key(x.0) && d2[x.0] == x.1) {
            (d2.insert(x.0, x.1), out.push(x))
        } else {
            (d2, out)
        }
    }
}

/// `x` placed after the entries of `s` it does not come before by revision.
pub open spec fn insert_by_revision(x: (u32, u64), s: Seq<(u32, u64)>) -> Seq<(u32, u64)>
    decreases s.len(),
{
    if s.len() == 0 {
        seq![x]
    } else if x.1 < s[0].1 {
        seq![x] + s
    } else {
        seq![s[0]] + insert_by_revision(x, s.drop_first())
    }
}

/// `a` sorted by revision, entries with equal revisions kept in order.
pub open spec fn by_revision(a: Seq<(u32, u64)>) -> Seq<(u32, u64)>
    decreases a.len(),
{
    if a.len() == 0 {
        seq![]
    } else {
        insert_by_revision(a.last(), by_revision(a.drop_last()))
    }
}

/// The second pass: waiting notifications not shown before take the free
/// places, in the order given.
pub open spec fn take_places(s: Seq<(u32, u64)>, d: Map<u32, u64>, v: Set<u32>, available: nat) -> (
    Map<u32, u64>,
    Set<u32>,
    Seq<(u32, u64)>,
    nat,
)
    decreases s.len(),
{
    if s.len() == 0 {
        (d, v, seq![], available)
    } else {
        let (d2, v2, out, av) = take_places(s.drop_last(), d, v, available);
        let x = s.last();
        if av == 0 || d2.contains_key(x.0) {
            (d2, v2, out, av)
        } else {
            (d2.insert(x.0, x.1), v2.insert(x.0), out.push(x), (av - 1) as nat)
        }
    }
}

/// The popup state after a snapshot with active notifications `a`, and the
/// revisions to report as shown. Notifications no longer active are
/// forgotten; while popups are blocked none are visible and none shown.
pub open spec fn spec_update(
    d0: Map<u32, u64>,
    v0: Set<u32>,
    a: Seq<(u32, u64)>,
    blocked: bool,
) -> (Map<u32, u64>, Set<u32>, Seq<(u32, u64)>) {
    let d1 = d0.restrict(ids_of(a));
    let v1 = v0.intersect(ids_of(a));
    if blocked {
        (d1, Set::empty(), seq![])
    } else {
        let (d2, shown) = refresh(a, d1, v1);
        let available: nat = if v1.len() < MAX_POPUPS {
            (MAX_POPUPS - v1.len()) as nat
        } else {
            0
        };
        let (d3, v3, revealed, _) = take_places(by_revision(a), d2, v1, available);
        (d3, v3, shown + revealed)
    }
}

/// The revision shown of each notification, and which ones are visible.
pub struct PopupState {
    pub displayed: HashMap<u32, u64>,
    pub visible: HashSet<u32>,
}

impl Default for PopupState {
    fn default() -> (r: Self)
        ensures
            r.displayed@ == Map::<u32, u64>::empty(),
            r.visible@ == Set::<u32>::empty(),
    {
        PopupState { displayed: HashMap::new(), visible: HashSet::new() }
    }
}

proof fn lemma_insert_by_revision(x: (u32, u64), s: Seq<(u32, u64)>, p: int)
    requires
        0 <= p <= s.len(),
        p == s.len() || x.1 < s[p].1,
        forall|j: int| 0 <= j < p ==> !(x.1 < #[trigger] s[j].1),
    ensures
        insert_by_revision(x, s) == s.insert(p, x),
    decreases s.len(),
{
    if s.len() == 0 {
        assert(s.insert(p, x) =~= seq![x]);
    } else if p == 0 {
        assert(s.insert(p, x) =~= seq![x] + s);
    } else {
        let t = s.drop_first();
        assert forall|j: int| 0 <= j < p - 1 implies !(x.1 < #[trigger] t[j].1) by {
            assert(t[j] == s[j + 1]);
        }
        if p < s.len() {
            assert(t[p - 1] == s[p]);
        }
        lemma_insert_by_revision(x, t, p - 1);
        assert(s.insert(p, x) =~= seq![s[0]] + t.insert(p - 1, x));
    }
}

fn sorted_by_revision(a: &Vec<(u32, u64)>) -> (r: Vec<(u32, u64)>)
    ensures
        r@ == by_revision(a@),
{
    let mut sorted: Vec<(u32, u64)> = Vec::new();
    let mut i: usize = 0;
    while i < a.len()
        invariant
            i <= a.len(),
            sorted@ == by_revision(a@.take(i as int)),
        decreases a.len() - i,
    {
        let x = a[i];
        let mut p: usize = 0;
        while p < sorted.len() && !(x.1 < sorted[p].1)
            invariant
                p <= sorted.len(),
                forall|j: int| 0 <= j < p ==> !(x.1 < #[trigger] sorted@[j].1),
            decreases sorted.len() - p,
        {
            p += 1;
        }
        proof {
            lemma_insert_by_revision(x, sorted@, p as int);
            assert(a@.take(i + 1).drop_last() == a@.take(i as int));
            assert(a@.take(i + 1).last() == x);
        }
        sorted.insert(p, x);
        i += 1;
    }
    assert(a@.take(a@.len() as int) == a@);
    sorted
}

fn active_notifications(snapshot: &Snapshot) -> (r: Vec<(u32, u64)>)
    ensures
        r@ == active_of(snapshot.groups@),
{
    let mut r: Vec<(u32, u64)> = Vec::new();
    let mut g: usize = 0;
    while g < snapshot.groups.len()
        invariant
            g <= snapshot.groups@.len(),
            r@ == active_of(snapshot.groups@.take(g as int)),
        decreases snapshot.groups.len() - g,
    {
        let ns = &snapshot.groups[g].notifications;
        let ghost before = r@;
        let mut k: usize = 0;
        while k < ns.len()
            invariant
                k <= ns@.len(),
                r@ == before + active_in(ns@.take(k as int)),
            decreases ns.len() - k,
        {
            let n = &ns[k];
            proof {
                assert(ns@.take(k + 1).drop_last() == ns@.take(k as int));
                assert(ns@.take(k + 1).last() == ns@[k as int]);
            }
            if n.active {
                r.push((n.id, n.revision));
                assert(r@ == before + active_in(ns@.take(k + 1)));
            }
            k += 1;
        }
        proof {
            let gs = snapshot.groups@;
            assert(gs.take(g + 1).drop_last() == gs.take(g as int));
            assert(gs.take(g + 1).last() == gs[g as int]);
            assert(ns@.take(ns@.len() as int) == ns@);
        }
        g += 1;
    }
    assert(snapshot.groups@.take(snapshot.groups@.len() as int) == snapshot.groups@);
    r
}

proof fn lemma_ids_push(s: Seq<(u32, u64)>, x: (u32, u64))
    ensures
        ids_of(s.push(x)) == ids_of(s).insert(x.0),
{
    let s0 = id_list(s);
    let s1 = id_list(s.push(x));
    assert(s1 =~= s0.push(x.0));
    assert forall|y: u32| s1.contains(y) <==> s0.contains(y) || y == x.0 by {
        if s0.contains(y) {
            let k = choose|k: int| 0 <= k < s0.len() && s0[k] == y;
            assert(s1[k] == y);
        }
        if y == x.0 {
            assert(s1[s0.len() as int] == y);
        }
        if s1.contains(y) {
            let k = choose|k: int| 0 <= k < s1.len() && s1[k] == y;
            if k < s0.len() {
                assert(s0[k] == y);
            }
        }
    }
    assert(ids_of(s.push(x)) =~= ids_of(s).insert(x.0));
}

impl PopupState {
    /// Takes in a new snapshot; `blocked` is whether popups may not be shown
    /// now. Returns the id and revision of each notification shown by this
    /// update: visible ones that changed first, then newly revealed ones,
    /// oldest revision first.
    pub fn update(&mut self, snapshot: &Snapshot, blocked: bool) -> (r: Vec<(u32, u64)>)
        ensures
            ({
                let (d, v, shown) = spec_update(
                    old(self).displayed@,
                    old(self).visible@,
                    active_of(snapshot.groups@),
                    blocked,
                );
                final(self).displayed@ == d && final(self).visible@ == v && r@ == shown
            }),
    {
        let active = active_notifications(snapshot);
        let ghost a = active@;
        let ghost ids = ids_of(a);
        // Forget notifications that are no longer active.
        let mut displayed: HashMap<u32, u64> = HashMap::new();
        let mut visible: HashSet<u32> = HashSet::new();
        let mut i: usize = 0;
        while i < active.len()
            invariant
                a == active@,
                ids == ids_of(a),
                i <= active.len(),
                displayed@ == self.displayed@.restrict(ids_of(a.take(i as int))),
                visible@ == self.visible@.intersect(ids_of(a.take(i as int))),
            decreases active.len() - i,
        {
            let id = active[i].0;
            proof {
                assert(a.take(i + 1) == a.take(i as int).push(active@[i as int]));
                lemma_ids_push(a.take(i as int), active@[i as int]);
            }
            match self.displayed.get(&id) {
                Some(revision) => {
                    displayed.insert(id, *revision);
                },
                None => {},
            }
            if self.visible.contains(&id) {
                visible.insert(id);
            }
            assert(displayed@ =~= self.displayed@.restrict(ids_of(a.take(i + 1))));
            assert(visible@ =~= self.visible@.intersect(ids_of(a.take(i + 1))));
            i += 1;
        }
        assert(a.take(a.len() as int) == a);
        self.displayed = displayed;
        self.visible = visible;
        if blocked {
            self.visible = HashSet::new();
            assert(self.visible@ =~= Set::<u32>::empty());
            return Vec::new();
        }
        let ghost d1 = self.displayed@;
        let ghost v1 = self.visible@;
        // Visible popups whose notification changed are shown again.
        let mut shown: Vec<(u32, u64)> = Vec::new();
        let mut i: usize = 0;
        while i < active.len()
            invariant
                a == active@,
                i <= active.len(),
                self.visible@ == v1,
                (self.displayed@, shown@) == refresh(a.take(i as int), d1, v1),
            decreases active.len() - i,
        {
            let (id, revision) = active[i];
            proof {
                assert(a.take(i + 1).drop_last() == a.take(i as int));
                assert(a.take(i + 1).last() == (id, revision));
            }
            if self.visible.contains(&id) {
                let same = match self.displayed.get(&id) {
                    Some(r) => *r == revision,
                    None => false,
                };
                if !same {
                    self.displayed.insert(id, revision);
                    shown.push((id, revision));
                }
            }
            i += 1;
        }
        assert(a.take(a.len() as int) == a);
        // Waiting notifications take the free places, oldest first.
        let order = sorted_by_revision(&active);
        let mut available: usize = if self.visible.len() < MAX_POPUPS {
            MAX_POPUPS - self.visible.len()
        } else {
            0
        };
        let ghost d2 = self.displayed@;
        let ghost start: nat = available as nat;
        let mut i: usize = 0;
        while i < order.len()
            invariant
                i <= order.len(),
                order@ == by_revision(a),
                ({
                    let (d, v, out, av) = take_places(order@.take(i as int), d2, v1, start);
                    &&& self.displayed@ == d
                    &&& self.visible@ == v
                    &&& shown@ == refresh(a, d1, v1).1 + out
                    &&& available == av
                }),
            decreases order.len() - i,
        {
            let (id, revision) = order[i];
            proof {
                assert(order@.take(i + 1).drop_last() == order@.take(i as int));
                assert(order@.take(i + 1).last() == (id, revision));
            }
            if available != 0 && !self.displayed.contains_key(&id) {
                available -= 1;
                self.visible.insert(id);
                self.displayed.insert(id, revision);
                let ghost before = shown@;
                shown.push((id, revision));
                proof {
                    let (d, v, out, av) = take_places(order@.take(i as int), d2, v1, start);
                    assert(shown@ == refresh(a, d1, v1).1 + out.push((id, revision)));
                }
            }
            i += 1;
        }
        assert(order@.take(order@.len() as int) == order@);
        shown
    }
}

proof fn lemma_take_places_bound(
    s: Seq<(u32, u64)>,
    d: Map<u32, u64>,
    v: Set<u32>,
    available: nat,
)
    requires
        v.finite(),
    ensures
        ({
            let (d2, v2, out, av) = take_places(s, d, v, available);
            &&& v2.finite()
            &&& av <= available
            &&& v2.len() + av <= v.len() + available
        }),
    decreases s.len(),
{
    if s.len() > 0 {
        lemma_take_places_bound(s.drop_last(), d, v, available);
    }
}

/// No update makes more than `MAX_POPUPS` popups visible: the bound holds
/// of every state the popups start from.
pub proof fn law_visible_popups_are_bounded(
    d0: Map<u32, u64>,
    v0: Set<u32>,
    a: Seq<(u32, u64)>,
    blocked: bool,
)
    requires
        v0.finite(),
        v0.len() <= MAX_POPUPS,
    ensures
        spec_update(d0, v0, a, blocked).1.finite(),
        spec_update(d0, v0, a, blocked).1.len() <= MAX_POPUPS,
{
    let v1 = v0.intersect(ids_of(a));
    vstd::set_lib::lemma_len_intersect(v0, ids_of(a));
    if blocked {
        assert(Set::<u32>::empty().len() == 0);
    } else {
        let d1 = d0.restrict(ids_of(a));
        let (d2, shown) = refresh(a, d1, v1);
        let available: nat = if v1.len() < MAX_POPUPS {
            (MAX_POPUPS - v1.len()) as nat
        } else {
            0
        };
        lemma_take_places_bound(by_revision(a), d2, v1, available);
    }
}

/// While popups are blocked, as when the notification center is open, no
/// popup stays visible and none is shown.
pub proof fn law_blocked_popups_are_consumed(d0: Map<u32, u64>, v0: Set<u32>, a: Seq<(u32, u64)>)
    ensures
        spec_update(d0, v0, a, true).1 == Set::<u32>::empty(),
        spec_update(d0, v0, a, true).2.len() == 0,
{
}

} // verus!
