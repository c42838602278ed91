//! The privacy module of the bar: which PipeWire nodes mean that a camera,
//! the screen or a microphone is in use, and the names it lists for each.
use std::collections::HashMap;

use vstd::prelude::*;

use crate::text::{
    chars_less, chars_of, has_prefix, lemma_text_less_asymmetric, lemma_text_less_total,
    lemma_text_less_transitive, push_str, starts_with, str_eq, text_less,
};

verus! {

broadcast use vstd::string::group_string_axioms;

/// The PipeWire object type of nodes.
pub open spec fn node_type() -> Seq<char> {
    "PipeWire:Interface:Node"@
}

/// How the desktop portal names its screen-sharing streams.
pub open spec fn screen_share_prefix() -> Seq<char> {
    "xdph-streaming-"@
}

/// A property value of a node: text, or anything else.
pub enum PropValue {
    Text(String),
    Other,
}

/// What the module reads of a PipeWire object from `pw-dump`: its id, its
/// type, its `info.state` and its `info.props`, where present and of the
/// right kind.
pub struct Node {
    pub id: Option<u64>,
    pub node_type: Option<String>,
    pub state: Option<String>,
    pub props: Option<Vec<(String, PropValue)>>,
}

/// What a node says is in use.
#[derive(Debug, PartialEq, Eq)]
pub enum Usage {
    Camera(String),
    ScreenShare(String),
    Microphone(String),
}

/// The names in use, sorted and without repeats.
#[derive(Debug, PartialEq, Eq)]
pub struct State {
    pub cameras: Vec<String>,
    pub screen_shares: Vec<String>,
    pub microphones: Vec<String>,
}

impl Default for State {
    fn default() -> (r: Self)
        ensures
            r.cameras@.len() == 0,
            r.screen_shares@.len() == 0,
            r.microphones@.len() == 0,
    {
        State { cameras: Vec::new(), screen_shares: Vec::new(), microphones: Vec::new() }
    }
}

pub open spec fn texts(v: Seq<String>) -> Seq<Seq<char>> {
    v.map_values(|s: String| s@)
}

// ---------------------------------------------------------------------------
// Properties
// ---------------------------------------------------------------------------
/// Whether `props` has the key `key`, whatever its value.
pub open spec fn has_key(props: Seq<(String, PropValue)>, key: Seq<char>) -> bool {
    exists|i: int| 0 <= i < props.len() && (#[trigger] props[i]).0@ == key
}

/// The text value of the first entry of `props` with the key `key`.
pub open spec fn text_value(props: Seq<(String, PropValue)>, key: Seq<char>) -> Option<Seq<char>>
    decreases props.len(),
{
    if props.len() == 0 {
        None
    } else if props[0].0@ == key {
        match props[0].1 {
            PropValue::Text(t) => Some(t@),
            PropValue::Other => None,
        }
    } else {
        text_value(props.drop_first(), key)
    }
}

fn find_key(props: &Vec<(String, PropValue)>, key: &str) -> (r: Option<usize>)
    ensures
        match r {
            Some(i) => i < props@.len() && props@[i as int].0@ == key@ && forall|j: int|
                0 <= j < i ==> props@[j].0@ != key@,
            None => !has_key(props@, key@),
        },
{
    let mut i: usize = 0;
    while i < props.len()
        invariant
            i <= props@.len(),
            forall|j: int| 0 <= j < i ==> props@[j].0@ != key@,
        decreases props.len() - i,
    {
        if str_eq(props[i].0.as_str(), key) {
            return Some(i);
        }
        i += 1;
    }
    None
}

proof fn lemma_text_value(props: Seq<(String, PropValue)>, key: Seq<char>, i: int)
    requires
        0 <= i < props.len(),
        props[i].0@ == key,
        forall|j: int| 0 <= j < i ==> props[j].0@ != key,
    ensures
        text_value(props, key) == match props[i].1 {
            PropValue::Text(t) => Some(t@),
            PropValue::Other => None,
        },
    decreases i,
{
    if i > 0 {
        assert forall|j: int| 0 <= j < i - 1 implies props.drop_first()[j].0@ != key by {
            assert(props.drop_first()[j] == props[j + 1]);
        }
        lemma_text_value(props.drop_first(), key, i - 1);
    }
}

proof fn lemma_no_text_value(props: Seq<(String, PropValue)>, key: Seq<char>)
    requires
        !has_key(props, key),
    ensures
        text_value(props, key) is None,
    decreases props.len(),
{
    if props.len() > 0 {
        assert(props[0].0@ != key);
        assert forall|i: int| 0 <= i < props.drop_first().len() implies (
        #[trigger] props.drop_first()[i]).0@ != key by {
            assert(props.drop_first()[i] == props[i + 1]);
        }
        lemma_no_text_value(props.drop_first(), key);
    }
}

fn text_of_key(props: &Vec<(String, PropValue)>, key: &str) -> (r: Option<String>)
    ensures
        match r {
            Some(t) => text_value(props@, key@) == Some(t@),
            None => text_value(props@, key@) is None,
        },
{
    match find_key(props, key) {
        Some(i) => {
            proof {
                lemma_text_value(props@, key@, i as int);
            }
            match &props[i].1 {
                PropValue::Text(t) => Some(t.clone()),
                PropValue::Other => None,
            }
        },
        None => {
            proof {
                lemma_no_text_value(props@, key@);
            }
            None
        },
    }
}

/// The name to show for a node: its application's name, its description,
/// its media name or its node name, the first one present.
pub open spec fn spec_display_name(props: Seq<(String, PropValue)>) -> Seq<char> {
    if text_value(props, "application.name"@) is Some {
        text_value(props, "application.name"@)->0
    } else if text_value(props, "node.description"@) is Some {
        text_value(props, "node.description"@)->0
    } else if text_value(props, "media.name"@) is Some {
        text_value(props, "media.name"@)->0
    } else if text_value(props, "node.name"@) is Some {
        text_value(props, "node.name"@)->0
    } else {
        "Unknown application"@
    }
}

pub fn display_name(props: &Vec<(String, PropValue)>) -> (r: String)
    ensures
        r@ == spec_display_name(props@),
{
    if let Some(t) = text_of_key(props, "application.name") {
        return t;
    }
    if let Some(t) = text_of_key(props, "node.description") {
        return t;
    }
    if let Some(t) = text_of_key(props, "media.name") {
        return t;
    }
    if let Some(t) = text_of_key(props, "node.name") {
        return t;
    }
    String::from_str("Unknown application")
}

// ---------------------------------------------------------------------------
// Usage
// ---------------------------------------------------------------------------
/// A usage as plain values: 0 for a camera, 1 for a screen share, 2 for a
/// microphone, with the name.
pub open spec fn usage_view(u: Usage) -> (int, Seq<char>) {
    match u {
        Usage::Camera(n) => (0, n@),
        Usage::ScreenShare(n) => (1, n@),
        Usage::Microphone(n) => (2, n@),
    }
}

/// What a node means: running nodes that are not monitors, by media class:
/// a camera source, the desktop portal's screen share, or an audio input
/// stream.
pub open spec fn spec_privacy_usage(node: Node) -> Option<(int, Seq<char>)> {
    if !(node.node_type matches Some(t) && t@ == node_type()) {
        None
    } else if !(node.state matches Some(s) && s@ == "running"@) {
        None
    } else if node.props is None {
        None
    } else {
        let props = node.props->0@;
        if has_key(props, "stream.monitor"@) {
            None
        } else if text_value(props, "media.class"@) == Some("Video/Source"@) {
            if text_value(props, "media.role"@) == Some("Camera"@) {
                Some((0, spec_display_name(props)))
            } else if text_value(props, "media.name"@) matches Some(name) && has_prefix(
                name,
                screen_share_prefix(),
            ) {
                Some((1, "Hyprland"@))
            } else {
                None
            }
        } else if text_value(props, "media.class"@) == Some("Stream/Input/Audio"@) {
            Some((2, spec_display_name(props)))
        } else {
            None
        }
    }
}

fn is_text(value: &Option<String>, expected: &str) -> (r: bool)
    ensures
        r == (*value matches Some(v) && v@ == expected@),
{
    match value {
        Some(v) => str_eq(v.as_str(), expected),
        None => false,
    }
}

pub fn privacy_usage(node: &Node) -> (r: Option<Usage>)
    ensures
        match r {
            Some(u) => spec_privacy_usage(*node) == Some(usage_view(u)),
            None => spec_privacy_usage(*node) is None,
        },
{
    if !is_text(&node.node_type, "PipeWire:Interface:Node") {
        return None;
    }
    if !is_text(&node.state, "running") {
        return None;
    }
    let props = match &node.props {
        Some(p) => p,
        None => return None,
    };
    if find_key(props, "stream.monitor").is_some() {
        return None;
    }
    let class = text_of_key(props, "media.class");
    if is_text(&class, "Video/Source") {
        if is_text(&text_of_key(props, "media.role"), "Camera") {
            Some(Usage::Camera(display_name(props)))
        } else {
            match text_of_key(props, "media.name") {
                Some(name) => if starts_with(
                    &chars_of(name.as_str()),
                    &chars_of("xdph-streaming-"),
                ) {
                    Some(Usage::ScreenShare(String::from_str("Hyprland")))
                } else {
                    None
                },
                None => None,
            }
        }
    } else if is_text(&class, "Stream/Input/Audio") {
        Some(Usage::Microphone(display_name(props)))
    } else {
        None
    }
}

/// The usages by node id, each as its kind and name.
pub open spec fn usages_model(m: Map<u64, Usage>) -> Map<u64, (int, Seq<char>)> {
    m.map_values(|u: Usage| usage_view(u))
}

/// The usages by node id after one node from the monitor: a node with an
/// id records its usage under that id, or clears the id when it has none.
pub open spec fn apply_node(usages: Map<u64, (int, Seq<char>)>, node: Node) -> Map<
    u64,
    (int, Seq<char>),
> {
    match node.id {
        None => usages,
        Some(id) => match spec_privacy_usage(node) {
            Some(u) => usages.insert(id, u),
            None => usages.remove(id),
        },
    }
}

/// The usages by node id after a batch of nodes, in order.
pub open spec fn apply_nodes(usages: Map<u64, (int, Seq<char>)>, nodes: Seq<Node>) -> Map<
    u64,
    (int, Seq<char>),
>
    decreases nodes.len(),
{
    if nodes.len() == 0 {
        usages
    } else {
        apply_node(apply_nodes(usages, nodes.drop_last()), nodes.last())
    }
}

/// Applies a batch of nodes from the monitor to the usages by node id.
pub fn apply_objects(usages: &mut HashMap<u64, Usage>, nodes: &[Node])
    ensures
        usages_model(final(usages)@) == apply_nodes(usages_model(old(usages)@), nodes@),
{
    broadcast use vstd::std_specs::hash::group_hash_axioms;

    let ghost start = usages_model(usages@);
    let mut n: usize = 0;
    while n < nodes.len()
        invariant
            n <= nodes@.len(),
            usages_model(usages@) == apply_nodes(start, nodes@.take(n as int)),
        decreases nodes.len() - n,
    {
        proof {
            assert(nodes@.take(n + 1).drop_last() == nodes@.take(n as int));
            assert(nodes@.take(n + 1).last() == nodes@[n as int]);
        }
        let node = &nodes[n];
        let ghost before = usages_model(usages@);
        match node.id {
            None => {},
            Some(id) => match privacy_usage(node) {
                Some(u) => {
                    let ghost uv = usage_view(u);
                    usages.insert(id, u);
                    assert(usages_model(usages@) =~= before.insert(id, uv));
                },
                None => {
                    usages.remove(&id);
                    assert(usages_model(usages@) =~= before.remove(id));
                },
            },
        }
        n += 1;
    }
    assert(nodes@.take(nodes@.len() as int) == nodes@);
}

// ---------------------------------------------------------------------------
// State
// ---------------------------------------------------------------------------
/// `x` placed before the first text of `s` it sorts before.
pub open spec fn insert_text(x: Seq<char>, s: Seq<Seq<char>>) -> Seq<Seq<char>>
    decreases s.len(),
{
    if s.len() == 0 {
        seq![x]
    } else if text_less(x, s[0]) {
        seq![x] + s
    } else {
        seq![s[0]] + insert_text(x, s.drop_first())
    }
}

pub open spec fn sort_texts(s: Seq<Seq<char>>) -> Seq<Seq<char>>
    decreases s.len(),
{
    if s.len() == 0 {
        seq![]
    } else {
        insert_text(s.last(), sort_texts(s.drop_last()))
    }
}

/// `s` without repeats of the text before (`Vec::dedup`).
pub open spec fn dedup(s: Seq<Seq<char>>) -> Seq<Seq<char>>
    decreases s.len(),
{
    if s.len() == 0 {
        seq![]
    } else {
        let rest = dedup(s.drop_last());
        if s.len() > 1 && s.last() == s[s.len() - 2] {
            rest
        } else {
            rest.push(s.last())
        }
    }
}

/// Names sorted and without repeats.
pub open spec fn normalized(s: Seq<Seq<char>>) -> Seq<Seq<char>> {
    dedup(sort_texts(s))
}

proof fn lemma_insert_text(x: Seq<char>, s: Seq<Seq<char>>, p: int)
    requires
        0 <= p <= s.len(),
        p == s.len() || text_less(x, s[p]),
        forall|j: int| 0 <= j < p ==> !text_less(x, #[trigger] s[j]),
    ensures
        insert_text(x, s) == s.insert(p, x),
    decreases s.len(),
{
    if s.len() == 0 {
        assert(s.insert(p, x) =~= seq![x]);
    } else if p == 0 {
        assert(s.insert(p, x) =~= seq![x] + s);
    } else {
        let t = s.drop_first();
        assert forall|j: int| 0 <= j < p - 1 implies !text_less(x, #[trigger] t[j]) by {
            assert(t[j] == s[j + 1]);
        }
        if p < s.len() {
            assert(t[p - 1] == s[p]);
        }
        lemma_insert_text(x, t, p - 1);
        assert(s.insert(p, x) =~= seq![s[0]] + t.insert(p - 1, x));
    }
}

/// Sorts and removes repeated names.
pub fn normalize(names: Vec<String>) -> (r: Vec<String>)
    ensures
        texts(r@) == normalized(texts(names@)),
{
    let ghost all = texts(names@);
    let mut sorted: Vec<String> = Vec::new();
    let mut j: usize = 0;
    while j < names.len()
        invariant
            j <= names@.len(),
            all == texts(names@),
            texts(sorted@) == sort_texts(all.take(j as int)),
        decreases names.len() - j,
    {
        proof {
            assert(all.take(j + 1).drop_last() == all.take(j as int));
            assert(all.take(j + 1).last() == names@[j as int]@);
        }
        let w = chars_of(names[j].as_str());
        let mut p: usize = 0;
        while p < sorted.len() && !chars_less(&w, &chars_of(sorted[p].as_str()))
            invariant
                p <= sorted@.len(),
                w@ == names@[j as int]@,
                forall|k: int| 0 <= k < p ==> !text_less(w@, #[trigger] texts(sorted@)[k]),
            decreases sorted.len() - p,
        {
            p += 1;
        }
        proof {
            lemma_insert_text(w@, texts(sorted@), p as int);
        }
        let ghost before = sorted@;
        sorted.insert(p, names[j].clone());
        assert(texts(sorted@) =~= texts(before).insert(p as int, w@));
        j += 1;
    }
    assert(all.take(all.len() as int) == all);
    let ghost ordered = texts(sorted@);
    let mut r: Vec<String> = Vec::new();
    let mut k: usize = 0;
    while k < sorted.len()
        invariant
            k <= sorted@.len(),
            ordered == texts(sorted@),
            texts(r@) == dedup(ordered.take(k as int)),
        decreases sorted.len() - k,
    {
        proof {
            assert(ordered.take(k + 1).drop_last() == ordered.take(k as int));
            assert(ordered.take(k + 1).last() == sorted@[k as int]@);
            if k > 0 {
                assert(ordered.take(k + 1)[k - 1] == sorted@[k - 1]@);
            }
        }
        let repeated = k > 0 && str_eq(sorted[k].as_str(), sorted[k - 1].as_str());
        if !repeated {
            let ghost before = r@;
            r.push(sorted[k].clone());
            assert(texts(r@) =~= texts(before).push(sorted@[k as int]@));
        }
        k += 1;
    }
    assert(ordered.take(ordered.len() as int) == ordered);
    r
}

/// The names of the usages of one kind, in order.
pub open spec fn names_of(u: Seq<(int, Seq<char>)>, kind: int) -> Seq<Seq<char>>
    decreases u.len(),
{
    if u.len() == 0 {
        seq![]
    } else {
        let rest = names_of(u.drop_last(), kind);
        if u.last().0 == kind {
            rest.push(u.last().1)
        } else {
            rest
        }
    }
}

proof fn lemma_names_of(u: Seq<(int, Seq<char>)>, kind: int, y: Seq<char>)
    ensures
        names_of(u, kind).contains(y) <==> exists|i: int| 0 <= i < u.len() && #[trigger] u[i] == (kind, y),
    decreases u.len(),
{
    if u.len() > 0 {
        let d = u.drop_last();
        lemma_names_of(d, kind, y);
        let rest = names_of(d, kind);
        if names_of(u, kind).contains(y) {
            let k = choose|k: int| 0 <= k < names_of(u, kind).len() && names_of(u, kind)[k] == y;
            if u.last().0 == kind && k == rest.len() {
                assert(u[u.len() - 1] == (kind, y));
            } else {
                assert(rest[k] == y);
                let i = choose|i: int| 0 <= i < d.len() && #[trigger] d[i] == (kind, y);
                assert(u[i] == d[i]);
            }
        }
        if exists|i: int| 0 <= i < u.len() && #[trigger] u[i] == (kind, y) {
            let i = choose|i: int| 0 <= i < u.len() && #[trigger] u[i] == (kind, y);
            if i == u.len() - 1 {
                assert(names_of(u, kind)[rest.len() as int] == y);
            } else {
                assert(d[i] == u[i]);
                let k = choose|k: int| 0 <= k < rest.len() && rest[k] == y;
                assert(names_of(u, kind)[k] == y);
            }
        }
    }
}

/// The names in use of one kind.
pub open spec fn kind_names(usages: Map<u64, (int, Seq<char>)>, kind: int) -> Set<Seq<char>> {
    Set::new(|name: Seq<char>| exists|id: u64| #[trigger] usages.contains_key(id) && usages[id] == (kind, name))
}

/// The names of one kind listed in a state: sorted, each once, and exactly
/// the names in use of that kind.
pub open spec fn lists_kind(listed: Seq<String>, usages: Map<u64, (int, Seq<char>)>, kind: int) -> bool {
    &&& strictly_sorted_texts(texts(listed))
    &&& forall|y: Seq<char>| #[trigger] texts(listed).contains(y) <==> kind_names(usages, kind).contains(y)
}

proof fn lemma_walk_lists(
    walk: Seq<(int, Seq<char>)>,
    values: Seq<Usage>,
    m: Map<u64, Usage>,
    listed: Seq<String>,
    kind: int,
)
    requires
        walk == values.map_values(|u: Usage| usage_view(u)),
        values.to_set() == m.values(),
        texts(listed) == normalized(names_of(walk, kind)),
    ensures
        lists_kind(listed, usages_model(m), kind),
{
    law_listed_names_are_sorted_and_unique(names_of(walk, kind));
    assert forall|y: Seq<char>| #[trigger] texts(listed).contains(y) <==> kind_names(
        usages_model(m),
        kind,
    ).contains(y) by {
        lemma_names_of(walk, kind, y);
        if exists|i: int| 0 <= i < walk.len() && #[trigger] walk[i] == (kind, y) {
            let i = choose|i: int| 0 <= i < walk.len() && #[trigger] walk[i] == (kind, y);
            assert(values.to_set().contains(values[i]));
            assert(m.values().contains(values[i]));
            let id = choose|id: u64| #[trigger] m.contains_key(id) && m[id] == values[i];
            assert(usages_model(m).contains_key(id) && usages_model(m)[id] == (kind, y));
        }
        if kind_names(usages_model(m), kind).contains(y) {
            let id = choose|id: u64|
                #[trigger] usages_model(m).contains_key(id) && usages_model(m)[id] == (kind, y);
            assert(m.values().contains(m[id]));
            assert(values.to_set().contains(m[id]));
            let i = choose|i: int| 0 <= i < values.len() && values[i] == m[id];
            assert(walk[i] == (kind, y));
        }
    }
}

/// The names in use of each kind, sorted and without repeats.
pub fn usage_state(usages: &HashMap<u64, Usage>) -> (r: State)
    ensures
        lists_kind(r.cameras@, usages_model(usages@), 0),
        lists_kind(r.screen_shares@, usages_model(usages@), 1),
        lists_kind(r.microphones@, usages_model(usages@), 2),
{
    broadcast use vstd::std_specs::hash::group_hash_axioms;

    let ghost m = usages@;
    let mut cameras: Vec<String> = Vec::new();
    let mut shares: Vec<String> = Vec::new();
    let mut microphones: Vec<String> = Vec::new();
    let ghost mut walked: Seq<Usage> = Seq::empty();
    for usage in it: usages.values()
        invariant
            m == usages@,
            it.seq().unref().to_set() == m.values(),
            walked == it.seq().unref().take(it.index() as int),
            it.index() == it.seq().len() ==> walked =~= it.seq().unref(),
            texts(cameras@) == names_of(walked.map_values(|u: Usage| usage_view(u)), 0),
            texts(shares@) == names_of(walked.map_values(|u: Usage| usage_view(u)), 1),
            texts(microphones@) == names_of(walked.map_values(|u: Usage| usage_view(u)), 2),
        ensures
            walked.to_set() == m.values(),
    {
        proof {
            let walk = it.seq().unref();
            let i = it.index() as int;
            assert(walk[i] == *usage);
            assert(walk.take(i + 1) =~= walked.push(*usage));
            let next = walked.push(*usage);
            assert(next.map_values(|u: Usage| usage_view(u)).drop_last() =~= walked.map_values(
                |u: Usage| usage_view(u),
            ));
            assert(next.map_values(|u: Usage| usage_view(u)).last() == usage_view(*usage));
            if i + 1 == walk.len() {
                assert(next =~= walk);
            }
            walked = next;
        }
        match usage {
            Usage::Camera(n) => {
                let ghost before = cameras@;
                cameras.push(n.clone());
                assert(texts(cameras@) =~= texts(before).push(n@));
            },
            Usage::ScreenShare(n) => {
                let ghost before = shares@;
                shares.push(n.clone());
                assert(texts(shares@) =~= texts(before).push(n@));
            },
            Usage::Microphone(n) => {
                let ghost before = microphones@;
                microphones.push(n.clone());
                assert(texts(microphones@) =~= texts(before).push(n@));
            },
        }
    }
    let ghost all = walked;
    let cameras = normalize(cameras);
    let screen_shares = normalize(shares);
    let microphones = normalize(microphones);
    proof {
        let walk = all.map_values(|u: Usage| usage_view(u));
        lemma_walk_lists(walk, all, m, cameras@, 0);
        lemma_walk_lists(walk, all, m, screen_shares@, 1);
        lemma_walk_lists(walk, all, m, microphones@, 2);
    }
    State { cameras, screen_shares, microphones }
}

fn copy_names(names: &Vec<String>) -> (r: Vec<String>)
    ensures
        texts(r@) == texts(names@),
{
    let mut r: Vec<String> = Vec::new();
    let mut i: usize = 0;
    while i < names.len()
        invariant
            i <= names@.len(),
            texts(r@) == texts(names@).take(i as int),
        decreases names.len() - i,
    {
        let ghost before = r@;
        r.push(names[i].clone());
        assert(texts(r@) =~= texts(before).push(names@[i as int]@));
        i += 1;
    }
    assert(texts(names@).take(names@.len() as int) == texts(names@));
    r
}

/// PipeWire's state with the cameras that processes hold open directly.
pub fn merged_state(pipewire: &State, direct_cameras: &[String]) -> (r: State)
    ensures
        texts(r.cameras@) == normalized(texts(pipewire.cameras@) + texts(direct_cameras@)),
        texts(r.screen_shares@) == normalized(texts(pipewire.screen_shares@)),
        texts(r.microphones@) == normalized(texts(pipewire.microphones@)),
{
    let mut cameras = copy_names(&pipewire.cameras);
    let ghost first = texts(cameras@);
    let mut i: usize = 0;
    while i < direct_cameras.len()
        invariant
            i <= direct_cameras@.len(),
            texts(cameras@) == first + texts(direct_cameras@).take(i as int),
        decreases direct_cameras.len() - i,
    {
        let ghost before = cameras@;
        cameras.push(direct_cameras[i].clone());
        assert(texts(cameras@) =~= texts(before).push(direct_cameras@[i as int]@));
        assert(texts(direct_cameras@).take(i + 1) =~= texts(direct_cameras@).take(i as int).push(
            direct_cameras@[i as int]@,
        ));
        i += 1;
    }
    assert(texts(direct_cameras@).take(direct_cameras@.len() as int) == texts(direct_cameras@));
    State {
        cameras: normalize(cameras),
        screen_shares: normalize(copy_names(&pipewire.screen_shares)),
        microphones: normalize(copy_names(&pipewire.microphones)),
    }
}

impl State {
    pub fn is_empty(&self) -> (r: bool)
        ensures
            r == (self.cameras@.len() == 0 && self.screen_shares@.len() == 0
                && self.microphones@.len() == 0),
    {
        self.cameras.len() == 0 && self.screen_shares.len() == 0 && self.microphones.len() == 0
    }
}

/// Whether a device file name under `/dev` is a numbered video device.
pub open spec fn spec_video_device(name: Seq<char>) -> bool {
    &&& has_prefix(name, "video"@)
    &&& name.len() > 5
    &&& forall|i: int| 5 <= i < name.len() ==> '0' <= #[trigger] name[i] <= '9'
}

pub fn video_device(name: &str) -> (r: bool)
    ensures
        r == spec_video_device(name@),
{
    proof {
        reveal_strlit("video");
    }
    let chars = chars_of(name);
    if !starts_with(&chars, &chars_of("video")) || chars.len() <= 5 {
        return false;
    }
    let mut i: usize = 5;
    while i < chars.len()
        invariant
            5 <= i <= chars@.len(),
            chars@ == name@,
            forall|j: int| 5 <= j < i ==> '0' <= #[trigger] chars@[j] <= '9',
        decreases chars.len() - i,
    {
        if !('0' <= chars[i] && chars[i] <= '9') {
            return false;
        }
        i += 1;
    }
    true
}

/// A tooltip: what is in use, then the names, one per line.
pub open spec fn joined(names: Seq<Seq<char>>) -> Seq<char>
    decreases names.len(),
{
    if names.len() == 0 {
        seq![]
    } else if names.len() == 1 {
        names[0]
    } else {
        joined(names.drop_last()) + "\n"@ + names.last()
    }
}

pub fn format_tooltip(kind: &str, names: &[String]) -> (r: String)
    ensures
        r@ == kind@ + ":\n"@ + joined(texts(names@)),
{
    let mut r = String::from_str(kind);
    push_str(&mut r, ":\n");
    let ghost start = r@;
    let mut i: usize = 0;
    while i < names.len()
        invariant
            i <= names@.len(),
            r@ == start + joined(texts(names@).take(i as int)),
        decreases names.len() - i,
    {
        proof {
            let t = texts(names@);
            assert(t.take(i + 1).drop_last() == t.take(i as int));
            assert(t.take(i + 1).last() == names@[i as int]@);
            if i == 0 {
                assert(t.take(1)[0] == names@[0]@);
            }
        }
        if i > 0 {
            push_str(&mut r, "\n");
        }
        push_str(&mut r, names[i].as_str());
        i += 1;
    }
    assert(texts(names@).take(names@.len() as int) == texts(names@));
    r
}

// ---------------------------------------------------------------------------
// Laws
// ---------------------------------------------------------------------------
/// No text comes after a later one.
pub open spec fn sorted_texts(s: Seq<Seq<char>>) -> bool {
    forall|i: int, j: int| 0 <= i < j < s.len() ==> !text_less(#[trigger] s[j], #[trigger] s[i])
}

/// Each text comes before every later one: sorted, with no text twice.
pub open spec fn strictly_sorted_texts(s: Seq<Seq<char>>) -> bool {
    forall|i: int, j: int| 0 <= i < j < s.len() ==> text_less(#[trigger] s[i], #[trigger] s[j])
}

proof fn lemma_insert_text_keeps(x: Seq<char>, s: Seq<Seq<char>>)
    requires
        sorted_texts(s),
    ensures
        sorted_texts(insert_text(x, s)),
        forall|y: Seq<char>| #[trigger] insert_text(x, s).contains(y) <==> (y == x || s.contains(y)),
        insert_text(x, s).len() == s.len() + 1,
    decreases s.len(),
{
    if s.len() == 0 {
        assert(insert_text(x, s) =~= seq![x]);
        assert forall|y: Seq<char>| #[trigger] insert_text(x, s).contains(y) <==> (y == x
            || s.contains(y)) by {
            if insert_text(x, s).contains(y) {
                assert(insert_text(x, s)[0] == y);
            }
            if y == x {
                assert(insert_text(x, s)[0] == y);
            }
        }
    } else if text_less(x, s[0]) {
        let r = seq![x] + s;
        assert(insert_text(x, s) == r);
        assert forall|i: int, j: int| 0 <= i < j < r.len() implies !text_less(
            #[trigger] r[j],
            #[trigger] r[i],
        ) by {
            if i == 0 {
                assert(r[j] == s[j - 1]);
                if j - 1 > 0 {
                    assert(!text_less(s[j - 1], s[0]));
                    lemma_text_less_total(s[j - 1], s[0]);
                    if text_less(s[0], s[j - 1]) {
                        lemma_text_less_transitive(x, s[0], s[j - 1]);
                    }
                    lemma_text_less_asymmetric(x, s[j - 1]);
                } else {
                    lemma_text_less_asymmetric(x, s[0]);
                }
            } else {
                assert(r[i] == s[i - 1] && r[j] == s[j - 1]);
            }
        }
        assert forall|y: Seq<char>| #[trigger] r.contains(y) <==> (y == x || s.contains(y)) by {
            if r.contains(y) {
                let k = choose|k: int| 0 <= k < r.len() && r[k] == y;
                if k > 0 {
                    assert(s[k - 1] == y);
                }
            }
            if s.contains(y) {
                let k = choose|k: int| 0 <= k < s.len() && s[k] == y;
                assert(r[k + 1] == y);
            }
            if y == x {
                assert(r[0] == y);
            }
        }
    } else {
        let rest = s.drop_first();
        assert forall|i: int, j: int| 0 <= i < j < rest.len() implies !text_less(
            #[trigger] rest[j],
            #[trigger] rest[i],
        ) by {
            assert(rest[i] == s[i + 1] && rest[j] == s[j + 1]);
        }
        lemma_insert_text_keeps(x, rest);
        let tail = insert_text(x, rest);
        let r = seq![s[0]] + tail;
        assert(insert_text(x, s) == r);
        assert forall|i: int, j: int| 0 <= i < j < r.len() implies !text_less(
            #[trigger] r[j],
            #[trigger] r[i],
        ) by {
            if i == 0 {
                assert(r[j] == tail[j - 1]);
                assert(tail.contains(tail[j - 1]));
                if tail[j - 1] == x {
                } else {
                    assert(rest.contains(tail[j - 1]));
                    let k = choose|k: int| 0 <= k < rest.len() && rest[k] == tail[j - 1];
                    assert(s[k + 1] == tail[j - 1]);
                    assert(!text_less(s[k + 1], s[0]));
                }
            } else {
                assert(r[i] == tail[i - 1] && r[j] == tail[j - 1]);
            }
        }
        assert forall|y: Seq<char>| #[trigger] r.contains(y) <==> (y == x || s.contains(y)) by {
            if r.contains(y) {
                let k = choose|k: int| 0 <= k < r.len() && r[k] == y;
                if k > 0 {
                    assert(tail[k - 1] == y);
                    assert(tail.contains(y));
                    if rest.contains(y) {
                        let m = choose|m: int| 0 <= m < rest.len() && rest[m] == y;
                        assert(s[m + 1] == y);
                    }
                } else {
                    assert(s[0] == y);
                }
            }
            if s.contains(y) {
                let k = choose|k: int| 0 <= k < s.len() && s[k] == y;
                if k == 0 {
                    assert(r[0] == y);
                } else {
                    assert(rest[k - 1] == y);
                    assert(rest.contains(y));
                    assert(tail.contains(y));
                    let m = choose|m: int| 0 <= m < tail.len() && tail[m] == y;
                    assert(r[m + 1] == y);
                }
            }
            if y == x {
                assert(tail.contains(y));
                let m = choose|m: int| 0 <= m < tail.len() && tail[m] == y;
                assert(r[m + 1] == y);
            }
        }
    }
}

proof fn lemma_sort_texts(s: Seq<Seq<char>>)
    ensures
        sorted_texts(sort_texts(s)),
        forall|y: Seq<char>| #[trigger] sort_texts(s).contains(y) <==> s.contains(y),
        sort_texts(s).len() == s.len(),
    decreases s.len(),
{
    if s.len() > 0 {
        lemma_sort_texts(s.drop_last());
        lemma_insert_text_keeps(s.last(), sort_texts(s.drop_last()));
        assert forall|y: Seq<char>| #[trigger] sort_texts(s).contains(y) <==> s.contains(y) by {
            if s.drop_last().contains(y) {
                let k = choose|k: int| 0 <= k < s.drop_last().len() && s.drop_last()[k] == y;
                assert(s[k] == y);
            }
            if s.contains(y) && y != s.last() {
                let k = choose|k: int| 0 <= k < s.len() && s[k] == y;
                assert(s.drop_last()[k] == y);
            }
        }
    }
}

proof fn lemma_dedup_sorted(s: Seq<Seq<char>>)
    requires
        sorted_texts(s),
    ensures
        strictly_sorted_texts(dedup(s)),
        forall|y: Seq<char>| #[trigger] dedup(s).contains(y) <==> s.contains(y),
        s.len() > 0 ==> dedup(s).len() > 0 && dedup(s).last() == s.last(),
    decreases s.len(),
{
    if s.len() > 0 {
        let front = s.drop_last();
        assert forall|i: int, j: int| 0 <= i < j < front.len() implies !text_less(
            #[trigger] front[j],
            #[trigger] front[i],
        ) by {
            assert(front[i] == s[i] && front[j] == s[j]);
        }
        lemma_dedup_sorted(front);
        let rest = dedup(front);
        if s.len() > 1 && s.last() == s[s.len() - 2] {
            assert(dedup(s) == rest);
            assert forall|y: Seq<char>| #[trigger] dedup(s).contains(y) <==> s.contains(y) by {
                if front.contains(y) {
                    let k = choose|k: int| 0 <= k < front.len() && front[k] == y;
                    assert(s[k] == y);
                }
                if s.contains(y) {
                    let k = choose|k: int| 0 <= k < s.len() && s[k] == y;
                    if k == s.len() - 1 {
                        assert(front[s.len() - 2] == y);
                    } else {
                        assert(front[k] == y);
                    }
                }
            }
        } else {
            let r = rest.push(s.last());
            assert(dedup(s) == r);
            if front.len() > 0 {
                assert(!text_less(s.last(), s[s.len() - 2]));
                lemma_text_less_total(s.last(), s[s.len() - 2]);
                assert(text_less(rest.last(), s.last()));
            }
            assert forall|i: int, j: int| 0 <= i < j < r.len() implies text_less(
                #[trigger] r[i],
                #[trigger] r[j],
            ) by {
                if j == r.len() - 1 {
                    if i < rest.len() - 1 {
                        assert(text_less(rest[i], rest[rest.len() - 1]));
                        lemma_text_less_transitive(rest[i], rest.last(), s.last());
                    }
                } else {
                    assert(r[i] == rest[i] && r[j] == rest[j]);
                }
            }
            assert forall|y: Seq<char>| #[trigger] r.contains(y) <==> s.contains(y) by {
                if r.contains(y) {
                    let k = choose|k: int| 0 <= k < r.len() && r[k] == y;
                    if k < rest.len() {
                        assert(rest[k] == y);
                        assert(rest.contains(y));
                        let m = choose|m: int| 0 <= m < front.len() && front[m] == y;
                        assert(s[m] == y);
                    } else {
                        assert(s[s.len() - 1] == y);
                    }
                }
                if s.contains(y) {
                    let k = choose|k: int| 0 <= k < s.len() && s[k] == y;
                    if k == s.len() - 1 {
                        assert(r[r.len() - 1] == y);
                    } else {
                        assert(front[k] == y);
                        assert(front.contains(y));
                        assert(rest.contains(y));
                        let m = choose|m: int| 0 <= m < rest.len() && rest[m] == y;
                        assert(r[m] == y);
                    }
                }
            }
        }
    }
}

/// The names a privacy indicator lists are sorted, each listed once, and
/// are exactly the names of the streams it was given.
pub proof fn law_listed_names_are_sorted_and_unique(names: Seq<Seq<char>>)
    ensures
        strictly_sorted_texts(normalized(names)),
        forall|y: Seq<char>| #[trigger] normalized(names).contains(y) <==> names.contains(y),
{
    lemma_sort_texts(names);
    lemma_dedup_sorted(sort_texts(names));
}

} // verus!
