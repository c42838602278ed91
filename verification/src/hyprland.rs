//! The Hyprland module of the bar: what the compositor's event lines mean,
//! what the module shows of its workspaces, window title and submap, and the
//! commands it sends back.
use vstd::prelude::*;

use crate::text::{
    chars_less, text_less, chars_of, has_prefix, i64_text, parse_i64, push_char, push_str, spec_split_once, split_once, occurs_at, first_occurrence,
    starts_with, str_eq, string_of, to_ascii_lowercase, trim, trim_line_end, trimmed,
    trimmed_line_end, ascii_lowercase, slice_of,
};

verus! {

broadcast use vstd::string::group_string_axioms;

/// How long title updates are held back after one was sent, in milliseconds.
pub const TITLE_UPDATE_INTERVAL_MS: u64 = 50;

// ---------------------------------------------------------------------------
// Events
// ---------------------------------------------------------------------------
/// What an event line from Hyprland's event socket means to the module.
#[derive(Debug, PartialEq, Eq)]
pub enum Event {
    Refresh,
    Workspace(i64),
    ActiveWindow(Option<String>),
    Title { address: String, title: String },
    Submap(Option<String>),
    Ignore,
}

/// An event as plain values.
pub enum EventView {
    Refresh,
    Workspace(i64),
    ActiveWindow(Option<Seq<char>>),
    Title(Seq<char>, Seq<char>),
    Submap(Option<Seq<char>>),
    Ignore,
}

pub open spec fn text_of(s: Option<String>) -> Option<Seq<char>> {
    match s {
        Some(t) => Some(t@),
        None => None,
    }
}

pub open spec fn event_view(e: Event) -> EventView {
    match e {
        Event::Refresh => EventView::Refresh,
        Event::Workspace(id) => EventView::Workspace(id),
        Event::ActiveWindow(a) => EventView::ActiveWindow(text_of(a)),
        Event::Title { address, title } => EventView::Title(address@, title@),
        Event::Submap(s) => EventView::Submap(text_of(s)),
        Event::Ignore => EventView::Ignore,
    }
}

/// A window address as Hyprland writes it, without its `0x` or `0X`, trimmed
/// and in lower case; none when nothing is left.
pub open spec fn spec_normalize_address(address: Seq<char>) -> Option<Seq<char>> {
    let stripped = if has_prefix(address, "0x"@) || has_prefix(address, "0X"@) {
        address.skip(2)
    } else {
        address
    };
    let t = trim(stripped);
    if t.len() == 0 {
        None
    } else {
        Some(ascii_lowercase(t))
    }
}

fn normalize_address_chars(address: &Vec<char>) -> (r: Option<String>)
    ensures
        text_of(r) == spec_normalize_address(address@),
{
    proof {
        reveal_strlit("0x");
        reveal_strlit("0X");
    }
    let stripped = if starts_with(address, &chars_of("0x")) || starts_with(
        address,
        &chars_of("0X"),
    ) {
        assert(address@.subrange(2, address@.len() as int) == address@.skip(2));
        slice_of(address, 2, address.len())
    } else {
        slice_of(address, 0, address.len())
    };
    assert(address@.subrange(0, address@.len() as int) == address@);
    let t = trimmed(&stripped);
    if t.len() == 0 {
        None
    } else {
        Some(to_ascii_lowercase(&t))
    }
}

/// A window address, normalized.
pub fn normalize_address(address: &str) -> (r: Option<String>)
    ensures
        text_of(r) == spec_normalize_address(address@),
{
    normalize_address_chars(&chars_of(address))
}

/// A submap name, where an empty one or `reset` means no submap.
pub open spec fn spec_normalize_submap(submap: Seq<char>) -> Option<Seq<char>> {
    if submap.len() == 0 || submap == "reset"@ {
        None
    } else {
        Some(submap)
    }
}

pub fn normalize_submap(submap: &str) -> (r: Option<String>)
    ensures
        text_of(r) == spec_normalize_submap(submap@),
{
    if submap.is_empty() || str_eq(submap, "reset") {
        None
    } else {
        Some(String::from_str(submap))
    }
}

/// The events after which the module reads its whole state again.
pub open spec fn refresh_event(event: Seq<char>) -> bool {
    ||| event == "focusedmonv2"@
    ||| event == "createworkspacev2"@
    ||| event == "destroyworkspacev2"@
    ||| event == "moveworkspacev2"@
    ||| event == "renameworkspace"@
    ||| event == "closewindow"@
    ||| event == "movewindowv2"@
    ||| event == "urgent"@
}

/// What an event line means: `EVENT>>DATA`, its line ending dropped. Titles
/// keep their commas: only the first comma ends the window address.
pub open spec fn spec_parse_event(line: Seq<char>) -> EventView {
    match spec_split_once(trim_line_end(line), ">>"@) {
        None => EventView::Ignore,
        Some((event, data)) => if event == "workspacev2"@ {
            match spec_split_once(data, ","@) {
                Some((id, _)) => match i64_text(id) {
                    Some(v) => EventView::Workspace(v as i64),
                    None => EventView::Ignore,
                },
                None => EventView::Ignore,
            }
        } else if event == "activewindowv2"@ {
            EventView::ActiveWindow(spec_normalize_address(data))
        } else if event == "windowtitlev2"@ {
            match spec_split_once(data, ","@) {
                Some((address, title)) => match spec_normalize_address(address) {
                    Some(a) => EventView::Title(a, title),
                    None => EventView::Ignore,
                },
                None => EventView::Ignore,
            }
        } else if event == "submap"@ {
            EventView::Submap(spec_normalize_submap(data))
        } else if refresh_event(event) {
            EventView::Refresh
        } else {
            EventView::Ignore
        }
    }
}

fn is_refresh_event(event: &str) -> (r: bool)
    ensures
        r == refresh_event(event@),
{
    str_eq(event, "focusedmonv2") || str_eq(event, "createworkspacev2") || str_eq(
        event,
        "destroyworkspacev2",
    ) || str_eq(event, "moveworkspacev2") || str_eq(event, "renameworkspace") || str_eq(
        event,
        "closewindow",
    ) || str_eq(event, "movewindowv2") || str_eq(event, "urgent")
}

pub fn parse_event(line: &str) -> (r: Event)
    ensures
        event_view(r) == spec_parse_event(line@),
{
    let trimmed = trimmed_line_end(&chars_of(line));
    let (event, data) = match split_once(&trimmed, &chars_of(">>")) {
        Some(parts) => parts,
        None => return Event::Ignore,
    };
    let event = string_of(&event);
    let name = event.as_str();
    if str_eq(name, "workspacev2") {
        match split_once(&data, &chars_of(",")) {
            Some((id, _)) => match parse_i64(&id) {
                Some(v) => Event::Workspace(v),
                None => Event::Ignore,
            },
            None => Event::Ignore,
        }
    } else if str_eq(name, "activewindowv2") {
        Event::ActiveWindow(normalize_address_chars(&data))
    } else if str_eq(name, "windowtitlev2") {
        match split_once(&data, &chars_of(",")) {
            Some((address, title)) => match normalize_address_chars(&address) {
                Some(a) => Event::Title { address: a, title: string_of(&title) },
                None => Event::Ignore,
            },
            None => Event::Ignore,
        }
    } else if str_eq(name, "submap") {
        let data = string_of(&data);
        Event::Submap(normalize_submap(data.as_str()))
    } else if is_refresh_event(name) {
        Event::Refresh
    } else {
        Event::Ignore
    }
}

/// The answer to the current-submap query: `:` and the submap's name, with
/// a line ending; anything else is an invalid answer.
pub fn parse_submap_query(response: &str) -> (r: Result<Option<String>, String>)
    ensures
        match r {
            Ok(s) => {
                let t = trim_line_end(response@);
                t.len() > 0 && t[0] == ':' && text_of(s) == spec_normalize_submap(t.drop_first())
            },
            Err(e) => {
                let t = trim_line_end(response@);
                !(t.len() > 0 && t[0] == ':') && e@
                    == "Hyprland returned an invalid submap response"@
            },
        },
{
    let t = trimmed_line_end(&chars_of(response));
    if t.len() == 0 || t[0] != ':' {
        return Err(String::from_str("Hyprland returned an invalid submap response"));
    }
    let name = string_of(&slice_of(&t, 1, t.len()));
    assert(t@.subrange(1, t@.len() as int) == t@.drop_first());
    Ok(normalize_submap(name.as_str()))
}

/// Whether a title event concerns the active window.
pub fn is_active_address(address: &str, active_address: Option<&str>) -> (r: bool)
    ensures
        r == (active_address matches Some(a) && a@ == address@),
{
    match active_address {
        Some(a) => str_eq(a, address),
        None => false,
    }
}

/// Whether an event calls for reading the whole state again: a refresh
/// event, or a change of the active window.
pub fn event_needs_refresh(event: &Event, active_address: Option<&str>) -> (r: bool)
    ensures
        r == match event {
            Event::Refresh => true,
            Event::ActiveWindow(a) => match (a, active_address) {
                (Some(x), Some(y)) => x@ != y@,
                (None, None) => false,
                _ => true,
            },
            _ => false,
        },
{
    match event {
        Event::Refresh => true,
        Event::ActiveWindow(a) => match (a, active_address) {
            (Some(x), Some(y)) => !str_eq(x.as_str(), y),
            (None, None) => false,
            _ => true,
        },
        _ => false,
    }
}

/// What the event loop does with an event.
#[derive(Debug, PartialEq, Eq)]
pub enum Reaction {
    /// Mark this workspace active.
    ActiveWorkspace(i64),
    /// Drop pending titles and read the whole state again.
    Refresh,
    /// Queue this title of the active window.
    QueueTitle(String),
    /// Show this submap, or none.
    Submap(Option<String>),
    /// Nothing to do.
    Nothing,
}

/// The event loop's decision for one event, given the active window.
pub fn react(event: Event, active_address: Option<&str>) -> (r: Reaction)
    ensures
        match event {
            Event::Workspace(id) => r == Reaction::ActiveWorkspace(id),
            Event::Refresh => r == Reaction::Refresh,
            Event::ActiveWindow(a) => if (match (a, active_address) {
                (Some(x), Some(y)) => x@ != y@,
                (None, None) => false,
                _ => true,
            }) {
                r == Reaction::Refresh
            } else {
                r == Reaction::Nothing
            },
            Event::Title { address, title } => if active_address matches Some(a) && a@
                == address@ {
                r matches Reaction::QueueTitle(t) && t@ == title@
            } else {
                r == Reaction::Nothing
            },
            Event::Submap(s) => r matches Reaction::Submap(t) && text_of(t) == text_of(s),
            Event::Ignore => r == Reaction::Nothing,
        },
{
    if let Event::Workspace(id) = event {
        return Reaction::ActiveWorkspace(id);
    }
    if event_needs_refresh(&event, active_address) {
        return Reaction::Refresh;
    }
    match event {
        Event::Title { address, title } => if is_active_address(address.as_str(), active_address) {
            Reaction::QueueTitle(title)
        } else {
            Reaction::Nothing
        },
        Event::Submap(s) => Reaction::Submap(s),
        _ => Reaction::Nothing,
    }
}

// ---------------------------------------------------------------------------
// Title updates
// ---------------------------------------------------------------------------
/// Window titles waiting to be shown: at most one update per interval, the
/// latest title winning.
pub struct TitleUpdates {
    pub pending: Option<String>,
    pub last_sent: Option<u64>,
}

impl Default for TitleUpdates {
    fn default() -> (r: Self)
        ensures
            r.pending is None,
            r.last_sent is None,
    {
        TitleUpdates { pending: None, last_sent: None }
    }
}

/// Whether titles are held back at `now`: the interval after the last one
/// shown has not passed.
pub open spec fn title_held(t: TitleUpdates, now: u64) -> bool {
    t.last_sent matches Some(last) && now >= last && now - last < TITLE_UPDATE_INTERVAL_MS
}

impl TitleUpdates {
    /// Queues a title in place of any pending one.
    pub fn queue(&mut self, title: String)
        ensures
            final(self).pending == Some(title),
            final(self).last_sent == old(self).last_sent,
    {
        self.pending = Some(title);
    }

    /// Forgets the pending title and the rate limit.
    pub fn clear(&mut self)
        ensures
            final(self).pending is None,
            final(self).last_sent is None,
    {
        self.pending = None;
        self.last_sent = None;
    }

    /// The pending title, if one may be shown at `now` (milliseconds): none
    /// within the interval after the last one shown.
    pub fn take_ready(&mut self, now: u64) -> (r: Option<String>)
        ensures
            ({
                if title_held(*old(self), now) || old(self).pending is None {
                    r is None && *final(self) == *old(self)
                } else {
                    r == old(self).pending && final(self).pending is None
                        && final(self).last_sent == Some(now)
                }
            }),
    {
        if let Some(last) = self.last_sent {
            if now >= last && now - last < TITLE_UPDATE_INTERVAL_MS {
                return None;
            }
        }
        let mut title = None;
        std::mem::swap(&mut title, &mut self.pending);
        match title {
            Some(t) => {
                self.last_sent = Some(now);
                Some(t)
            },
            None => None,
        }
    }
}

// ---------------------------------------------------------------------------
// Workspaces
// ---------------------------------------------------------------------------
/// A workspace as Hyprland lists it.
pub struct WorkspaceInfo {
    pub id: i64,
    pub name: String,
    pub monitor: String,
    pub urgent: bool,
}

/// The workspace Hyprland reports active.
pub struct ActiveWorkspace {
    pub id: i64,
    pub monitor: String,
}

/// The window Hyprland reports active.
pub struct ActiveWindow {
    pub address: String,
    pub title: String,
}

/// A workspace the module shows.
#[derive(Clone, Debug, PartialEq, Eq)]
pub struct Workspace {
    pub id: i64,
    pub name: String,
    pub urgent: bool,
}

/// What the module shows.
#[derive(Clone, Debug, PartialEq, Eq)]
pub struct State {
    pub workspaces: Vec<Workspace>,
    pub active_id: Option<i64>,
    pub title: String,
    pub submap: Option<String>,
}

/// Whether the workspace buttons must be built again: only when workspaces
/// come, go, move, or are renamed.
pub open spec fn structure_changed(current: Seq<Workspace>, next: Seq<Workspace>) -> bool {
    current.len() != next.len() || exists|i: int|
        0 <= i < current.len() && (#[trigger] current[i].id != next[i].id || current[i].name@
            != next[i].name@)
}

pub fn workspace_structure_changed(current: &State, next: &State) -> (r: bool)
    ensures
        r == structure_changed(current.workspaces@, next.workspaces@),
{
    if current.workspaces.len() != next.workspaces.len() {
        return true;
    }
    let mut i: usize = 0;
    while i < current.workspaces.len()
        invariant
            i <= current.workspaces@.len(),
            current.workspaces@.len() == next.workspaces@.len(),
            forall|j: int|
                0 <= j < i ==> !(#[trigger] current.workspaces@[j].id != next.workspaces@[j].id
                    || current.workspaces@[j].name@ != next.workspaces@[j].name@),
        decreases current.workspaces.len() - i,
    {
        let a = &current.workspaces[i];
        let b = &next.workspaces[i];
        if a.id != b.id || !str_eq(a.name.as_str(), b.name.as_str()) {
            return true;
        }
        i += 1;
    }
    false
}

/// A workspace as plain values: id, name, urgency.
pub type WorkspaceSpec = (i64, Seq<char>, bool);

pub open spec fn ws_view(w: Workspace) -> WorkspaceSpec {
    (w.id, w.name@, w.urgent)
}

pub open spec fn ws_views(ws: Seq<Workspace>) -> Seq<WorkspaceSpec> {
    ws.map_values(|w: Workspace| ws_view(w))
}

/// The order of the workspace buttons: numbered workspaces by number, then
/// named ones by name.
pub open spec fn workspace_less(l: WorkspaceSpec, r: WorkspaceSpec) -> bool {
    if l.0 > 0 && r.0 > 0 {
        l.0 < r.0
    } else if l.0 > 0 {
        true
    } else if r.0 > 0 {
        false
    } else {
        text_less(l.1, r.1)
    }
}

fn workspace_before(l: &Workspace, r: &Workspace) -> (b: bool)
    ensures
        b == workspace_less(ws_view(*l), ws_view(*r)),
{
    if l.id > 0 && r.id > 0 {
        l.id < r.id
    } else if l.id > 0 {
        true
    } else if r.id > 0 {
        false
    } else {
        chars_less(&chars_of(l.name.as_str()), &chars_of(r.name.as_str()))
    }
}

/// `x` placed before the first entry of `s` it sorts before.
pub open spec fn insert_workspace(x: WorkspaceSpec, s: Seq<WorkspaceSpec>) -> Seq<WorkspaceSpec>
    decreases s.len(),
{
    if s.len() == 0 {
        seq![x]
    } else if workspace_less(x, s[0]) {
        seq![x] + s
    } else {
        seq![s[0]] + insert_workspace(x, s.drop_first())
    }
}

/// `ws` sorted into button order, equal ones kept in their order.
pub open spec fn sort_workspaces(ws: Seq<WorkspaceSpec>) -> Seq<WorkspaceSpec>
    decreases ws.len(),
{
    if ws.len() == 0 {
        seq![]
    } else {
        insert_workspace(ws.last(), sort_workspaces(ws.drop_last()))
    }
}

proof fn lemma_insert_workspace(x: WorkspaceSpec, s: Seq<WorkspaceSpec>, p: int)
    requires
        0 <= p <= s.len(),
        p == s.len() || workspace_less(x, s[p]),
        forall|j: int| 0 <= j < p ==> !workspace_less(x, #[trigger] s[j]),
    ensures
        insert_workspace(x, s) == s.insert(p, x),
    decreases s.len(),
{
    if s.len() == 0 {
        assert(s.insert(p, x) =~= seq![x]);
    } else if p == 0 {
        assert(s.insert(p, x) =~= seq![x] + s);
    } else {
        let t = s.drop_first();
        assert forall|j: int| 0 <= j < p - 1 implies !workspace_less(x, #[trigger] t[j]) by {
            assert(t[j] == s[j + 1]);
        }
        if p < s.len() {
            assert(t[p - 1] == s[p]);
        }
        lemma_insert_workspace(x, t, p - 1);
        assert(s.insert(p, x) =~= seq![s[0]] + t.insert(p - 1, x));
    }
}

/// A listed workspace the module shows: on the active monitor, and not a
/// special workspace.
pub open spec fn shown(w: WorkspaceInfo, monitor: Seq<char>) -> bool {
    w.monitor@ == monitor && !has_prefix(w.name@, "special:"@)
}

/// Whether the module shows a listed workspace; only these are asked
/// whether they are urgent.
pub fn is_shown(workspace: &WorkspaceInfo, monitor: &str) -> (r: bool)
    ensures
        r == shown(*workspace, monitor@),
{
    proof {
        reveal_strlit("special:");
    }
    str_eq(workspace.monitor.as_str(), monitor) && !starts_with(
        &chars_of(workspace.name.as_str()),
        &chars_of("special:"),
    )
}

/// Whether Hyprland's reply to the urgency query says `true`, surrounding
/// whitespace aside.
pub fn urgent_reply(reply: &str) -> (r: bool)
    ensures
        r == (crate::text::trim(reply@) == "true"@),
{
    let t = crate::text::trimmed(&chars_of(reply));
    crate::text::chars_eq(&t, &chars_of("true"))
}

/// The workspaces shown, in list order.
pub open spec fn shown_workspaces(ws: Seq<WorkspaceInfo>, monitor: Seq<char>) -> Seq<
    WorkspaceSpec,
>
    decreases ws.len(),
{
    if ws.len() == 0 {
        seq![]
    } else {
        let rest = shown_workspaces(ws.drop_last(), monitor);
        let w = ws.last();
        if shown(w, monitor) {
            rest.push((w.id, w.name@, w.urgent))
        } else {
            rest
        }
    }
}

/// What the module shows, from what Hyprland reports: the workspaces of the
/// active monitor in button order, the active workspace, the active
/// window's title and the submap.
pub fn state_from_parts(
    workspaces: Vec<WorkspaceInfo>,
    active_workspace: ActiveWorkspace,
    active_window: ActiveWindow,
    submap: Option<String>,
) -> (r: State)
    ensures
        ws_views(r.workspaces@) == sort_workspaces(
            shown_workspaces(workspaces@, active_workspace.monitor@),
        ),
        r.active_id == Some(active_workspace.id),
        r.title == active_window.title,
        r.submap == submap,
{
    let ghost all = workspaces@;
    let ghost monitor = active_workspace.monitor@;
    let mut kept: Vec<Workspace> = Vec::new();
    let mut i: usize = 0;
    while i < workspaces.len()
        invariant
            all == workspaces@,
            i <= all.len(),
            ws_views(kept@) == shown_workspaces(all.take(i as int), monitor),
            active_workspace.monitor@ == monitor,
        decreases workspaces.len() - i,
    {
        let w = &workspaces[i];
        proof {
            assert(all.take(i + 1).drop_last() == all.take(i as int));
            assert(all.take(i + 1).last() == all[i as int]);
        }
        let keep = str_eq(w.monitor.as_str(), active_workspace.monitor.as_str()) && !starts_with(
            &chars_of(w.name.as_str()),
            &chars_of("special:"),
        );
        if keep {
            let ghost before = kept@;
            kept.push(Workspace { id: w.id, name: w.name.clone(), urgent: w.urgent });
            assert(ws_views(kept@) =~= ws_views(before).push((w.id, w.name@, w.urgent)));
        }
        i += 1;
    }
    assert(all.take(all.len() as int) == all);
    let ghost filtered = ws_views(kept@);
    // Insert each kept workspace before the first one it sorts before.
    let mut sorted: Vec<Workspace> = Vec::new();
    let mut j: usize = 0;
    while j < kept.len()
        invariant
            j <= kept@.len(),
            filtered == ws_views(kept@),
            ws_views(sorted@) == sort_workspaces(filtered.take(j as int)),
        decreases kept.len() - j,
    {
        let w = &kept[j];
        proof {
            assert(filtered.take(j + 1).drop_last() == filtered.take(j as int));
            assert(filtered.take(j + 1).last() == ws_view(kept@[j as int]));
        }
        let mut p: usize = 0;
        while p < sorted.len() && !workspace_before(w, &sorted[p])
            invariant
                p <= sorted@.len(),
                forall|k: int|
                    0 <= k < p ==> !workspace_less(ws_view(*w), #[trigger] ws_views(sorted@)[k]),
            decreases sorted.len() - p,
        {
            p += 1;
        }
        proof {
            lemma_insert_workspace(ws_view(*w), ws_views(sorted@), p as int);
        }
        let ghost before = sorted@;
        sorted.insert(p, Workspace { id: w.id, name: w.name.clone(), urgent: w.urgent });
        assert(ws_views(sorted@) =~= ws_views(before).insert(p as int, ws_view(*w)));
        j += 1;
    }
    assert(filtered.take(filtered.len() as int) == filtered);
    State {
        workspaces: sorted,
        active_id: Some(active_workspace.id),
        title: active_window.title,
        submap,
    }
}

// ---------------------------------------------------------------------------
// Commands
// ---------------------------------------------------------------------------
/// How a workspace button names its workspace.
pub enum WorkspaceSelector {
    Id(i64),
    Name(String),
}

/// A workspace name inside a single-quoted Lua string: backslashes and
/// quotes escaped.
pub open spec fn lua_quoted(s: Seq<char>) -> Seq<char>
    decreases s.len(),
{
    if s.len() == 0 {
        seq![]
    } else {
        let rest = lua_quoted(s.drop_last());
        if s.last() == '\\' {
            rest + seq!['\\', '\\']
        } else if s.last() == '\'' {
            rest + seq!['\\', '\'']
        } else {
            rest.push(s.last())
        }
    }
}

/// The Hyprland command that focuses a workspace.
pub open spec fn spec_activation_command(selector: WorkspaceSelector) -> Seq<char> {
    match selector {
        WorkspaceSelector::Id(id) => "dispatch hl.dsp.focus({ workspace = "@
            + crate::text::signed_decimal(id as int) + " })"@,
        WorkspaceSelector::Name(name) => "dispatch hl.dsp.focus({ workspace = 'name:"@
            + lua_quoted(name@) + "' })"@,
    }
}

pub fn activation_command(selector: &WorkspaceSelector) -> (r: String)
    ensures
        r@ == spec_activation_command(*selector),
{
    match selector {
        WorkspaceSelector::Id(id) => {
            let mut r = String::from_str("dispatch hl.dsp.focus({ workspace = ");
            crate::text::push_signed_decimal(&mut r, *id);
            push_str(&mut r, " })");
            r
        },
        WorkspaceSelector::Name(name) => {
            let mut r = String::from_str("dispatch hl.dsp.focus({ workspace = 'name:");
            let chars = chars_of(name.as_str());
            let ghost start = r@;
            let mut i: usize = 0;
            while i < chars.len()
                invariant
                    i <= chars@.len(),
                    chars@ == name@,
                    r@ == start + lua_quoted(chars@.take(i as int)),
                decreases chars.len() - i,
            {
                let c = chars[i];
                proof {
                    assert(chars@.take(i + 1).drop_last() == chars@.take(i as int));
                    assert(chars@.take(i + 1).last() == c);
                }
                if c == '\\' {
                    push_char(&mut r, '\\');
                    push_char(&mut r, '\\');
                } else if c == '\'' {
                    push_char(&mut r, '\\');
                    push_char(&mut r, '\'');
                } else {
                    push_char(&mut r, c);
                }
                i += 1;
            }
            assert(chars@.take(chars@.len() as int) == chars@);
            push_str(&mut r, "' })");
            r
        },
    }
}

/// The selector a workspace button sends: the workspace's id when it is
/// positive, else its name (special and named workspaces have no usable id).
pub fn selector_for(workspace: &Workspace) -> (r: WorkspaceSelector)
    ensures
        workspace.id > 0 ==> r == WorkspaceSelector::Id(workspace.id),
        workspace.id <= 0 ==> (r matches WorkspaceSelector::Name(n) && n@ == workspace.name@),
{
    if workspace.id > 0 {
        WorkspaceSelector::Id(workspace.id)
    } else {
        WorkspaceSelector::Name(crate::text::copy_string(&workspace.name))
    }
}

/// The style classes of a workspace's button: whether it is the active
/// workspace and whether it is urgent.
pub fn workspace_classes(state: &State, workspace: &Workspace) -> (r: (bool, bool))
    ensures
        r.0 == (state.active_id == Some(workspace.id)),
        r.1 == workspace.urgent,
{
    let active = match state.active_id {
        Some(id) => id == workspace.id,
        None => false,
    };
    (active, workspace.urgent)
}

// ---------------------------------------------------------------------------
// Laws
// ---------------------------------------------------------------------------
/// An event line means the same with or without its line ending.
pub proof fn law_line_endings_do_not_matter(line: Seq<char>)
    ensures
        spec_parse_event(line.push('\n')) == spec_parse_event(line),
        spec_parse_event(line.push('\r').push('\n')) == spec_parse_event(line),
{
    assert(line.push('\n').drop_last() == line);
    assert(line.push('\r').push('\n').drop_last() == line.push('\r'));
    assert(line.push('\r').drop_last() == line);
    assert(trim_line_end(line.push('\r')) == trim_line_end(line));
    assert(trim_line_end(line.push('\r').push('\n')) == trim_line_end(line.push('\r')));
}

proof fn lemma_trim_after_prefix(p: Seq<char>, d: Seq<char>)
    requires
        p.len() > 0,
        p.last() != '\r',
        p.last() != '\n',
    ensures
        trim_line_end(p + d) == p + trim_line_end(d),
    decreases d.len(),
{
    if d.len() == 0 {
        assert(p + d == p);
        assert(p + trim_line_end(d) == p);
    } else {
        assert((p + d).drop_last() == p + d.drop_last());
        assert((p + d).last() == d.last());
        lemma_trim_after_prefix(p, d.drop_last());
    }
}

/// A line `name>>data` whose name holds no `>` splits into that name and
/// the data without its line ending.
proof fn lemma_split_event(name: Seq<char>, data: Seq<char>)
    requires
        name.len() > 0,
        forall|i: int| 0 <= i < name.len() ==> name[i] != '>',
    ensures
        spec_split_once(trim_line_end(name + ">>"@ + data), ">>"@) == Some((name, trim_line_end(data))),
{
    reveal_strlit(">>");
    let head = name + ">>"@;
    lemma_trim_after_prefix(head, data);
    let line = head + trim_line_end(data);
    assert(name + ">>"@ + data == head + data);
    let n = name.len() as int;
    assert(line.skip(n).take(2) =~= ">>"@);
    assert(occurs_at(line, ">>"@, n));
    assert forall|q: int| 0 <= q < n implies !occurs_at(line, ">>"@, q) by {
        if occurs_at(line, ">>"@, q) {
            assert(line.skip(q).take(2)[0] == line[q]);
            assert(line[q] == name[q]);
        }
    }
    assert(first_occurrence(line, ">>"@, n));
    let p = choose|p: int| first_occurrence(line, ">>"@, p);
    if p < n {
        assert(line.skip(p).take(2)[0] == line[p]);
        assert(line[p] == name[p]);
    }
    assert(p == n);
    assert(line.take(n) =~= name);
    assert(line.skip(n + 2) =~= trim_line_end(data));
}

proof fn lemma_refresh_event_line(name: Seq<char>, data: Seq<char>)
    requires
        name.len() > 0,
        forall|i: int| 0 <= i < name.len() ==> name[i] != '>',
        name != "workspacev2"@,
        name != "activewindowv2"@,
        name != "windowtitlev2"@,
        name != "submap"@,
        refresh_event(name),
    ensures
        spec_parse_event(name + ">>"@ + data) == EventView::Refresh,
{
    lemma_split_event(name, data);
}

/// The events that change the workspaces, the monitors or the windows make
/// the module read its whole state again, whatever data they carry: a
/// focused monitor, a created, destroyed, moved or renamed workspace, a
/// closed or moved window, and an urgent window.
pub proof fn law_workspace_changes_refresh(data: Seq<char>)
    ensures
        spec_parse_event("focusedmonv2"@ + ">>"@ + data) == EventView::Refresh,
        spec_parse_event("createworkspacev2"@ + ">>"@ + data) == EventView::Refresh,
        spec_parse_event("destroyworkspacev2"@ + ">>"@ + data) == EventView::Refresh,
        spec_parse_event("moveworkspacev2"@ + ">>"@ + data) == EventView::Refresh,
        spec_parse_event("renameworkspace"@ + ">>"@ + data) == EventView::Refresh,
        spec_parse_event("closewindow"@ + ">>"@ + data) == EventView::Refresh,
        spec_parse_event("movewindowv2"@ + ">>"@ + data) == EventView::Refresh,
        spec_parse_event("urgent"@ + ">>"@ + data) == EventView::Refresh,
{
    assert(spec_parse_event("focusedmonv2"@ + ">>"@ + data) == EventView::Refresh) by {
        reveal_strlit("focusedmonv2");
        reveal_strlit("workspacev2");
        reveal_strlit("activewindowv2");
        reveal_strlit("windowtitlev2");
        reveal_strlit("submap");
        assert("focusedmonv2"@[0] != "workspacev2"@[0] || "focusedmonv2"@.len() != "workspacev2"@.len());
        assert("focusedmonv2"@[0] != "submap"@[0] || "focusedmonv2"@.len() != "submap"@.len());
        lemma_refresh_event_line("focusedmonv2"@, data);
    }
    assert(spec_parse_event("createworkspacev2"@ + ">>"@ + data) == EventView::Refresh) by {
        reveal_strlit("createworkspacev2");
        reveal_strlit("workspacev2");
        reveal_strlit("activewindowv2");
        reveal_strlit("windowtitlev2");
        reveal_strlit("submap");
        assert("createworkspacev2"@[0] != "workspacev2"@[0] || "createworkspacev2"@.len() != "workspacev2"@.len());
        assert("createworkspacev2"@[0] != "submap"@[0] || "createworkspacev2"@.len() != "submap"@.len());
        lemma_refresh_event_line("createworkspacev2"@, data);
    }
    assert(spec_parse_event("destroyworkspacev2"@ + ">>"@ + data) == EventView::Refresh) by {
        reveal_strlit("destroyworkspacev2");
        reveal_strlit("workspacev2");
        reveal_strlit("activewindowv2");
        reveal_strlit("windowtitlev2");
        reveal_strlit("submap");
        assert("destroyworkspacev2"@[0] != "workspacev2"@[0] || "destroyworkspacev2"@.len() != "workspacev2"@.len());
        assert("destroyworkspacev2"@[0] != "submap"@[0] || "destroyworkspacev2"@.len() != "submap"@.len());
        lemma_refresh_event_line("destroyworkspacev2"@, data);
    }
    assert(spec_parse_event("moveworkspacev2"@ + ">>"@ + data) == EventView::Refresh) by {
        reveal_strlit("moveworkspacev2");
        reveal_strlit("workspacev2");
        reveal_strlit("activewindowv2");
        reveal_strlit("windowtitlev2");
        reveal_strlit("submap");
        assert("moveworkspacev2"@[0] != "workspacev2"@[0] || "moveworkspacev2"@.len() != "workspacev2"@.len());
        assert("moveworkspacev2"@[0] != "submap"@[0] || "moveworkspacev2"@.len() != "submap"@.len());
        lemma_refresh_event_line("moveworkspacev2"@, data);
    }
    assert(spec_parse_event("renameworkspace"@ + ">>"@ + data) == EventView::Refresh) by {
        reveal_strlit("renameworkspace");
        reveal_strlit("workspacev2");
        reveal_strlit("activewindowv2");
        reveal_strlit("windowtitlev2");
        reveal_strlit("submap");
        assert("renameworkspace"@[0] != "workspacev2"@[0] || "renameworkspace"@.len() != "workspacev2"@.len());
        assert("renameworkspace"@[0] != "submap"@[0] || "renameworkspace"@.len() != "submap"@.len());
        lemma_refresh_event_line("renameworkspace"@, data);
    }
    assert(spec_parse_event("closewindow"@ + ">>"@ + data) == EventView::Refresh) by {
        reveal_strlit("closewindow");
        reveal_strlit("workspacev2");
        reveal_strlit("activewindowv2");
        reveal_strlit("windowtitlev2");
        reveal_strlit("submap");
        assert("closewindow"@[0] != "workspacev2"@[0] || "closewindow"@.len() != "workspacev2"@.len());
        assert("closewindow"@[0] != "submap"@[0] || "closewindow"@.len() != "submap"@.len());
        lemma_refresh_event_line("closewindow"@, data);
    }
    assert(spec_parse_event("movewindowv2"@ + ">>"@ + data) == EventView::Refresh) by {
        reveal_strlit("movewindowv2");
        reveal_strlit("workspacev2");
        reveal_strlit("activewindowv2");
        reveal_strlit("windowtitlev2");
        reveal_strlit("submap");
        assert("movewindowv2"@[0] != "workspacev2"@[0] || "movewindowv2"@.len() != "workspacev2"@.len());
        assert("movewindowv2"@[0] != "submap"@[0] || "movewindowv2"@.len() != "submap"@.len());
        lemma_refresh_event_line("movewindowv2"@, data);
    }
    assert(spec_parse_event("urgent"@ + ">>"@ + data) == EventView::Refresh) by {
        reveal_strlit("urgent");
        reveal_strlit("workspacev2");
        reveal_strlit("activewindowv2");
        reveal_strlit("windowtitlev2");
        reveal_strlit("submap");
        assert("urgent"@[0] != "workspacev2"@[0] || "urgent"@.len() != "workspacev2"@.len());
        assert("urgent"@[0] != "submap"@[0] || "urgent"@.len() != "submap"@.len());
        lemma_refresh_event_line("urgent"@, data);
    }
}

/// Once a title was shown at `sent`, titles are held back until the
/// interval has passed, whatever is queued meanwhile.
pub proof fn law_titles_are_rate_limited(pending: Option<String>, sent: u64, later: u64)
    requires
        sent <= later < sent + TITLE_UPDATE_INTERVAL_MS,
    ensures
        title_held(TitleUpdates { pending, last_sent: Some(sent) }, later),
{
}

/// A cleared queue holds nothing back.
pub proof fn law_cleared_titles_are_not_held(now: u64)
    ensures
        !title_held(TitleUpdates { pending: None, last_sent: None }, now),
{
}

/// Workspaces in button order: none goes before one listed earlier.
pub open spec fn in_button_order(s: Seq<WorkspaceSpec>) -> bool {
    forall|i: int, j: int| 0 <= i < j < s.len() ==> !workspace_less(#[trigger] s[j], #[trigger] s[i])
}

proof fn lemma_workspace_less_transitive(a: WorkspaceSpec, b: WorkspaceSpec, c: WorkspaceSpec)
    requires
        workspace_less(a, b),
        workspace_less(b, c),
    ensures
        workspace_less(a, c),
{
    if a.0 <= 0 && b.0 <= 0 && c.0 <= 0 {
        crate::text::lemma_text_less_transitive(a.1, b.1, c.1);
    }
}

proof fn lemma_insert_workspace_keeps(x: WorkspaceSpec, s: Seq<WorkspaceSpec>)
    requires
        in_button_order(s),
    ensures
        in_button_order(insert_workspace(x, s)),
        forall|y: WorkspaceSpec| #[trigger] insert_workspace(x, s).contains(y) <==> (y == x || s.contains(y)),
    decreases s.len(),
{
    if s.len() == 0 {
        assert(insert_workspace(x, s) =~= seq![x]);
        assert forall|y: WorkspaceSpec| #[trigger] insert_workspace(x, s).contains(y) <==> (y == x
            || s.contains(y)) by {
            if insert_workspace(x, s).contains(y) {
                assert(insert_workspace(x, s)[0] == y);
            }
            if y == x {
                assert(insert_workspace(x, s)[0] == y);
            }
        }
    } else if workspace_less(x, s[0]) {
        let r = seq![x] + s;
        assert(insert_workspace(x, s) == r);
        assert forall|i: int, j: int| 0 <= i < j < r.len() implies !workspace_less(
            #[trigger] r[j],
            #[trigger] r[i],
        ) by {
            if i == 0 {
                assert(r[j] == s[j - 1]);
                if workspace_less(s[j - 1], x) {
                    lemma_workspace_less_transitive(s[j - 1], x, s[0]);
                    if j - 1 == 0 {
                        crate::text::lemma_text_less_irreflexive(s[0].1);
                    }
                }
            } else {
                assert(r[i] == s[i - 1] && r[j] == s[j - 1]);
            }
        }
        assert forall|y: WorkspaceSpec| #[trigger] r.contains(y) <==> (y == x || s.contains(y)) by {
            if r.contains(y) {
                let k = choose|k: int| 0 <= k < r.len() && r[k] == y;
                if k > 0 {
                    assert(s[k - 1] == y);
                }
            }
            if s.contains(y) {
                let k = choose|k: int| 0 <= k < s.len() && s[k] == y;
                assert(r[k + 1] == y);
            }
            if y == x {
                assert(r[0] == y);
            }
        }
    } else {
        let rest = s.drop_first();
        assert forall|i: int, j: int| 0 <= i < j < rest.len() implies !workspace_less(
            #[trigger] rest[j],
            #[trigger] rest[i],
        ) by {
            assert(rest[i] == s[i + 1] && rest[j] == s[j + 1]);
        }
        lemma_insert_workspace_keeps(x, rest);
        let tail = insert_workspace(x, rest);
        let r = seq![s[0]] + tail;
        assert(insert_workspace(x, s) == r);
        assert forall|i: int, j: int| 0 <= i < j < r.len() implies !workspace_less(
            #[trigger] r[j],
            #[trigger] r[i],
        ) by {
            if i == 0 {
                assert(r[j] == tail[j - 1]);
                assert(tail.contains(tail[j - 1]));
                if tail[j - 1] != x {
                    let k = choose|k: int| 0 <= k < rest.len() && rest[k] == tail[j - 1];
                    assert(s[k + 1] == tail[j - 1]);
                }
            } else {
                assert(r[i] == tail[i - 1] && r[j] == tail[j - 1]);
            }
        }
        assert forall|y: WorkspaceSpec| #[trigger] r.contains(y) <==> (y == x || s.contains(y)) by {
            if r.contains(y) {
                let k = choose|k: int| 0 <= k < r.len() && r[k] == y;
                if k > 0 {
                    assert(tail[k - 1] == y);
                    assert(tail.contains(y));
                    if rest.contains(y) {
                        let m = choose|m: int| 0 <= m < rest.len() && rest[m] == y;
                        assert(s[m + 1] == y);
                    }
                } else {
                    assert(s[0] == y);
                }
            }
            if s.contains(y) {
                let k = choose|k: int| 0 <= k < s.len() && s[k] == y;
                if k == 0 {
                    assert(r[0] == y);
                } else {
                    assert(rest[k - 1] == y);
                    assert(rest.contains(y));
                    assert(tail.contains(y));
                    let m = choose|m: int| 0 <= m < tail.len() && tail[m] == y;
                    assert(r[m + 1] == y);
                }
            }
            if y == x {
                assert(tail.contains(y));
                let m = choose|m: int| 0 <= m < tail.len() && tail[m] == y;
                assert(r[m + 1] == y);
            }
        }
    }
}

proof fn lemma_sort_workspaces_keeps(ws: Seq<WorkspaceSpec>)
    ensures
        in_button_order(sort_workspaces(ws)),
        forall|y: WorkspaceSpec| #[trigger] sort_workspaces(ws).contains(y) <==> ws.contains(y),
    decreases ws.len(),
{
    if ws.len() > 0 {
        lemma_sort_workspaces_keeps(ws.drop_last());
        lemma_insert_workspace_keeps(ws.last(), sort_workspaces(ws.drop_last()));
        assert forall|y: WorkspaceSpec| #[trigger] sort_workspaces(ws).contains(y) <==> ws.contains(y) by {
            if ws.drop_last().contains(y) {
                let k = choose|k: int| 0 <= k < ws.drop_last().len() && ws.drop_last()[k] == y;
                assert(ws[k] == y);
            }
            if ws.contains(y) && y != ws.last() {
                let k = choose|k: int| 0 <= k < ws.len() && ws[k] == y;
                assert(ws.drop_last()[k] == y);
            }
        }
    }
}

/// The workspace buttons are in order, numbered workspaces first by number
/// and named ones after them by name, and they are exactly the workspaces
/// shown.
pub proof fn law_workspace_buttons_are_in_order(workspaces: Seq<WorkspaceInfo>, monitor: Seq<char>)
    ensures
        in_button_order(sort_workspaces(shown_workspaces(workspaces, monitor))),
        forall|w: WorkspaceSpec|
            #[trigger] sort_workspaces(shown_workspaces(workspaces, monitor)).contains(w)
                <==> shown_workspaces(workspaces, monitor).contains(w),
{
    lemma_sort_workspaces_keeps(shown_workspaces(workspaces, monitor));
}

} // verus!
