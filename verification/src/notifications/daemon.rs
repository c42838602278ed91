//! What the notification daemon decides: how a client's request is bounded and
//! read, which action an invocation triggers, which sound plays, and what each
//! command does to the store and reports to clients.
use vstd::prelude::*;

use super::state::{
    after_close, after_displayed, after_hiding, dismissed_all, expiring, has_id, id_at, index_of_id, notify_outcome,
    Action, CloseReason, Incoming, Picture, Store, StoreView, Thumbnail, Urgency,
};
use crate::text::{chars_of, has_prefix, push_char, string_of_range};

verus! {

broadcast use vstd::string::group_string_axioms;

pub const MAX_TEXT_BYTES: usize = 4 * 1024;

pub const MAX_BODY_BYTES: usize = 64 * 1024;

pub const MAX_ACTIONS: usize = 16;

pub const MAX_ACTION_KEY_BYTES: usize = 256;

pub const MAX_ACTION_LABEL_BYTES: usize = 1024;

// ---------------------------------------------------------------------------
// UTF-8 lengths and truncation
// ---------------------------------------------------------------------------
/// The number of bytes UTF-8 needs for a character.
pub open spec fn char_width(c: char) -> nat {
    let u = c as u32;
    if u <= 0x7f {
        1
    } else if u <= 0x7ff {
        2
    } else if u <= 0xffff {
        3
    } else {
        4
    }
}

/// The length in bytes of the UTF-8 encoding of `s`.
pub open spec fn utf8_len(s: Seq<char>) -> nat
    decreases s.len(),
{
    if s.len() == 0 {
        0
    } else {
        char_width(s[0]) + utf8_len(s.drop_first())
    }
}

proof fn lemma_utf8_len_append(a: Seq<char>, b: Seq<char>)
    ensures
        utf8_len(a + b) == utf8_len(a) + utf8_len(b),
    decreases a.len(),
{
    if a.len() == 0 {
        assert(a + b == b);
    } else {
        assert((a + b).drop_first() == a.drop_first() + b);
        lemma_utf8_len_append(a.drop_first(), b);
    }
}

pub(crate) proof fn lemma_utf8_len_push(s: Seq<char>, k: int)
    requires
        0 <= k < s.len(),
    ensures
        utf8_len(s.take(k + 1)) == utf8_len(s.take(k)) + char_width(s[k]),
{
    assert(s.take(k + 1) == s.take(k) + seq![s[k]]);
    lemma_utf8_len_append(s.take(k), seq![s[k]]);
    assert(seq![s[k]].drop_first() =~= Seq::<char>::empty());
    assert(utf8_len(seq![s[k]]) == char_width(s[k]) + utf8_len(seq![s[k]].drop_first()));
}

/// `utf8_len` is the length of the encoding vstd defines.
proof fn lemma_utf8_len_encoding(s: Seq<char>)
    ensures
        utf8_len(s) == vstd::utf8::encode_utf8(s).len(),
    decreases s.len(),
{
    broadcast use vstd::utf8::char_is_scalar;
    if s.len() > 0 {
        lemma_utf8_len_encoding(s.drop_first());
        vstd::utf8::char_is_scalar(s[0]);
    }
}

pub(crate) fn char_len(c: char) -> (n: usize)
    ensures
        n == char_width(c),
{
    let u = c as u32;
    if u <= 0x7f {
        1
    } else if u <= 0x7ff {
        2
    } else if u <= 0xffff {
        3
    } else {
        4
    }
}

/// How many characters of `s` fit in `max_bytes` bytes of UTF-8.
pub open spec fn fitting(s: Seq<char>, max_bytes: nat, k: int) -> bool {
    &&& 0 <= k <= s.len()
    &&& utf8_len(s.take(k)) <= max_bytes
    &&& k == s.len() || utf8_len(s.take(k + 1)) > max_bytes
}

/// The longest prefix of `value` whose UTF-8 encoding fits in `max_bytes`:
/// the text is cut at a character boundary, never inside a character.
pub fn truncate_utf8(value: &str, max_bytes: usize) -> (r: String)
    ensures
        exists|k: int| fitting(value@, max_bytes as nat, k) && r@ == value@.take(k),
{
    let chars = chars_of(value);
    let mut used: usize = 0;
    let mut k: usize = 0;
    let mut full = false;
    while k < chars.len() && !full
        invariant
            chars@ == value@,
            k <= chars.len(),
            used == utf8_len(chars@.take(k as int)),
            used <= max_bytes,
            full ==> k < chars.len() && utf8_len(chars@.take(k + 1)) > max_bytes,
        decreases chars.len() - k + if full { 0int } else { 1int },
    {
        let width = char_len(chars[k]);
        proof {
            lemma_utf8_len_push(chars@, k as int);
        }
        if width > max_bytes - used {
            full = true;
        } else {
            used += width;
            k += 1;
        }
    }
    let r = string_of_range(&chars, 0, k);
    assert(chars@.subrange(0, k as int) == chars@.take(k as int));
    assert(fitting(value@, max_bytes as nat, k as int));
    r
}

// ---------------------------------------------------------------------------
// Reading a request
// ---------------------------------------------------------------------------
pub open spec fn bounded_text(value: Seq<char>, max_bytes: nat, r: Seq<char>) -> bool {
    exists|k: int| fitting(value, max_bytes, k) && r == value.take(k)
}

/// `r` is what `notification_actions` reads from `values`.
pub open spec fn read_actions(values: Seq<String>, r: Seq<Action>) -> bool {
    &&& r.len() == if values.len() / 2 < MAX_ACTIONS {
        (values.len() / 2) as int
    } else {
        MAX_ACTIONS as int
    }
    &&& forall|i: int|
        0 <= i < r.len() ==> bounded_text(
            values[2 * i]@,
            MAX_ACTION_KEY_BYTES as nat,
            (#[trigger] r[i]).key@,
        ) && bounded_text(values[2 * i + 1]@, MAX_ACTION_LABEL_BYTES as nat, r[i].label@)
}

/// The actions of a request: its values read in key and label pairs, at most
/// `MAX_ACTIONS` of them, a trailing unpaired value ignored, each key and
/// label cut to its byte limit.
pub fn notification_actions(values: &[String]) -> (r: Vec<Action>)
    ensures
        read_actions(values@, r@),
{
    let mut r: Vec<Action> = Vec::new();
    let mut i: usize = 0;
    while i + 1 < values.len() && r.len() < MAX_ACTIONS
        invariant
            i == 2 * r@.len(),
            i <= values@.len(),
            r@.len() <= MAX_ACTIONS,
            forall|j: int|
                0 <= j < r@.len() ==> bounded_text(
                    values@[2 * j]@,
                    MAX_ACTION_KEY_BYTES as nat,
                    (#[trigger] r@[j]).key@,
                ) && bounded_text(values@[2 * j + 1]@, MAX_ACTION_LABEL_BYTES as nat, r@[j].label@),
        decreases values.len() - i,
    {
        let key = truncate_utf8(values[i].as_str(), MAX_ACTION_KEY_BYTES);
        let label = truncate_utf8(values[i + 1].as_str(), MAX_ACTION_LABEL_BYTES);
        r.push(Action { key, label });
        i += 2;
    }
    r
}

/// The urgency a level names: zero or below is low, one normal, more critical.
pub open spec fn spec_urgency_level(level: i64) -> Urgency {
    if level <= 0 {
        Urgency::Low
    } else if level == 1 {
        Urgency::Normal
    } else {
        Urgency::Critical
    }
}

/// The urgency of a request, from the numeric value of its `urgency` hint;
/// a request without one is normal.
pub fn urgency(level: Option<i64>) -> (r: Urgency)
    ensures
        r == spec_urgency_level(
            match level {
                Some(v) => v,
                None => 1,
            },
        ),
{
    let level = match level {
        Some(v) => v,
        None => 1,
    };
    if level <= 0 {
        Urgency::Low
    } else if level == 1 {
        Urgency::Normal
    } else {
        Urgency::Critical
    }
}

/// A percentage from 0 to 100; anything else is no progress.
pub open spec fn spec_progress(value: Option<i64>) -> Option<u8> {
    match value {
        Some(v) => if 0 <= v <= 100 {
            Some(v as u8)
        } else {
            None
        },
        None => None,
    }
}

/// The progress of a request, from the numeric value of its `value` hint:
/// a percentage from 0 to 100, anything else ignored.
pub fn progress(value: Option<i64>) -> (r: Option<u8>)
    ensures
        r == spec_progress(value),
{
    match value {
        Some(v) => if 0 <= v && v <= 100 {
            Some(v as u8)
        } else {
            None
        },
        None => None,
    }
}

/// A sound to play for a notification: a file, or a name from the sound theme.
#[derive(Clone, Debug, PartialEq, Eq)]
pub enum Sound {
    File(String),
    Name(String),
}

/// The sound a request asks for. `file` is its `sound-file` hint together with
/// whether that path is an absolute path to an existing file; `name` is its
/// `sound-name` hint. A suppressed request plays nothing; a usable file within
/// the text limit wins over a name within it. An empty hint counts as unset.
pub fn sound(suppress: bool, file: Option<(String, bool)>, name: Option<String>) -> (r: Option<
    Sound,
>)
    ensures
        suppress ==> r is None,
        !suppress ==> r == match file {
            Some((path, usable)) if path@.len() > 0 && utf8_len(path@) <= MAX_TEXT_BYTES
                && usable => Some(Sound::File(path)),
            _ => match name {
                Some(n) if n@.len() > 0 && utf8_len(n@) <= MAX_TEXT_BYTES => Some(
                    Sound::Name(n),
                ),
                _ => None,
            },
        },
{
    if suppress {
        return None;
    }
    if let Some((path, usable)) = file {
        if usable && byte_len(&path) > 0 && byte_len(&path) <= MAX_TEXT_BYTES {
            return Some(Sound::File(path));
        }
    }
    match name {
        Some(n) => if byte_len(&n) > 0 && byte_len(&n) <= MAX_TEXT_BYTES {
            Some(Sound::Name(n))
        } else {
            None
        },
        None => None,
    }
}

/// The number of bytes of `s` in UTF-8.
pub fn byte_len(s: &String) -> (n: usize)
    ensures
        n == utf8_len(s@),
        n == 0 <==> s@.len() == 0,
{
    proof {
        lemma_utf8_len_encoding(s@);
        if s@.len() > 0 {
            assert(utf8_len(s@) == char_width(s@[0]) + utf8_len(s@.drop_first()));
        }
    }
    s.as_str().as_bytes().len()
}

/// How an `image-path` hint is read.
#[derive(Clone, Copy, Debug, PartialEq, Eq, Structural)]
pub enum PicturePath {
    /// Longer than the text limit: ignored.
    TooLong,
    /// A file path or `file://` URI to load.
    File,
    /// A name from the icon theme.
    Themed,
}

/// How an image-path hint is read: over-long values are ignored, an absolute
/// path or a `file://` URI names a file, and anything else a themed icon.
pub fn picture_path(value: &str) -> (r: PicturePath)
    ensures
        r == if utf8_len(value@) > MAX_TEXT_BYTES {
            PicturePath::TooLong
        } else if has_prefix(value@, "file://"@) || (value@.len() > 0 && value@[0] == '/') {
            PicturePath::File
        } else {
            PicturePath::Themed
        },
{
    let owned = crate::text::owned(value);
    if byte_len(&owned) > MAX_TEXT_BYTES {
        return PicturePath::TooLong;
    }
    let chars = chars_of(value);
    let scheme = chars_of("file://");
    if crate::text::starts_with(&chars, &scheme) || (chars.len() > 0 && chars[0] == '/') {
        PicturePath::File
    } else {
        PicturePath::Themed
    }
}

/// The raw image of a notification: that of the standard `image-data`
/// hint, else that of the older `image_data` spelling. Each argument is the
/// decoded hint, `None` where it is absent or does not decode.
pub fn image_hint(image_data: Option<Thumbnail>, image_data_alias: Option<Thumbnail>) -> (r: Option<
    Thumbnail,
>)
    ensures
        r == match image_data {
            Some(t) => Some(t),
            None => image_data_alias,
        },
{
    match image_data {
        Some(t) => Some(t),
        None => image_data_alias,
    }
}

/// The picture of a notification from its image hints, each decoded or
/// resolved beforehand (`None` where it is absent or unusable), by order of
/// precedence: the raw image (`image-data`, then `image_data`), then the
/// picture that `image-path` names, then that of `image_path`, and last the
/// raw image of the deprecated `icon_data`.
pub fn picture_hint(
    image_data: Option<Thumbnail>,
    image_data_alias: Option<Thumbnail>,
    image_path: Option<Picture>,
    image_path_alias: Option<Picture>,
    icon_data: Option<Thumbnail>,
) -> (r: Option<Picture>)
    ensures
        r == match image_data {
            Some(t) => Some(Picture::Pixels(t)),
            None => match image_data_alias {
                Some(t) => Some(Picture::Pixels(t)),
                None => match image_path {
                    Some(p) => Some(p),
                    None => match image_path_alias {
                        Some(p) => Some(p),
                        None => match icon_data {
                            Some(t) => Some(Picture::Pixels(t)),
                            None => None,
                        },
                    },
                },
            },
        },
{
    if let Some(t) = image_hint(image_data, image_data_alias) {
        return Some(Picture::Pixels(t));
    }
    if let Some(p) = image_path {
        return Some(p);
    }
    if let Some(p) = image_path_alias {
        return Some(p);
    }
    match icon_data {
        Some(t) => Some(Picture::Pixels(t)),
        None => None,
    }
}

/// A string hint as the daemon reads it: an empty value counts as unset.
pub open spec fn spec_string_hint(value: Option<String>) -> Option<String> {
    match value {
        Some(s) => if s@.len() > 0 {
            Some(s)
        } else {
            None
        },
        None => None,
    }
}

/// Reads a string hint: an empty value counts as unset.
pub fn string_hint(value: Option<String>) -> (r: Option<String>)
    ensures
        r == spec_string_hint(value),
{
    match value {
        Some(s) => if byte_len(&s) > 0 {
            Some(s)
        } else {
            None
        },
        None => None,
    }
}

/// `r` is a text hint read and cut to `max_bytes`, or empty where it is unset.
pub open spec fn bounded_hint(value: Option<String>, max_bytes: nat, r: Seq<char>) -> bool {
    match spec_string_hint(value) {
        Some(s) => bounded_text(s@, max_bytes, r),
        None => r.len() == 0,
    }
}

/// The hints of a request that the daemon reads, each as the client sent it:
/// the numeric `urgency` and `value` hints, the `desktop-entry` hint, the two
/// stack tags (`x-canonical-private-synchronous` and `x-dunst-stack-tag`), and
/// the `transient` and `resident` flags.
pub struct Hints {
    pub urgency: Option<i64>,
    pub progress: Option<i64>,
    pub desktop_entry: Option<String>,
    pub canonical_tag: Option<String>,
    pub dunst_tag: Option<String>,
    pub transient: bool,
    pub resident: bool,
}

/// The stack tag of a request: the canonical tag where it is set, else the
/// dunst one.
pub open spec fn spec_stack_tag(canonical: Option<String>, dunst: Option<String>) -> Option<
    String,
> {
    match spec_string_hint(canonical) {
        Some(s) => Some(s),
        None => dunst,
    }
}

fn bounded_hint_text(value: Option<String>, max_bytes: usize) -> (r: String)
    ensures
        bounded_hint(value, max_bytes as nat, r@),
{
    match string_hint(value) {
        Some(s) => truncate_utf8(s.as_str(), max_bytes),
        None => String::new(),
    }
}

/// The notification a `Notify` request describes: its texts cut to their
/// byte limits, its actions read in pairs, its hints read, and `picture` (read
/// from the image hints by the caller) as it is.
pub fn incoming(
    replaces_id: u32,
    app_name: &str,
    app_icon: &str,
    summary: &str,
    body: &str,
    actions: &[String],
    hints: Hints,
    picture: Option<Picture>,
) -> (r: Incoming)
    ensures
        r.replaces_id == replaces_id,
        bounded_text(app_name@, MAX_TEXT_BYTES as nat, r.app_name@),
        bounded_text(app_icon@, MAX_TEXT_BYTES as nat, r.app_icon@),
        bounded_text(summary@, MAX_TEXT_BYTES as nat, r.summary@),
        bounded_text(body@, MAX_BODY_BYTES as nat, r.body@),
        read_actions(actions@, r.actions@),
        r.picture == picture,
        r.progress == spec_progress(hints.progress),
        r.urgency == spec_urgency_level(
            match hints.urgency {
                Some(v) => v,
                None => 1,
            },
        ),
        bounded_hint(hints.desktop_entry, MAX_TEXT_BYTES as nat, r.desktop_entry@),
        bounded_hint(
            spec_stack_tag(hints.canonical_tag, hints.dunst_tag),
            MAX_TEXT_BYTES as nat,
            r.tag@,
        ),
        r.transient == hints.transient,
        r.resident == hints.resident,
{
    let tag = match string_hint(hints.canonical_tag) {
        Some(s) => Some(s),
        None => hints.dunst_tag,
    };
    Incoming {
        replaces_id,
        app_name: truncate_utf8(app_name, MAX_TEXT_BYTES),
        app_icon: truncate_utf8(app_icon, MAX_TEXT_BYTES),
        picture,
        progress: progress(hints.progress),
        summary: truncate_utf8(summary, MAX_TEXT_BYTES),
        body: truncate_utf8(body, MAX_BODY_BYTES),
        actions: notification_actions(actions),
        urgency: urgency(hints.urgency),
        desktop_entry: bounded_hint_text(hints.desktop_entry, MAX_TEXT_BYTES),
        tag: bounded_hint_text(tag, MAX_TEXT_BYTES),
        transient: hints.transient,
        resident: hints.resident,
    }
}

/// The capabilities the server announces; `sound` only when it can play sounds.
pub fn capabilities(sounds: bool) -> (r: Vec<String>)
    ensures
        r@.len() == if sounds {
            7int
        } else {
            6int
        },
        r@[0]@ == "actions"@,
        r@[1]@ == "body"@,
        r@[2]@ == "icon-static"@,
        r@[3]@ == "persistence"@,
        r@[4]@ == "x-canonical-private-synchronous"@,
        r@[5]@ == "x-dunst-stack-tag"@,
        sounds ==> r@[6]@ == "sound"@,
{
    let mut r: Vec<String> = Vec::new();
    r.push(String::from_str("actions"));
    r.push(String::from_str("body"));
    r.push(String::from_str("icon-static"));
    r.push(String::from_str("persistence"));
    r.push(String::from_str("x-canonical-private-synchronous"));
    r.push(String::from_str("x-dunst-stack-tag"));
    if sounds {
        r.push(String::from_str("sound"));
    }
    r
}

// ---------------------------------------------------------------------------
// Actions
// ---------------------------------------------------------------------------
/// Whether the notification with `id` offers the action `key`.
pub open spec fn offers(v: StoreView, id: u32, key: Seq<char>) -> bool {
    &&& has_id(v.entries, id)
    &&& exists|j: int|
        0 <= j < v.entries[index_of_id(v.entries, id)].notification.actions@.len() && (
        #[trigger] v.entries[index_of_id(v.entries, id)].notification.actions@[j]).key@ == key
}

/// Invokes action `key` of notification `id`. Returns whether the action is
/// invoked and whether the notification is closed by it: an action of a
/// resident notification leaves it in place, any other closes it, and an
/// action the notification does not offer does nothing.
pub fn invoke_action(store: &mut Store, id: u32, key: &str) -> (r: (bool, bool))
    requires
        old(store)@.wf(),
    ensures
        final(store)@.wf(),
        !offers(old(store)@, id, key@) ==> r == (false, false) && final(store)@ == old(store)@,
        offers(old(store)@, id, key@) ==> {
            let k = index_of_id(old(store)@.entries, id);
            if old(store)@.entries[k].notification.resident {
                r == (true, false) && final(store)@ == old(store)@
            } else {
                r == (true, true) && final(store)@ == (StoreView {
                    entries: old(store)@.entries.remove(k),
                    ..old(store)@
                })
            }
        },
{
    let found = {
        let list = store.notifications();
        let mut found: Option<bool> = None;
        let mut done = false;
        let mut i: usize = 0;
        while i < list.len() && !done
            invariant
                store@.wf(),
                list@.len() == store@.entries.len(),
                forall|j: int|
                    0 <= j < list@.len() ==> (#[trigger] list@[j]).0 == store@.entries[j].notification,
                i <= list.len(),
                !done ==> found is None && forall|j: int| 0 <= j < i ==> id_at(store@.entries, j) != id,
                done ==> has_id(store@.entries, id) && (found is Some <==> offers(store@, id, key@)),
                found matches Some(res) ==> res == store@.entries[index_of_id(
                    store@.entries,
                    id,
                )].notification.resident,
            decreases list.len() - i + if done { 0int } else { 1int },
        {
            let notification = list[i].0;
            if notification.id == id {
                let mut offered = false;
                let mut a: usize = 0;
                while a < notification.actions.len()
                    invariant
                        a <= notification.actions.len(),
                        !offered ==> forall|b: int|
                            0 <= b < a ==> (#[trigger] notification.actions@[b]).key@ != key@,
                        offered ==> exists|b: int|
                            0 <= b < notification.actions@.len()
                                && (#[trigger] notification.actions@[b]).key@ == key@,
                    decreases notification.actions.len() - a,
                {
                    if crate::text::str_eq(notification.actions[a].key.as_str(), key) {
                        offered = true;
                    }
                    a += 1;
                }
                proof {
                    assert(id_at(store@.entries, i as int) == id);
                    let k = index_of_id(store@.entries, id);
                    if k != i {
                        assert(id_at(store@.entries, k) == id);
                    }
                    assert(k == i);
                }
                if offered {
                    found = Some(notification.resident);
                }
                done = true;
            } else {
                i += 1;
            }
        }
        found
    };
    match found {
        Some(true) => (true, false),
        Some(false) => {
            let closed = store.close(id);
            (closed, closed)
        },
        None => (false, false),
    }
}

// ---------------------------------------------------------------------------
// The server loop
// ---------------------------------------------------------------------------
/// What the notification views ask of the server.
pub enum Command {
    /// Look at the popup deadlines again.
    Wake,
    /// Announce that a notification was closed.
    EmitClosed(u32, CloseReason),
    ToggleDnd,
    Clear,
    Dismiss(u32),
    DismissGroup(Vec<u32>),
    /// Invoke an action, with the activation token of the click.
    InvokeAction(u32, String, Option<String>),
    /// These revisions of these notifications were shown as popups.
    Displayed(Vec<(u32, u64)>),
}

/// The daemon's answer to a `Notify` request: the notification is added to
/// the store, and the id it got comes back with the eviction it caused and
/// whether its sound may play (not under do-not-disturb). The sender's
/// `expire_timeout` is ignored: popups time out by urgency alone.
pub fn notify_request(store: &mut Store, request: Incoming, expire_timeout: i32) -> (r: (
    u32,
    Option<(u32, CloseReason)>,
    bool,
))
    requires
        old(store)@.wf(),
    ensures
        final(store)@.wf(),
        r.2 == !old(store)@.dnd,
        exists|received_at: i64| #[trigger]
            notify_outcome(old(store)@, request, received_at, (r.0, r.1), final(store)@),
{
    let play_sound = !store.dnd();
    let ghost before = store@;
    let ghost asked = request;
    let (id, evicted) = store.notify_with_eviction(request);
    proof {
        let t = choose|t: i64| #[trigger] notify_outcome(before, asked, t, (id, evicted), store@);
        assert(notify_outcome(before, asked, t, ((id, evicted, play_sound).0, (id, evicted, play_sound).1), store@));
    }
    (id, evicted, play_sound)
}

/// What the server does after handling an input: announce an invoked
/// action first, then the closed notifications, then publish a new
/// snapshot when asked to.
pub struct Effects {
    pub action: Option<(u32, String, Option<String>)>,
    pub closed: Vec<(u32, CloseReason)>,
    pub publish: bool,
}

/// The store after dismissing `ids` in order, and the dismissals made.
pub open spec fn dismiss_all(v: StoreView, ids: Seq<u32>) -> (StoreView, Seq<(u32, CloseReason)>)
    decreases ids.len(),
{
    if ids.len() == 0 {
        (v, seq![])
    } else {
        let (v2, closed) = dismiss_all(v, ids.drop_last());
        let id = ids.last();
        if has_id(v2.entries, id) {
            (after_close(v2, id), closed.push((id, CloseReason::Dismissed)))
        } else {
            (v2, closed)
        }
    }
}

/// The store after these popups were shown at `now`, in order.
pub open spec fn display_all(v: StoreView, shown: Seq<(u32, u64)>, now: u64) -> StoreView
    decreases shown.len(),
{
    if shown.len() == 0 {
        v
    } else {
        let v2 = display_all(v, shown.drop_last(), now);
        after_displayed(v2, shown.last().0, shown.last().1, now)
    }
}

/// The popup deadline passed at `now`: due popups hide, transient
/// notifications close as expired, and the views are told.
pub fn handle_timeout(store: &mut Store, now: u64) -> (r: Effects)
    requires
        old(store)@.wf(),
    ensures
        final(store)@.wf(),
        final(store)@ == (StoreView { entries: after_hiding(old(store)@.entries, now), ..old(store)@ }),
        r.action is None,
        r.closed@ == expiring(old(store)@.entries, now).reverse(),
        r.publish,
{
    let closed = store.hide_due_popups(now);
    Effects { action: None, closed, publish: true }
}

/// Handles one command from the views at `now`.
pub fn handle_command(store: &mut Store, command: Command, now: u64) -> (r: Effects)
    requires
        old(store)@.wf(),
    ensures
        final(store)@.wf(),
        match command {
            Command::Wake => final(store)@ == old(store)@ && r.action is None && r.closed@.len()
                == 0 && !r.publish,
            Command::EmitClosed(id, reason) => final(store)@ == old(store)@ && r.action is None
                && r.closed@ == seq![(id, reason)] && r.publish,
            Command::ToggleDnd => final(store)@ == (StoreView {
                dnd: !old(store)@.dnd,
                ..old(store)@
            }) && r.action is None && r.closed@.len() == 0 && r.publish,
            Command::Clear => final(store)@ == (StoreView { entries: seq![], ..old(store)@ })
                && r.action is None && r.closed@ == dismissed_all(old(store)@.entries) && r.publish,
            Command::Dismiss(id) => final(store)@ == after_close(old(store)@, id) && r.action is None
                && r.closed@ == (if has_id(old(store)@.entries, id) {
                seq![(id, CloseReason::Dismissed)]
            } else {
                seq![]
            }) && r.publish,
            Command::DismissGroup(ids) => (final(store)@, r.closed@) == dismiss_all(
                old(store)@,
                ids@,
            ) && r.action is None && r.publish,
            Command::InvokeAction(id, key, token) => r.publish && if !offers(
                old(store)@,
                id,
                key@,
            ) {
                final(store)@ == old(store)@ && r.action is None && r.closed@.len() == 0
            } else if old(store)@.entries[index_of_id(
                old(store)@.entries,
                id,
            )].notification.resident {
                final(store)@ == old(store)@ && r.action == Some((id, key, token))
                    && r.closed@.len() == 0
            } else {
                final(store)@ == after_close(old(store)@, id) && r.action == Some((id, key, token))
                    && r.closed@ == seq![(id, CloseReason::Dismissed)]
            },
            Command::Displayed(shown) => final(store)@ == display_all(old(store)@, shown@, now)
                && r.action is None && r.closed@.len() == 0 && !r.publish,
        },
{
    match command {
        Command::Wake => Effects { action: None, closed: Vec::new(), publish: false },
        Command::EmitClosed(id, reason) => {
            let mut closed = Vec::new();
            closed.push((id, reason));
            Effects { action: None, closed, publish: true }
        },
        Command::ToggleDnd => {
            let dnd = !store.dnd();
            store.set_dnd(dnd);
            Effects { action: None, closed: Vec::new(), publish: true }
        },
        Command::Clear => {
            let closed = store.clear();
            Effects { action: None, closed, publish: true }
        },
        Command::Dismiss(id) => {
            let mut closed = Vec::new();
            if store.close(id) {
                closed.push((id, CloseReason::Dismissed));
            }
            Effects { action: None, closed, publish: true }
        },
        Command::DismissGroup(ids) => {
            let ghost start = store@;
            let mut closed: Vec<(u32, CloseReason)> = Vec::new();
            let mut i: usize = 0;
            while i < ids.len()
                invariant
                    i <= ids@.len(),
                    store@.wf(),
                    (store@, closed@) == dismiss_all(start, ids@.take(i as int)),
                decreases ids.len() - i,
            {
                proof {
                    assert(ids@.take(i + 1).drop_last() == ids@.take(i as int));
                    assert(ids@.take(i + 1).last() == ids@[i as int]);
                }
                let id = ids[i];
                if store.close(id) {
                    closed.push((id, CloseReason::Dismissed));
                }
                i += 1;
            }
            assert(ids@.take(ids@.len() as int) == ids@);
            Effects { action: None, closed, publish: true }
        },
        Command::InvokeAction(id, key, token) => {
            let (invoked, was_closed) = invoke_action(store, id, key.as_str());
            let mut closed = Vec::new();
            if was_closed {
                closed.push((id, CloseReason::Dismissed));
            }
            let action = if invoked {
                Some((id, key, token))
            } else {
                None
            };
            proof {
                if offers(old(store)@, id, key@) && !old(store)@.entries[index_of_id(
                    old(store)@.entries,
                    id,
                )].notification.resident {
                    assert(has_id(old(store)@.entries, id));
                }
            }
            Effects { action, closed, publish: true }
        },
        Command::Displayed(shown) => {
            let ghost start = store@;
            let mut i: usize = 0;
            while i < shown.len()
                invariant
                    i <= shown@.len(),
                    store@.wf(),
                    store@ == display_all(start, shown@.take(i as int), now),
                decreases shown.len() - i,
            {
                proof {
                    assert(shown@.take(i + 1).drop_last() == shown@.take(i as int));
                    assert(shown@.take(i + 1).last() == shown@[i as int]);
                }
                let (id, revision) = shown[i];
                store.displayed(id, revision, now);
                i += 1;
            }
            assert(shown@.take(shown@.len() as int) == shown@);
            Effects { action: None, closed: Vec::new(), publish: false }
        },
    }
}

} // verus!
