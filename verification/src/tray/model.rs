//! Tray items as the StatusNotifier protocol names them, and their icons.
use vstd::prelude::*;

use crate::text::{chars_of, push_char, push_str, string_of_range};

verus! {

broadcast use vstd::string::group_string_axioms;

/// The size tray icons are drawn at.
pub const ICON_SIZE: i32 = 14;

/// The object path an item is assumed to serve when it registers by bus name alone.
pub open spec fn item_path() -> Seq<char> {
    "/StatusNotifierItem"@
}

fn item_path_string() -> (r: String)
    ensures
        r@ == item_path(),
{
    String::from_str("/StatusNotifierItem")
}

#[derive(Clone, Debug, PartialEq, Eq, Hash)]
pub struct ItemId {
    pub service: String,
    pub path: String,
}

/// A character D-Bus allows in an object path element.
pub open spec fn path_char(c: char) -> bool {
    ||| 'a' <= c <= 'z'
    ||| 'A' <= c <= 'Z'
    ||| '0' <= c <= '9'
    ||| c == '_'
}

/// A D-Bus object path: `/` followed by non-empty elements of letters, digits
/// and `_`, separated by single slashes, with no trailing slash.
pub open spec fn spec_valid_path(s: Seq<char>) -> bool {
    &&& s.len() > 0
    &&& s[0] == '/'
    &&& forall|i: int|
        0 <= i < s.len() ==> if #[trigger] s[i] == '/' {
            i + 1 < s.len() && s[i + 1] != '/'
        } else {
            path_char(s[i])
        }
}

pub fn valid_path(path: &str) -> (r: bool)
    ensures
        r == spec_valid_path(path@),
{
    let s = chars_of(path);
    valid_path_chars(&s)
}

fn valid_path_chars(s: &Vec<char>) -> (r: bool)
    ensures
        r == spec_valid_path(s@),
{
    if s.len() == 0 || s[0] != '/' {
        return false;
    }
    let mut i: usize = 0;
    while i < s.len()
        invariant
            i <= s.len(),
            s@.len() > 0 && s@[0] == '/',
            forall|j: int|
                0 <= j < i ==> if #[trigger] s@[j] == '/' {
                    j + 1 < s@.len() && s@[j + 1] != '/'
                } else {
                    path_char(s@[j])
                },
        decreases s.len() - i,
    {
        let c = s[i];
        if c == '/' {
            if i + 1 >= s.len() || s[i + 1] == '/' {
                return false;
            }
        } else if !(('a' <= c && c <= 'z') || ('A' <= c && c <= 'Z') || ('0' <= c && c <= '9')
            || c == '_') {
            return false;
        }
        i += 1;
    }
    true
}

/// The first `/` of `s`, if it has one.
pub open spec fn first_slash(s: Seq<char>, p: int) -> bool {
    &&& 0 <= p < s.len()
    &&& s[p] == '/'
    &&& forall|j: int| 0 <= j < p ==> s[j] != '/'
}

impl ItemId {
    /// The item a `RegisterStatusNotifierItem` request from `sender` names: an
    /// object path of the sender, or a bus name serving the usual path.
    pub fn parse(request: &str, sender: &str) -> (r: Option<Self>)
        ensures
            request@.len() > 0 && request@[0] == '/' ==> match r {
                Some(id) => spec_valid_path(request@) && id.service@ == sender@ && id.path@
                    == request@,
                None => !spec_valid_path(request@),
            },
            !(request@.len() > 0 && request@[0] == '/') ==> match r {
                Some(id) => request@.len() > 0 && id.service@ == request@ && id.path@ == item_path(),
                None => request@.len() == 0,
            },
    {
        let chars = chars_of(request);
        if chars.len() > 0 && chars[0] == '/' {
            if valid_path_chars(&chars) {
                Some(ItemId { service: String::from_str(sender), path: String::from_str(request) })
            } else {
                None
            }
        } else if chars.len() > 0 {
            Some(ItemId { service: String::from_str(request), path: item_path_string() })
        } else {
            None
        }
    }

    /// How the watcher lists an item: its bus name followed by its path.
    pub fn registration(&self) -> (r: String)
        ensures
            r@ == self.service@ + self.path@,
    {
        let mut r = self.service.clone();
        push_str(&mut r, self.path.as_str());
        r
    }

    /// The item a watcher lists: a bus name followed by an object path, or a
    /// bus name alone for an item serving the usual path.
    pub fn from_registration(registration: &str) -> (r: Option<Self>)
        ensures
            (forall|j: int| 0 <= j < registration@.len() ==> registration@[j] != '/') ==> match r {
                Some(id) => registration@.len() > 0 && id.service@ == registration@ && id.path@
                    == item_path(),
                None => registration@.len() == 0,
            },
            forall|p: int|
                #[trigger] first_slash(registration@, p) ==> match r {
                    Some(id) => p > 0 && spec_valid_path(registration@.skip(p)) && id.service@
                        == registration@.take(p) && id.path@ == registration@.skip(p),
                    None => !(p > 0 && spec_valid_path(registration@.skip(p))),
                },
    {
        let chars = chars_of(registration);
        let mut p: usize = 0;
        while p < chars.len() && chars[p] != '/'
            invariant
                p <= chars.len(),
                forall|j: int| 0 <= j < p ==> chars@[j] != '/',
            decreases chars.len() - p,
        {
            p += 1;
        }
        if p == chars.len() {
            if chars.len() > 0 {
                return Some(ItemId { service: String::from_str(registration), path: item_path_string() });
            } else {
                return None;
            }
        }
        assert(first_slash(registration@, p as int));
        assert forall|q: int| #[trigger] first_slash(registration@, q) implies q == p by {
            if q < p {
            } else if q > p {
            }
        }
        let service = string_of_range(&chars, 0, p);
        let path_chars = crate::text::slice_of(&chars, p, chars.len());
        assert(chars@.subrange(0, p as int) == chars@.take(p as int));
        assert(chars@.subrange(p as int, chars@.len() as int) == chars@.skip(p as int));
        if p > 0 && valid_path_chars(&path_chars) {
            Some(ItemId { service, path: crate::text::string_of(&path_chars) })
        } else {
            None
        }
    }
}

/// A tray item's tooltip: its title and text, each when present, on separate lines.
pub open spec fn spec_tooltip(title: Seq<char>, text: Seq<char>) -> Option<Seq<char>> {
    if title.len() == 0 && text.len() == 0 {
        None
    } else if text.len() == 0 {
        Some(title)
    } else if title.len() == 0 {
        Some(text)
    } else {
        Some(title + seq!['\n'] + text)
    }
}

pub fn tooltip(title: &str, text: &str) -> (r: Option<String>)
    ensures
        match r {
            Some(s) => spec_tooltip(title@, text@) == Some(s@),
            None => spec_tooltip(title@, text@) is None,
        },
{
    match (title.is_empty(), text.is_empty()) {
        (true, true) => None,
        (false, true) => Some(String::from_str(title)),
        (true, false) => Some(String::from_str(text)),
        (false, false) => {
            let mut r = String::from_str(title);
            push_char(&mut r, '\n');
            push_str(&mut r, text);
            Some(r)
        },
    }
}

// ---------------------------------------------------------------------------
// Icons
// ---------------------------------------------------------------------------
#[derive(Clone, Debug, PartialEq, Eq)]
pub struct Pixmap {
    pub width: i32,
    pub height: i32,
    pub rgba: Vec<u8>,
}

/// A pixmap the protocol sends: positive size and four bytes per pixel.
pub open spec fn usable(p: (i32, i32, Vec<u8>)) -> bool {
    &&& p.0 > 0
    &&& p.1 > 0
    &&& p.2@.len() == p.0 * p.1 * 4
}

/// How far a pixmap's longest edge is from the icon size.
pub open spec fn distance(p: (i32, i32, Vec<u8>)) -> int {
    edge_distance_of(p.0, p.1)
}

pub open spec fn edge_distance_of(width: i32, height: i32) -> int {
    let edge = edge_of(width, height);
    if edge >= ICON_SIZE {
        edge - ICON_SIZE
    } else {
        ICON_SIZE - edge
    }
}

pub open spec fn edge_of(width: i32, height: i32) -> int {
    if width >= height {
        width as int
    } else {
        height as int
    }
}

pub open spec fn longest_edge(p: (i32, i32, Vec<u8>)) -> int {
    edge_of(p.0, p.1)
}

/// Pixmap `a` is preferred to `b`: nearer the icon size, then larger.
pub open spec fn preferred(a: (i32, i32, Vec<u8>), b: (i32, i32, Vec<u8>)) -> bool {
    ||| distance(a) < distance(b)
    ||| distance(a) == distance(b) && longest_edge(a) > longest_edge(b)
}

/// `k` is the first usable pixmap that no other usable one is preferred to.
pub open spec fn best_pixmap(ps: Seq<(i32, i32, Vec<u8>)>, k: int) -> bool {
    &&& 0 <= k < ps.len()
    &&& usable(ps[k])
    &&& forall|j: int| 0 <= j < ps.len() && usable(#[trigger] ps[j]) ==> !preferred(ps[j], ps[k])
    &&& forall|j: int| 0 <= j < k && usable(#[trigger] ps[j]) ==> preferred(ps[k], ps[j])
}

/// ARGB pixels in network order turned into RGBA.
pub open spec fn argb_to_rgba(argb: Seq<u8>) -> Seq<u8> {
    Seq::new(
        argb.len(),
        |i: int|
            {
                let base = i - i % 4;
                if i % 4 == 3 {
                    argb[base]
                } else {
                    argb[i + 1]
                }
            },
    )
}

fn pixmap_usable(width: i32, height: i32, pixels: &Vec<u8>) -> (r: bool)
    ensures
        r == usable((width, height, *pixels)),
{
    if width <= 0 || height <= 0 {
        return false;
    }
    assert((width as u64) * (height as u64) * 4 <= u64::MAX) by (nonlinear_arith)
        requires
            0 < width <= i32::MAX,
            0 < height <= i32::MAX,
    ;
    let area = (width as u64) * (height as u64);
    pixels.len() as u64 == area * 4
}

fn edge_distance(width: i32, height: i32) -> (r: (u32, i32))
    ensures
        r.0 == edge_distance_of(width, height),
        r.1 == edge_of(width, height),
{
    let edge = if width >= height {
        width
    } else {
        height
    };
    let d = if edge >= ICON_SIZE {
        (edge as i64 - ICON_SIZE as i64) as u32
    } else {
        (ICON_SIZE as i64 - edge as i64) as u32
    };
    (d, edge)
}

/// `r` is the pixmap of `pixmaps` nearest the icon size, turned from ARGB
/// into RGBA, or none when no pixmap is usable.
pub open spec fn selected_pixmap(pixmaps: Seq<(i32, i32, Vec<u8>)>, r: Option<Pixmap>) -> bool {
    match r {
        Some(p) => exists|k: int|
            #[trigger] best_pixmap(pixmaps, k) && p.width == pixmaps[k].0 && p.height
                == pixmaps[k].1 && p.rgba@ == argb_to_rgba(pixmaps[k].2@),
        None => forall|j: int| 0 <= j < pixmaps.len() ==> !usable(#[trigger] pixmaps[j]),
    }
}

/// The pixmap nearest the icon size (the larger one on a tie, the first one
/// among equals), turned from ARGB into RGBA; none when no pixmap is usable.
pub fn select_pixmap(pixmaps: Vec<(i32, i32, Vec<u8>)>) -> (r: Option<Pixmap>)
    ensures
        selected_pixmap(pixmaps@, r),
{
    let mut best: Option<usize> = None;
    let mut i: usize = 0;
    while i < pixmaps.len()
        invariant
            i <= pixmaps.len(),
            match best {
                Some(k) => k < i && usable(pixmaps@[k as int]) && (forall|j: int|
                    0 <= j < i && usable(#[trigger] pixmaps@[j]) ==> !preferred(
                        pixmaps@[j],
                        pixmaps@[k as int],
                    )) && (forall|j: int|
                    0 <= j < k && usable(#[trigger] pixmaps@[j]) ==> preferred(
                        pixmaps@[k as int],
                        pixmaps@[j],
                    )),
                None => forall|j: int| 0 <= j < i ==> !usable(#[trigger] pixmaps@[j]),
            },
        decreases pixmaps.len() - i,
    {
        let (width, height) = (pixmaps[i].0, pixmaps[i].1);
        if pixmap_usable(width, height, &pixmaps[i].2) {
            best = match best {
                None => Some(i),
                Some(k) => {
                    let better = {
                        let (dk, ek) = edge_distance(pixmaps[k].0, pixmaps[k].1);
                        let (di, ei) = edge_distance(width, height);
                        di < dk || (di == dk && ei > ek)
                    };
                    proof {
                        assert(distance(pixmaps@[i as int]) >= 0);
                    }
                    if better {
                        Some(i)
                    } else {
                        Some(k)
                    }
                },
            };
        }
        i += 1;
    }
    match best {
        None => None,
        Some(k) => {
            assert(best_pixmap(pixmaps@, k as int));
            let argb = &pixmaps[k].2;
            let ghost w = pixmaps@[k as int].0 as int;
            let ghost h = pixmaps@[k as int].1 as int;
            assert((w * h * 4) % 4 == 0) by (nonlinear_arith);
            let mut rgba: Vec<u8> = Vec::new();
            let mut j: usize = 0;
            while j < argb.len()
                invariant
                    argb@.len() % 4 == 0,
                    j % 4 == 0,
                    j <= argb.len(),
                    rgba@ == argb_to_rgba(argb@).take(j as int),
                decreases argb.len() - j,
            {
                rgba.push(argb[j + 1]);
                rgba.push(argb[j + 2]);
                rgba.push(argb[j + 3]);
                rgba.push(argb[j]);
                assert(rgba@ =~= argb_to_rgba(argb@).take(j + 4));
                j += 4;
            }
            assert(rgba@ =~= argb_to_rgba(argb@));
            Some(Pixmap { width: pixmaps[k].0, height: pixmaps[k].1, rgba })
        },
    }
}

// ---------------------------------------------------------------------------
// The tray's item list
// ---------------------------------------------------------------------------
/// A tray item as the bar shows it.
pub struct Item {
    pub id: ItemId,
    pub status: String,
    pub tooltip: Option<String>,
    pub icon_name: String,
    pub pixmap: Option<Pixmap>,
    pub item_is_menu: bool,
    pub menu_path: Option<String>,
}

/// A change the watcher reports.
pub enum Event {
    Upsert(Item),
    Remove(ItemId),
}

pub open spec fn same_id(a: ItemId, b: ItemId) -> bool {
    a.service@ == b.service@ && a.path@ == b.path@
}

/// `items` without those with the id `id`, in order.
pub open spec fn without(items: Seq<Item>, id: ItemId) -> Seq<Item>
    decreases items.len(),
{
    if items.len() == 0 {
        seq![]
    } else {
        let rest = without(items.drop_last(), id);
        if same_id(items.last().id, id) {
            rest
        } else {
            rest.push(items.last())
        }
    }
}

/// `k` is the first item with the id `id`.
pub open spec fn first_with_id(items: Seq<Item>, id: ItemId, k: int) -> bool {
    &&& 0 <= k < items.len()
    &&& same_id(items[k].id, id)
    &&& forall|j: int| 0 <= j < k ==> !same_id(#[trigger] items[j].id, id)
}

/// The item list after an event: a passive item and a removed one leave
/// it, another item replaces the first one with its id or joins at the end.
pub open spec fn spec_apply_event(items: Seq<Item>, event: Event) -> Seq<Item> {
    match event {
        Event::Upsert(item) => if item.status@ == "Passive"@ {
            without(items, item.id)
        } else if exists|k: int| first_with_id(items, item.id, k) {
            items.update(choose|k: int| first_with_id(items, item.id, k), item)
        } else {
            items.push(item)
        },
        Event::Remove(id) => without(items, id),
    }
}

fn same_item_id(a: &ItemId, b: &ItemId) -> (r: bool)
    ensures
        r == same_id(*a, *b),
{
    crate::text::str_eq(a.service.as_str(), b.service.as_str()) && crate::text::str_eq(
        a.path.as_str(),
        b.path.as_str(),
    )
}

fn remove_id(items: &mut Vec<Item>, id: &ItemId)
    ensures
        final(items)@ == without(old(items)@, *id),
{
    let ghost all = items@;
    let n = items.len();
    let mut rest: Vec<Item> = Vec::new();
    std::mem::swap(&mut rest, items);
    let mut k: usize = 0;
    assert(all.take(0) == Seq::<Item>::empty());
    assert(all.skip(0) == all);
    while rest.len() > 0
        invariant
            k + rest@.len() == all.len(),
            all.len() == n,
            rest@ == all.skip(k as int),
            items@ == without(all.take(k as int), *id),
        decreases rest.len(),
    {
        let item = rest.remove(0);
        proof {
            assert(all.take(k + 1).drop_last() == all.take(k as int));
            assert(all.take(k + 1).last() == all[k as int]);
            assert(all.skip(k as int)[0] == all[k as int]);
            assert(rest@ =~= all.skip(k + 1));
        }
        if !same_item_id(&item.id, id) {
            items.push(item);
        }
        k += 1;
    }
    assert(all.take(all.len() as int) == all);
}

/// Applies a watcher event to the tray's item list.
pub fn apply_event(items: &mut Vec<Item>, event: Event)
    ensures
        final(items)@ == spec_apply_event(old(items)@, event),
{
    match event {
        Event::Upsert(item) => {
            if crate::text::str_eq(item.status.as_str(), "Passive") {
                remove_id(items, &item.id);
                return;
            }
            let mut k: usize = 0;
            while k < items.len() && !same_item_id(&items[k].id, &item.id)
                invariant
                    k <= items@.len(),
                    forall|j: int| 0 <= j < k ==> !same_id(#[trigger] items@[j].id, item.id),
                decreases items.len() - k,
            {
                k += 1;
            }
            if k < items.len() {
                assert(first_with_id(items@, item.id, k as int));
                assert forall|q: int| first_with_id(items@, item.id, q) implies q == k by {
                    if q < k {
                    } else if q > k {
                        assert(!same_id(items@[k as int].id, item.id));
                    }
                }
                items.set(k, item);
            } else {
                assert forall|q: int| !first_with_id(items@, item.id, q) by {}
                items.push(item);
            }
        },
        Event::Remove(id) => remove_id(items, &id),
    }
}

/// An item the watcher lists by its registration is the item that
/// registered: a bus name without slashes, then a valid object path, is
/// split back into the two.
pub proof fn law_registration_round_trip(service: Seq<char>, path: Seq<char>)
    requires
        service.len() > 0,
        forall|i: int| 0 <= i < service.len() ==> service[i] != '/',
        spec_valid_path(path),
    ensures
        first_slash(service + path, service.len() as int),
        (service + path).take(service.len() as int) == service,
        (service + path).skip(service.len() as int) == path,
        spec_valid_path((service + path).skip(service.len() as int)),
{
    let r = service + path;
    assert(r.take(service.len() as int) =~= service);
    assert(r.skip(service.len() as int) =~= path);
    assert(r[service.len() as int] == path[0]);
    assert forall|j: int| 0 <= j < service.len() implies r[j] != '/' by {
        assert(r[j] == service[j]);
    }
}

/// After an item is removed, no item with its id is left.
pub proof fn law_removed_items_are_gone(items: Seq<Item>, id: ItemId)
    ensures
        forall|i: int|
            0 <= i < without(items, id).len() ==> !same_id(#[trigger] without(items, id)[i].id, id),
    decreases items.len(),
{
    if items.len() > 0 {
        law_removed_items_are_gone(items.drop_last(), id);
    }
}

/// An item that is not passive is listed after it is reported.
pub proof fn law_reported_items_are_listed(items: Seq<Item>, item: Item)
    requires
        item.status@ != "Passive"@,
    ensures
        spec_apply_event(items, Event::Upsert(item)).contains(item),
{
    let r = spec_apply_event(items, Event::Upsert(item));
    if exists|k: int| first_with_id(items, item.id, k) {
        let k = choose|k: int| first_with_id(items, item.id, k);
        assert(r[k] == item);
    } else {
        assert(r[items.len() as int] == item);
    }
}

// ---------------------------------------------------------------------------
// Scaling
// ---------------------------------------------------------------------------
/// A pixmap of positive size with four bytes per pixel, whose pixel count
/// fits an `i32`.
pub open spec fn pixmap_ok(p: Pixmap) -> bool {
    &&& p.width > 0
    &&& p.height > 0
    &&& p.width * p.height <= i32::MAX
    &&& p.rgba@.len() == p.width * p.height * 4
}

/// An edge of `length` scaled so that the longest edge `edge` becomes
/// `size`, rounded down and at least one pixel.
pub open spec fn scaled_edge(length: int, size: int, edge: int) -> int {
    let v = length * size / edge;
    if v < 1 {
        1
    } else {
        v
    }
}

/// The byte of a `width` by `height` pixmap that byte `i` of its
/// `scaled_width` by `scaled_height` copy takes: the same channel of the
/// nearest source pixel at or above and left of the scaled position.
pub open spec fn source_byte_index(
    width: int,
    height: int,
    scaled_width: int,
    scaled_height: int,
    i: int,
) -> int {
    let pixel = i / 4;
    let x = pixel % scaled_width;
    let y = pixel / scaled_width;
    ((y * height / scaled_height) * width + x * width / scaled_width) * 4 + i % 4
}

proof fn lemma_pixel_position(w: int, y: int, x: int, c: int)
    requires
        0 <= x < w,
        0 <= y,
        0 <= c < 4,
    ensures
        ((y * w + x) * 4 + c) / 4 == y * w + x,
        ((y * w + x) * 4 + c) % 4 == c,
        (y * w + x) / w == y,
        (y * w + x) % w == x,
{
    vstd::arithmetic::div_mod::lemma_fundamental_div_mod_converse((y * w + x) * 4 + c, 4, y * w + x, c);
    vstd::arithmetic::div_mod::lemma_fundamental_div_mod_converse(y * w + x, w, y, x);
}

/// The source coordinate `x * length / scaled` of a scaled coordinate
/// `x < scaled` lies inside the source edge.
proof fn lemma_source_coordinate(x: int, length: int, scaled: int)
    requires
        0 <= x < scaled,
        0 < length,
    ensures
        0 <= x * length / scaled < length,
        x * length < scaled * length,
{
    vstd::arithmetic::mul::lemma_mul_strict_inequality(x, scaled, length);
    vstd::arithmetic::mul::lemma_mul_is_commutative(scaled, length);
    vstd::arithmetic::div_mod::lemma_multiply_divide_lt(x * length, scaled, length);
    vstd::arithmetic::mul::lemma_mul_nonnegative(x, length);
    vstd::arithmetic::div_mod::lemma_div_pos_is_pos(x * length, scaled);
}

/// A scaled edge is at most `size`.
proof fn lemma_scaled_edge(length: int, size: int, edge: int)
    requires
        0 < length <= edge,
        0 < size,
    ensures
        1 <= scaled_edge(length, size, edge) <= size,
{
    vstd::arithmetic::mul::lemma_mul_inequality(length, edge, size);
    vstd::arithmetic::mul::lemma_mul_is_commutative(edge, size);
    vstd::arithmetic::div_mod::lemma_multiply_divide_le(length * size, edge, size);
}

/// The pixmap drawn at `size`: returned as it is when its longest edge
/// already has that size, otherwise scaled by nearest neighbour so that its
/// longest edge gets `size` pixels, keeping its aspect ratio.
pub fn scale_pixmap(pixmap: &Pixmap, size: i32) -> (r: Pixmap)
    requires
        pixmap_ok(*pixmap),
        size > 0,
        pixmap.width * size <= i32::MAX,
        pixmap.height * size <= i32::MAX,
    ensures
        ({
            let w = pixmap.width as int;
            let h = pixmap.height as int;
            let edge = edge_of(pixmap.width, pixmap.height);
            if edge == size {
                r.width == pixmap.width && r.height == pixmap.height && r.rgba@ == pixmap.rgba@
            } else {
                &&& r.width == scaled_edge(w, size as int, edge)
                &&& r.height == scaled_edge(h, size as int, edge)
                &&& r.rgba@.len() == r.width * r.height * 4
                &&& forall|i: int|
                    0 <= i < r.rgba@.len() ==> #[trigger] r.rgba@[i] == pixmap.rgba@[source_byte_index(
                        w,
                        h,
                        r.width as int,
                        r.height as int,
                        i,
                    )]
            }
        }),
{
    let w = pixmap.width;
    let h = pixmap.height;
    let edge = if w >= h {
        w
    } else {
        h
    };
    if edge == size {
        let mut copy: Vec<u8> = Vec::new();
        let mut i: usize = 0;
        while i < pixmap.rgba.len()
            invariant
                i <= pixmap.rgba@.len(),
                copy@ == pixmap.rgba@.take(i as int),
            decreases pixmap.rgba.len() - i,
        {
            copy.push(pixmap.rgba[i]);
            i += 1;
            assert(copy@ =~= pixmap.rgba@.take(i as int));
        }
        assert(copy@ =~= pixmap.rgba@);
        return Pixmap { width: w, height: h, rgba: copy };
    }
    proof {
        lemma_scaled_edge(w as int, size as int, edge as int);
        lemma_scaled_edge(h as int, size as int, edge as int);
    }
    let sw = w * size / edge;
    let width = if sw < 1 {
        1
    } else {
        sw
    };
    let sh = h * size / edge;
    let height = if sh < 1 {
        1
    } else {
        sh
    };
    let ghost src = pixmap.rgba@;
    let mut rgba: Vec<u8> = Vec::new();
    let mut y: i32 = 0;
    while y < height
        invariant
            pixmap_ok(*pixmap),
            src == pixmap.rgba@,
            w == pixmap.width,
            h == pixmap.height,
            1 <= width <= size,
            1 <= height <= size,
            w * size <= i32::MAX,
            h * size <= i32::MAX,
            0 <= y <= height,
            rgba@.len() == y * width * 4,
            forall|i: int|
                0 <= i < rgba@.len() ==> #[trigger] rgba@[i] == src[source_byte_index(
                    w as int,
                    h as int,
                    width as int,
                    height as int,
                    i,
                )],
        decreases height - y,
    {
        proof {
            lemma_source_coordinate(y as int, h as int, height as int);
            vstd::arithmetic::mul::lemma_mul_inequality(height as int, size as int, h as int);
            vstd::arithmetic::mul::lemma_mul_is_commutative(size as int, h as int);
        }
        let source_y = y * h / height;
        let mut x: i32 = 0;
        while x < width
            invariant
                pixmap_ok(*pixmap),
                src == pixmap.rgba@,
                w == pixmap.width,
                h == pixmap.height,
                1 <= width <= size,
                1 <= height <= size,
                w * size <= i32::MAX,
                0 <= y < height,
                source_y == (y * h) / (height as int),
                0 <= source_y < h,
                0 <= x <= width,
                rgba@.len() == (y * width + x) * 4,
                forall|i: int|
                    0 <= i < rgba@.len() ==> #[trigger] rgba@[i] == src[source_byte_index(
                        w as int,
                        h as int,
                        width as int,
                        height as int,
                        i,
                    )],
            decreases width - x,
        {
            proof {
                lemma_source_coordinate(x as int, w as int, width as int);
                vstd::arithmetic::mul::lemma_mul_inequality(width as int, size as int, w as int);
                vstd::arithmetic::mul::lemma_mul_is_commutative(size as int, w as int);
                vstd::arithmetic::mul::lemma_mul_inequality(source_y as int, (h - 1) as int, w as int);
                assert((h - 1) * w + w == w * h) by (nonlinear_arith);
            }
            let source_x = x * w / width;
            let index = source_y * w + source_x;
            assert(index * 4 + 3 < src.len()) by (nonlinear_arith)
                requires
                    0 <= index < w * h,
                    src.len() == w * h * 4,
            ;
            let total = pixmap.rgba.len();
            assert(index * 4 < total);
            let base = index as usize * 4;
            let ghost start = rgba@.len() as int;
            let ghost pixel = y * width + x;
            proof {
                assert(start == pixel * 4);
            }
            let mut c: usize = 0;
            while c < 4
                invariant
                    c <= 4,
                    base + 3 < src.len(),
                    src == pixmap.rgba@,
                    rgba@.len() == start + c,
                    forall|i: int|
                        0 <= i < rgba@.len() ==> #[trigger] rgba@[i] == src[source_byte_index(
                            w as int,
                            h as int,
                            width as int,
                            height as int,
                            i,
                        )],
                    start == pixel * 4,
                    pixel == y * width + x,
                    0 <= x < width,
                    0 <= y,
                    base == (source_y * w + source_x) * 4,
                    source_y == (y * h) / (height as int),
                    source_x == (x * w) / (width as int),
                decreases 4 - c,
            {
                proof {
                    lemma_pixel_position(width as int, y as int, x as int, c as int);
                    assert(source_byte_index(w as int, h as int, width as int, height as int, start + c)
                        == base + c);
                }
                rgba.push(pixmap.rgba[base + c]);
                c += 1;
            }
            x += 1;
        }
        y += 1;
        assert((y - 1) * width + width == y * width) by (nonlinear_arith);
    }
    assert(rgba@.len() == width * height * 4) by (nonlinear_arith)
        requires
            rgba@.len() == height * width * 4,
    ;
    Pixmap { width, height, rgba }
}

// ---------------------------------------------------------------------------
// Reading an item
// ---------------------------------------------------------------------------
/// The properties of a status notifier item the bar reads, as the item
/// reports them: `None` where it has no such property or it cannot be read.
/// `tooltip` holds the title and text of the `ToolTip` property.
pub struct ItemProperties {
    pub status: Option<String>,
    pub title: Option<String>,
    pub icon_name: Option<String>,
    pub attention_icon_name: Option<String>,
    pub icon_pixmap: Option<Vec<(i32, i32, Vec<u8>)>>,
    pub attention_icon_pixmap: Option<Vec<(i32, i32, Vec<u8>)>>,
    pub tooltip: Option<(String, String)>,
    pub item_is_menu: Option<bool>,
}

/// An item's status; `Active` when it reports none.
pub open spec fn item_status(props: ItemProperties) -> Seq<char> {
    match props.status {
        Some(s) => s@,
        None => "Active"@,
    }
}

/// Whether an item asks for attention, and so shows its attention icon.
pub open spec fn needs_attention(props: ItemProperties) -> bool {
    item_status(props) == "NeedsAttention"@
}

/// The icon name an item shows: its attention icon when it asks for
/// attention and has one, else its icon, else none.
pub open spec fn item_icon_name(props: ItemProperties) -> Seq<char> {
    let attention = if needs_attention(props) {
        props.attention_icon_name
    } else {
        None
    };
    match attention {
        Some(n) => n@,
        None => match props.icon_name {
            Some(n) => n@,
            None => Seq::empty(),
        },
    }
}

/// The pixmaps an item offers for the icon it shows, chosen as its name is.
pub open spec fn item_pixmaps(props: ItemProperties) -> Seq<(i32, i32, Vec<u8>)> {
    let attention = if needs_attention(props) {
        props.attention_icon_pixmap
    } else {
        None
    };
    match attention {
        Some(p) => p@,
        None => match props.icon_pixmap {
            Some(p) => p@,
            None => Seq::empty(),
        },
    }
}

/// An item's tooltip: the one its `ToolTip` property makes, else its title
/// (the service name when it has none).
pub open spec fn item_tooltip(id: ItemId, props: ItemProperties) -> Option<Seq<char>> {
    let title = match props.title {
        Some(t) => t@,
        None => id.service@,
    };
    let own = match props.tooltip {
        Some((t, x)) => spec_tooltip(t@, x@),
        None => None,
    };
    match own {
        Some(t) => Some(t),
        None => spec_tooltip(title, Seq::empty()),
    }
}

fn text_or(value: Option<String>, fallback: &str) -> (r: String)
    ensures
        r@ == match value {
            Some(v) => v@,
            None => fallback@,
        },
{
    match value {
        Some(v) => v,
        None => String::from_str(fallback),
    }
}

/// The item the bar shows for `id`, from the properties it reports.
pub fn item_from_properties(id: ItemId, props: ItemProperties) -> (r: Item)
    ensures
        r.id == id,
        r.status@ == item_status(props),
        r.icon_name@ == item_icon_name(props),
        selected_pixmap(item_pixmaps(props), r.pixmap),
        match r.tooltip {
            Some(t) => item_tooltip(id, props) == Some(t@),
            None => item_tooltip(id, props) is None,
        },
        r.item_is_menu == match props.item_is_menu {
            Some(b) => b,
            None => false,
        },
        r.menu_path is None,
{
    let ghost given = props;
    let status = text_or(props.status, "Active");
    let attention = crate::text::str_eq(status.as_str(), "NeedsAttention");
    proof {
        reveal_strlit("Active");
        reveal_strlit("NeedsAttention");
    }
    let attention_name = if attention {
        props.attention_icon_name
    } else {
        None
    };
    let icon_name = match attention_name {
        Some(n) => n,
        None => text_or(props.icon_name, ""),
    };
    let attention_pixmaps = if attention {
        props.attention_icon_pixmap
    } else {
        None
    };
    let pixmaps = match attention_pixmaps {
        Some(p) => p,
        None => match props.icon_pixmap {
            Some(p) => p,
            None => Vec::new(),
        },
    };
    proof {
        reveal_strlit("");
        assert(pixmaps@ == item_pixmaps(given));
    }
    let own = match &props.tooltip {
        Some((t, x)) => tooltip(t.as_str(), x.as_str()),
        None => None,
    };
    let tip = match own {
        Some(t) => Some(t),
        None => {
            let title = match props.title {
                Some(t) => t,
                None => crate::text::copy_string(&id.service),
            };
            tooltip(title.as_str(), "")
        },
    };
    Item {
        id,
        status,
        tooltip: tip,
        icon_name,
        pixmap: select_pixmap(pixmaps),
        item_is_menu: match props.item_is_menu {
            Some(b) => b,
            None => false,
        },
        menu_path: None,
    }
}

// ---------------------------------------------------------------------------
// Clicks
// ---------------------------------------------------------------------------
/// What a click on a tray icon asks of its item.
#[derive(Clone, Copy, Debug, PartialEq, Eq, Structural)]
pub enum ClickAction {
    Activate,
    SecondaryActivate,
    Menu,
}

/// The action of a mouse button on an item: the primary button activates it
/// (or opens its menu when the item is only a menu), the middle button
/// activates it secondarily, and the secondary button opens its menu.
pub fn click_action(button: u32, item_is_menu: bool) -> (r: Option<ClickAction>)
    ensures
        r == if button == 1 {
            if item_is_menu {
                Some(ClickAction::Menu)
            } else {
                Some(ClickAction::Activate)
            }
        } else if button == 2 {
            Some(ClickAction::SecondaryActivate)
        } else if button == 3 {
            Some(ClickAction::Menu)
        } else {
            None
        },
{
    if button == 1 {
        if item_is_menu {
            Some(ClickAction::Menu)
        } else {
            Some(ClickAction::Activate)
        }
    } else if button == 2 {
        Some(ClickAction::SecondaryActivate)
    } else if button == 3 {
        Some(ClickAction::Menu)
    } else {
        None
    }
}

} // verus!
