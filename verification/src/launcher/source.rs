//! What a launcher source hands back: items with a title, a kind of preview
//! and extra terms to search by.
use vstd::prelude::*;

use crate::text::{chars_of, copy_string, decimal, parse_u64, push_decimal, u64_text};

verus! {

broadcast use vstd::string::group_string_axioms;

/// How an item's preview is drawn.
#[derive(Clone, Copy, Debug, PartialEq, Eq, Structural)]
pub enum LoadedVisual {
    Blank,
    Image,
    Text,
}

/// An item as a source loads it.
pub struct LoadedItem {
    pub id: String,
    pub title: String,
    pub visual: LoadedVisual,
    pub search_terms: Vec<String>,
}

/// An item as plain values: id, title, visual and search terms.
pub type ItemSpec = (Seq<char>, Seq<char>, LoadedVisual, Seq<Seq<char>>);

pub open spec fn item_view(item: LoadedItem) -> ItemSpec {
    (item.id@, item.title@, item.visual, item.search_terms@.map_values(|s: String| s@))
}

pub open spec fn item_views(items: Seq<LoadedItem>) -> Seq<ItemSpec> {
    items.map_values(|item: LoadedItem| item_view(item))
}

// ---------------------------------------------------------------------------
// The dmenu source: lines read from standard input
// ---------------------------------------------------------------------------
/// Lines to choose from, as `varde dmenu` reads them.
pub struct Dmenu {
    pub lines: Vec<String>,
}

/// The items of a dmenu source: one per line, in order, identified by the
/// line's index, titled by the line, with no preview and no extra terms.
pub open spec fn dmenu_item(i: int, line: String) -> ItemSpec {
    (decimal(i as nat), line@, LoadedVisual::Blank, Seq::empty())
}

impl Dmenu {
    pub fn items(&self) -> (r: Vec<LoadedItem>)
        ensures
            item_views(r@) == Seq::new(
                self.lines@.len(),
                |i: int| dmenu_item(i, self.lines@[i]),
            ),
    {
        let mut r: Vec<LoadedItem> = Vec::new();
        let mut i: usize = 0;
        while i < self.lines.len()
            invariant
                i <= self.lines@.len(),
                item_views(r@) == Seq::new(i as nat, |j: int| dmenu_item(j, self.lines@[j])),
            decreases self.lines.len() - i,
        {
            let mut id = String::new();
            push_decimal(&mut id, i as u128);
            let terms: Vec<String> = Vec::new();
            let item = LoadedItem {
                id,
                title: copy_string(&self.lines[i]),
                visual: LoadedVisual::Blank,
                search_terms: terms,
            };
            proof {
                assert(item.search_terms@.map_values(|s: String| s@) =~= Seq::<Seq<char>>::empty());
                assert(item.id@ =~= decimal(i as nat));
                assert(item_view(item) == dmenu_item(i as int, self.lines@[i as int]));
            }
            let ghost before = r@;
            r.push(item);
            i += 1;
            proof {
                assert(r@ == before.push(item));
                assert(item_views(r@) =~= item_views(before).push(item_view(item)));
                assert(item_views(r@) =~= Seq::new(i as nat, |j: int| dmenu_item(j, self.lines@[j])));
            }
        }
        r
    }

    /// The line an item stands for. An id that is not a number is an invalid
    /// item; a number past the last line is an item no longer available.
    pub fn activate(&self, id: &str) -> (r: Result<String, String>)
        ensures
            match u64_text(id@) {
                Some(v) => if v < self.lines@.len() {
                    r matches Ok(line) && line@ == self.lines@[v as int]@
                } else {
                    r matches Err(e) && e@ == "Selector item is no longer available"@
                },
                None => r matches Err(e) && e@ == "Invalid selector item"@,
            },
    {
        let chars = chars_of(id);
        match parse_u64(&chars) {
            Some(v) => if v < self.lines.len() as u64 {
                Ok(copy_string(&self.lines[v as usize]))
            } else {
                Err(String::from_str("Selector item is no longer available"))
            },
            None => Err(String::from_str("Invalid selector item")),
        }
    }
}

// ---------------------------------------------------------------------------
// The applications source
// ---------------------------------------------------------------------------
/// What the desktop entry of an application adds.
pub struct DesktopEntry {
    pub hidden: bool,
    pub no_display: bool,
    pub generic_name: Option<String>,
    pub keywords: Vec<String>,
}

/// An installed application as the system lists it.
pub struct AppEntry {
    pub id: Option<String>,
    pub display_name: String,
    pub name: String,
    pub executable: String,
    pub should_show: bool,
    pub desktop: Option<DesktopEntry>,
}

/// Whether the launcher lists an application: one that should be shown, has
/// an id, and whose desktop entry is neither hidden nor marked not to display.
pub open spec fn app_listed(e: AppEntry) -> bool {
    &&& e.should_show
    &&& e.id is Some
    &&& match e.desktop {
        Some(d) => !d.hidden && !d.no_display,
        None => true,
    }
}

/// The terms an application is searched by besides its title: its name, its
/// executable and its id, then its generic name and keywords.
pub open spec fn app_terms(e: AppEntry) -> Seq<Seq<char>> {
    let base = seq![e.name@, e.executable@, e.id->0@];
    match e.desktop {
        Some(d) => {
            let named = match d.generic_name {
                Some(g) => base.push(g@),
                None => base,
            };
            named + d.keywords@.map_values(|k: String| k@)
        },
        None => base,
    }
}

pub open spec fn app_item(e: AppEntry) -> ItemSpec {
    (e.id->0@, e.display_name@, LoadedVisual::Blank, app_terms(e))
}

/// The items for `entries`, each with the index of the entry it came from.
pub open spec fn app_items_of(entries: Seq<AppEntry>) -> Seq<(int, ItemSpec)>
    decreases entries.len(),
{
    if entries.len() == 0 {
        Seq::empty()
    } else {
        let last = (entries.len() - 1) as int;
        let before = app_items_of(entries.take(last));
        if app_listed(entries[last]) {
            before.push((last, app_item(entries[last])))
        } else {
            before
        }
    }
}

pub open spec fn indexed_views(r: Seq<(usize, LoadedItem)>) -> Seq<(int, ItemSpec)> {
    r.map_values(|p: (usize, LoadedItem)| (p.0 as int, item_view(p.1)))
}

fn copy_strings(values: &Vec<String>) -> (r: Vec<String>)
    ensures
        r@.map_values(|s: String| s@) == values@.map_values(|s: String| s@),
{
    let mut r: Vec<String> = Vec::new();
    let mut i: usize = 0;
    while i < values.len()
        invariant
            i <= values@.len(),
            r@.map_values(|s: String| s@) == values@.take(i as int).map_values(|s: String| s@),
        decreases values.len() - i,
    {
        let ghost before = r@;
        let copy = copy_string(&values[i]);
        r.push(copy);
        i += 1;
        proof {
            assert(r@ == before.push(copy));
            assert(r@.map_values(|s: String| s@) =~= before.map_values(|s: String| s@).push(copy@));
            assert(values@.take(i as int) =~= values@.take(i - 1).push(values@[i - 1]));
            assert(r@.map_values(|s: String| s@) =~= values@.take(i as int).map_values(
                |s: String| s@,
            ));
        }
    }
    assert(values@.take(values@.len() as int) =~= values@);
    r
}

fn app_item_of(e: &AppEntry) -> (r: LoadedItem)
    requires
        e.id is Some,
    ensures
        item_view(r) == app_item(*e),
{
    let id = match &e.id {
        Some(id) => copy_string(id),
        None => String::new(),
    };
    let mut terms: Vec<String> = Vec::new();
    terms.push(copy_string(&e.name));
    terms.push(copy_string(&e.executable));
    terms.push(copy_string(&id));
    let ghost base = terms@.map_values(|s: String| s@);
    proof {
        assert(base =~= seq![e.name@, e.executable@, e.id->0@]);
    }
    match &e.desktop {
        Some(d) => {
            match &d.generic_name {
                Some(g) => {
                    terms.push(copy_string(g));
                },
                None => {},
            }
            let ghost with_name = terms@.map_values(|s: String| s@);
            proof {
                assert(with_name =~= match d.generic_name {
                    Some(g) => base.push(g@),
                    None => base,
                });
            }
            let mut keywords = copy_strings(&d.keywords);
            terms.append(&mut keywords);
            proof {
                assert(terms@.map_values(|s: String| s@) =~= with_name + d.keywords@.map_values(
                    |k: String| k@,
                ));
            }
        },
        None => {},
    }
    LoadedItem {
        id,
        title: copy_string(&e.display_name),
        visual: LoadedVisual::Blank,
        search_terms: terms,
    }
}

/// The launcher's application items, in the order the system lists the
/// applications, each with the index of its entry (whose icon the view
/// draws).
pub fn app_items(entries: &Vec<AppEntry>) -> (r: Vec<(usize, LoadedItem)>)
    ensures
        indexed_views(r@) == app_items_of(entries@),
{
    let mut r: Vec<(usize, LoadedItem)> = Vec::new();
    let mut i: usize = 0;
    while i < entries.len()
        invariant
            i <= entries@.len(),
            indexed_views(r@) == app_items_of(entries@.take(i as int)),
        decreases entries.len() - i,
    {
        let e = &entries[i];
        let listed = e.should_show && e.id.is_some() && match &e.desktop {
            Some(d) => !d.hidden && !d.no_display,
            None => true,
        };
        proof {
            assert(entries@.take(i + 1).take(i as int) =~= entries@.take(i as int));
            assert(entries@.take(i + 1)[i as int] == entries@[i as int]);
        }
        if listed {
            let item = app_item_of(e);
            r.push((i, item));
            proof {
                assert(indexed_views(r@) =~= app_items_of(entries@.take(i as int)).push(
                    (i as int, app_item(entries@[i as int])),
                ));
            }
        }
        i += 1;
    }
    assert(entries@.take(entries@.len() as int) =~= entries@);
    r
}

} // verus!
