//! The clipboard history as `cliphist list` prints it: one entry per line, an
//! id, a tab, and a preview of the content.
use vstd::prelude::*;

use super::source::{item_view, item_views, ItemSpec, LoadedItem, LoadedVisual};
use vstd::utf8::{decode_first_scalar, decode_utf8, pop_first_scalar, valid_utf8};

use crate::text::{
    chars_eq_ignore_ascii_case, chars_of, ends_with, eq_ignore_ascii_case, find_char,
    first_index_of, has_prefix, has_suffix, i32_text, lemma_first_index_unique, lines, lines_of,
    parse_i32, parse_u64, push_char, push_str, slice_of, starts_with, string_of, text_from_utf8,
    u64_text, words, words_of,
};

verus! {

broadcast use vstd::string::group_string_axioms;

/// What `cliphist` shows in place of binary content starts with this.
pub open spec fn binary_prefix() -> Seq<char> {
    "[[ binary data "@
}

pub open spec fn binary_suffix() -> Seq<char> {
    " ]]"@
}

/// `WIDTHxHEIGHT`, both positive `i32`s, split at the first `x`.
pub open spec fn spec_dimensions(s: Seq<char>) -> Option<(int, int)> {
    if exists|p: int| first_index_of(s, 'x', p) {
        let p = choose|p: int| first_index_of(s, 'x', p);
        match (i32_text(s.take(p)), i32_text(s.skip(p + 1))) {
            (Some(w), Some(h)) => if w > 0 && h > 0 {
                Some((w, h))
            } else {
                None
            },
            _ => None,
        }
    } else {
        None
    }
}

fn dimensions_of(s: &Vec<char>) -> (r: Option<(i32, i32)>)
    ensures
        match r {
            Some((w, h)) => spec_dimensions(s@) == Some((w as int, h as int)),
            None => spec_dimensions(s@) is None,
        },
{
    let p = match find_char(s, 'x') {
        Some(p) => p,
        None => {
            assert forall|q: int| !first_index_of(s@, 'x', q) by {
                if first_index_of(s@, 'x', q) {
                    assert(s@.contains('x'));
                }
            }
            return None;
        },
    };
    proof {
        assert forall|q: int| first_index_of(s@, 'x', q) implies q == p by {
            lemma_first_index_unique(s@, 'x', p as int, q);
        }
    }
    assert(p < s.len());
    let width = slice_of(s, 0, p);
    let height = slice_of(s, p + 1, s.len());
    assert(s@.subrange(0, p as int) == s@.take(p as int));
    assert(s@.subrange(p + 1, s@.len() as int) == s@.skip(p + 1));
    match (parse_i32(&width), parse_i32(&height)) {
        (Some(w), Some(h)) => if w > 0 && h > 0 {
            Some((w, h))
        } else {
            None
        },
        _ => None,
    }
}

/// The width and height in `value`, written `WIDTHxHEIGHT`.
pub fn parse_dimensions(value: &str) -> (r: Option<(i32, i32)>)
    ensures
        match r {
            Some((w, h)) => spec_dimensions(value@) == Some((w as int, h as int)),
            None => spec_dimensions(value@) is None,
        },
{
    dimensions_of(&chars_of(value))
}

/// The image formats whose previews the launcher decodes.
pub open spec fn supported_format(w: Seq<char>) -> bool {
    ||| eq_ignore_ascii_case(w, "png"@)
    ||| eq_ignore_ascii_case(w, "jpg"@)
    ||| eq_ignore_ascii_case(w, "jpeg"@)
    ||| eq_ignore_ascii_case(w, "gif"@)
    ||| eq_ignore_ascii_case(w, "webp"@)
    ||| eq_ignore_ascii_case(w, "bmp"@)
    ||| eq_ignore_ascii_case(w, "tif"@)
    ||| eq_ignore_ascii_case(w, "tiff"@)
}

fn is_supported_format(w: &Vec<char>) -> (r: bool)
    ensures
        r == supported_format(w@),
{
    chars_eq_ignore_ascii_case(w, &chars_of("png")) || chars_eq_ignore_ascii_case(
        w,
        &chars_of("jpg"),
    ) || chars_eq_ignore_ascii_case(w, &chars_of("jpeg")) || chars_eq_ignore_ascii_case(
        w,
        &chars_of("gif"),
    ) || chars_eq_ignore_ascii_case(w, &chars_of("webp")) || chars_eq_ignore_ascii_case(
        w,
        &chars_of("bmp"),
    ) || chars_eq_ignore_ascii_case(w, &chars_of("tif")) || chars_eq_ignore_ascii_case(
        w,
        &chars_of("tiff"),
    )
}

/// What stands between the binary-data markers of a preview, if it has them.
pub open spec fn binary_content(preview: Seq<char>) -> Option<Seq<char>> {
    if has_prefix(preview, binary_prefix()) {
        let rest = preview.skip(binary_prefix().len() as int);
        if has_suffix(rest, binary_suffix()) {
            Some(rest.take(rest.len() - binary_suffix().len()))
        } else {
            None
        }
    } else {
        None
    }
}

/// `k` is the first word of `ws` that reads as dimensions.
pub open spec fn first_dimensions(ws: Seq<Seq<char>>, k: int) -> bool {
    &&& 0 <= k < ws.len()
    &&& spec_dimensions(ws[k]) is Some
    &&& forall|j: int| 0 <= j < k ==> spec_dimensions(#[trigger] ws[j]) is None
}

/// The dimensions a binary-data preview gives for an image in a supported
/// format: its first word that reads as dimensions, when the word before it
/// names such a format.
pub open spec fn spec_image_dimensions(preview: Seq<char>) -> Option<Seq<char>> {
    match binary_content(preview) {
        Some(content) => {
            let ws = words(content);
            if exists|k: int| first_dimensions(ws, k) {
                let k = choose|k: int| first_dimensions(ws, k);
                if k > 0 && supported_format(ws[k - 1]) {
                    Some(ws[k])
                } else {
                    None
                }
            } else {
                None
            }
        },
        None => None,
    }
}

fn image_dimensions_of(preview: &Vec<char>) -> (r: Option<Vec<char>>)
    ensures
        match r {
            Some(d) => spec_image_dimensions(preview@) == Some(d@),
            None => spec_image_dimensions(preview@) is None,
        },
{
    let prefix = chars_of("[[ binary data ");
    if !starts_with(preview, &prefix) {
        return None;
    }
    let rest = slice_of(preview, prefix.len(), preview.len());
    assert(preview@.subrange(prefix@.len() as int, preview@.len() as int) == preview@.skip(
        binary_prefix().len() as int,
    ));
    let suffix = chars_of(" ]]");
    if !ends_with(&rest, &suffix) {
        return None;
    }
    let content = slice_of(&rest, 0, rest.len() - suffix.len());
    assert(rest@.subrange(0, rest@.len() - suffix@.len()) == rest@.take(
        rest@.len() - binary_suffix().len(),
    ));
    assert(binary_content(preview@) == Some(content@));
    let ws = words_of(&content);
    let ghost sws = words(content@);
    let mut k: usize = 0;
    while k < ws.len()
        invariant
            binary_content(preview@) == Some(content@),
            sws == words(content@),
            ws@.len() == sws.len(),
            forall|i: int| 0 <= i < ws@.len() ==> #[trigger] ws@[i]@ == sws[i],
            k <= ws.len(),
            forall|j: int| 0 <= j < k ==> spec_dimensions(#[trigger] sws[j]) is None,
        decreases ws.len() - k,
    {
        assert(ws@[k as int]@ == sws[k as int]);
        if dimensions_of(&ws[k]).is_some() {
            assert(first_dimensions(sws, k as int));
            assert forall|q: int| first_dimensions(sws, q) implies q == k by {
                if q < k {
                    assert(spec_dimensions(sws[q]) is None);
                } else if q > k {
                    assert(spec_dimensions(sws[k as int]) is None);
                }
            }
            if k == 0 {
                return None;
            }
            assert(ws@[k - 1]@ == sws[k - 1]);
            if is_supported_format(&ws[k - 1]) {
                let d = slice_of(&ws[k], 0, ws[k].len());
                assert(ws@[k as int]@.subrange(0, ws@[k as int]@.len() as int) == ws@[k as int]@);
                assert(supported_format(sws[k - 1]));
                assert(spec_image_dimensions(preview@) == Some(sws[k as int]));
                return Some(d);
            } else {
                return None;
            }
        }
        k += 1;
    }
    None
}

/// The dimensions a preview of an image in a supported format gives, as
/// written in it.
pub fn image_dimensions(preview: &str) -> (r: Option<String>)
    ensures
        match r {
            Some(d) => spec_image_dimensions(preview@) == Some(d@),
            None => spec_image_dimensions(preview@) is None,
        },
{
    match image_dimensions_of(&chars_of(preview)) {
        Some(d) => Some(string_of(&d)),
        None => None,
    }
}

/// Dimensions as a title shows them: with `×` in place of `x`.
pub open spec fn shown_dimensions(d: Seq<char>) -> Seq<char> {
    d.map_values(
        |c: char|
            if c == 'x' {
                '\u{d7}'
            } else {
                c
            },
    )
}

/// The item a line of the history lists: its id must be a `u64`; an image
/// in a supported format is titled by its dimensions and found by `image`
/// and its preview; other entries are titled by their preview, and only
/// text gets a text preview.
pub open spec fn spec_parse_line(line: Seq<char>) -> Option<ItemSpec> {
    if exists|p: int| first_index_of(line, '\t', p) {
        let p = choose|p: int| first_index_of(line, '\t', p);
        let id = line.take(p);
        let preview = line.skip(p + 1);
        if u64_text(id) is None {
            None
        } else {
            match spec_image_dimensions(preview) {
                Some(d) => Some(
                    (
                        id,
                        "Image \u{b7} "@ + shown_dimensions(d),
                        LoadedVisual::Image,
                        seq!["image"@, preview],
                    ),
                ),
                None => Some(
                    (
                        id,
                        if preview.len() == 0 {
                            "Empty text"@
                        } else {
                            preview
                        },
                        if has_prefix(preview, binary_prefix()) {
                            LoadedVisual::Blank
                        } else {
                            LoadedVisual::Text
                        },
                        seq![],
                    ),
                ),
            }
        }
    } else {
        None
    }
}

fn push_shown_dimensions(s: &mut String, d: &Vec<char>)
    ensures
        final(s)@ == old(s)@ + shown_dimensions(d@),
{
    let mut i: usize = 0;
    while i < d.len()
        invariant
            i <= d.len(),
            s@ == old(s)@ + shown_dimensions(d@.take(i as int)),
        decreases d.len() - i,
    {
        if d[i] == 'x' {
            push_char(s, '\u{d7}');
        } else {
            push_char(s, d[i]);
        }
        i += 1;
        assert(shown_dimensions(d@.take(i as int)) =~= shown_dimensions(d@.take(i - 1)).push(
            if d@[i - 1] == 'x' {
                '\u{d7}'
            } else {
                d@[i - 1]
            },
        ));
    }
    assert(d@.take(d@.len() as int) == d@);
}

fn parse_line_of(line: &Vec<char>) -> (r: Option<LoadedItem>)
    ensures
        match r {
            Some(item) => spec_parse_line(line@) == Some(item_view(item)),
            None => spec_parse_line(line@) is None,
        },
{
    let p = match find_char(line, '\t') {
        Some(p) => p,
        None => {
            assert forall|q: int| !first_index_of(line@, '\t', q) by {
                if first_index_of(line@, '\t', q) {
                    assert(line@.contains('\t'));
                }
            }
            return None;
        },
    };
    proof {
        assert forall|q: int| first_index_of(line@, '\t', q) implies q == p by {
            lemma_first_index_unique(line@, '\t', p as int, q);
        }
    }
    assert(p < line.len());
    let id_chars = slice_of(line, 0, p);
    let preview_chars = slice_of(line, p + 1, line.len());
    assert(line@.subrange(0, p as int) == line@.take(p as int));
    assert(line@.subrange(p + 1, line@.len() as int) == line@.skip(p + 1));
    if parse_u64(&id_chars).is_none() {
        return None;
    }
    let id = string_of(&id_chars);
    let preview = string_of(&preview_chars);
    match image_dimensions_of(&preview_chars) {
        Some(d) => {
            let mut title = String::from_str("Image \u{b7} ");
            push_shown_dimensions(&mut title, &d);
            let mut search_terms: Vec<String> = Vec::new();
            search_terms.push(String::from_str("image"));
            search_terms.push(preview);
            let item = LoadedItem { id, title, visual: LoadedVisual::Image, search_terms };
            assert(item.search_terms@.map_values(|s: String| s@) =~= seq![
                "image"@,
                preview_chars@,
            ]);
            Some(item)
        },
        None => {
            let title = if preview_chars.len() == 0 {
                String::from_str("Empty text")
            } else {
                string_of(&preview_chars)
            };
            let visual = if starts_with(&preview_chars, &chars_of("[[ binary data ")) {
                LoadedVisual::Blank
            } else {
                LoadedVisual::Text
            };
            let item = LoadedItem { id, title, visual, search_terms: Vec::new() };
            assert(item.search_terms@.map_values(|s: String| s@) =~= Seq::<Seq<char>>::empty());
            Some(item)
        },
    }
}

/// The item one line of the history lists, if the line is well formed.
pub fn parse_line(line: &str) -> (r: Option<LoadedItem>)
    ensures
        match r {
            Some(item) => spec_parse_line(line@) == Some(item_view(item)),
            None => spec_parse_line(line@) is None,
        },
{
    parse_line_of(&chars_of(line))
}

/// The items of the well-formed lines, in order.
pub open spec fn parsed_lines(ls: Seq<Seq<char>>) -> Seq<ItemSpec>
    decreases ls.len(),
{
    if ls.len() == 0 {
        seq![]
    } else {
        let rest = parsed_lines(ls.drop_last());
        match spec_parse_line(ls.last()) {
            Some(item) => rest.push(item),
            None => rest,
        }
    }
}

/// The history's items, most recent first as `cliphist` lists them.
/// Malformed lines are skipped; output with no well-formed line at all is an
/// error, and empty output an empty history.
pub fn parse_list(output: &str) -> (r: Result<Vec<LoadedItem>, String>)
    ensures
        match r {
            Ok(items) => item_views(items@) == parsed_lines(lines(output@)) && (output@.len() == 0
                || parsed_lines(lines(output@)).len() > 0),
            Err(e) => e@ == "Could not parse clipboard history"@ && output@.len() > 0
                && parsed_lines(lines(output@)).len() == 0,
        },
{
    let ls = lines_of(&chars_of(output));
    let ghost sls = lines(output@);
    let mut items: Vec<LoadedItem> = Vec::new();
    let mut i: usize = 0;
    while i < ls.len()
        invariant
            ls@.len() == sls.len(),
            forall|j: int| 0 <= j < ls@.len() ==> #[trigger] ls@[j]@ == sls[j],
            i <= ls.len(),
            item_views(items@) == parsed_lines(sls.take(i as int)),
        decreases ls.len() - i,
    {
        let parsed = parse_line_of(&ls[i]);
        proof {
            assert(ls@[i as int]@ == sls[i as int]);
            assert(sls.take(i + 1).drop_last() == sls.take(i as int));
            assert(sls.take(i + 1).last() == sls[i as int]);
        }
        match parsed {
            Some(item) => {
                let ghost before = items@;
                items.push(item);
                assert(item_views(items@) =~= item_views(before).push(item_view(item)));
            },
            None => {},
        }
        i += 1;
    }
    assert(sls.take(ls@.len() as int) == sls);
    if output.is_empty() == false && items.len() == 0 {
        return Err(String::from_str("Could not parse clipboard history"));
    }
    Ok(items)
}

/// The history from what `cliphist list` printed, if it ran: it must be
/// valid UTF-8, and is then read as `parse_list` reads it.
pub fn history(output: Option<Vec<u8>>) -> (r: Result<Vec<LoadedItem>, String>)
    ensures
        match output {
            None => r matches Err(e) && e@ == "Could not read clipboard history"@,
            Some(bytes) => if !valid_utf8(bytes@) {
                r matches Err(e) && e@ == "Clipboard history contains invalid text"@
            } else {
                let ls = lines(decode_utf8(bytes@));
                match r {
                    Ok(items) => item_views(items@) == parsed_lines(ls) && (bytes@.len() == 0
                        || parsed_lines(ls).len() > 0),
                    Err(e) => e@ == "Could not parse clipboard history"@ && bytes@.len() > 0
                        && parsed_lines(ls).len() == 0,
                }
            },
        },
{
    let bytes = match output {
        Some(bytes) => bytes,
        None => return Err(String::from_str("Could not read clipboard history")),
    };
    let ghost b = bytes@;
    let text = match text_from_utf8(bytes) {
        Some(text) => text,
        None => return Err(String::from_str("Clipboard history contains invalid text")),
    };
    proof {
        lemma_decode_utf8_empty(b);
    }
    parse_list(text.as_str())
}

/// Valid UTF-8 decodes to no text exactly when it has no bytes.
proof fn lemma_decode_utf8_empty(bytes: Seq<u8>)
    requires
        valid_utf8(bytes),
    ensures
        (decode_utf8(bytes).len() == 0) == (bytes.len() == 0),
{
    if bytes.len() > 0 {
        assert(decode_utf8(bytes) == seq![decode_first_scalar(bytes) as char] + decode_utf8(
            pop_first_scalar(bytes),
        ));
    }
}

/// The id of a history entry to restore: it must be a `u64`.
pub fn entry_id(id: &str) -> (r: Result<u64, String>)
    ensures
        match r {
            Ok(v) => u64_text(id@) == Some(v as nat),
            Err(e) => u64_text(id@) is None && e@ == "Invalid clipboard entry"@,
        },
{
    match parse_u64(&chars_of(id)) {
        Some(v) => Ok(v),
        None => Err(String::from_str("Invalid clipboard entry")),
    }
}

} // verus!
