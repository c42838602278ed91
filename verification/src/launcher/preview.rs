//! Which clipboard texts the launcher previews.
use vstd::prelude::*;

use crate::text::{chars_of, contains_char};

verus! {

/// Whether `text` spans more than one line: only such texts get a preview
/// beside the list, where a single line would repeat the entry's title.
pub fn is_multiline(text: &str) -> (r: bool)
    ensures
        r == (text@.contains('\n') || text@.contains('\r')),
{
    let chars = chars_of(text);
    contains_char(&chars, '\n') || contains_char(&chars, '\r')
}

} // verus!
