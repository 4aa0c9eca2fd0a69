//! Listing the entries of the current directory.

use vstd::prelude::*;

use crate::text::{decimal, decimal_string, string_with_tail};

verus! {

/// How one directory entry is shown.
#[derive(Debug)]
pub struct ListEntry {
    /// Whether the name starts with `.`; hidden entries are shown dimmed.
    pub hidden: bool,
    /// `(<size> bytes)` when sizes are shown, else empty.
    pub size_note: String,
}

/// Whether a file name marks a hidden entry: it starts with `.`.
pub open spec fn is_hidden_spec(name: Seq<char>) -> bool {
    name.len() > 0 && name[0] == '.'
}

/// Whether a file name marks a hidden entry: it starts with `.`.
pub fn is_hidden_name(name: &str) -> (r: bool)
    ensures
        r == is_hidden_spec(name@),
{
    let n = name.unicode_len();
    n > 0 && name.get_char(0) == '.'
}

/// The size note of an entry of `size` bytes.
pub open spec fn size_note_spec(size: u64, show_size: bool) -> Seq<char> {
    if show_size {
        "("@ + decimal(size as nat) + " bytes)"@
    } else {
        Seq::empty()
    }
}

/// How the entry `name` of `size` bytes is listed.
pub fn list_entry(name: &str, size: u64, show_size: bool) -> (r: ListEntry)
    ensures
        r.hidden == is_hidden_spec(name@),
        r.size_note@ == size_note_spec(size, show_size),
{
    let hidden = is_hidden_name(name);
    let size_note = if show_size {
        let mut note = string_with_tail("(", &decimal_string(size));
        note.append(" bytes)");
        note
    } else {
        String::new()
    };
    ListEntry { hidden, size_note }
}

} // verus!
