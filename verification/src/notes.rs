//! The note commands: what to write for a new note, which file an id
//! stands for, and how the notes are listed.

use vstd::prelude::*;
use vstd::string::*;
use crate::common::index::{
    entries, find_from, live, looked_up, names, tombstoned, IndexStore, NotFoundError,
};
use crate::common::text::{decimal, decimal_string, extension_of, text_of, trim, trimmed};
use crate::common::utils::{
    chosen_filename, get_filename, get_title_from_extension, title_mark,
};

verus! {

/// A note about to be written: the name of its file and the text to put
/// into it.
#[derive(Debug)]
pub struct NewNote {
    pub file_name: String,
    pub text: String,
}

/// The text of a new note: the content, below a title line and an empty
/// line where a title is given.
pub open spec fn note_text(
    content: Seq<char>,
    title: Option<Seq<char>>,
    file_name: Seq<char>,
) -> Seq<char> {
    match title {
        Some(t) => title_mark(extension_of(file_name)) + t + "\n\n"@ + content,
        None => content,
    }
}

/// The file name that slot `id` holds for a note that still exists: the
/// slot trimmed, unless that leaves nothing.
pub open spec fn live_name(slots: Seq<Seq<char>>, id: int) -> Option<Seq<char>> {
    match looked_up(slots, id) {
        Some(slot) => if trim(slot).len() > 0 {
            Some(trim(slot))
        } else {
            None
        },
        None => None,
    }
}

/// `text` behind as many spaces as it takes to fill `width` characters.
pub open spec fn right_aligned(text: Seq<char>, width: nat) -> Seq<char>
    decreases width,
{
    if text.len() >= width {
        text
    } else {
        seq![' '] + right_aligned(text, (width - 1) as nat)
    }
}

/// A line of the listing: the id in brackets, at least three wide, then the
/// file name, a dash and the title.
pub open spec fn listing_line(id: nat, filename: Seq<char>, title: Seq<char>) -> Seq<char> {
    seq!['['] + right_aligned(decimal(id), 3) + "] "@ + filename + " - "@ + title
}

/// Decides what a new note is called and what its file holds. The file
/// name is the one asked for, else made from the title, else from the local
/// time; `ext` is the extension of a name that is made up.
pub fn add_note(content: String, filename: Option<String>, title: Option<String>, ext: &str) -> (r:
    NewNote)
    ensures
        filename is Some || title is Some ==> r.file_name@ == chosen_filename(
            text_of(filename),
            text_of(title),
            ext@,
            Seq::empty(),
        ),
        exists|timestamp: Seq<char>|
            r.file_name@ == #[trigger] chosen_filename(
                text_of(filename),
                text_of(title),
                ext@,
                timestamp,
            ),
        r.text@ == note_text(content@, text_of(title), r.file_name@),
{
    let file_name = get_filename(filename, title.clone(), ext);
    let text = match title {
        Some(t) => {
            let mut text = get_title_from_extension(t.as_str(), file_name.as_str());
            text.append("\n\n");
            text.append(content.as_str());
            text
        },
        None => content,
    };
    NewNote { file_name, text }
}

/// The file of note `id`. An id whose slot was emptied is not found, as is
/// an id that was never given out.
pub fn note_filename(store: &IndexStore, id: usize) -> (r: Result<String, NotFoundError>)
    ensures
        match live_name(store@, id as int) {
            Some(name) => r is Ok && r->Ok_0@ == name,
            None => r is Err,
        },
{
    match store.lookup(id) {
        Ok(slot) => {
            let name = trimmed(slot.as_str());
            if name.as_str().is_empty() {
                Err(NotFoundError {  })
            } else {
                Ok(name)
            }
        },
        Err(e) => Err(e),
    }
}

/// Deletes note `id` from the index and returns the name of the file to
/// remove. The first slot that names that file is emptied; no id changes.
/// Where the note is not found, the index stays as it is.
pub fn delete_note(store: &mut IndexStore, id: usize) -> (r: Result<String, NotFoundError>)
    ensures
        match live_name(old(store)@, id as int) {
            Some(name) => r is Ok && r->Ok_0@ == name && tombstoned(old(store)@, name) == Some(
                final(store)@,
            ),
            None => r is Err && final(store)@ == old(store)@,
        },
{
    match note_filename(store, id) {
        Ok(name) => {
            proof {
                lemma_named_slot_is_found(store@, name@, id - 1);
            }
            match store.tombstone(name.as_str()) {
                Ok(()) => Ok(name),
                Err(e) => Err(e),
            }
        },
        Err(e) => Err(e),
    }
}

/// A file name that some slot names can be tombstoned.
proof fn lemma_named_slot_is_found(slots: Seq<Seq<char>>, filename: Seq<char>, k: int)
    requires
        0 <= k < slots.len(),
        names(slots[k], filename),
    ensures
        tombstoned(slots, filename) is Some,
{
    lemma_found_before(slots, filename, 0, k);
}

/// The search from `i` stops at or before a slot that names the file.
proof fn lemma_found_before(slots: Seq<Seq<char>>, filename: Seq<char>, i: int, k: int)
    requires
        0 <= i <= k < slots.len(),
        names(slots[k], filename),
    ensures
        find_from(slots, filename, i) <= k,
    decreases k - i,
{
    if i < k && !names(slots[i], filename) {
        lemma_found_before(slots, filename, i + 1, k);
    }
}

/// The report of the view command.
pub fn view_note(id: u32) -> (r: String)
    ensures
        r@ == "Viewing Note "@ + decimal(id as nat),
{
    let mut r = "Viewing Note ".to_owned();
    r.append(decimal_string(id as u64).as_str());
    r
}

/// The notes to list: those that still exist, each with its id and the
/// name of its file.
pub fn list_notes(store: &IndexStore) -> (r: Vec<(usize, String)>)
    ensures
        entries(r@) == live(store@, store@.len() as int),
{
    store.live_entries()
}

/// One line of the listing.
pub fn list_line(id: usize, filename: &str, title: &str) -> (r: String)
    ensures
        r@ == listing_line(id as nat, filename@, title@),
{
    let number = decimal_string(id as u64);
    let len: usize = number.as_str().unicode_len();
    let mut r = String::new();
    r.push('[');
    let mut width: usize = 3;
    while width > len
        invariant
            len == decimal(id as nat).len(),
            r@ + right_aligned(decimal(id as nat), width as nat) == seq!['['] + right_aligned(
                decimal(id as nat),
                3,
            ),
        decreases width,
    {
        let ghost before = r@;
        r.push(' ');
        width -= 1;
        assert(r@ + right_aligned(decimal(id as nat), width as nat) =~= before + (seq![' ']
            + right_aligned(decimal(id as nat), width as nat)));
    }
    r.append(number.as_str());
    r.append("] ");
    r.append(filename);
    r.append(" - ");
    r.append(title);
    r
}

} // verus!
