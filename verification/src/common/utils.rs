//! File names, titles and the programs that show and edit a note.

use vstd::prelude::*;
use vstd::string::*;
use crate::common::index::{looked_up, IndexStore, NotFoundError};
use crate::common::text::{
    extension, extension_of, lines_of, same_text, split_lines, strip_leading, stripped, text_of,
    texts, trim, trimmed, underscored, with_underscores,
};

verus! {

/// The lower-case form of a text, as `str::to_lowercase` of the standard
/// library gives it.
pub uninterp spec fn lowercased(s: Seq<char>) -> Seq<char>;

/// `str::to_lowercase` of the standard library: the lower-case form of the
/// whole text by Unicode's rules, which look at a character's neighbours and
/// may change the length. The rules are not spelled out here; the result is
/// only given its name.
#[verifier::external_body]
fn lowercase(s: &str) -> (r: String)
    ensures
        r@ == lowercased(s@),
{
    s.to_lowercase()
}

/// `chrono::Local::now`, formatted by `DateTime::format` with the pattern
/// `%Y%m%d%H%M%S`: the local time of the call as year, month, day, hour,
/// minute and second. Nothing is claimed of the result, which differs from
/// call to call. The crate reads the system clock, which it expects not to
/// stand before 1970.
#[verifier::external_body]
pub fn get_current_timestamp() -> (r: String) {
    chrono::Local::now().format("%Y%m%d%H%M%S").to_string()
}

/// The mark that opens a title line in a file with the given extension.
pub open spec fn title_mark(ext: Seq<char>) -> Seq<char> {
    if ext == "md"@ {
        "# "@
    } else if ext == "org"@ {
        "* "@
    } else if ext == "adoc"@ {
        "= "@
    } else {
        Seq::empty()
    }
}

/// The first line of a text, or the empty text where it has no line.
pub open spec fn first_line(content: Seq<char>) -> Seq<char> {
    let lines = split_lines(content);
    if lines.len() > 0 {
        lines[0]
    } else {
        Seq::empty()
    }
}

/// The name of a new note's file: the name asked for; else the title in
/// lower case with underscores for spaces; else the time stamp; the last
/// two followed by a dot and the extension.
pub open spec fn chosen_filename(
    filename: Option<Seq<char>>,
    title: Option<Seq<char>>,
    ext: Seq<char>,
    timestamp: Seq<char>,
) -> Seq<char> {
    match (filename, title) {
        (Some(name), _) => name,
        (None, Some(t)) => underscored(lowercased(t)) + seq!['.'] + ext,
        (None, None) => timestamp + seq!['.'] + ext,
    }
}

/// The mark for the extension `ext`.
pub fn mark_for(ext: &str) -> (r: &'static str)
    ensures
        r@ == title_mark(ext@),
{
    if same_text(ext, "md") {
        "# "
    } else if same_text(ext, "org") {
        "* "
    } else if same_text(ext, "adoc") {
        "= "
    } else {
        let r = "";
        proof {
            reveal_strlit("");
            assert(r@ =~= Seq::<char>::empty());
        }
        r
    }
}

/// The title line of a note: the title behind the mark that the file's
/// extension calls for, and the bare title for any other extension.
pub fn get_title_from_extension(title: &str, file_path: &str) -> (r: String)
    ensures
        r@ == title_mark(extension_of(file_path@)) + title@,
{
    let ext = extension(file_path);
    let mut r = mark_for(ext.as_str()).to_owned();
    r.append(title);
    r
}

/// The title of a note as a listing shows it: the first line of the
/// content, trimmed, without the marks that the file's extension puts in
/// front of a title.
pub fn get_simple_title(content: &str, file_path: &str) -> (r: String)
    ensures
        r@ == strip_leading(trim(first_line(content@)), title_mark(extension_of(file_path@))),
{
    let lines = lines_of(content);
    let first = if lines.len() > 0 {
        assert(texts(lines@)[0] == lines@[0]@);
        trimmed(lines[0].as_str())
    } else {
        let e = trimmed("");
        proof {
            reveal_strlit("");
            assert(""@ =~= Seq::<char>::empty());
            assert(trim(Seq::<char>::empty()) =~= Seq::<char>::empty());
        }
        e
    };
    let ext = extension(file_path);
    stripped(first.as_str(), mark_for(ext.as_str()))
}

/// The file name of a new note, given the time stamp to fall back on.
pub fn filename_with_timestamp(
    filename: Option<String>,
    title: Option<String>,
    ext: &str,
    timestamp: &str,
) -> (r: String)
    ensures
        r@ == chosen_filename(text_of(filename), text_of(title), ext@, timestamp@),
{
    match filename {
        Some(name) => name,
        None => {
            let mut r = match title {
                Some(t) => {
                    let lower = lowercase(t.as_str());
                    with_underscores(lower.as_str())
                },
                None => timestamp.to_owned(),
            };
            r.push('.');
            r.append(ext);
            r
        },
    }
}

/// The file name of a new note with the extension `ext`: the name asked
/// for, as it is; else one made from the title; else one made from the
/// local time of the call.
pub fn get_filename(filename: Option<String>, title: Option<String>, ext: &str) -> (r: String)
    ensures
        filename is Some || title is Some ==> r@ == chosen_filename(
            text_of(filename),
            text_of(title),
            ext@,
            Seq::empty(),
        ),
        exists|timestamp: Seq<char>|
            r@ == #[trigger] chosen_filename(text_of(filename), text_of(title), ext@, timestamp),
{
    if filename.is_none() && title.is_none() {
        let now = get_current_timestamp();
        filename_with_timestamp(filename, title, ext, now.as_str())
    } else {
        let r = filename_with_timestamp(filename, title, ext, "");
        assert(r@ == chosen_filename(text_of(filename), text_of(title), ext@, Seq::empty()));
        r
    }
}

/// The extension of new notes: the one configured, else `md`.
pub fn default_extension(configured: Option<String>) -> (r: String)
    ensures
        r@ == (match configured {
            Some(e) => e@,
            None => "md"@,
        }),
{
    match configured {
        Some(e) => e,
        None => "md".to_owned(),
    }
}

/// The program that edits a note: the editor configured, else the visual
/// editor configured, else `vi`.
pub fn editor_program(editor: Option<String>, visual: Option<String>) -> (r: String)
    ensures
        r@ == (match (editor, visual) {
            (Some(e), _) => e@,
            (None, Some(v)) => v@,
            (None, None) => "vi"@,
        }),
{
    match editor {
        Some(e) => e,
        None => match visual {
            Some(v) => v,
            None => "vi".to_owned(),
        },
    }
}

/// The program that shows a note: the pager configured, else `less`.
pub fn pager_program(pager: Option<String>) -> (r: String)
    ensures
        r@ == (match pager {
            Some(p) => p@,
            None => "less"@,
        }),
{
    match pager {
        Some(p) => p,
        None => "less".to_owned(),
    }
}

/// The file name in slot `id` of the index file whose content is given.
pub fn get_filename_from_index(content: &str, id: usize) -> (r: Result<String, NotFoundError>)
    ensures
        match looked_up(split_lines(content@), id as int) {
            Some(slot) => r is Ok && r->Ok_0@ == slot,
            None => r is Err,
        },
{
    IndexStore::parse(content).lookup(id)
}

} // verus!
