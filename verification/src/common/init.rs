//! Where the notes and their index live.

use vstd::prelude::*;
use vstd::string::*;
use crate::common::text::text_of;

verus! {

/// The path that `std::path::Path::join` makes of a base and what is
/// joined to it.
pub uninterp spec fn joined_path(base: Seq<char>, child: Seq<char>) -> Seq<char>;

/// `std::path::Path::join` of the standard library, on paths that are
/// texts: `child` adjoined to `base`. How the two are put together is left
/// to the platform; the result is only given its name.
#[verifier::external_body]
pub(crate) fn join_path(base: &str, child: &str) -> (r: String)
    ensures
        r@ == joined_path(base@, child@),
{
    std::path::Path::new(base).join(child).to_string_lossy().into_owned()
}

/// `home::home_dir`: the home directory of the user who runs the program,
/// as the environment gives it. `None` where the crate finds none, or where
/// its path is no text. Nothing is claimed of the path.
#[verifier::external_body]
fn user_home() -> (r: Option<String>) {
    match home::home_dir() {
        Some(path) => match path.to_str() {
            Some(text) => Some(text.to_owned()),
            None => None,
        },
        None => None,
    }
}

/// The base directory: the one configured, else `.snb` in the user's home.
pub open spec fn base_dir(configured: Option<Seq<char>>, home: Seq<char>) -> Seq<char> {
    match configured {
        Some(dir) => dir,
        None => home + "/.snb"@,
    }
}

/// The directory of the notes: `home` under the base directory.
pub open spec fn home_dir_of(configured: Option<Seq<char>>, home: Seq<char>) -> Seq<char> {
    joined_path(base_dir(configured, home), "home"@)
}

/// The path of the index file in the directory of the notes.
pub open spec fn index_path_of(home_dir: Seq<char>) -> Seq<char> {
    joined_path(home_dir, ".index"@)
}

/// The directory of the notes for a known user home: `home` under the base
/// directory.
pub fn home_dir_under(configured: Option<String>, home: &str) -> (r: String)
    ensures
        r@ == home_dir_of(text_of(configured), home@),
{
    let base = match configured {
        Some(dir) => dir,
        None => {
            let mut dir = home.to_owned();
            dir.append("/.snb");
            dir
        },
    };
    join_path(base.as_str(), "home")
}

/// The directory of the notes: `home` under the configured base directory,
/// which is all it takes; without one, `home` under `.snb` in the user's
/// home, and `None` where the user has no home directory.
pub fn get_home_dir(configured: Option<String>) -> (r: Option<String>)
    ensures
        match configured {
            Some(dir) => r is Some && r->Some_0@ == joined_path(dir@, "home"@),
            None => r is Some ==> exists|home: Seq<char>|
                r->Some_0@ == #[trigger] home_dir_of(None, home),
        },
{
    match configured {
        Some(dir) => Some(join_path(dir.as_str(), "home")),
        None => match user_home() {
            Some(home) => Some(home_dir_under(None, home.as_str())),
            None => None,
        },
    }
}

/// The path of a note's file in the directory of the notes.
pub fn note_path(home_dir: &str, filename: &str) -> (r: String)
    ensures
        r@ == joined_path(home_dir@, filename@),
{
    join_path(home_dir, filename)
}

} // verus!
