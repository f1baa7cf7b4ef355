//! Bookmarks: the commands exist, but nothing is kept yet.

use vstd::prelude::*;
use vstd::string::*;
use crate::common::text::{decimal, decimal_string};

verus! {

/// What can be done with a bookmark.
#[derive(Debug)]
pub enum BookmarkCommands {
    /// Create a new bookmark
    Add {
        /// URL of the bookmark
        url: String,
        /// Optional Name of the bookmark
        name: Option<String>,
    },
    /// Delete a bookmark
    Delete {
        /// ID of the bookmark
        id: u32,
    },
}

/// The arguments of the bookmark command; without a subcommand it lists.
#[derive(Debug)]
pub struct BookmarkArgs {
    pub command: Option<BookmarkCommands>,
}

/// What the bookmark command reports. A new bookmark without a name is
/// reported with nothing behind `Named : `.
pub open spec fn bookmark_message(args: BookmarkArgs) -> Seq<char> {
    match args.command {
        Some(BookmarkCommands::Add { url, name }) => "Creating bookmark: -> "@ + url@
            + " Named : "@ + (match name {
            Some(n) => n@,
            None => Seq::empty(),
        }),
        Some(BookmarkCommands::Delete { id }) => "Deleting bookmark with id "@ + decimal(
            id as nat,
        ),
        None => "Listing bookmarks"@,
    }
}

/// The report of a bookmark command, for the caller to print.
pub fn handle_bookmark_commands(args: BookmarkArgs) -> (r: String)
    ensures
        r@ == bookmark_message(args),
{
    match args.command {
        Some(BookmarkCommands::Add { url, name }) => {
            let mut r = "Creating bookmark: -> ".to_owned();
            r.append(url.as_str());
            r.append(" Named : ");
            match name {
                Some(n) => {
                    r.append(n.as_str());
                },
                None => {
                    assert(r@ + Seq::<char>::empty() =~= r@);
                },
            }
            r
        },
        Some(BookmarkCommands::Delete { id }) => {
            let mut r = "Deleting bookmark with id ".to_owned();
            r.append(decimal_string(id as u64).as_str());
            r
        },
        None => "Listing bookmarks".to_owned(),
    }
}

} // verus!
