//! Folders: the commands exist, but nothing is kept yet.

use vstd::prelude::*;
use vstd::string::*;
use crate::common::text::{decimal, decimal_string};

verus! {

/// What can be done with a folder.
#[derive(Debug)]
pub enum FolderCommands {
    /// Create a new folder
    Add {
        /// Name of the folder
        name: String,
    },
    /// Delete a folder
    Delete {
        /// ID of the folder
        id: u32,
    },
}

/// The arguments of the folder command; without a subcommand it lists.
#[derive(Debug)]
pub struct FolderArgs {
    pub command: Option<FolderCommands>,
}

/// What the folder command reports.
pub open spec fn folder_message(args: FolderArgs) -> Seq<char> {
    match args.command {
        Some(FolderCommands::Add { name }) => "Creating folder with name "@ + name@,
        Some(FolderCommands::Delete { id }) => "Deleting folder with id "@ + decimal(id as nat),
        None => "Listing folders"@,
    }
}

/// The report of a folder command, for the caller to print.
pub fn handle_folder_commands(args: FolderArgs) -> (r: String)
    ensures
        r@ == folder_message(args),
{
    match args.command {
        Some(FolderCommands::Add { name }) => {
            let mut r = "Creating folder with name ".to_owned();
            r.append(name.as_str());
            r
        },
        Some(FolderCommands::Delete { id }) => {
            let mut r = "Deleting folder with id ".to_owned();
            r.append(decimal_string(id as u64).as_str());
            r
        },
        None => "Listing folders".to_owned(),
    }
}

} // verus!
