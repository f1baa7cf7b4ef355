use snb::bookmarks::{handle_bookmark_commands, BookmarkArgs, BookmarkCommands};
use snb::common::index::{IndexStore, NotFoundError};
use snb::common::init::{get_home_dir, home_dir_under, note_path};
use snb::folders::{handle_folder_commands, FolderArgs, FolderCommands};
use snb::notes::{add_note, delete_note, list_line, list_notes, note_filename, view_note};

#[test]
fn new_note_with_title_gets_a_title_line() {
    let note = add_note(
        "body".to_string(),
        None,
        Some("My Title".to_string()),
        "md",
    );
    assert_eq!(note.file_name, "my_title.md");
    assert_eq!(note.text, "# My Title\n\nbody");

    let note = add_note(
        "body".to_string(),
        Some("plan.org".to_string()),
        Some("Plan".to_string()),
        "md",
    );
    assert_eq!(note.file_name, "plan.org");
    assert_eq!(note.text, "* Plan\n\nbody");

    let note = add_note(
        "body".to_string(),
        Some("plain.txt".to_string()),
        Some("Plain".to_string()),
        "md",
    );
    assert_eq!(note.text, "Plain\n\nbody");
}

#[test]
fn new_note_without_title_is_the_content() {
    let note = add_note("just this".to_string(), None, None, "adoc");
    assert_eq!(note.text, "just this");
    assert_eq!(note.file_name.len(), 19);
    assert!(note.file_name.ends_with(".adoc"));
}

#[test]
fn note_filename_treats_emptied_slots_as_missing() {
    let store = IndexStore::parse("a.md\n\n c.md \n");
    assert_eq!(note_filename(&store, 1), Ok("a.md".to_string()));
    assert_eq!(note_filename(&store, 2), Err(NotFoundError {}));
    assert_eq!(note_filename(&store, 3), Ok("c.md".to_string()));
    assert_eq!(note_filename(&store, 0), Err(NotFoundError {}));
    assert_eq!(note_filename(&store, 4), Err(NotFoundError {}));
}

#[test]
fn delete_note_tombstones_and_names_the_file() {
    let mut store = IndexStore::parse("a.md\nb.md\nc.md\n");
    assert_eq!(delete_note(&mut store, 2), Ok("b.md".to_string()));
    assert_eq!(store.render(), "a.md\n\nc.md\n");
    assert_eq!(delete_note(&mut store, 2), Err(NotFoundError {}));
    assert_eq!(delete_note(&mut store, 7), Err(NotFoundError {}));
    assert_eq!(delete_note(&mut store, 0), Err(NotFoundError {}));
    assert_eq!(store.render(), "a.md\n\nc.md\n");
    assert_eq!(delete_note(&mut store, 3), Ok("c.md".to_string()));
    assert_eq!(store.render(), "a.md\n\n\n");
}

#[test]
fn list_notes_skips_deleted_notes() {
    let mut store = IndexStore::new();
    store.append("x.md");
    store.append("y.md");
    assert_eq!(delete_note(&mut store, 1), Ok("x.md".to_string()));
    assert_eq!(list_notes(&store), vec![(2usize, "y.md".to_string())]);
}

#[test]
fn listing_line_is_aligned() {
    for (id, name, title) in [
        (1usize, "a.md", "Title"),
        (12, "b.org", ""),
        (123, "c", "x y"),
        (1234, "d.adoc", "T"),
        (0, "", ""),
    ]
    .iter()
    {
        assert_eq!(
            list_line(*id, name, title),
            format!("[{:3}] {} - {}", id, name, title)
        );
    }
    assert_eq!(list_line(7, "n.md", "Seven"), "[  7] n.md - Seven");
}

#[test]
fn view_note_reports_the_id() {
    assert_eq!(view_note(42), "Viewing Note 42");
    assert_eq!(view_note(0), "Viewing Note 0");
}

#[test]
fn folder_reports() {
    let add = FolderArgs {
        command: Some(FolderCommands::Add {
            name: "work".to_string(),
        }),
    };
    assert_eq!(handle_folder_commands(add), "Creating folder with name work");
    let delete = FolderArgs {
        command: Some(FolderCommands::Delete { id: 30 }),
    };
    assert_eq!(handle_folder_commands(delete), "Deleting folder with id 30");
    assert_eq!(
        handle_folder_commands(FolderArgs { command: None }),
        "Listing folders"
    );
}

#[test]
fn bookmark_reports() {
    let add = BookmarkArgs {
        command: Some(BookmarkCommands::Add {
            url: "https://example.org".to_string(),
            name: Some("example".to_string()),
        }),
    };
    assert_eq!(
        handle_bookmark_commands(add),
        "Creating bookmark: -> https://example.org Named : example"
    );
    let delete = BookmarkArgs {
        command: Some(BookmarkCommands::Delete { id: 4000000000 }),
    };
    assert_eq!(
        handle_bookmark_commands(delete),
        "Deleting bookmark with id 4000000000"
    );
    assert_eq!(
        handle_bookmark_commands(BookmarkArgs { command: None }),
        "Listing bookmarks"
    );
}

#[test]
fn bookmark_without_a_name_is_reported_too() {
    let add = BookmarkArgs {
        command: Some(BookmarkCommands::Add {
            url: "https://example.org".to_string(),
            name: None,
        }),
    };
    assert_eq!(
        handle_bookmark_commands(add),
        "Creating bookmark: -> https://example.org Named : "
    );
}

#[test]
fn home_dir_is_under_the_base() {
    let joined = |base: &str, child: &str| {
        std::path::Path::new(base)
            .join(child)
            .to_str()
            .unwrap()
            .to_string()
    };
    assert_eq!(
        home_dir_under(Some("/tmp/base".to_string()), "/home/u"),
        joined("/tmp/base", "home")
    );
    assert_eq!(
        home_dir_under(None, "/home/u"),
        joined("/home/u/.snb", "home")
    );
    assert_eq!(note_path("/tmp/base/home", "a.md"), joined("/tmp/base/home", "a.md"));
    assert_ne!(note_path("/tmp/base/home", "a.md"), "/tmp/base/home");
}

#[test]
fn home_dir_follows_the_configuration() {
    let expected = std::path::Path::new("/tmp/base").join("home");
    assert_eq!(
        get_home_dir(Some("/tmp/base".to_string())),
        Some(expected.to_str().unwrap().to_string())
    );
    assert_eq!(
        get_home_dir(Some("".to_string())),
        Some("home".to_string())
    );
    match get_home_dir(None) {
        Some(dir) => {
            let tail = std::path::Path::new(".snb").join("home");
            assert!(dir.ends_with(tail.to_str().unwrap()));
        }
        None => assert!(home::home_dir().map_or(true, |p| p.to_str().is_none())),
    }
}
