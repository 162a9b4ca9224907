use itb_io::directory::{
    children_of_kind, children_walk, listed, normalize, report_way, select, Directory, Entry,
};
use itb_io::effects::Step;
use itb_io::error::ErrorKind;
use itb_io::path_filter::PathFilter;

fn sandbox() -> PathFilter {
    let mut filter = PathFilter::new("/games/itb").unwrap();
    filter.adopt_save_data_root("/saves/itb").unwrap();
    filter
}

fn entry(path: &str, is_file: bool, is_directory: bool) -> Entry {
    Entry { path: Some(path.to_string()), is_file, is_directory }
}

fn listing() -> Vec<Entry> {
    vec![
        entry("/games/itb/scripts", false, true),
        entry("/games/itb/itb.exe", true, false),
        entry("/games/itb/pipe", false, false),
        Entry { path: None, is_file: true, is_directory: false },
        entry("/games/itb/maps", false, true),
        entry("/elsewhere/readme.txt", true, false),
        entry("/games/itb/readme.txt", true, false),
    ]
}

#[test]
fn path_should_be_reported_with_trailing_slash() {
    let dir = Directory::from("asd");

    assert_eq!("asd/", dir.path());
    assert_eq!("asd", dir.path.as_str())
}

#[test]
fn relativize_should_remove_common_path() {
    let dir = Directory::from("some/path");
    let maybe_relative = dir.relativize("some/path/test");

    assert_eq!("test", maybe_relative.unwrap());
}

#[test]
fn relativize_should_add_shorthands() {
    let dir = Directory::from("some/path/test");
    let maybe_relative = dir.relativize("some");

    assert_eq!("../..", maybe_relative.unwrap());
}

#[test]
fn relativize_between_canonical_paths() {
    let dir = Directory::from("/games/itb");
    assert_eq!("scripts/mod.lua", dir.relativize("/games/itb/scripts/mod.lua").unwrap());
    assert_eq!("", dir.relativize("/games/itb").unwrap());
    assert_eq!("..", dir.relativize("/games").unwrap());
    assert_eq!("../other/x", dir.relativize("/games/other/x").unwrap());
    assert_eq!("../itb2", dir.relativize("/games/itb2").unwrap());
    let root = Directory::from("/");
    assert_eq!("games/itb", root.relativize("/games/itb").unwrap());
}

#[test]
fn relativize_finds_no_way_from_an_absolute_directory_to_a_relative_path() {
    let dir = Directory::from("/games/itb");
    assert_eq!(None, dir.relativize("scripts/mod.lua"));
}

#[test]
fn relativize_reports_forward_slashes() {
    let dir = Directory::from("mods");
    assert_eq!("a/b", dir.relativize("mods/a\\b").unwrap());
    assert_eq!(Some("a/b".to_string()), report_way(Some("a\\b".to_string())));
    assert_eq!(None, report_way(None));
}

#[test]
fn relativize_then_join_leads_back() {
    let mut filter = sandbox();
    let dir = Directory::from("/games/itb");
    let target = "/games/itb/scripts/mods/mod.lua";
    let way = dir.relativize(target).unwrap();
    let back = dir.file(&mut filter, &vec![way]).unwrap();
    assert_eq!(target, back.path.as_str());
    let way = dir.relativize("/games/itb").unwrap();
    let back = dir.directory(&mut filter, &vec![way]).unwrap();
    assert_eq!("/games/itb", back.path.as_str());
}

#[test]
fn directory_path_is_normalized() {
    assert_eq!("C:/Games/itb/", normalize("C:\\Games\\itb"));
    assert_eq!("/", normalize(""));
    let dir = Directory::from("/games/itb");
    assert_eq!("/games/itb/", dir.path());
    assert_eq!("itb", dir.name());
}

#[test]
fn file_joins_segments_onto_the_directory() {
    let mut filter = PathFilter::new("/games/itb").unwrap();
    let dir = Directory::from("asd");
    let file = dir.file(&mut filter, &vec!["qwe".to_string(), "zxc".to_string()]).unwrap();
    assert_eq!("asd/qwe/zxc", file.path());
    let sub = dir.directory(&mut filter, &vec!["qwe".to_string()]).unwrap();
    assert_eq!("asd/qwe/", sub.path());
}

#[test]
fn a_join_that_leaves_the_sandbox_is_refused() {
    let mut filter = sandbox();
    let dir = Directory::from("/games/itb/scripts");
    let up = vec!["..".to_string(), "..".to_string(), "other".to_string()];
    let error = dir.file(&mut filter, &up).err().unwrap();
    assert_eq!(ErrorKind::AccessDenied, error.kind());
    assert_eq!("Path points to a file not within an allowed directory", error.message());
    let error = dir.directory(&mut filter, &up).err().unwrap();
    assert_eq!(ErrorKind::AccessDenied, error.kind());
    assert_eq!("Path does not point to an allowed directory", error.message());
    let error = dir.file(&mut filter, &vec!["/etc/passwd".to_string()]).err().unwrap();
    assert_eq!(ErrorKind::AccessDenied, error.kind());
    let inside = dir.file(&mut filter, &vec!["..".to_string(), "maps".to_string()]).unwrap();
    assert_eq!("/games/itb/scripts/../maps", inside.path());
}

#[test]
fn parent_of_a_directory_is_judged() {
    let mut filter = sandbox();
    let dir = Directory::from("/games/itb/scripts");
    let parent = dir.parent(&mut filter).unwrap().unwrap();
    assert_eq!("/games/itb/", parent.path());
    let error = parent.parent(&mut filter).err().unwrap();
    assert_eq!(ErrorKind::AccessDenied, error.kind());
    assert_eq!("Parent is not an allowed directory", error.message());
}

#[test]
fn a_directory_without_parent_has_none() {
    let mut filter = sandbox();
    assert!(Directory::from("/").parent(&mut filter).unwrap().is_none());
    assert!(Directory::from("").parent(&mut filter).unwrap().is_none());
    let parent = Directory::from("asd").parent(&mut filter).unwrap().unwrap();
    assert_eq!("", parent.path.as_str());
}

#[test]
fn make_directories_inside_the_sandbox() {
    let mut filter = sandbox();
    let dir = Directory::from("/saves/itb/profile_Alpha");
    let steps = dir.make_directories(&mut filter).unwrap();
    assert_eq!(
        vec![Step::CreateDirectories { path: "/saves/itb/profile_Alpha".to_string() }],
        steps
    );
}

#[test]
fn make_directories_outside_the_sandbox_is_refused() {
    let mut filter = sandbox();
    let dir = Directory::from("/saves/other");
    let error = dir.make_directories(&mut filter).err().unwrap();
    assert_eq!(ErrorKind::AccessDenied, error.kind());
    assert_eq!("Path does not point to an allowed directory", error.message());
}

#[test]
fn deleting_an_absent_directory_takes_no_step() {
    let dir = Directory::from("/no/such/directory");
    assert!(!dir.exists_on_disk());
    assert_eq!(Vec::<Step>::new(), dir.delete());
    assert_eq!(Vec::<Step>::new(), dir.delete_steps(false));
    assert_eq!(
        vec![Step::RemoveDirectory { path: "/no/such/directory".to_string() }],
        dir.delete_steps(true)
    );
}

#[test]
fn listing_an_absent_directory_is_not_found() {
    let mut filter = sandbox();
    let dir = Directory::from("/no/such/directory");
    let error = dir.files(&mut filter).err().unwrap();
    assert_eq!(ErrorKind::NotFound, error.kind());
    assert_eq!("Directory doesn't exist", error.message());
    let error = dir.directories(&mut filter).err().unwrap();
    assert_eq!(ErrorKind::NotFound, error.kind());
    let error = select(&mut filter, false, &listing(), true).err().unwrap();
    assert_eq!(ErrorKind::NotFound, error.kind());
}

#[test]
fn children_are_told_apart_by_kind() {
    let entries = listing();
    assert_eq!(
        vec![
            "/games/itb/itb.exe".to_string(),
            "/elsewhere/readme.txt".to_string(),
            "/games/itb/readme.txt".to_string(),
        ],
        children_of_kind(&entries, true)
    );
    assert_eq!(
        vec!["/games/itb/scripts".to_string(), "/games/itb/maps".to_string()],
        children_of_kind(&entries, false)
    );
}

#[test]
fn only_children_inside_the_sandbox_are_handed_out() {
    let mut filter = sandbox();
    let files = select(&mut filter, true, &listing(), true).unwrap();
    assert_eq!(
        vec!["/games/itb/itb.exe".to_string(), "/games/itb/readme.txt".to_string()],
        files
    );
    let directories = select(&mut filter, true, &listing(), false).unwrap();
    assert_eq!(
        vec!["/games/itb/scripts".to_string(), "/games/itb/maps".to_string()],
        directories
    );
}

#[test]
fn the_root_directory_lists_directories() {
    let mut filter = PathFilter::new("/").unwrap();
    let root = Directory::from("/");
    assert!(root.exists_on_disk());
    let directories = root.directories(&mut filter).unwrap();
    assert!(!directories.is_empty());
    for directory in directories.iter() {
        assert!(directory.path.starts_with('/'));
        assert!(directory.exists_on_disk());
        assert_eq!("/", directory.parent(&mut filter).unwrap().unwrap().path.as_str());
    }
    for file in root.files(&mut filter).unwrap().iter() {
        assert!(file.exists_on_disk());
    }
}

#[test]
fn listed_children_lie_directly_inside() {
    let mut filter = PathFilter::new("/").unwrap();
    let usr = Directory::from("/usr");
    let directories = usr.directories(&mut filter).unwrap();
    assert!(!directories.is_empty());
    for directory in directories.iter() {
        assert_eq!(format!("/usr/{}", directory.name()), directory.path.as_str());
        assert!(!directory.name().contains('/'));
        assert_eq!("/usr", directory.parent(&mut filter).unwrap().unwrap().path.as_str());
    }
    let dotted = Directory::from("/usr/.");
    for directory in dotted.directories(&mut filter).unwrap().iter() {
        assert_eq!(format!("/usr/./{}", directory.name()), directory.path.as_str());
    }
}

#[test]
fn a_directory_is_walked_one_level_deep_with_links_followed() {
    let how = children_walk();
    assert_eq!(1, how.min_depth);
    assert_eq!(1, how.max_depth);
    assert!(how.follow_links);
}

#[test]
fn a_failed_walk_is_an_io_error() {
    let error = listed(Err("permission denied".to_string()), "/games/itb").err().unwrap();
    assert_eq!(ErrorKind::IoError, error.kind());
    assert_eq!("permission denied", error.message());

    let mut filter = sandbox();
    let dir = Directory::from("/games/itb");
    let failed = Err("permission denied".to_string());
    let error = dir.children_from(&mut filter, true, failed, true).err().unwrap();
    assert_eq!(ErrorKind::IoError, error.kind());
    assert_eq!("permission denied", error.message());
}

#[test]
fn an_absent_directory_comes_before_its_walk() {
    let mut filter = sandbox();
    let dir = Directory::from("/games/itb");
    let error = dir.children_from(&mut filter, false, Ok(listing()), true).err().unwrap();
    assert_eq!(ErrorKind::NotFound, error.kind());
    let error = dir.children_from(&mut filter, false, Err("x".to_string()), true).err().unwrap();
    assert_eq!(ErrorKind::NotFound, error.kind());
}

#[test]
fn only_direct_children_are_listed() {
    let found = vec![
        entry("/games/itb/scripts", false, true),
        entry("/games/itb/scripts/deep.lua", true, false),
        entry("/games/itb", false, true),
        Entry { path: None, is_file: true, is_directory: false },
        entry("/games/other/x.lua", true, false),
        entry("/games/itb/itb.exe", true, false),
    ];
    let entries = listed(Ok(found), "/games/itb").unwrap();
    let paths: Vec<Option<String>> = entries.iter().map(|e| e.path.clone()).collect();
    assert_eq!(
        vec![
            Some("/games/itb/scripts".to_string()),
            None,
            Some("/games/itb/itb.exe".to_string()),
        ],
        paths
    );
    assert!(entries[0].is_directory && !entries[0].is_file);
    assert!(entries[2].is_file && !entries[2].is_directory);
}

#[test]
fn children_are_listed_picked_and_judged() {
    let mut filter = sandbox();
    let dir = Directory::from("/games/itb");
    let files = dir.children_from(&mut filter, true, Ok(listing()), true).unwrap();
    assert_eq!(
        vec!["/games/itb/itb.exe".to_string(), "/games/itb/readme.txt".to_string()],
        files
    );
    let directories = dir.children_from(&mut filter, true, Ok(listing()), false).unwrap();
    assert_eq!(
        vec!["/games/itb/scripts".to_string(), "/games/itb/maps".to_string()],
        directories
    );
    let outside = Directory::from("/elsewhere");
    let none = outside.children_from(&mut filter, true, Ok(listing()), true).unwrap();
    assert!(none.is_empty());
}

#[test]
fn relativize_of_a_descendant_is_what_pathdiff_gives() {
    let cases = [
        ("/games/itb", "/games/itb/scripts/mod.lua"),
        ("/games/itb", "/games/itb"),
        ("/", "/games/itb"),
        ("/", "/"),
        ("/games/itb", "/games/itb/a b/c.d/..e"),
    ];
    for (base, target) in cases.iter() {
        let outside = pathdiff::diff_paths(target, base).unwrap();
        let ours = Directory::from(*base).relativize(target).unwrap();
        assert_eq!(outside.to_str().unwrap(), ours);
    }
}
