use itb_io::error::ErrorKind;
use itb_io::path_filter::{admitted, PathFilter};
use path_absolutize::Absolutize;
use std::path::{Path, PathBuf};

fn sandbox() -> PathFilter {
    let mut filter = PathFilter::new("/games/itb").unwrap();
    filter.adopt_save_data_root("/home/alice/Documents/My Games/Into The Breach").unwrap();
    filter
}

#[test]
fn test() {
    let path = PathBuf::from(".");
    let result = PathFilter::is_save_data_location_valid(path.to_str().unwrap());

    assert!(!result);
}

#[test]
fn test4() {
    let path = PathBuf::from("E:/Users/Tomek/Documents/My Games/Into the Breach");

    for component in path.components().into_iter() {
        println!("{:?}", component)
    }
}

#[test]
fn test5() {
    let path = PathBuf::from("Users/Tomek/Documents/My Games/Into the Breach");

    for component in path.components().into_iter() {
        println!("{:?}", component)
    }
}

#[test]
fn test6() {
    let path = PathBuf::from("./Users/Tomek/Documents/My Games/Into the Breach");

    for component in path.components().into_iter() {
        println!("{:?}", component)
    }
}

#[test]
fn a_canonical_game_directory_is_taken_as_it_is() {
    let filter = PathFilter::new("/games/itb").unwrap();
    assert_eq!("/games/itb", filter.game_directory());
    assert_eq!(None, filter.known_save_data_directory());
}

#[test]
fn a_game_directory_with_dots_is_resolved() {
    let filter = PathFilter::new("/games/./itb/../itb/").unwrap();
    assert_eq!("/games/itb", filter.game_directory());
}

#[test]
fn a_relative_game_directory_is_refused() {
    let error = PathFilter::new("games/itb").err().unwrap();
    assert_eq!(ErrorKind::ResolutionError, error.kind());
    let error = PathFilter::new("").err().unwrap();
    assert_eq!(ErrorKind::ResolutionError, error.kind());
}

#[test]
fn absolutize_starts_relative_paths_at_the_game_root() {
    let filter = PathFilter::new("/games/itb").unwrap();
    assert_eq!("/games/itb/scripts/mod.lua", filter.absolutize("scripts/mod.lua").unwrap());
    assert_eq!("/games/itb/scripts/mod.lua", filter.absolutize("./scripts/mod.lua").unwrap());
    assert_eq!("/games/itb", filter.absolutize("").unwrap());
    assert_eq!("/games/itb", filter.absolutize(".").unwrap());
}

#[test]
fn absolutize_removes_dots() {
    let filter = PathFilter::new("/games/itb").unwrap();
    assert_eq!("/games/other", filter.absolutize("../other").unwrap());
    assert_eq!("/games/itb/b.txt", filter.absolutize("a/../b.txt").unwrap());
    assert_eq!("/etc/passwd", filter.absolutize("/etc/./x/../passwd").unwrap());
    assert_eq!("/", filter.absolutize("../../../..").unwrap());
}

#[test]
fn absolutize_keeps_a_canonical_path() {
    let filter = PathFilter::new("/games/itb").unwrap();
    assert_eq!("/etc/passwd", filter.absolutize("/etc/passwd").unwrap());
    assert_eq!("/", filter.absolutize("/").unwrap());
}

#[test]
fn absolutize_does_not_ask_whether_the_path_is_there() {
    let filter = PathFilter::new("/no/such/game").unwrap();
    assert_eq!("/no/such/game/nothing/here", filter.absolutize("nothing/here").unwrap());
}

#[test]
fn checked_accepts_canonical_paths_only() {
    assert_eq!("/games/itb", PathFilter::checked(Some("/games/itb".to_string())).unwrap());
    let error = PathFilter::checked(Some("games/itb".to_string())).err().unwrap();
    assert_eq!(ErrorKind::ResolutionError, error.kind());
    assert_eq!("The path could not be resolved", error.message());
    let error = PathFilter::checked(None).err().unwrap();
    assert_eq!(ErrorKind::ResolutionError, error.kind());
}

#[test]
fn paths_below_a_root_are_whitelisted() {
    let mut filter = sandbox();
    assert!(filter.is_whitelisted("/games/itb").unwrap());
    assert!(filter.is_whitelisted("/games/itb/scripts/mod.lua").unwrap());
    assert!(filter.is_whitelisted("scripts/mod.lua").unwrap());
    assert!(filter.is_whitelisted("./scripts/../maps/a.map").unwrap());
    assert!(filter
        .is_whitelisted("/home/alice/Documents/My Games/Into The Breach/profile_Alpha/save.lua")
        .unwrap());
}

#[test]
fn paths_outside_both_roots_are_not_whitelisted() {
    let mut filter = sandbox();
    assert!(!filter.is_whitelisted("/games/other").unwrap());
    assert!(!filter.is_whitelisted("../other").unwrap());
    assert!(!filter.is_whitelisted("/games/itb2").unwrap());
    assert!(!filter.is_whitelisted("scripts/../../other/x").unwrap());
    assert!(!filter.is_whitelisted("/home/alice/Documents").unwrap());
    assert!(!filter.is_whitelisted("/").unwrap());
}

#[test]
fn the_game_root_needs_no_save_data_root() {
    let mut filter = PathFilter::new("/games/itb").unwrap();
    assert!(filter.is_whitelisted("/games/itb/scripts").unwrap());
    assert!(filter.is_whitelisted("scripts").unwrap());
    assert_eq!(None, filter.known_save_data_directory());
}

#[test]
fn a_missing_save_data_root_is_a_failure_not_a_refusal() {
    let mut filter = PathFilter::new("/no/such/game").unwrap();
    let error = filter.is_whitelisted("/etc/passwd").err().unwrap();
    assert_eq!(ErrorKind::NoSaveDataLocation, error.kind());
    assert!(error.is_permanent());
}

#[test]
fn authorize_refuses_with_the_given_message() {
    let mut filter = sandbox();
    assert!(filter.authorize("/games/itb/scripts", "no").is_ok());
    let error = filter.authorize("/games/other", "not in here").err().unwrap();
    assert_eq!(ErrorKind::AccessDenied, error.kind());
    assert_eq!("not in here", error.message());
    assert!(error.is_permanent());
}

#[test]
fn request_gives_the_canonical_path() {
    let mut filter = sandbox();
    assert_eq!("/games/itb/file.txt", filter.request("file.txt", "no").unwrap());
    assert_eq!("/games/itb/b.txt", filter.request("a/../b.txt", "no").unwrap());
    assert_eq!("/games/itb/b.txt", filter.request("/games/itb/b.txt", "no").unwrap());
}

#[test]
fn request_refuses_what_lies_outside() {
    let mut filter = sandbox();
    let error = filter.request("../other/file.txt", "no").err().unwrap();
    assert_eq!(ErrorKind::AccessDenied, error.kind());
    assert_eq!("no", error.message());
}

#[test]
fn request_refuses_an_empty_path() {
    let mut filter = sandbox();
    let error = filter.request("", "no").err().unwrap();
    assert_eq!(ErrorKind::ResolutionError, error.kind());
    assert!(!error.is_permanent());
}

#[test]
fn candidates_come_in_their_order() {
    let with_documents = PathFilter::save_data_candidates(Some("/home/alice/Documents"));
    assert_eq!(
        vec![
            "/home/alice/Documents/My Games/Into The Breach".to_string(),
            "./../../steamapps/compatdata/590380/pfx/".to_string(),
            "./user".to_string(),
        ],
        with_documents
    );
    let without = PathFilter::save_data_candidates(None);
    assert_eq!(
        vec!["./../../steamapps/compatdata/590380/pfx/".to_string(), "./user".to_string()],
        without
    );
}

#[test]
fn the_marker_file_lies_directly_inside() {
    assert_eq!("/saves/io_test.txt", PathFilter::marker_path("/saves"));
    assert_eq!("./user/io_test.txt", PathFilter::marker_path("./user"));
    assert_eq!("./pfx/io_test.txt", PathFilter::marker_path("./pfx/"));
}

#[test]
fn the_first_marked_location_is_found() {
    assert_eq!(Some(0), PathFilter::first_marked(&vec![true, false, true]));
    assert_eq!(Some(2), PathFilter::first_marked(&vec![false, false, true]));
    assert_eq!(None, PathFilter::first_marked(&vec![false, false, false]));
    assert_eq!(None, PathFilter::first_marked(&Vec::new()));
}

#[test]
fn discovery_returns_the_marked_documents_candidate_and_keeps_it() {
    let mut filter = PathFilter::new("/games/itb").unwrap();
    let candidates = PathFilter::save_data_candidates(Some("/home/alice/Documents"));
    let found = vec![true];
    let root = filter.select_save_data_root(&candidates, &found).unwrap();
    assert_eq!("/home/alice/Documents/My Games/Into The Breach", root);
    assert_eq!(Some(root.clone()), filter.known_save_data_directory());
    // No marker file is on this disk: the second call can only answer from
    // what was kept.
    assert_eq!(root, filter.save_data_directory().unwrap());
    assert_eq!(root, filter.save_data_directory().unwrap());
}

#[test]
fn discovery_resolves_a_relative_candidate_against_the_game_root() {
    let mut filter = PathFilter::new("/steam/common/itb").unwrap();
    let candidates = PathFilter::save_data_candidates(None);
    let root = filter.select_save_data_root(&candidates, &vec![true]).unwrap();
    assert_eq!("/steam/steamapps/compatdata/590380/pfx", root);

    let mut filter = PathFilter::new("/games/itb").unwrap();
    let root = filter.select_save_data_root(&candidates, &vec![false, true]).unwrap();
    assert_eq!("/games/itb/user", root);
}

#[test]
fn discovery_fails_where_nothing_is_marked() {
    let mut filter = PathFilter::new("/games/itb").unwrap();
    let candidates = PathFilter::save_data_candidates(Some("/home/alice/Documents"));
    let unmarked = vec![false, false, false];
    let error = filter.select_save_data_root(&candidates, &unmarked).err().unwrap();
    assert_eq!(ErrorKind::NoSaveDataLocation, error.kind());
    assert_eq!("Could not find a valid save data location", error.message());
    assert_eq!(None, filter.known_save_data_directory());
    let error = filter.select_save_data_root(&candidates, &Vec::new()).err().unwrap();
    assert_eq!(ErrorKind::NoSaveDataLocation, error.kind());
    let error = filter.select_save_data_root(&Vec::new(), &vec![true]).err().unwrap();
    assert_eq!(ErrorKind::NoSaveDataLocation, error.kind());
}

#[test]
fn discovery_on_an_unmarked_disk_fails() {
    let mut filter = PathFilter::new("/no/such/game").unwrap();
    let error = filter.save_data_directory().err().unwrap();
    assert_eq!(ErrorKind::NoSaveDataLocation, error.kind());
    assert_eq!(None, filter.known_save_data_directory());
}

#[test]
fn a_known_save_data_root_is_never_replaced() {
    let mut filter = sandbox();
    let kept = filter.adopt_save_data_root("/somewhere/else").unwrap();
    assert_eq!("/home/alice/Documents/My Games/Into The Breach", kept);
    let kept = filter.select_save_data_root(&vec!["/third".to_string()], &vec![true]).unwrap();
    assert_eq!("/home/alice/Documents/My Games/Into The Breach", kept);
    assert!(!filter.is_whitelisted("/somewhere/else/x").unwrap());
}

#[test]
fn admitted_keeps_what_lies_inside_in_order() {
    let mut filter = sandbox();
    let paths = vec![
        "/games/itb/a".to_string(),
        "/etc/passwd".to_string(),
        "b/c".to_string(),
        "../d".to_string(),
        "/home/alice/Documents/My Games/Into The Breach/e".to_string(),
    ];
    let kept = admitted(&mut filter, &paths).unwrap();
    assert_eq!(
        vec![
            "/games/itb/a".to_string(),
            "b/c".to_string(),
            "/home/alice/Documents/My Games/Into The Breach/e".to_string(),
        ],
        kept
    );
}

#[test]
fn a_canonical_path_is_what_absolutizing_gives() {
    let filter = PathFilter::new("/games/itb").unwrap();
    let cases = ["/", "/games/itb", "/etc/passwd", "/a/.hidden/..b/c.d", "/a/...", "/été/ü.txt"];
    for path in cases.iter() {
        let outside = Path::new(path).absolutize_from("/games/itb").unwrap();
        assert_eq!(outside.to_str().unwrap(), filter.absolutize(path).unwrap());
        let itself = Path::new(path).absolutize_from(*path).unwrap();
        assert_eq!(itself.to_str().unwrap(), PathFilter::new(path).unwrap().game_directory());
    }
}

#[test]
fn every_path_is_resolved_as_absolutizing_does() {
    let filter = PathFilter::new("/games/itb").unwrap();
    let cases = [
        "", ".", "..", "a", "./a", "../a", "a/", "a//b", "a/./b", "a/../b", "/a/", "//", "/..",
        "/a/../..", "../../../x", "a\\b", "E:/Users/Tomek",
    ];
    for path in cases.iter() {
        let outside = Path::new(path).absolutize_from("/games/itb").unwrap();
        assert_eq!(outside.to_str().unwrap(), filter.absolutize(path).unwrap());
    }
}

#[test]
fn without_a_home_directory_there_is_nowhere_to_look() {
    let error = PathFilter::locations_for_user(None).err().unwrap();
    assert_eq!(ErrorKind::NoSaveDataLocation, error.kind());
    assert_eq!(
        "Couldn't retrieve valid home directory path from the operating system",
        error.message()
    );
}

#[test]
fn with_a_home_directory_the_candidates_are_tried() {
    assert_eq!(
        PathFilter::save_data_candidates(None),
        PathFilter::locations_for_user(Some(None)).unwrap()
    );
    assert_eq!(
        PathFilter::save_data_candidates(Some("/home/alice/Documents")),
        PathFilter::locations_for_user(Some(Some("/home/alice/Documents".to_string()))).unwrap()
    );
}

#[test]
fn a_refusal_needs_both_roots() {
    // With the save-data root unknown and none to be found, a path outside
    // the game root is no refusal: the failed search is handed on.
    let mut filter = PathFilter::new("/no/such/game").unwrap();
    let error = filter.authorize("/etc/passwd", "no").err().unwrap();
    assert_eq!(ErrorKind::NoSaveDataLocation, error.kind());
    let error = filter.request("../x", "no").err().unwrap();
    assert_eq!(ErrorKind::NoSaveDataLocation, error.kind());
    // With both roots known the same paths are refused.
    filter.adopt_save_data_root("/saves").unwrap();
    let error = filter.authorize("/etc/passwd", "no").err().unwrap();
    assert_eq!(ErrorKind::AccessDenied, error.kind());
    let error = filter.request("../x", "no").err().unwrap();
    assert_eq!(ErrorKind::AccessDenied, error.kind());
}
