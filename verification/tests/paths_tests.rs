use itb_io::paths::{
    anchor, begins_with_name, extension, file_name, file_stem, is_canonical, is_child,
    is_plain_name, is_within, join, join_all, parent, relative_tail, same_text,
    with_forward_slashes,
};

#[test]
fn backslashes_become_forward_slashes() {
    assert_eq!("a/b/c.txt", with_forward_slashes("a\\b/c.txt"));
    assert_eq!("", with_forward_slashes(""));
    assert_eq!("///", with_forward_slashes("\\/\\"));
}

#[test]
fn non_ascii_text_is_kept() {
    assert_eq!("sauvegarde/été/ü.txt", with_forward_slashes("sauvegarde\\été\\ü.txt"));
    assert_eq!("ü.txt", file_name("/été/ü.txt"));
    assert_eq!(Some("/été".to_string()), parent("/été/ü.txt"));
}

#[test]
fn name_is_what_follows_the_last_separator() {
    assert_eq!("c.txt", file_name("/a/b/c.txt"));
    assert_eq!("asd", file_name("asd"));
    assert_eq!("", file_name("/"));
    assert_eq!("", file_name(""));
}

#[test]
fn parent_drops_the_last_component() {
    assert_eq!(Some("/a/b".to_string()), parent("/a/b/c.txt"));
    assert_eq!(Some("/".to_string()), parent("/a"));
    assert_eq!(Some("".to_string()), parent("asd"));
    assert_eq!(None, parent("/"));
    assert_eq!(None, parent(""));
}

#[test]
fn extension_follows_the_last_dot() {
    assert_eq!(Some("txt".to_string()), extension("/a/b/c.txt"));
    assert_eq!(Some("gz".to_string()), extension("archive.tar.gz"));
    assert_eq!(Some("".to_string()), extension("trailing."));
    assert_eq!(None, extension("/a/b/c"));
    assert_eq!(None, extension("/a/.hidden"));
    assert_eq!(None, extension("/a.d/c"));
    assert_eq!(None, extension(".."));
}

#[test]
fn stem_is_the_name_without_its_extension() {
    assert_eq!("c", file_stem("/a/b/c.txt"));
    assert_eq!("archive.tar", file_stem("archive.tar.gz"));
    assert_eq!("trailing", file_stem("trailing."));
    assert_eq!(".hidden", file_stem("/a/.hidden"));
    assert_eq!("c", file_stem("/a/b/c"));
    assert_eq!("..", file_stem(".."));
}

#[test]
fn canonical_paths_are_recognised() {
    assert!(is_canonical("/"));
    assert!(is_canonical("/games/Into the Breach"));
    assert!(is_canonical("/a/.hidden/..b/c.d"));
    assert!(is_canonical("/a/..."));
    assert!(!is_canonical(""));
    assert!(!is_canonical("games"));
    assert!(!is_canonical("./games"));
    assert!(!is_canonical("/games/"));
    assert!(!is_canonical("/games//itb"));
    assert!(!is_canonical("//"));
    assert!(!is_canonical("/games/./itb"));
    assert!(!is_canonical("/games/../itb"));
    assert!(!is_canonical("/games/."));
    assert!(!is_canonical("/games/.."));
    assert!(!is_canonical("/."));
    assert!(!is_canonical("/.."));
}

#[test]
fn containment_goes_by_whole_components() {
    assert!(is_within("/games", "/games"));
    assert!(is_within("/games/itb/scripts/mod.lua", "/games/itb"));
    assert!(is_within("/games", "/"));
    assert!(is_within("/", "/"));
    assert!(!is_within("/games2", "/games"));
    assert!(!is_within("/games2/itb", "/games"));
    assert!(!is_within("/game", "/games"));
    assert!(!is_within("/", "/games"));
    assert!(!is_within("/other/games", "/games"));
    assert!(!is_within("/games", ""));
    assert!(is_within("", ""));
}

#[test]
fn join_puts_one_separator_between() {
    assert_eq!("asd/qwe", join("asd", "qwe"));
    assert_eq!("/qwe", join("/", "qwe"));
    assert_eq!("asd/qwe", join("asd/", "qwe"));
    assert_eq!("asd/../qwe", join("asd", "../qwe"));
}

#[test]
fn join_handles_empty_and_rooted_segments() {
    assert_eq!("asd", join("asd", ""));
    assert_eq!("qwe", join("", "qwe"));
    assert_eq!("/etc/passwd", join("/games/itb", "/etc/passwd"));
}

#[test]
fn join_all_adjoins_in_order() {
    let segments = vec!["qwe".to_string(), "zxc".to_string()];
    assert_eq!("asd/qwe/zxc", join_all("asd", &segments));
    assert_eq!("asd", join_all("asd", &Vec::new()));
    let rooted = vec!["a".to_string(), "/b".to_string(), "c".to_string()];
    assert_eq!("/b/c", join_all("asd", &rooted));
}

#[test]
fn bare_names_are_anchored() {
    assert_eq!("./file.txt", anchor("file.txt"));
    assert_eq!("./Users/Tomek/Documents", anchor("Users/Tomek/Documents"));
    assert_eq!("./E:/Users/Tomek", anchor("E:/Users/Tomek"));
    assert_eq!("./.hidden", anchor(".hidden"));
    assert_eq!("./..b", anchor("..b"));
    assert!(begins_with_name("file.txt"));
}

#[test]
fn anchored_paths_are_left_alone() {
    assert_eq!("/abs/file.txt", anchor("/abs/file.txt"));
    assert_eq!("./file.txt", anchor("./file.txt"));
    assert_eq!("../file.txt", anchor("../file.txt"));
    assert_eq!(".", anchor("."));
    assert_eq!("..", anchor(".."));
    assert_eq!("", anchor(""));
    assert!(!begins_with_name("./Users/Tomek"));
    assert!(!begins_with_name(""));
}

#[test]
fn tail_is_what_lies_below_the_root() {
    assert_eq!("scripts/mod.lua", relative_tail("/games/itb/scripts/mod.lua", "/games/itb"));
    assert_eq!("games/itb", relative_tail("/games/itb", "/"));
    assert_eq!("", relative_tail("/games/itb", "/games/itb"));
}

#[test]
fn plain_names_are_recognised() {
    assert!(is_plain_name("init.lua"));
    assert!(is_plain_name(".hidden"));
    assert!(is_plain_name("..."));
    assert!(is_plain_name("a\\b"));
    assert!(!is_plain_name(""));
    assert!(!is_plain_name("."));
    assert!(!is_plain_name(".."));
    assert!(!is_plain_name("a/b"));
    assert!(!is_plain_name("/"));
}

#[test]
fn a_child_is_the_directory_with_one_name_adjoined() {
    assert!(is_child("/games/itb/init.lua", "/games/itb"));
    assert!(is_child("/bin", "/"));
    assert!(is_child("./Cargo.toml", "."));
    assert!(is_child("asd/qwe", "asd"));
    assert!(is_child("asd/qwe", "asd/"));
    assert!(is_child("qwe", ""));
    assert!(!is_child("/games/itb/scripts/init.lua", "/games/itb"));
    assert!(!is_child("/games/itb", "/games/itb"));
    assert!(!is_child("/games/other/init.lua", "/games/itb"));
    assert!(!is_child("/games/itb/..", "/games/itb"));
    assert!(!is_child("/games/itb/", "/games/itb"));
    assert!(!is_child("/games/itb//x", "/games/itb"));
}

#[test]
fn same_text_compares_character_by_character() {
    assert!(same_text("", ""));
    assert!(same_text("été", "été"));
    assert!(!same_text("ete", "été"));
    assert!(!same_text("a", "ab"));
    assert!(!same_text("ab", "ac"));
}
