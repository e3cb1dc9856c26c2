use lodestone::error::PathError;
use lodestone::utils::path_util::{unique_by, PathUtil};
use std::path::{Path, PathBuf};

/// A probe that reports the paths of `taken` as existing, and no other.
fn among(taken: &[&str]) -> impl Fn(&PathBuf) -> bool {
    let taken: Vec<PathBuf> = taken.iter().map(PathBuf::from).collect();
    move |path: &PathBuf| taken.contains(path)
}

#[test]
fn clean_path_name() {
    // Clean path should remain unchanged
    let mut path = std::path::PathBuf::from("/some/file");
    assert_eq!(path.clean().unwrap(), &std::path::PathBuf::from("/some/file"));

    // Invalid chars should be stripped (avoiding \ since it's a path separator on Windows)
    let mut path = std::path::PathBuf::from("/some/Super Duper <?>\"");
    assert_eq!(path.clean().unwrap(), &std::path::PathBuf::from("/some/Super Duper"));

    // Test other invalid chars
    let mut path = std::path::PathBuf::from("/some/file*name|here");
    assert_eq!(path.clean().unwrap(), &std::path::PathBuf::from("/some/filenamehere"));
}

#[test]
fn unique_path_name() {
    // Non-existent file stays unchanged
    let mut path = std::path::PathBuf::from("./some/nonexistent/file");
    assert_eq!(path.unique(), &std::path::PathBuf::from("./some/nonexistent/file"));

    // Existing file gets (1) before extension. The manifest counts as
    // existing from wherever the tests are run.
    let mut path = std::path::PathBuf::from("./Cargo.toml");
    unique_by(&mut path, |probed: &PathBuf| {
        probed == Path::new("./Cargo.toml") || probed.exists()
    });
    assert_eq!(&path, &std::path::PathBuf::from("./Cargo (1).toml"));

    // Directory without extension (src/ exists in this crate)
    let mut path = std::path::PathBuf::from("./src");
    assert_eq!(path.unique(), &std::path::PathBuf::from("./src (1)"));
}

#[test]
fn clean_keeps_a_path_without_final_segment() {
    for text in ["", "/", "..", "/some/.."] {
        let mut path = PathBuf::from(text);
        assert_eq!(path.clean().unwrap(), &PathBuf::from(text));
        assert_eq!(path.as_os_str(), PathBuf::from(text).as_os_str());
    }
}

#[test]
fn clean_leaves_a_valid_name_untouched() {
    // Not even the spelling of the path changes.
    for text in ["/some//file", "/some/dir/", "relative/name.txt", "  padded  ", "/some/ "] {
        let mut path = PathBuf::from(text);
        assert!(path.clean().is_ok());
        assert_eq!(path.as_os_str(), PathBuf::from(text).as_os_str());
    }
}

#[test]
fn clean_strips_each_invalid_character() {
    for c in ['*', ':', '"', '\'', '?', '<', '>', '|'] {
        let mut path = PathBuf::from(format!("/some/be{}fore", c));
        assert_eq!(path.clean().unwrap(), &PathBuf::from("/some/before"));
    }
}

#[test]
fn clean_trims_what_is_left() {
    let mut path = PathBuf::from("/some/ * name ? ");
    assert_eq!(path.clean().unwrap(), &PathBuf::from("/some/name"));
    let mut path = PathBuf::from("dir/\t<inner  space>\u{3000}");
    assert_eq!(path.clean().unwrap(), &PathBuf::from("dir/inner  space"));
}

#[test]
fn clean_only_rewrites_the_final_segment() {
    let mut path = PathBuf::from("/so*me/de:ep/na|me");
    assert_eq!(path.clean().unwrap(), &PathBuf::from("/so*me/de:ep/name"));
    assert_eq!(path.parent(), Some(Path::new("/so*me/de:ep")));
    assert_eq!(path.file_name().unwrap(), "name");
}

#[test]
fn clean_refuses_a_name_of_invalid_characters_and_whitespace() {
    for text in ["/some/*", "/some/<?>", "/some/ * ", "/some/\t:\u{a0}|  ", "?"] {
        let mut path = PathBuf::from(text);
        assert_eq!(path.clean().err(), Some(PathError::EmptyResultAfterSanitization));
        assert_eq!(path, PathBuf::from(text));
    }
}

#[test]
fn clean_twice_is_clean_once() {
    for text in ["/some/file", "/some/Super Duper <?>\"", "/some/file*name|here", "a/ *b* "] {
        let mut once = PathBuf::from(text);
        once.clean().unwrap();
        let mut twice = once.clone();
        twice.clean().unwrap();
        assert_eq!(once.as_os_str(), twice.as_os_str());
    }
}

#[test]
fn clean_keeps_the_segments_before_the_last() {
    for parent in ["", "/", ".", "..", "a/./b", "a//b/", "../x", "/so*me/de:ep"] {
        let before = Path::new(parent).join("na<me>.txt");
        let mut after = before.clone();
        after.clean().unwrap();
        let mut expected: Vec<_> = before.components().collect();
        expected.pop();
        expected.push(std::path::Component::Normal("name.txt".as_ref()));
        assert_eq!(after.components().collect::<Vec<_>>(), expected);
        assert_eq!(after.file_name().unwrap(), "name.txt");
        assert_eq!(after.parent(), before.parent());
    }
}

#[test]
fn clean_can_leave_a_dot_name() {
    // What is left of the name reads as a directory: the path is rewritten
    // all the same.
    let mut path = PathBuf::from("/some/*..");
    path.clean().unwrap();
    assert_eq!(path.as_os_str(), "/some/..");

    // The final segment is then another one, which a second cleaning
    // rewrites in its turn.
    let mut path = PathBuf::from("/so*me/*.");
    path.clean().unwrap();
    assert_eq!(path.as_os_str(), "/so*me/.");
    path.clean().unwrap();
    assert_eq!(path.as_os_str(), "/some");
}

#[test]
fn unique_keeps_a_path_without_final_segment() {
    let mut path = PathBuf::from("/");
    assert_eq!(path.unique(), &PathBuf::from("/"));
    let mut path = PathBuf::from("..");
    unique_by(&mut path, |_: &PathBuf| true);
    assert_eq!(path, PathBuf::from(".."));
}

#[test]
fn unique_by_keeps_a_free_path() {
    let mut path = PathBuf::from("/data/report.txt");
    unique_by(&mut path, among(&["/data/report (1).txt", "/data/other.txt"]));
    assert_eq!(path, PathBuf::from("/data/report.txt"));
}

#[test]
fn unique_by_numbers_from_one() {
    let mut path = PathBuf::from("/data/report");
    unique_by(&mut path, among(&["/data/report"]));
    assert_eq!(path, PathBuf::from("/data/report (1)"));
}

#[test]
fn unique_by_skips_the_numbers_that_are_taken() {
    let taken = ["/data/report.txt", "/data/report (1).txt", "/data/report (2).txt"];
    let mut path = PathBuf::from("/data/report.txt");
    unique_by(&mut path, among(&taken));
    assert_eq!(path, PathBuf::from("/data/report (3).txt"));

    let taken = ["/data/report", "/data/report (1)", "/data/report (3)"];
    let mut path = PathBuf::from("/data/report");
    unique_by(&mut path, among(&taken));
    assert_eq!(path, PathBuf::from("/data/report (2)"));
}

#[test]
fn unique_by_puts_the_number_before_the_last_extension() {
    let mut path = PathBuf::from("backup/archive.tar.gz");
    unique_by(&mut path, among(&["backup/archive.tar.gz"]));
    assert_eq!(path, PathBuf::from("backup/archive.tar (1).gz"));
}

#[test]
fn unique_by_counts_past_nine() {
    let mut taken: Vec<String> = vec![String::from("f.x")];
    for n in 1..=11 {
        taken.push(format!("f ({}).x", n));
    }
    let taken: Vec<&str> = taken.iter().map(String::as_str).collect();
    let mut path = PathBuf::from("f.x");
    unique_by(&mut path, among(&taken));
    assert_eq!(path, PathBuf::from("f (12).x"));
}

#[test]
fn unique_by_keeps_what_is_before_the_final_segment() {
    let mut path = PathBuf::from("/a b/c.d/e");
    unique_by(&mut path, among(&["/a b/c.d/e"]));
    assert_eq!(path.parent(), Some(Path::new("/a b/c.d")));
    assert_eq!(path.file_name().unwrap(), "e (1)");
}

#[test]
fn unique_numbers_an_existing_directory() {
    let mut path = PathBuf::from("src");
    assert_eq!(path.unique(), &PathBuf::from("src (1)"));
    let mut path = PathBuf::from("./tests");
    assert_eq!(path.unique(), &PathBuf::from("./tests (1)"));
}

#[test]
fn unique_numbers_an_existing_file() {
    let mut path = PathBuf::from("src/lib.rs");
    assert_eq!(path.unique(), &PathBuf::from("src/lib (1).rs"));
    assert_eq!(path.unique(), &PathBuf::from("src/lib (1).rs"));
}

#[test]
fn unique_by_asks_about_each_candidate_once_and_in_order() {
    let asked = std::cell::RefCell::new(Vec::new());
    let mut path = PathBuf::from("d/n.e");
    unique_by(&mut path, |probed: &PathBuf| {
        asked.borrow_mut().push(probed.clone());
        asked.borrow().len() <= 3
    });
    assert_eq!(path, PathBuf::from("d/n (3).e"));
    let expected: Vec<PathBuf> =
        ["d/n.e", "d/n (1).e", "d/n (2).e", "d/n (3).e"].iter().map(PathBuf::from).collect();
    assert_eq!(*asked.borrow(), expected);
}

#[test]
fn clean_then_unique() {
    let mut path = PathBuf::from("/data/re:port?.txt");
    path.clean().unwrap();
    unique_by(&mut path, among(&["/data/report.txt"]));
    assert_eq!(path, PathBuf::from("/data/report (1).txt"));
}

#[test]
fn the_error_has_a_message() {
    assert_eq!(
        PathError::EmptyResultAfterSanitization.message(),
        "Path did not contain any valid filename characters"
    );
}
