use ara_source::path::components;
use ara_source::path::extension;
use ara_source::path::is_absolute;
use ara_source::path::join;
use ara_source::path::split;
use ara_source::path::starts_with;
use ara_source::path::strip_prefix;
use ara_source::text::chars_of;
use ara_source::text::ends_with;
use ara_source::text::same_text;
use ara_source::text::to_decimal;

fn strings(items: &[&str]) -> Vec<String> {
    items.iter().map(|item| item.to_string()).collect()
}

#[test]
fn absolute_paths_begin_with_a_separator() {
    assert!(is_absolute("/"));
    assert!(is_absolute("/usr/lib"));
    assert!(!is_absolute(""));
    assert!(!is_absolute("usr/lib"));
    assert!(!is_absolute("./usr"));
}

#[test]
fn join_puts_one_separator_between() {
    assert_eq!(join("/root", "src"), "/root/src");
    assert_eq!(join("/root/", "src"), "/root/src");
    assert_eq!(join("", "src"), "src");
    assert_eq!(join("/root", ""), "/root/");
    assert_eq!(join("/root", "/other"), "/other");
    assert_eq!(join("rel", "a/b.ara"), "rel/a/b.ara");
}

#[test]
fn split_keeps_empty_pieces() {
    assert_eq!(split(""), strings(&[""]));
    assert_eq!(split("a"), strings(&["a"]));
    assert_eq!(split("a//b/"), strings(&["a", "", "b", ""]));
    assert_eq!(split("/a"), strings(&["", "a"]));
}

#[test]
fn components_drop_what_names_nothing() {
    assert_eq!(components(""), strings(&[]));
    assert_eq!(components("/"), strings(&["/"]));
    assert_eq!(components("/a//b/./c/"), strings(&["/", "a", "b", "c"]));
    assert_eq!(components("./a/./b"), strings(&[".", "a", "b"]));
    assert_eq!(components("."), strings(&["."]));
    assert_eq!(components("a/../b"), strings(&["a", "..", "b"]));
    assert_eq!(components("/./a"), strings(&["/", "a"]));
    assert_eq!(components("héllo/wörld"), strings(&["héllo", "wörld"]));
}

#[test]
fn starts_with_compares_whole_parts() {
    assert!(starts_with("/root/src/main.ara", "/root"));
    assert!(starts_with("/root/src/main.ara", "/root/"));
    assert!(starts_with("/root//src", "/root/src"));
    assert!(starts_with("/root", "/root"));
    assert!(starts_with("anything", ""));
    assert!(!starts_with("/rootless/src", "/root"));
    assert!(!starts_with("/root", "/root/src"));
    assert!(!starts_with("root/src", "/root"));
    assert!(!starts_with("/etc/passwd", "."));
}

#[test]
fn strip_prefix_gives_what_is_below() {
    assert_eq!(
        strip_prefix("/root/src/main.ara", "/root/"),
        Some("src/main.ara".to_string())
    );
    assert_eq!(
        strip_prefix("/root/./vendor//foo/write_line.d.ara", "/root"),
        Some("vendor/foo/write_line.d.ara".to_string())
    );
    assert_eq!(strip_prefix("/root", "/root"), Some("".to_string()));
    assert_eq!(strip_prefix("/a/b", ""), Some("/a/b".to_string()));
    assert_eq!(strip_prefix("/", ""), Some("/".to_string()));
    assert_eq!(strip_prefix("./a/b", "."), Some("a/b".to_string()));
    assert_eq!(strip_prefix("/other/src", "/root"), None);
    assert_eq!(strip_prefix("/rootless", "/root"), None);
}

#[test]
fn extension_follows_the_last_dot_of_the_file_name() {
    assert_eq!(extension("/root/src/main.ara"), Some("ara".to_string()));
    assert_eq!(extension("write_line.d.ara"), Some("ara".to_string()));
    assert_eq!(extension("notes.txt"), Some("txt".to_string()));
    assert_eq!(extension("archive.tar.gz/"), Some("gz".to_string()));
    assert_eq!(extension("trailing."), Some("".to_string()));
    assert_eq!(extension("Makefile"), None);
    assert_eq!(extension(".ara"), None);
    assert_eq!(extension("dir.ara/.."), None);
    assert_eq!(extension("/"), None);
    assert_eq!(extension("."), None);
    assert_eq!(extension(""), None);
    assert_eq!(extension("dir.d/file"), None);
}

#[test]
fn ends_with_compares_the_tail() {
    assert!(ends_with("vendor/foo/write_line.d.ara", ".d.ara"));
    assert!(!ends_with("road.ara", ".d.ara"));
    assert!(ends_with("bad.ara", "d.ara"));
    assert!(ends_with("d.ara", "d.ara"));
    assert!(ends_with("anything", ""));
    assert!(!ends_with("src/main.ara", "d.ara"));
    assert!(!ends_with(".ara", "d.ara"));
    assert!(!ends_with("d.arab", "d.ara"));
}

#[test]
fn text_helpers() {
    assert_eq!(chars_of("añb"), vec!['a', 'ñ', 'b']);
    assert!(same_text("abc", "abc"));
    assert!(!same_text("abc", "abd"));
    assert!(!same_text("abc", "ab"));
}

#[test]
fn decimal_has_no_leading_zeros() {
    assert_eq!(to_decimal(0), "0");
    assert_eq!(to_decimal(7), "7");
    assert_eq!(to_decimal(10), "10");
    assert_eq!(to_decimal(1905), "1905");
    assert_eq!(to_decimal(1234567890), "1234567890");
    assert_eq!(to_decimal(usize::MAX), usize::MAX.to_string());
}
