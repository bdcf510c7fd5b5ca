use cpb::path::{correct, find_first_str, glob_dir, join, replace_first_str};

#[test]
fn correct_cuts_trailing_glob() {
    assert_eq!(correct("dir/*".to_string()), "dir");
    assert_eq!(correct("dir/*.log".to_string()), "dir");
    assert_eq!(correct("a/*/b/*".to_string()), "a");
}

#[test]
fn correct_normalizes_backslashes() {
    assert_eq!(correct("a\\b\\c".to_string()), "a/b/c");
    assert_eq!(correct("a\\b/c".to_string()), "a/b/c");
    assert_eq!(correct("dir\\*".to_string()), "dir");
}

#[test]
fn correct_strips_one_leading_separator() {
    assert_eq!(correct("/abs/x".to_string()), "abs/x");
    assert_eq!(correct("\\lead".to_string()), "lead");
    assert_eq!(correct("//two".to_string()), "/two");
}

#[test]
fn correct_keeps_plain_paths() {
    assert_eq!(correct("".to_string()), "");
    assert_eq!(correct("./x".to_string()), "./x");
    assert_eq!(correct("*/a".to_string()), "*/a");
    assert_eq!(correct("plain/file.txt".to_string()), "plain/file.txt");
}

#[test]
fn glob_dir_strips_dot_slash() {
    assert_eq!(glob_dir("./src".to_string()), "src");
    assert_eq!(glob_dir(".\\src".to_string()), "src");
    assert_eq!(glob_dir("src/*".to_string()), "src");
    assert_eq!(glob_dir("*.log".to_string()), "*.log");
    assert_eq!(glob_dir("src".to_string()), "src");
}

#[test]
fn join_inserts_exactly_one_separator() {
    assert_eq!(join("dest".to_string(), "a.txt".to_string()), "dest/a.txt");
    assert_eq!(join("dest/".to_string(), "a.txt".to_string()), "dest/a.txt");
    assert_eq!(join("dest".to_string(), "/a.txt".to_string()), "dest/a.txt");
    assert_eq!(join("d\\e".to_string(), "x".to_string()), "d/e/x");
    assert_eq!(join("".to_string(), "x".to_string()), "/x");
}

#[test]
fn join_reduces_a_trailing_separator_run_to_one() {
    assert_eq!(join("dst//".to_string(), "a".to_string()), "dst/a");
    assert_eq!(join("dst///".to_string(), "a.txt".to_string()), "dst/a.txt");
    assert_eq!(join("d\\e\\\\".to_string(), "x".to_string()), "d/e/x");
    assert_eq!(join("//".to_string(), "x".to_string()), "/x");
}

#[test]
fn join_corrects_the_fragment() {
    assert_eq!(join("dest".to_string(), "sub/*".to_string()), "dest/sub");
    assert_eq!(join("dest".to_string(), "a\\b".to_string()), "dest/a/b");
}

#[test]
fn find_first_str_finds_leftmost() {
    assert_eq!(find_first_str("abcabc", "bc"), Some(1));
    assert_eq!(find_first_str("abc", "zz"), None);
    assert_eq!(find_first_str("abc", ""), Some(0));
    assert_eq!(find_first_str("", "a"), None);
    assert_eq!(find_first_str("aaa", "aa"), Some(0));
}

#[test]
fn replace_first_str_replaces_leftmost_only() {
    assert_eq!(replace_first_str("src/x/src", "src", ""), "/x/src");
    assert_eq!(replace_first_str("a.log", "*.log", "."), "a.log");
    assert_eq!(replace_first_str("src/x.txt", "src", "."), "./x.txt");
    assert_eq!(replace_first_str("abc", "", "."), ".abc");
}
