use cpb::path::glob_dir;
use cpb::plan::{classify_source, entry_dest, plan_entries, plan_single_file, PlanError,
    SourceKind};

#[test]
fn classify_prefers_file_then_directory() {
    assert_eq!(classify_source(true, false), SourceKind::SingleFile);
    assert_eq!(classify_source(true, true), SourceKind::SingleFile);
    assert_eq!(classify_source(false, true), SourceKind::Directory);
    assert_eq!(classify_source(false, false), SourceKind::GlobPattern);
}

#[test]
fn single_file_to_literal_dest_path() {
    let r = plan_single_file("out/a.txt".to_string(), false);
    assert_eq!(r, Ok("out/a.txt".to_string()));
}

#[test]
fn single_file_onto_directory_is_an_error() {
    let r = plan_single_file("existing_dir".to_string(), true);
    assert_eq!(r, Err(PlanError::DestIsDirectory));
    assert_eq!(PlanError::DestIsDirectory.message(), "USE A FILE PATH IN DEST");
}

#[test]
fn directory_copy_preserves_relative_paths() {
    let source = "src/".to_string();
    let dest = "dst".to_string();
    let root = glob_dir(source.clone());
    let d1 = entry_dest(&"src/x.txt".to_string(), &source, &dest, true, &root);
    let d2 = entry_dest(&"src/sub/y.txt".to_string(), &source, &dest, true, &root);
    assert_eq!(d1, "dst/x.txt");
    assert_eq!(d2, "dst/sub/y.txt");
}

#[test]
fn directory_copy_without_trailing_separator() {
    let source = "src".to_string();
    let dest = "dst".to_string();
    let root = glob_dir(source.clone());
    let d1 = entry_dest(&"src/x.txt".to_string(), &source, &dest, true, &root);
    let d2 = entry_dest(&"src/sub/y.txt".to_string(), &source, &dest, true, &root);
    assert_eq!(d1, "dst/x.txt");
    assert_eq!(d2, "dst/sub/y.txt");
}

#[test]
fn glob_matches_land_under_dest() {
    let root = glob_dir("*.log".to_string());
    assert_eq!(root, "*.log");
    let dest = "logs".to_string();
    let source = "*.log".to_string();
    let d1 = entry_dest(&"a.log".to_string(), &source, &dest, false, &root);
    let d2 = entry_dest(&"b.log".to_string(), &source, &dest, false, &root);
    assert_eq!(d1, "logs/a.log");
    assert_eq!(d2, "logs/b.log");
}

#[test]
fn glob_rooted_directory_entries_are_rewritten_to_dot() {
    let root = glob_dir("src/*".to_string());
    assert_eq!(root, "src");
    let dest = "dst".to_string();
    let source = "src/sub".to_string();
    let d = entry_dest(&"src/sub/y.txt".to_string(), &source, &dest, false, &root);
    assert_eq!(d, "dst/./sub/y.txt");
}

#[test]
fn dot_prefixed_entries_bypass_prefix_stripping() {
    let dest = "dst".to_string();
    let source = "./notes".to_string();
    let root = glob_dir(source.clone());
    let d = entry_dest(&"./notes/x.txt".to_string(), &source, &dest, true, &root);
    assert_eq!(d, "dst/./notes/x.txt");
}

#[test]
fn dot_prefixed_glob_match_keeps_its_shape() {
    let source = "./*.log".to_string();
    let root = glob_dir(source.clone());
    assert_eq!(root, ".");
    let d = entry_dest(&"./a.log".to_string(), &source, &"logs".to_string(), false, &root);
    assert_eq!(d, "logs/./a.log");
}

#[test]
fn empty_entry_batch_plans_no_copies() {
    let entries: Vec<String> = Vec::new();
    let r = plan_entries(
        &entries,
        &"*.missing".to_string(),
        &"dst".to_string(),
        false,
        &"*.missing".to_string(),
    );
    assert!(r.is_empty());
}

#[test]
fn entry_batch_keeps_walk_order() {
    let entries = vec!["src/x.txt".to_string(), "src/sub/y.txt".to_string()];
    let r = plan_entries(
        &entries,
        &"src/".to_string(),
        &"dst".to_string(),
        true,
        &"src".to_string(),
    );
    assert_eq!(r, vec!["dst/x.txt".to_string(), "dst/sub/y.txt".to_string()]);
}
