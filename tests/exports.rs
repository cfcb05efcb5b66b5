use cstutil::{
    compare_paths, cst_find_exports, cst_find_exports_glob, field_data3_export_name, join_path,
    match_options, project_layout, sort_paths, FindError, GlobPattern, ReadFailure,
};

fn strings(items: &[&str]) -> Vec<String> {
    items.iter().map(|s| s.to_string()).collect()
}

#[test]
fn test_cst_find_exports() {
    let path = "../../../test_data/";
    let read = strings(&["../../../test_data/test", "../../../test_data/README.md", "../../../test_data/test.cst"]);
    let found_exports = cst_find_exports(path, Ok(read)).unwrap();
    let here = strings(&["./src", "./Cargo.toml"]);
    assert_eq!(cst_find_exports(".", Ok(here)).unwrap().len(), 2);
    assert_eq!(found_exports[0], "../../../test_data/README.md");
}

#[test]
fn test_find_exports_glob() {
    let path = "../../../test_data/*";
    println!("path: {}", path);
    let found = vec![
        Ok("../../../test_data/README.md".to_string()),
        Ok("../../../test_data/test".to_string()),
    ];
    let found_exports = cst_find_exports_glob(found);
    assert_eq!(found_exports.entries[0], "../../../test_data/README.md");
}

#[test]
fn project_layout_under_test_data() {
    let layout = project_layout("../../../test_data/", "test");
    assert_eq!(layout.project_file, "../../../test_data/test.cst");
    assert_eq!(layout.export_dir, "../../../test_data/test/Export/3d");
}

#[test]
fn test_field_data3_export_name() {
    let field_str = ["e-field", "447", "AC", "1"];
    let field_name = field_data3_export_name(&field_str).unwrap();
    assert_eq!(field_name, "e-field (f=447) [AC1].h5");
}

#[test]
fn export_name_with_three_arguments_is_rejected() {
    let args = ["e-field", "447", "AC"];
    assert_eq!(
        field_data3_export_name(&args),
        Err(FindError::InvalidArgumentCount { count: 3 })
    );
}

#[test]
fn export_name_with_five_arguments_is_rejected() {
    let args = ["e-field", "447", "AC", "1", "x"];
    assert_eq!(
        field_data3_export_name(&args),
        Err(FindError::InvalidArgumentCount { count: 5 })
    );
}

#[test]
fn export_name_with_no_arguments_is_rejected() {
    let args: [&str; 0] = [];
    assert_eq!(
        field_data3_export_name(&args),
        Err(FindError::InvalidArgumentCount { count: 0 })
    );
}

#[test]
fn export_name_keeps_empty_parts() {
    let args = ["", "", "", ""];
    assert_eq!(field_data3_export_name(&args).unwrap(), " (f=) [].h5");
}

#[test]
fn listing_is_sorted_without_repetitions() {
    let read = strings(&["d/b", "d/a.txt", "d/C", "d/b", "d/a"]);
    let listed = cst_find_exports("d", Ok(read)).unwrap();
    assert_eq!(listed, strings(&["d/C", "d/a", "d/a.txt", "d/b"]));
}

#[test]
fn listing_of_empty_directory_is_empty() {
    assert_eq!(cst_find_exports("d", Ok(Vec::new())).unwrap(), Vec::<String>::new());
}

#[test]
fn listing_does_not_depend_on_read_order() {
    let first = cst_find_exports("d", Ok(strings(&["d/z", "d/m", "d/a"]))).unwrap();
    let second = cst_find_exports("d", Ok(strings(&["d/a", "d/z", "d/m"]))).unwrap();
    assert_eq!(first, second);
    assert_eq!(first, strings(&["d/a", "d/m", "d/z"]));
}

#[test]
fn listing_of_missing_directory_is_not_found() {
    let r = cst_find_exports("no/such/dir", Err(ReadFailure::Missing));
    assert_eq!(r, Err(FindError::NotFound { path: "no/such/dir".to_string() }));
}

#[test]
fn listing_of_unreadable_directory_is_access_denied() {
    let r = cst_find_exports("locked", Err(ReadFailure::Unreadable));
    assert_eq!(r, Err(FindError::AccessDenied { path: "locked".to_string() }));
}

#[test]
fn sort_paths_orders_by_code_point() {
    let sorted = sort_paths(strings(&["é", "b", "", "ab", "a", "B"]));
    assert_eq!(sorted, strings(&["", "B", "a", "ab", "b", "é"]));
}

#[test]
fn compare_paths_three_ways() {
    assert_eq!(compare_paths("ab", "b"), -1);
    assert_eq!(compare_paths("b", "ab"), 1);
    assert_eq!(compare_paths("abc", "abc"), 0);
    assert_eq!(compare_paths("ab", "abc"), -1);
    assert_eq!(compare_paths("", ""), 0);
}

#[test]
fn glob_matching_ignores_case() {
    let upper = GlobPattern::new("DATA/*.H5").unwrap();
    assert!(upper.matches("data/e-field.h5"));
    let lower = GlobPattern::new("data/*.h5").unwrap();
    assert!(lower.matches("DATA/E-FIELD.H5"));
    assert!(!lower.matches("data/e-field.txt"));
}

#[test]
fn glob_wildcards_cross_separators_and_match_dot_files() {
    let p = GlobPattern::new("root*.cst").unwrap();
    assert!(p.matches("root/sub/test.cst"));
    let any = GlobPattern::new("dir/*").unwrap();
    assert!(any.matches("dir/.hidden"));
}

#[test]
fn glob_results_keep_found_order_and_skip_failures() {
    let found = vec![
        Ok("d/z.h5".to_string()),
        Err("cannot stat d/broken.h5".to_string()),
        Ok("d/readme.md".to_string()),
        Ok("d/a.H5".to_string()),
    ];
    let m = cst_find_exports_glob(found);
    assert_eq!(m.entries, strings(&["d/z.h5", "d/readme.md", "d/a.H5"]));
    assert_eq!(m.skipped, strings(&["cannot stat d/broken.h5"]));
}

#[test]
fn malformed_pattern_is_reported() {
    assert!(matches!(
        GlobPattern::new("d/***"),
        Err(FindError::InvalidPattern { ref pattern }) if pattern == "d/***"
    ));
    assert!(matches!(GlobPattern::new("d/[ab"), Err(FindError::InvalidPattern { .. })));
    assert_eq!(GlobPattern::new("d/[ab]").unwrap().as_str(), "d/[ab]");
}

#[test]
fn discovery_options_are_permissive() {
    let o = match_options();
    assert!(!o.case_sensitive);
    assert!(!o.require_literal_separator);
    assert!(!o.require_literal_leading_dot);
}

#[test]
fn scaffold_layout_for_test_project() {
    let layout = project_layout("root", "test");
    assert_eq!(layout.project_file, "root/test.cst");
    assert_eq!(layout.export_dir, "root/test/Export/3d");
}

#[test]
fn join_path_edge_cases() {
    assert_eq!(join_path("", "x"), "x");
    assert_eq!(join_path("a/", "x"), "a/x");
    assert_eq!(join_path("a", "x"), "a/x");
    let layout = project_layout("", "p");
    assert_eq!(layout.project_file, "p.cst");
    assert_eq!(layout.export_dir, "p/Export/3d");
}

#[test]
fn glob_results_from_current_directory_are_all_kept() {
    let pattern = GlobPattern::new("./*.h5").unwrap();
    assert!(!pattern.matches("x.h5"));
    let found = vec![Ok("x.h5".to_string()), Ok("y.h5".to_string())];
    let m = cst_find_exports_glob(found);
    assert_eq!(m.entries, strings(&["x.h5", "y.h5"]));
    assert!(m.skipped.is_empty());
}

#[test]
fn glob_results_of_nothing_are_empty() {
    let m = cst_find_exports_glob(Vec::new());
    assert!(m.entries.is_empty());
    assert!(m.skipped.is_empty());
}
