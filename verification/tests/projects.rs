use solhunt::loader::{get_all_modules, get_module};
use solhunt::project::{
    classify_dir_entry, compile_target, descends_into_subdirectories, error_excerpt,
    extension_of, file_extension, find_project_file, is_sol_file, is_within_locations,
    source_path_of, split_remapping, CompileError, CompileTarget, EntryAction, ProjectFile,
};
use solhunt::source::get_finding_content_arrow;

#[test]
fn solidity_sources_are_recognised() {
    assert!(is_sol_file("/p/src/Token.sol", true));
    assert!(!is_sol_file("/p/src/Token.sol", false));
    assert!(!is_sol_file("/p/test/Token.t.sol", true));
    assert!(!is_sol_file("/p/script/Deploy.s.sol", true));
    assert!(!is_sol_file("/p/src/Token.vy", true));
    assert!(!is_sol_file("/p/src/.sol", true));
    assert!(!is_sol_file("/p/src/sol", true));
}

#[test]
fn extensions_follow_std() {
    for name in ["a.sol", "a.t.sol", ".sol", "..sol", "a.", "plain", ".hidden.sol", "x/y.sol", "x/.."] {
        let std_ext = std::path::Path::new(name).extension().map(|e| e.to_str().unwrap().to_string());
        assert_eq!(extension_of(name), std_ext, "{name}");
    }
    assert_eq!(file_extension("a.b.c"), Some("c".to_string()));
    assert_eq!(file_extension(".gitignore"), None);
}

#[test]
fn excluded_directories_are_not_walked() {
    for dir in ["/p/lib", "/p/node_modules", "/p/out", "/p/cache", "/p/target", "/p/artifacts", "lib/"] {
        assert!(!descends_into_subdirectories(dir), "{dir}");
    }
    assert!(descends_into_subdirectories("/p/src"));
    assert!(descends_into_subdirectories("/p/libs"));
}

#[test]
fn directory_entries_are_classified() {
    assert_eq!(classify_dir_entry("/p/src", true, false), EntryAction::Descend);
    assert_eq!(classify_dir_entry("/p/src/B.sol", false, true), EntryAction::Collect);
    // a lib directory is never entered, so nothing under it is gathered
    assert_eq!(classify_dir_entry("/p/lib", true, false), EntryAction::Skip);
    assert_eq!(classify_dir_entry("/p/node_modules", true, false), EntryAction::Skip);
    assert_eq!(classify_dir_entry("/p/libs", true, false), EntryAction::Descend);
    assert_eq!(classify_dir_entry("/p/README.md", false, true), EntryAction::Skip);
}

#[test]
fn compile_targets() {
    assert_eq!(compile_target(true, false, "/p/whatever"), Ok(CompileTarget::Locations));
    assert_eq!(compile_target(false, true, "/p"), Ok(CompileTarget::Directory));
    assert_eq!(compile_target(false, false, "/p/src/A.sol"), Ok(CompileTarget::SingleFile));
    assert_eq!(compile_target(false, false, "/p/README.md"), Err(CompileError::NothingValidToCompile));
    assert_eq!(compile_target(false, false, "/p/Makefile"), Err(CompileError::NothingValidToCompile));
}

#[test]
fn remapping_lines_split_at_the_first_equals() {
    assert_eq!(
        split_remapping("ds-test/=lib/ds-test/src/"),
        Some(("ds-test/".to_string(), "lib/ds-test/src/".to_string()))
    );
    assert_eq!(split_remapping("a=b=c"), Some(("a".to_string(), "b=c".to_string())));
    assert_eq!(split_remapping("=x"), Some((String::new(), "x".to_string())));
    assert_eq!(split_remapping("no-equals"), None);
}

#[test]
fn project_files_and_their_paths() {
    let files = vec![
        ProjectFile::Library("Lib".to_string(), "library Lib {}".to_string()),
        ProjectFile::Contract("A".to_string(), "contract A {}".to_string()),
    ];
    assert_eq!(source_path_of("A"), "src/A.sol");
    assert_eq!(find_project_file(&files, "src/A.sol"), Some(1));
    assert_eq!(find_project_file(&files, "src/Lib.sol"), Some(0));
    assert_eq!(find_project_file(&files, "lib/Lib.sol"), None);
    assert_eq!(files[1].name(), "A");
    assert_eq!(files[0].content(), "library Lib {}");
}

#[test]
fn compiler_error_excerpts() {
    let content = "pragma solidity 0.8.0;\ncontract A {\n    uint x\n}".to_string();
    assert_eq!(error_excerpt(content.clone(), -1, 5), "");
    assert_eq!(error_excerpt(content.clone(), 3, -1), "");
    assert_eq!(error_excerpt(content.clone(), 40, 46), get_finding_content_arrow(content, 40, 6));
}

#[test]
fn artifacts_within_locations() {
    let locations = vec!["/p/src".to_string(), "/p/contracts/A.sol".to_string()];
    assert!(is_within_locations("/p/src/A.sol", &locations));
    assert!(is_within_locations("/p/contracts/A.sol", &locations));
    assert!(!is_within_locations("/p/srcs/A.sol", &locations));
    assert!(!is_within_locations("/p/lib/A.sol", &locations));
    assert!(!is_within_locations("/p/src/A.sol", &[]));
}

#[test]
fn default_modules() {
    assert_eq!(get_module().name, "style");
    assert!(get_all_modules().is_empty());
}
