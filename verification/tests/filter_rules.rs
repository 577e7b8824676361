use cgraph::filter::{FilterConfig, FilterError, FILTER_ALL, FILTER_WORKSPACE};

#[test]
fn one_rule_list_uses_hash_to_select_symbol_namespace() {
    let filters =
        FilterConfig::from_rules(&["#*::into", "!#Option::into", "**/generated/**"], true).unwrap();
    assert!(filters.is_ignored_symbol("Vec::into"));
    assert!(!filters.is_ignored_symbol("Option::into"));
    assert!(filters.is_ignored_path("/workspace/generated/a.rs", "/workspace"));
}

#[test]
fn later_rules_override_earlier_rules_and_bang_reincludes() {
    let filters = FilterConfig::from_rules(&["#*", "!#main", "#main::*"], false).unwrap();
    assert!(!filters.is_ignored_symbol("main"));
    assert!(filters.is_ignored_symbol("main::run"));
    assert!(filters.is_ignored_symbol("other"));
}

#[test]
fn supports_all_placeholder_and_validates_workspace_placeholder_scope() {
    let all = format!("#{FILTER_ALL}");
    let filters = FilterConfig::from_rules(&[all.as_str(), "!#main"], false).unwrap();
    assert!(!filters.is_ignored_symbol("main"));
    assert!(filters.is_ignored_symbol("other"));
    let workspace = format!("#{FILTER_WORKSPACE}");
    assert!(FilterConfig::from_rules(&[workspace.as_str()], false).is_err());
}

#[test]
fn path_star_does_not_cross_directories_but_double_star_does() {
    let root = "/workspace";
    let filters = FilterConfig::from_rules(&["src/*.rs"], false).unwrap();
    assert!(filters.is_ignored_path("/workspace/src/main.rs", root));
    assert!(!filters.is_ignored_path("/workspace/src/nested/main.rs", root));

    let filters = FilterConfig::from_rules(&["src/**/main.rs"], false).unwrap();
    assert!(filters.is_ignored_path("/workspace/src/nested/main.rs", root));

    let filters = FilterConfig::from_rules(&["**/*.rs"], false).unwrap();
    assert!(filters.is_ignored_path("/workspace/main.rs", root));
}

#[test]
fn workspace_placeholder_excludes_external_paths_and_can_be_reincluded() {
    let root = "/workspace";
    let filters = FilterConfig::from_rules(&[FILTER_WORKSPACE], true).unwrap();
    assert!(!filters.is_ignored_path("/workspace/src/main.rs", root));
    assert!(filters.is_ignored_path("/usr/include/stdio.h", root));

    let filters = FilterConfig::from_rules(&[FILTER_WORKSPACE, "!**/stdio.h"], true).unwrap();
    assert!(!filters.is_ignored_path("/usr/include/stdio.h", root));
}

#[test]
fn later_symbol_rule_reincludes_one_external_workspace_symbol() {
    let root = "/workspace";
    let filters = FilterConfig::from_rules(&[FILTER_WORKSPACE, "!#printf"], true).unwrap();

    assert!(!filters.is_ignored(Some("main"), Some("/workspace/main.cpp"), root));
    assert!(filters.is_ignored(Some("malloc"), Some("/usr/include/stdlib.h"), root));
    assert!(!filters.is_ignored(Some("printf"), Some("/usr/include/stdio.h"), root));
}

#[test]
fn each_invalid_rule_reports_its_own_error() {
    assert_eq!(FilterConfig::from_rules(&["   "], true), Err(FilterError::EmptyPattern));
    assert_eq!(FilterConfig::from_rules(&["!"], true), Err(FilterError::BareBang));
    assert_eq!(FilterConfig::from_rules(&["!#"], true), Err(FilterError::BareBang));
    assert_eq!(FilterConfig::from_rules(&["#<workspace>"], true), Err(FilterError::WorkspaceNotPath));
    assert_eq!(FilterConfig::from_rules(&["a\0b"], true), Err(FilterError::NulInPattern));
    // the first invalid rule decides
    assert_eq!(FilterConfig::from_rules(&["ok", "!", "  "], true), Err(FilterError::BareBang));
}

#[test]
fn workspace_only_excludes_outside_paths_without_rules() {
    let filters = FilterConfig::from_rules(&[], true).unwrap();
    assert!(filters.is_ignored_path("/usr/include/stdio.h", "/workspace"));
    assert!(!filters.is_ignored_path("/workspace/a.c", "/workspace"));
    // a sibling directory that merely shares a prefix is outside
    assert!(filters.is_ignored_path("/workspace2/a.c", "/workspace"));
    let filters = FilterConfig::from_rules(&[], false).unwrap();
    assert!(!filters.is_ignored_path("/usr/include/stdio.h", "/workspace"));
    assert!(!filters.is_ignored_symbol("anything"));
}

#[test]
fn single_segment_glob_matches_any_path_segment() {
    let filters = FilterConfig::from_rules(&["generated"], false).unwrap();
    assert!(filters.is_ignored_path("/workspace/a/generated/b.rs", "/workspace"));
    assert!(!filters.is_ignored_path("/workspace/a/generate/b.rs", "/workspace"));
}

#[test]
fn errors_explain_themselves() {
    assert_eq!(cgraph::filter::FilterError::BareBang.message(), "filter contains a bare ! pattern");
    assert_eq!(
        cgraph::filter::FilterError::WorkspaceNotPath.message(),
        "<workspace> is only valid for file-path rules"
    );
    assert_eq!(cgraph::config::ConfigError::EmptyCommand.message(), "lsp.command must not be empty");
    assert_eq!(
        cgraph::config::ConfigError::NoExtensions.message(),
        "lsp.file_extensions must contain at least one extension"
    );
}
