//! Ignore rules and the configs they come from.

use cascade_engine::config::{
    glob_match, star_match, Condition, ConfigResolver, IgnoreRule, ResolvedConfig,
};

fn empty() -> ResolvedConfig {
    ResolvedConfig {
        ignores: Vec::new(),
    }
}

fn rule(pattern: &str, negated: bool, dir_only: bool) -> IgnoreRule {
    IgnoreRule {
        pattern: pattern.to_owned(),
        negated,
        dir_only,
        conditions: Vec::new(),
    }
}

#[test]
fn config_resolver_caches_results() {
    let mut resolver = ConfigResolver::new("/tmp/test-mount".to_owned());
    let path = "/tmp/test-mount/Documents/notes.txt";
    assert!(resolver.config_for(path).is_none());
    resolver.resolve_for_dir(path, empty());
    resolver.resolve_for_dir(path, empty());
    assert_eq!(resolver.cached_len(), 1);
    assert!(resolver.config_for(path).is_some());
    assert_eq!(resolver.mount_root(), "/tmp/test-mount");
}

#[test]
fn config_resolver_invalidate() {
    let mut resolver = ConfigResolver::new("/tmp/test-mount".to_owned());
    let path = "/tmp/test-mount/Documents/notes.txt";
    resolver.resolve_for_dir(path, empty());

    resolver.invalidate("/tmp/test-mount/Documents");

    assert_eq!(resolver.cached_len(), 0);
}

#[test]
fn invalidating_keeps_other_directories_in_order() {
    let mut resolver = ConfigResolver::new("/m".to_owned());
    for (n, dir) in ["/m/a", "/m/b", "/m/b/c", "/m/bc", "/m"].iter().enumerate() {
        let mut config = empty();
        for _ in 0..n {
            config.ignores.push(rule("x", false, false));
        }
        resolver.resolve_for_dir(&format!("{dir}/file"), config);
    }
    resolver.invalidate("/m/b");
    assert_eq!(resolver.cached_len(), 3);
    let rules = |path: &str| resolver.config_for(path).map(|c| c.ignores.len());
    assert_eq!(rules("/m/a/x"), Some(0));
    assert_eq!(rules("/m/b/x"), None);
    assert_eq!(rules("/m/b/c/x"), None);
    assert_eq!(rules("/m/bc/x"), Some(3));
    assert_eq!(rules("/m//./x"), Some(4));
}

#[test]
fn the_last_rule_that_speaks_of_an_entry_decides() {
    let mut resolver = ConfigResolver::new("/m".to_owned());
    let config = ResolvedConfig {
        ignores: vec![
            rule("*.log", false, false),
            rule("keep.log", true, false),
            rule("build", false, true),
        ],
    };
    resolver.resolve_for_dir("/m/x", config);
    let none = || vec![Vec::new(), Vec::new(), Vec::new()];
    let ask = |path: &str, is_dir: bool, conditions: Vec<Vec<Condition>>| {
        resolver.is_ignored_with_context(path, is_dir, &conditions)
    };
    assert_eq!(ask("/m/a.log", false, none()), Some(true));
    assert_eq!(ask("/m/keep.log", false, none()), Some(false));
    assert_eq!(ask("/m/a.txt", false, none()), Some(false));
    assert_eq!(ask("/m/build", true, none()), Some(false));
    assert_eq!(ask("/m/build", false, none()), Some(true));
    assert_eq!(ask("/elsewhere/a.log", false, none()), None);
    // A condition that fails or cannot be parsed takes its rule out.
    let with = |condition: Condition| vec![Vec::new(), vec![condition], Vec::new()];
    assert_eq!(
        ask("/m/keep.log", false, with(Condition::Holds)),
        Some(false)
    );
    assert_eq!(ask("/m/keep.log", false, with(Condition::Fails)), Some(true));
    assert_eq!(
        ask("/m/keep.log", false, with(Condition::Malformed)),
        Some(true)
    );
}

#[test]
fn ignore_patterns_match_names_and_path_ends() {
    assert!(glob_match("notes.txt", "notes.txt"));
    assert!(glob_match("notes.txt", "a/b/notes.txt"));
    assert!(!glob_match("notes.txt", "my-notes.txt"));
    assert!(glob_match("*.txt", "notes.txt"));
    assert!(!glob_match("*.txt", "a/notes.txt"));
    assert!(glob_match("**.txt", "a/notes.txt"));
    assert!(glob_match("**/notes.txt", "a/notes.txt"));
    assert!(!glob_match("**/notes.txt", "notes.txt"));
    assert!(star_match("a*b", "axxb"));
    assert!(!star_match("a*b", "axxc"));
    assert!(!star_match("ab*b", "ab"));
}
