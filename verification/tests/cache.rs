//! Pinning, lifecycle policies and eviction sweeps.

use cascade_engine::cache::lifecycle::{
    path_matches_policy, simple_star_match, EvictionDecision, EvictionReason,
};
use cascade_engine::cache::manager::{
    age_sweep, candidate_limit, lifecycle_sweep, size_check, size_sweep, stats, sweep_report,
    timed_sweep, CacheManagerConfig, EvictionReport, SizeCheck, SizeSweep, TimedSweep,
    CANDIDATE_LIMIT,
};
use cascade_engine::cache::pin::{glob_match_exact, star_match_path};
use cascade_engine::cache::{LifecycleEvaluator, PinMatcher};
use cascade_engine::db::{LifecyclePolicyRecord, PinRuleRecord};
use cascade_engine::types::{FileEntry, ItemId};

fn make_rules(entries: &[(&str, bool)]) -> Vec<PinRuleRecord> {
    entries
        .iter()
        .map(|(path, recursive)| PinRuleRecord {
            id: 0,
            path_glob: (*path).to_string(),
            recursive: *recursive,
            conditions: None,
        })
        .collect()
}

#[test]
fn exact_match_is_pinned() {
    let matcher = PinMatcher::from_rules(make_rules(&[("Documents/report.pdf", true)]));
    assert!(matcher.is_pinned("Documents/report.pdf"));
    assert!(!matcher.is_pinned("Documents/other.pdf"));
}

#[test]
fn recursive_match_covers_children() {
    let matcher = PinMatcher::from_rules(make_rules(&[("Documents", true)]));
    assert!(matcher.is_pinned("Documents"));
    assert!(matcher.is_pinned("Documents/report.pdf"));
    assert!(matcher.is_pinned("Documents/Projects/code.rs"));
    assert!(!matcher.is_pinned("Photos/img.jpg"));
}

#[test]
fn non_recursive_does_not_cover_children() {
    let matcher = PinMatcher::from_rules(make_rules(&[("Documents", false)]));
    assert!(matcher.is_pinned("Documents"));
    assert!(!matcher.is_pinned("Documents/report.pdf"));
}

#[test]
fn glob_pattern_match() {
    let matcher = PinMatcher::from_rules(make_rules(&[("Documents/**/*.pdf", true)]));
    assert!(matcher.is_pinned("Documents/report.pdf"));
    assert!(matcher.is_pinned("Documents/Projects/plan.pdf"));
    assert!(!matcher.is_pinned("Documents/report.txt"));
}

#[test]
fn stars_stay_within_a_segment() {
    assert!(star_match_path("a/*.txt", "a/b.txt"));
    assert!(!star_match_path("a/*.txt", "a/b/c.txt"));
    assert!(glob_match_exact("a/**", "a/b/c.txt"));
    assert!(glob_match_exact("**/c.txt", "a/b/c.txt"));
    assert!(glob_match_exact("**/c.txt", "c.txt"));
    assert!(!glob_match_exact("**/c.txt", "a/bc.txt"));
    assert!(glob_match_exact("a/**/d/*.txt", "a/b/c/d/e.txt"));
    assert!(glob_match_exact("a/**/d/*.txt", "a/d/e.txt"));
    assert!(!glob_match_exact("a/**/d/*.txt", "a/b/e.txt"));
    assert!(glob_match_exact("*a*b*", "xaxbx"));
    assert!(!glob_match_exact("ab*ba", "aba"));
    assert!(glob_match_exact("", ""));
    assert!(!glob_match_exact("", "a"));
    assert!(!glob_match_exact("a", ""));
}

#[test]
fn a_rule_names_itself_even_with_a_star() {
    let matcher = PinMatcher::from_rules(make_rules(&[("a*b", false)]));
    assert!(matcher.is_pinned("a*b"));
    assert!(matcher.is_pinned("axb"));
    assert!(!matcher.is_pinned("axb/c"));
    assert_eq!(matcher.rules().len(), 1);
    assert!(!PinMatcher::from_rules(Vec::new()).is_pinned(""));
}

fn make_file(name: &str, size: Option<u64>) -> FileEntry {
    FileEntry::file(
        ItemId::new("test", name),
        ItemId::new("test", "root"),
        name.to_string(),
    )
    .with_size(size)
}

/// The second at which the sweeps below take place.
const NOW: i64 = 1_000_000;

fn no_pins() -> PinMatcher {
    PinMatcher::from_rules(Vec::new())
}

fn make_policies(
    entries: &[(&str, Option<i64>, Option<i64>, i32)],
) -> Vec<LifecyclePolicyRecord> {
    entries
        .iter()
        .enumerate()
        .map(
            |(idx, (path, max_age, max_file_size, priority))| LifecyclePolicyRecord {
                id: idx as i64,
                path_glob: (*path).to_string(),
                max_age: *max_age,
                max_file_size: *max_file_size,
                priority: *priority,
                conditions: None,
            },
        )
        .collect()
}

#[test]
fn no_policies_means_keep() {
    let evaluator = LifecycleEvaluator::from_policies(vec![]);
    let file = make_file("report.pdf", Some(1024));
    assert_eq!(
        evaluator.should_evict(&file, "report.pdf", 0, NOW),
        EvictionDecision::Keep
    );
}

#[test]
fn max_size_policy_evicts_large_files() {
    let evaluator = LifecycleEvaluator::from_policies(make_policies(&[(
        "Documents/**",
        None,
        Some(1024),
        0,
    )]));

    let small = make_file("small.txt", Some(512));
    assert_eq!(
        evaluator.should_evict(&small, "Documents/small.txt", 0, NOW),
        EvictionDecision::Keep
    );

    let large = make_file("large.bin", Some(2048));
    let decision = evaluator.should_evict(&large, "Documents/large.bin", 0, NOW);
    assert!(matches!(
        decision,
        EvictionDecision::Evict {
            reason: EvictionReason::MaxSize { .. }
        }
    ));
}

#[test]
fn higher_priority_wins() {
    let evaluator = LifecycleEvaluator::from_policies(make_policies(&[
        ("Temp/**", None, Some(0), 10),
        ("**", Some(i64::MAX), None, 0),
    ]));
    let file = make_file("cache.tmp", Some(100));
    let decision = evaluator.should_evict(&file, "Temp/cache.tmp", 0, NOW);
    assert!(matches!(
        decision,
        EvictionDecision::Evict {
            reason: EvictionReason::MaxSize { .. }
        }
    ));
}

#[test]
fn the_highest_priority_decides_wherever_it_stands() {
    let file = make_file("cache.tmp", Some(100));
    // The later policy has the higher priority, and keeps the file.
    let evaluator = LifecycleEvaluator::from_policies(make_policies(&[
        ("**", Some(60), None, 0),
        ("Temp/**", None, Some(1000), 10),
    ]));
    assert_eq!(
        evaluator.should_evict(&file, "Temp/cache.tmp", 0, NOW),
        EvictionDecision::Keep
    );
    assert_eq!(
        evaluator.should_evict(&file, "Other/cache.tmp", 0, NOW),
        EvictionDecision::Evict {
            reason: EvictionReason::MaxAge {
                max_age_secs: 60,
                policy_id: 0
            }
        }
    );
    // Of two with the same priority the earlier one decides.
    let evaluator = LifecycleEvaluator::from_policies(make_policies(&[
        ("**", None, Some(10), 5),
        ("**", Some(60), None, 5),
    ]));
    assert_eq!(
        evaluator.should_evict(&file, "a", 0, NOW),
        EvictionDecision::Evict {
            reason: EvictionReason::MaxSize {
                max_size: 10,
                actual_size: 100,
                policy_id: 0
            }
        }
    );
    assert_eq!(evaluator.policies().len(), 2);
}

#[test]
fn a_policy_evicts_for_age_only_past_its_limit() {
    let evaluator =
        LifecycleEvaluator::from_policies(make_policies(&[("**", Some(60), Some(50), 0)]));
    let small = make_file("a", Some(10));
    let large = make_file("a", Some(100));
    assert_eq!(
        evaluator.should_evict(&small, "a", NOW - 60, NOW),
        EvictionDecision::Keep
    );
    assert_eq!(
        evaluator.should_evict(&small, "a", NOW - 61, NOW),
        EvictionDecision::Evict {
            reason: EvictionReason::MaxAge {
                max_age_secs: 60,
                policy_id: 0
            }
        }
    );
    // A file used recently can still be too large.
    assert_eq!(
        evaluator.should_evict(&large, "a", NOW, NOW),
        EvictionDecision::Evict {
            reason: EvictionReason::MaxSize {
                max_size: 50,
                actual_size: 100,
                policy_id: 0
            }
        }
    );
    // The ends of the clock do not wrap.
    assert!(matches!(
        evaluator.should_evict(&small, "a", i64::MIN, i64::MAX),
        EvictionDecision::Evict { .. }
    ));
    assert_eq!(
        evaluator.should_evict(&small, "a", i64::MAX, i64::MIN),
        EvictionDecision::Keep
    );
}

#[test]
fn a_negative_or_missing_size_never_evicts() {
    let evaluator = LifecycleEvaluator::from_policies(make_policies(&[("**", None, Some(-1), 0)]));
    let file = make_file("a", Some(u64::MAX));
    assert_eq!(evaluator.should_evict(&file, "a", 0, NOW), EvictionDecision::Keep);
    let evaluator = LifecycleEvaluator::from_policies(make_policies(&[("**", None, Some(0), 0)]));
    let unsized_file = make_file("a", None);
    assert_eq!(
        evaluator.should_evict(&unsized_file, "a", 0, NOW),
        EvictionDecision::Keep
    );
}

#[test]
fn policy_patterns_cover_prefixes_and_suffixes() {
    assert!(path_matches_policy("Cache", "Cache"));
    assert!(path_matches_policy("Cache", "Cache/a/b"));
    assert!(!path_matches_policy("Cache", "Cached"));
    assert!(path_matches_policy("a/**.tmp", "a/b/c.tmp"));
    assert!(!path_matches_policy("a/**.tmp", "b/c.tmp"));
    assert!(path_matches_policy("a/*.tmp", "a/b/c.tmp"));
    assert!(path_matches_policy("a**b**c", "axc"));
    assert!(simple_star_match("a*c", "abbc"));
    assert!(!simple_star_match("a*c", "abb"));
    assert!(simple_star_match("abc", "abc"));
    assert!(!simple_star_match("abc", "abcd"));
}

// ── Sweeps ──

fn cached(id: &str, path: &str, name: &str, size: u64) -> FileEntry {
    FileEntry::file(
        ItemId::new("test", id),
        ItemId::new("test", "root"),
        name.to_string(),
    )
    .with_path(path.to_string())
    .with_size(Some(size))
}

#[test]
fn evict_uses_vfs_path_for_lifecycle_matching() {
    // Policy: evict anything under `personal/Documents/**` exceeding 1 KiB.
    let evaluator = LifecycleEvaluator::from_policies(make_policies(&[(
        "personal/Documents/**",
        None,
        Some(1024),
        0,
    )]));
    // Both files have the same *basename*; only their path distinguishes them.
    let files = vec![
        cached("big", "personal/Documents/report.bin", "report.bin", 2048),
        cached("small", "other/report.bin", "report.bin", 2048),
    ];
    let used = vec![NOW, NOW];
    let evicted = lifecycle_sweep(&evaluator, &no_pins(), &files, &used, NOW);
    assert_eq!(
        evicted,
        vec![0],
        "exactly the file under personal/Documents must be evicted"
    );
    let config = CacheManagerConfig::default();
    let timed = timed_sweep(&config, &evaluator, &no_pins(), &files, &used, NOW);
    assert_eq!(sweep_report(&timed, &None).lifecycle_evicted, 1);
}

#[test]
fn evict_bare_dir_policy_matches_prefix() {
    // Policy: anything under `Cache` (no glob, max-size 0 — evict everything).
    let evaluator =
        LifecycleEvaluator::from_policies(make_policies(&[("Cache", None, Some(0), 0)]));
    let files = vec![
        cached("c1", "Cache/tmp.bin", "tmp.bin", 100),
        cached("nc1", "Documents/tmp.bin", "tmp.bin", 100),
    ];
    let used = vec![NOW, NOW];
    assert_eq!(
        lifecycle_sweep(&evaluator, &no_pins(), &files, &used, NOW),
        vec![0]
    );
}

#[test]
fn a_sweep_stops_once_the_cache_is_within_its_limit() {
    let files = vec![
        cached("a", "a", "a", 40),
        cached("b", "b", "b", 40),
        cached("c", "c", "c", 40),
    ];
    let sweep = size_sweep(&no_pins(), &files, 120, 60).unwrap();
    assert_eq!(
        sweep,
        SizeSweep {
            evicted: vec![0, 1],
            bytes_freed: 80
        }
    );
    let timed = TimedSweep {
        lifecycle: vec![5, 7],
        aged: vec![1],
    };
    let report = sweep_report(&timed, &Some(sweep));
    assert_eq!(report.lifecycle_evicted, 2);
    assert_eq!(report.age_evicted, 1);
    assert_eq!(report.size_evicted, 2);
    assert_eq!(report.bytes_freed, 80);
    assert_eq!(report.total_evicted(), 5);
    // All candidates go where they are not enough.
    assert_eq!(
        size_sweep(&no_pins(), &files, 1000, 60).unwrap(),
        SizeSweep {
            evicted: vec![0, 1, 2],
            bytes_freed: 120
        }
    );
    // A file of unknown size frees nothing.
    let unsized_first = vec![files[0].clone().with_size(None), files[1].clone()];
    assert_eq!(
        size_sweep(&no_pins(), &unsized_first, 100, 60).unwrap(),
        SizeSweep {
            evicted: vec![0, 1],
            bytes_freed: 40
        }
    );
    assert_eq!(
        size_sweep(&no_pins(), &Vec::new(), 100, 60).unwrap(),
        SizeSweep {
            evicted: vec![],
            bytes_freed: 0
        }
    );
}

#[test]
fn old_files_exceed_the_age_limit() {
    let files = vec![
        cached("a", "a", "a", 1),
        cached("b", "b", "b", 1),
        cached("c", "c", "c", 1),
    ];
    let used = vec![NOW - 101, NOW - 100, NOW - 500];
    assert_eq!(age_sweep(Some(100), &files, &used, NOW), vec![0, 2]);
    assert_eq!(age_sweep(None, &files, &used, NOW), Vec::<usize>::new());
    let ends = vec![i64::MIN, i64::MAX, 0];
    assert_eq!(age_sweep(Some(u64::MAX), &files, &ends, i64::MAX), Vec::<usize>::new());
    assert_eq!(age_sweep(Some(u64::MAX - 1), &files, &ends, i64::MAX), vec![0]);
    assert_eq!(age_sweep(Some(0), &files, &ends, i64::MIN), Vec::<usize>::new());
}

#[test]
fn the_age_limit_evicts_and_is_counted_once() {
    let config = CacheManagerConfig {
        max_age: Some(100),
        ..CacheManagerConfig::default()
    };
    let files = vec![
        cached("old", "docs/old", "old", 1),
        cached("new", "docs/new", "new", 1),
        cached("tmp", "tmp/old", "old", 1),
    ];
    let used = vec![NOW - 101, NOW, NOW - 101];
    let none = LifecycleEvaluator::from_policies(Vec::new());
    let timed = timed_sweep(&config, &none, &no_pins(), &files, &used, NOW);
    assert_eq!(
        timed,
        TimedSweep {
            lifecycle: vec![],
            aged: vec![0, 2]
        }
    );
    assert_eq!(sweep_report(&timed, &None).total_evicted(), 2);
    // What a policy gives up is not counted again for its age.
    let policies = LifecycleEvaluator::from_policies(make_policies(&[("tmp", None, Some(0), 0)]));
    let timed = timed_sweep(&config, &policies, &no_pins(), &files, &used, NOW);
    assert_eq!(
        timed,
        TimedSweep {
            lifecycle: vec![2],
            aged: vec![0]
        }
    );
    assert_eq!(sweep_report(&timed, &None).total_evicted(), 2);
}

#[test]
fn no_sweep_evicts_a_pinned_file() {
    let pins = PinMatcher::from_rules(make_rules(&[("Docs/**", true)]));
    let config = CacheManagerConfig {
        max_age: Some(100),
        ..CacheManagerConfig::default()
    };
    let files = vec![
        cached("a", "Docs/a.bin", "a.bin", 70),
        cached("b", "Other/b.bin", "b.bin", 30),
        cached("c", "Docs/c.bin", "c.bin", 20),
    ];
    let used = vec![0, 0, 0];
    let policies = LifecycleEvaluator::from_policies(make_policies(&[("**", Some(1), None, 0)]));
    assert_eq!(
        lifecycle_sweep(&policies, &pins, &files, &used, NOW),
        vec![1]
    );
    let none = LifecycleEvaluator::from_policies(Vec::new());
    let timed = timed_sweep(&config, &none, &pins, &files, &used, NOW);
    assert_eq!(timed.lifecycle, Vec::<usize>::new());
    assert_eq!(timed.aged, vec![1]);
    // The size limit passes over what is pinned.
    assert_eq!(
        size_sweep(&pins, &files, 120, 0).unwrap(),
        SizeSweep {
            evicted: vec![1],
            bytes_freed: 30
        }
    );
    let only = vec![files[0].clone()];
    let sweep = size_sweep(&pins, &only, 70, 0).unwrap();
    assert_eq!(
        sweep,
        SizeSweep {
            evicted: vec![],
            bytes_freed: 0
        }
    );
    let untimed = timed_sweep(&config, &none, &pins, &only, &vec![0], NOW);
    assert_eq!(sweep_report(&untimed, &Some(sweep)).total_evicted(), 0);
    // Pinned files take up no candidate's place.
    assert_eq!(candidate_limit(&pins, &files), CANDIDATE_LIMIT + 2);
    assert_eq!(candidate_limit(&no_pins(), &files), CANDIDATE_LIMIT);
}

#[test]
fn a_size_sweep_evicts_no_more_files_than_it_considers() {
    let pins = PinMatcher::from_rules(make_rules(&[("Docs/**", true)]));
    let mut files = vec![cached("p", "Docs/p", "p", 5)];
    for i in 0..105 {
        let name = format!("f{i}");
        files.push(cached(&name, &name, &name, 1));
    }
    let sweep = size_sweep(&pins, &files, 1000, 0).unwrap();
    assert_eq!(sweep.evicted, (1..=CANDIDATE_LIMIT).collect::<Vec<_>>());
    assert_eq!(sweep.bytes_freed, 100);
    // The pinned file that is passed over takes no place.
    assert_eq!(candidate_limit(&pins, &files), CANDIDATE_LIMIT + 1);
    files.truncate(CANDIDATE_LIMIT + 1);
    assert_eq!(size_sweep(&pins, &files, 1000, 0).unwrap(), sweep);
    // Pinned files that are not among the candidates let no further file go.
    let unpinned: Vec<FileEntry> = (0..101)
        .map(|i| cached("f", &format!("f{i}"), "f", 1))
        .collect();
    assert_eq!(size_sweep(&pins, &unpinned, 1000, 0).unwrap().evicted.len(), 100);
    // What the last eviction frees beyond the size of the cache is not looked at.
    let mut larger: Vec<FileEntry> = unpinned.clone();
    larger[99] = cached("l", "l", "l", 5000);
    assert_eq!(size_sweep(&pins, &larger, 1000, 0).unwrap().bytes_freed, 5099);
}

#[test]
fn sizes_that_do_not_add_up_give_no_answer() {
    let files = vec![cached("a", "a", "a", 200), cached("b", "b", "b", 1)];
    assert_eq!(size_sweep(&no_pins(), &files, 100, 60), None);
    let huge = vec![
        cached("a", "a", "a", 1),
        cached("b", "b", "b", u64::MAX),
    ];
    assert_eq!(size_sweep(&no_pins(), &huge, u64::MAX, 0), None);
}

#[test]
fn the_cache_is_checked_against_its_limit() {
    let mut config = CacheManagerConfig::default();
    assert_eq!(config.max_size, None);
    assert_eq!(config.max_age, None);
    assert_eq!(config.sweep_interval_secs, 300);
    assert_eq!(size_check(&config, i64::MAX), SizeCheck::Within);
    config.max_size = Some(100);
    assert_eq!(size_check(&config, 100), SizeCheck::Within);
    assert_eq!(size_check(&config, -5), SizeCheck::Within);
    assert_eq!(
        size_check(&config, 101),
        SizeCheck::Over {
            current_size: 101,
            max_size: 100
        }
    );
    let state = stats(&config, 1, 2, 3, -5);
    assert_eq!(state.online_count, 1);
    assert_eq!(state.cached_count, 2);
    assert_eq!(state.pinned_count, 3);
    assert_eq!(state.total_bytes, 0);
    assert_eq!(state.max_bytes, Some(100));
    assert_eq!(stats(&config, 1, 2, 3, 5).total_bytes, 5);
    assert_eq!(EvictionReport::default().total_evicted(), 0);
}
