//! Texts, paths, instants and globs.

use std::path::{Component, Path};

use cascade_engine::glob::{glob, DoubleStar};
use cascade_engine::path::{file_name, lies_within, parent_dir, parse, same};
use cascade_engine::text::{
    i64_text, is_white_space, join, split, string_of, to_ascii_upper, trim, u64_text,
};
use cascade_engine::time::Timestamp;
use cascade_engine::types::ItemId;
use chrono::{DateTime, Utc};

fn chars(s: &str) -> Vec<char> {
    s.chars().collect()
}

#[test]
fn white_space_is_what_std_takes_it_for() {
    for c in '\0'..=char::MAX {
        assert_eq!(is_white_space(c), c.is_whitespace(), "{c:?}");
    }
}

#[test]
fn texts_are_trimmed_and_upper_cased_as_std_does() {
    for s in ["", " ", " a ", "\t\u{2003}a b\u{85}\n", "ab", "\u{200b}a"] {
        assert_eq!(string_of(&trim(&chars(s))), s.trim(), "{s:?}");
    }
    for s in ["", "kB", "aZ09é", "[`{@"] {
        assert_eq!(
            string_of(&to_ascii_upper(&chars(s))),
            s.to_ascii_uppercase(),
            "{s:?}"
        );
    }
}

#[test]
fn numbers_are_written_in_decimal() {
    for n in [0, 1, 9, 10, 99, 100, 1_234_567_890, u64::MAX] {
        assert_eq!(u64_text(n), format!("{n}"));
    }
    for n in [0, 1, -1, 10, -10, i64::MAX, i64::MIN] {
        assert_eq!(i64_text(n), format!("{n}"));
    }
}

#[test]
fn texts_are_split_and_joined_as_std_does() {
    for (s, sep) in [
        ("a/b/c", "/"),
        ("", "/"),
        ("/", "/"),
        ("a**b***c", "**"),
        ("aaa", "aa"),
        ("abc", "x"),
    ] {
        let pieces: Vec<String> = split(&chars(s), &chars(sep))
            .iter()
            .map(|piece| string_of(piece))
            .collect();
        let expected: Vec<String> = s.split(sep).map(str::to_owned).collect();
        assert_eq!(pieces, expected, "{s:?} by {sep:?}");
        assert_eq!(join(&pieces, sep), s);
    }
    assert_eq!(join(&Vec::new(), ", "), "");
}

/// The components of a path as std has them.
fn std_components(path: &str) -> Vec<String> {
    Path::new(path)
        .components()
        .map(|component| match component {
            Component::RootDir => "/".to_owned(),
            other => other.as_os_str().to_str().expect("unicode").to_owned(),
        })
        .collect()
}

const PATHS: [&str; 17] = [
    "", "/", "//", ".", "./", "./a", "a", "a/", "a//b", "a/./b", "a/.", "/a", "/./a", "/a/../b",
    "..", "../a", "a/..",
];

#[test]
fn paths_have_the_components_that_std_gives_them() {
    for path in PATHS {
        let parts: Vec<String> = parse(path).iter().map(|part| string_of(part)).collect();
        assert_eq!(parts, std_components(path), "{path:?}");
    }
}

#[test]
fn paths_relate_as_std_has_it() {
    for a in PATHS {
        for b in PATHS {
            assert_eq!(
                lies_within(&parse(a), &parse(b)),
                Path::new(b).starts_with(a),
                "{b:?} within {a:?}"
            );
            assert_eq!(
                same(&parse(a), &parse(b)),
                Path::new(a) == Path::new(b),
                "{a:?} and {b:?}"
            );
        }
        let parent = Path::new(a).parent().unwrap_or_else(|| Path::new("/"));
        let parent = parent.to_str().expect("unicode");
        assert!(same(&parent_dir(&parse(a)), &parse(parent)), "{a:?}");
        let name = Path::new(a)
            .file_name()
            .map_or(String::new(), |n| n.to_string_lossy().into_owned());
        assert_eq!(file_name(&parse(a)), name, "{a:?}");
    }
}

#[test]
fn instants_are_those_that_chrono_has() {
    let min = DateTime::<Utc>::MIN_UTC.timestamp();
    let max = DateTime::<Utc>::MAX_UTC.timestamp();
    for secs in [
        i64::MIN,
        min - 1,
        min,
        min + 1,
        -61,
        -60,
        -1,
        0,
        58,
        59,
        60,
        119,
        max - 1,
        max,
        max + 1,
        i64::MAX,
    ] {
        for nanos in [0, 999_999_999, 1_000_000_000, 1_999_999_999, 2_000_000_000, u32::MAX] {
            let ours = Timestamp::new(secs, nanos);
            let theirs = DateTime::from_timestamp(secs, nanos);
            assert_eq!(ours.is_some(), theirs.is_some(), "{secs} {nanos}");
            if let (Some(ours), Some(theirs)) = (ours, theirs) {
                assert_eq!(ours.secs(), theirs.timestamp());
                assert_eq!(ours.nanos(), theirs.timestamp_subsec_nanos());
                assert_eq!(ours.millis(), theirs.timestamp_millis());
                assert_eq!(ours.nanos_opt(), theirs.timestamp_nanos_opt());
                assert_eq!(ours.text(), theirs.to_string());
            }
        }
    }
}

#[test]
fn instants_are_read_from_rfc_3339() {
    let parsed = Timestamp::parse("2026-12-31T01:30:00.5+01:30").unwrap();
    assert_eq!(parsed.secs(), 1_798_675_200);
    assert_eq!(parsed.nanos(), 500_000_000);
    assert_eq!(parsed.text(), "2026-12-31 00:00:00.500 UTC");
    let refused = Timestamp::parse("not-a-timestamp").unwrap_err();
    assert_eq!(
        refused,
        DateTime::parse_from_rfc3339("not-a-timestamp")
            .unwrap_err()
            .to_string()
    );
}

#[test]
fn instants_are_ordered() {
    let a = Timestamp::new(5, 1).unwrap();
    let b = Timestamp::new(5, 2).unwrap();
    let c = Timestamp::new(6, 0).unwrap();
    assert!(b.is_at_or_after(&a));
    assert!(a.is_at_or_after(&a));
    assert!(!a.is_at_or_after(&b));
    assert!(c.is_at_or_after(&b));
    assert_eq!(b.earlier(c), b);
    assert_eq!(c.earlier(b), b);
}

/// Whether a glob matches, by trying every way its wildcards can match.
fn glob_by_trial(stars: DoubleStar, p: &[char], s: &[char]) -> bool {
    match p {
        [] => s.is_empty(),
        ['*', '*', '/', rest @ ..] if stars == DoubleStar::Segments => {
            glob_by_trial(stars, rest, s)
                || (0..s.len()).any(|i| s[i] == '/' && glob_by_trial(stars, rest, &s[i + 1..]))
        }
        ['*', '*', rest @ ..] => (0..=s.len()).any(|i| glob_by_trial(stars, rest, &s[i..])),
        ['*', rest @ ..] => (0..=s.len())
            .take_while(|i| !s[..*i].contains(&'/'))
            .any(|i| glob_by_trial(stars, rest, &s[i..])),
        [c, rest @ ..] => s.first() == Some(c) && glob_by_trial(stars, rest, &s[1..]),
    }
}

/// Every text of at most `len` of these characters.
fn words(alphabet: &[char], len: usize) -> Vec<String> {
    let mut all = vec![String::new()];
    let mut last = all.clone();
    for _ in 0..len {
        last = last
            .iter()
            .flat_map(|w| alphabet.iter().map(move |c| format!("{w}{c}")))
            .collect();
        all.extend(last.clone());
    }
    all
}

#[test]
fn globs_match_every_way_their_wildcards_can() {
    let paths = words(&['a', '/'], 5);
    for pattern in words(&['a', '*', '/'], 5) {
        for path in &paths {
            for stars in [DoubleStar::Run, DoubleStar::Segments] {
                assert_eq!(
                    glob(stars, &pattern, path),
                    glob_by_trial(stars, &chars(&pattern), &chars(path)),
                    "{pattern:?} on {path:?} as {stars:?}"
                );
            }
        }
    }
}

#[test]
fn an_identity_has_a_backend_and_a_native_id() {
    let id = ItemId::new("gdrive", "a:b/c");
    assert_eq!(id.0, "gdrive:a:b/c");
    assert_eq!(id.backend_id(), "gdrive");
    assert_eq!(id.native_id(), "a:b/c");
    let bare = ItemId("plain".to_owned());
    assert_eq!(bare.backend_id(), "plain");
    assert_eq!(bare.native_id(), "plain");
    let ends = ItemId(":".to_owned());
    assert_eq!(ends.backend_id(), "");
    assert_eq!(ends.native_id(), "");
}
