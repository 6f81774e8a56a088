//! Capabilities, scopes, grants and data access.

use cascade_engine::manage::scope::normalise_components;
use cascade_engine::manage::{
    authorises, data_access, Capability, DeviceId, Grant, GrantConfig, Scope, ScopeConfig,
};
use cascade_engine::time::Timestamp;
use chrono::{TimeZone, Utc};

fn at(year: i32, month: u32, day: u32) -> Timestamp {
    let date = Utc
        .with_ymd_and_hms(year, month, day, 0, 0, 0)
        .single()
        .expect("valid date");
    Timestamp::new(date.timestamp(), 0).expect("in range")
}

fn manager() -> DeviceId {
    DeviceId::new("MANAGER")
}

fn owner() -> DeviceId {
    DeviceId::new("OWNER")
}

fn grant(capability: Capability, scope: Scope) -> Grant {
    Grant {
        grantee: manager(),
        capability,
        scope,
        granted_by: owner(),
        expires: None,
    }
}

// ── Capability classification ──

#[test]
fn dangerous_capabilities_are_classified() {
    assert!(Capability::BackendManage.is_dangerous());
    assert!(Capability::LifecycleControl.is_dangerous());
    assert!(Capability::GrantAdmin.is_dangerous());
}

#[test]
fn safe_capabilities_are_not_dangerous() {
    assert!(!Capability::StatusRead.is_dangerous());
    assert!(!Capability::PinWrite.is_dangerous());
    assert!(!Capability::CacheManage.is_dangerous());
    assert!(!Capability::ConfigPush.is_dangerous());
    assert!(!Capability::PolicySet.is_dangerous());
}

// ── Scope coverage ──

#[test]
fn node_scope_covers_everything() {
    assert!(Scope::Node.covers(&Scope::Node));
    assert!(Scope::Node.covers(&Scope::folder("/work")));
}

#[test]
fn folder_scope_never_covers_node() {
    assert!(!Scope::folder("/work").covers(&Scope::Node));
}

#[test]
fn folder_scope_covers_itself_and_descendants() {
    let work = Scope::folder("/work");
    assert!(work.covers(&Scope::folder("/work")));
    assert!(work.covers(&Scope::folder("/work/reports")));
    assert!(work.covers(&Scope::folder("/work/reports/q1")));
}

#[test]
fn folder_scope_matches_by_component_not_substring() {
    // The escalation guard for path matching: `/work` must not cover
    // `/workspace`, even though "work" is a substring of "workspace".
    let work = Scope::folder("/work");
    assert!(!work.covers(&Scope::folder("/workspace")));
    assert!(!work.covers(&Scope::folder("/workspace/reports")));
}

#[test]
fn folder_scope_does_not_cover_parent_or_sibling() {
    let reports = Scope::folder("/work/reports");
    assert!(!reports.covers(&Scope::folder("/work")));
    assert!(!reports.covers(&Scope::folder("/work/budgets")));
}

#[test]
fn root_folder_scope_covers_all_folders() {
    let root = Scope::folder("/");
    assert!(root.covers(&Scope::folder("/work")));
    assert!(root.covers(&Scope::folder("/anything/deep")));
    // Root folder still does not cover the node-wide scope.
    assert!(!root.covers(&Scope::Node));
}

#[test]
fn folder_coverage_ignores_trailing_separators() {
    assert!(Scope::folder("/work/").covers(&Scope::folder("/work")));
    assert!(Scope::folder("/work").covers(&Scope::folder("/work/")));
}

#[test]
fn folder_coverage_normalises_dot_segments() {
    // A `.` segment is inert and must not alter coverage.
    let work = Scope::folder("/work");
    assert!(work.covers(&Scope::folder("/work/./reports")));
    assert!(Scope::folder("/work/.").covers(&Scope::folder("/work")));
}

#[test]
fn folder_coverage_rejects_parent_traversal() {
    // `/work/../personal` normalises to `/personal`, outside the granted
    // subtree — a grant on `/work` must not cover it. This is the scope
    // escape the "normalised path components" contract promises to prevent.
    let work = Scope::folder("/work");
    assert!(!work.covers(&Scope::folder("/work/../personal")));
    // `/work/..` normalises to the root, which is not under `/work`.
    assert!(!work.covers(&Scope::folder("/work/..")));
}

#[test]
fn folder_coverage_rejects_traversal_above_root() {
    // An unbalanced `..` escapes above the root: the path cannot be
    // normalised, so neither a grant nor a target carrying it ever matches.
    assert!(!Scope::folder("/work").covers(&Scope::folder("/../etc")));
    assert!(!Scope::folder("/../work").covers(&Scope::folder("/work")));
    assert!(!Scope::folder("/work/../../etc").covers(&Scope::folder("/etc")));
}

#[test]
fn normalised_components_hold_no_dots_and_stay() {
    let components = |path: &str| -> Option<Vec<String>> {
        let parts = normalise_components(path)?;
        Some(parts.into_iter().map(|part| part.into_iter().collect()).collect())
    };
    let path = "/work/./../home//x/..";
    assert_eq!(components(path), Some(vec!["home".to_owned()]));
    assert_eq!(components("home"), components(path));
    assert_eq!(components("/a/b"), Some(vec!["a".to_owned(), "b".to_owned()]));
    assert_eq!(components("a/../.."), None);
    assert_eq!(components("../a"), None);
    assert_eq!(components(""), Some(Vec::new()));
}

#[test]
fn is_node_wide_truth_table() {
    // The explicit node scope is node-wide.
    assert!(Scope::Node.is_node_wide());
    // Root/empty folder paths normalise to zero components — node-wide.
    for path in ["/", "", "//", "/.", "/./", "/work/.."] {
        assert!(
            Scope::folder(path).is_node_wide(),
            "folder scope {path:?} should be node-wide",
        );
    }
    // A real subtree is not node-wide.
    assert!(!Scope::folder("/work").is_node_wide());
    assert!(!Scope::folder("/work/reports").is_node_wide());
    // A path that escapes above the root does not normalise, and is not
    // treated as node-wide (it fails closed).
    assert!(!Scope::folder("/..").is_node_wide());
}

// ── authorises() truth table ──

#[test]
fn unmatched_caller_is_denied() {
    let grants = vec![grant(Capability::StatusRead, Scope::Node)];
    let stranger = DeviceId::new("STRANGER");
    assert!(!authorises(
        &grants,
        &stranger,
        Capability::StatusRead,
        &Scope::Node,
        at(2026, 1, 1),
    ));
}

#[test]
fn empty_grant_list_denies() {
    assert!(!authorises(
        &[],
        &manager(),
        Capability::StatusRead,
        &Scope::Node,
        at(2026, 1, 1),
    ));
}

#[test]
fn wrong_capability_is_denied() {
    let grants = vec![grant(Capability::StatusRead, Scope::Node)];
    assert!(!authorises(
        &grants,
        &manager(),
        Capability::PinWrite,
        &Scope::Node,
        at(2026, 1, 1),
    ));
}

#[test]
fn safe_capability_with_node_scope_is_allowed() {
    let grants = vec![grant(Capability::StatusRead, Scope::Node)];
    assert!(authorises(
        &grants,
        &manager(),
        Capability::StatusRead,
        &Scope::folder("/work"),
        at(2026, 1, 1),
    ));
}

#[test]
fn safe_capability_with_folder_scope_is_scoped() {
    let grants = vec![grant(Capability::PinWrite, Scope::folder("/work"))];
    // Within scope: allowed.
    assert!(authorises(
        &grants,
        &manager(),
        Capability::PinWrite,
        &Scope::folder("/work/reports"),
        at(2026, 1, 1),
    ));
    // Outside scope: denied.
    assert!(!authorises(
        &grants,
        &manager(),
        Capability::PinWrite,
        &Scope::folder("/personal"),
        at(2026, 1, 1),
    ));
    // Substring escalation: denied.
    assert!(!authorises(
        &grants,
        &manager(),
        Capability::PinWrite,
        &Scope::folder("/workspace"),
        at(2026, 1, 1),
    ));
}

// ── Expiry ──

#[test]
fn expired_grant_is_denied() {
    let mut g = grant(Capability::StatusRead, Scope::Node);
    g.expires = Some(at(2026, 1, 1));
    let grants = vec![g];
    // Exactly at expiry: denied (expiry is inclusive of the boundary).
    assert!(!authorises(
        &grants,
        &manager(),
        Capability::StatusRead,
        &Scope::Node,
        at(2026, 1, 1),
    ));
    // After expiry: denied.
    assert!(!authorises(
        &grants,
        &manager(),
        Capability::StatusRead,
        &Scope::Node,
        at(2026, 6, 1),
    ));
}

#[test]
fn unexpired_grant_is_allowed() {
    let mut g = grant(Capability::StatusRead, Scope::Node);
    g.expires = Some(at(2026, 6, 1));
    let grants = vec![g];
    assert!(authorises(
        &grants,
        &manager(),
        Capability::StatusRead,
        &Scope::Node,
        at(2026, 1, 1),
    ));
}

#[test]
fn never_expiring_grant_is_allowed_far_in_future() {
    let grants = vec![grant(Capability::StatusRead, Scope::Node)];
    assert!(authorises(
        &grants,
        &manager(),
        Capability::StatusRead,
        &Scope::Node,
        at(2999, 12, 31),
    ));
}

// ── Dangerous capability wildcard bar ──

#[test]
fn dangerous_capability_is_barred_by_node_scope() {
    // A node-wide grant of a dangerous capability never authorises it —
    // even for the node-wide target and an unexpired grant.
    for cap in [
        Capability::BackendManage,
        Capability::LifecycleControl,
        Capability::GrantAdmin,
    ] {
        let grants = vec![grant(cap, Scope::Node)];
        assert!(
            !authorises(&grants, &manager(), cap, &Scope::Node, at(2026, 1, 1)),
            "node-wide grant must not satisfy dangerous capability {cap:?}",
        );
        assert!(
            !authorises(
                &grants,
                &manager(),
                cap,
                &Scope::folder("/work"),
                at(2026, 1, 1),
            ),
            "node-wide grant must not satisfy dangerous capability {cap:?} over a folder",
        );
    }
}

#[test]
fn dangerous_capability_is_barred_by_root_folder_scope() {
    // A folder scope that normalises to the root is node-wide in
    // everything but name. It must not slip a dangerous capability past the
    // wildcard bar — the same denial as an explicit `Scope::Node` grant.
    for cap in [
        Capability::BackendManage,
        Capability::LifecycleControl,
        Capability::GrantAdmin,
    ] {
        for scope_path in ["/", "", "//", "/.", "/work/.."] {
            let grants = vec![grant(cap, Scope::folder(scope_path))];
            // Against a node-wide target: denied.
            assert!(
                !authorises(&grants, &manager(), cap, &Scope::Node, at(2026, 1, 1)),
                "root folder scope {scope_path:?} must not satisfy {cap:?} over the node",
            );
            // Against any folder target the root scope would otherwise
            // cover: still denied.
            assert!(
                !authorises(
                    &grants,
                    &manager(),
                    cap,
                    &Scope::folder("/work/reports"),
                    at(2026, 1, 1),
                ),
                "root folder scope {scope_path:?} must not satisfy {cap:?} over a folder",
            );
        }
    }
}

#[test]
fn dangerous_capability_is_satisfied_by_explicit_folder_scope() {
    for cap in [
        Capability::BackendManage,
        Capability::LifecycleControl,
        Capability::GrantAdmin,
    ] {
        let grants = vec![grant(cap, Scope::folder("/work"))];
        // Exact scope: allowed.
        assert!(
            authorises(
                &grants,
                &manager(),
                cap,
                &Scope::folder("/work"),
                at(2026, 1, 1),
            ),
            "explicit folder grant must satisfy dangerous capability {cap:?}",
        );
        // Descendant scope: allowed (folder coverage applies).
        assert!(
            authorises(
                &grants,
                &manager(),
                cap,
                &Scope::folder("/work/reports"),
                at(2026, 1, 1),
            ),
            "explicit folder grant must cover descendants for {cap:?}",
        );
        // Out-of-scope folder: denied.
        assert!(
            !authorises(
                &grants,
                &manager(),
                cap,
                &Scope::folder("/personal"),
                at(2026, 1, 1),
            ),
            "explicit folder grant must not leak to siblings for {cap:?}",
        );
    }
}

#[test]
fn dangerous_folder_grant_does_not_authorise_node_target() {
    // Even an explicit folder grant of a dangerous capability cannot reach
    // the node-wide target — a folder scope never covers Node.
    let grants = vec![grant(Capability::GrantAdmin, Scope::folder("/work"))];
    assert!(!authorises(
        &grants,
        &manager(),
        Capability::GrantAdmin,
        &Scope::Node,
        at(2026, 1, 1),
    ));
}

#[test]
fn first_satisfying_grant_authorises_among_many() {
    // A node-wide status grant plus a folder-scoped pin grant: each
    // authorises only its own capability/scope combination.
    let grants = vec![
        grant(Capability::StatusRead, Scope::Node),
        grant(Capability::PinWrite, Scope::folder("/work")),
    ];
    assert!(authorises(
        &grants,
        &manager(),
        Capability::StatusRead,
        &Scope::folder("/personal"),
        at(2026, 1, 1),
    ));
    assert!(authorises(
        &grants,
        &manager(),
        Capability::PinWrite,
        &Scope::folder("/work/q1"),
        at(2026, 1, 1),
    ));
    assert!(!authorises(
        &grants,
        &manager(),
        Capability::PinWrite,
        &Scope::folder("/personal"),
        at(2026, 1, 1),
    ));
}

// ── Config conversion ──

#[test]
fn grant_from_config_folder_scope() {
    let config = GrantConfig {
        grantee: "MANAGER".to_string(),
        capability: "pin:write".to_string(),
        scope: ScopeConfig::Folder {
            path: "/work".to_string(),
        },
        expires: None,
    };
    let grant = Grant::from_config(&config, &owner()).unwrap();
    assert_eq!(grant.grantee, DeviceId::new("MANAGER"));
    assert_eq!(grant.capability, Capability::PinWrite);
    assert_eq!(grant.scope, Scope::folder("/work"));
    assert_eq!(grant.granted_by, owner());
    assert!(grant.expires.is_none());
}

#[test]
fn grant_from_config_node_scope_with_expiry() {
    let config = GrantConfig {
        grantee: "MANAGER".to_string(),
        capability: "status:read".to_string(),
        scope: ScopeConfig::Node,
        expires: Some("2026-12-31T00:00:00Z".to_string()),
    };
    let grant = Grant::from_config(&config, &owner()).unwrap();
    assert_eq!(grant.scope, Scope::Node);
    assert_eq!(grant.expires, Some(at(2026, 12, 31)));
}

#[test]
fn grant_from_config_rejects_unknown_capability() {
    let config = GrantConfig {
        grantee: "MANAGER".to_string(),
        capability: "totally:bogus".to_string(),
        scope: ScopeConfig::Node,
        expires: None,
    };
    assert!(Grant::from_config(&config, &owner()).is_err());
}

#[test]
fn grant_from_config_rejects_bad_expiry() {
    let config = GrantConfig {
        grantee: "MANAGER".to_string(),
        capability: "status:read".to_string(),
        scope: ScopeConfig::Node,
        expires: Some("not-a-timestamp".to_string()),
    };
    assert!(Grant::from_config(&config, &owner()).is_err());
}

// ── Capability classification: data verbs ──

#[test]
fn data_verbs_are_not_dangerous() {
    assert!(!Capability::DataRead.is_dangerous());
    assert!(!Capability::DataWrite.is_dangerous());
}

#[test]
fn data_verbs_are_classified_as_data_verbs() {
    assert!(Capability::DataRead.is_data_verb());
    assert!(Capability::DataWrite.is_data_verb());
}

#[test]
fn non_data_verbs_are_not_data_verbs() {
    assert!(!Capability::StatusRead.is_data_verb());
    assert!(!Capability::PinWrite.is_data_verb());
    assert!(!Capability::GrantAdmin.is_data_verb());
}

#[test]
fn data_verbs_round_trip_through_wire_form() {
    assert_eq!(Capability::DataRead.as_wire(), "data:read");
    assert_eq!(Capability::DataWrite.as_wire(), "data:write");
    assert_eq!(
        Capability::from_wire("data:read"),
        Some(Capability::DataRead)
    );
    assert_eq!(
        Capability::from_wire("data:write"),
        Some(Capability::DataWrite)
    );
}

// ── data_access truth table ──

fn peer() -> DeviceId {
    DeviceId::new("PEER")
}

fn data_grant(capability: Capability, folder: &str) -> Grant {
    Grant {
        grantee: peer(),
        capability,
        scope: Scope::folder(folder),
        granted_by: owner(),
        expires: None,
    }
}

fn data_grant_expiring(capability: Capability, folder: &str, expires: Timestamp) -> Grant {
    Grant {
        grantee: peer(),
        capability,
        scope: Scope::folder(folder),
        granted_by: owner(),
        expires: Some(expires),
    }
}

#[test]
fn data_access_no_grant_returns_full_access_default() {
    // Rule 3: no data grant of any kind — trusted-peer default is
    // full bidirectional sharing.
    let access = data_access(&[], &peer(), "/work", at(2026, 1, 1));
    assert!(access.read, "default: read must be allowed");
    assert!(access.write, "default: write must be allowed");
}

#[test]
fn data_access_read_only_grant_allows_read_denies_write() {
    let grants = vec![data_grant(Capability::DataRead, "/work")];
    let access = data_access(&grants, &peer(), "/work", at(2026, 1, 1));
    assert!(access.read, "read:only grant must allow read");
    assert!(!access.write, "read-only grant must deny write");
}

#[test]
fn data_access_write_only_grant_allows_write_denies_read() {
    let grants = vec![data_grant(Capability::DataWrite, "/work")];
    let access = data_access(&grants, &peer(), "/work", at(2026, 1, 1));
    assert!(!access.read, "write-only grant must deny read");
    assert!(access.write, "write-only grant must allow write");
}

#[test]
fn data_access_read_write_grants_allow_both() {
    let grants = vec![
        data_grant(Capability::DataRead, "/work"),
        data_grant(Capability::DataWrite, "/work"),
    ];
    let access = data_access(&grants, &peer(), "/work", at(2026, 1, 1));
    assert!(access.read, "read-write grants must allow read");
    assert!(access.write, "read-write grants must allow write");
}

#[test]
fn data_access_expired_read_grant_narrows_but_does_not_default_open() {
    // An expired read grant still opts the peer into explicit control
    // (rule 2): the absent/lapsed direction is denied, not defaulted.
    let grants = vec![data_grant_expiring(
        Capability::DataRead,
        "/work",
        at(2025, 12, 31),
    )];
    let access = data_access(&grants, &peer(), "/work", at(2026, 1, 1));
    assert!(
        !access.read,
        "expired read grant must not allow read (rule 2: explicit control mode, expired)"
    );
    assert!(
        !access.write,
        "expired read grant must not allow write (no write grant exists)"
    );
}

#[test]
fn data_access_expired_read_grant_with_active_write_allows_only_write() {
    // An expired read grant + an active write grant: write is allowed,
    // read is denied (the lapsed direction narrows under explicit control).
    let grants = vec![
        data_grant_expiring(Capability::DataRead, "/work", at(2025, 12, 31)),
        data_grant(Capability::DataWrite, "/work"),
    ];
    let access = data_access(&grants, &peer(), "/work", at(2026, 1, 1));
    assert!(!access.read, "expired read grant must not allow read");
    assert!(access.write, "active write grant must allow write");
}

#[test]
fn data_access_grant_for_different_peer_is_ignored() {
    let mut g = data_grant(Capability::DataRead, "/work");
    g.grantee = DeviceId::new("OTHER-PEER");
    let grants = vec![g];
    // The grant is for a different peer; our peer has no data grant,
    // so it defaults to full access.
    let access = data_access(&grants, &peer(), "/work", at(2026, 1, 1));
    assert!(
        access.read,
        "different peer's grant must not affect our peer"
    );
    assert!(
        access.write,
        "different peer's grant must not affect our peer"
    );
}

#[test]
fn data_access_grant_for_different_folder_does_not_affect_this_folder() {
    // A data grant on /personal does not opt /work into explicit control.
    let grants = vec![data_grant(Capability::DataRead, "/personal")];
    let access = data_access(&grants, &peer(), "/work", at(2026, 1, 1));
    assert!(access.read, "grant on /personal must not restrict /work");
    assert!(access.write, "grant on /personal must not restrict /work");
}

#[test]
fn data_access_node_wide_data_grant_is_ignored_as_defence_in_depth() {
    // F4: a data-verb grant whose scope is node-wide cannot
    // contribute to the per-direction decision. The local CLI and
    // the wire-side parse both refuse such a grant outright; this
    // pure-function filter is defence in depth for any row that
    // somehow slipped through (a future code path, a corrupt
    // state, a bug we have not yet found). Without the filter, a
    // node-wide `data:read` would set `has_any_data_grant = true`
    // and silently narrow every folder the peer might touch — the
    // F1 silent-no-op failure mode in a different shape.
    let grants = vec![
        Grant {
            grantee: peer(),
            capability: Capability::DataRead,
            scope: Scope::Node,
            granted_by: owner(),
            expires: None,
        },
        Grant {
            grantee: peer(),
            capability: Capability::DataWrite,
            scope: Scope::Node,
            granted_by: owner(),
            expires: None,
        },
    ];
    let access = data_access(&grants, &peer(), "/work", at(2026, 1, 1));
    assert!(
        access.read,
        "node-wide data:read must not restrict the folder (F4 defence in depth)"
    );
    assert!(
        access.write,
        "node-wide data:write must not restrict the folder (F4 defence in depth)"
    );
    // A root folder grant (`/`) is also node-wide in everything
    // but name, so the same filter catches it.
    let grants = vec![Grant {
        grantee: peer(),
        capability: Capability::DataRead,
        scope: Scope::folder("/"),
        granted_by: owner(),
        expires: None,
    }];
    let access = data_access(&grants, &peer(), "/work", at(2026, 1, 1));
    assert!(
        access.read,
        "root-folder data:read must not restrict the folder (F4 defence in depth)"
    );
    assert!(
        access.write,
        "root-folder data:read must not restrict the folder (F4 defence in depth)"
    );
}

#[test]
fn data_access_parent_folder_grant_covers_child() {
    // A data:read grant on /work covers /work/reports (folder prefix coverage).
    let grants = vec![data_grant(Capability::DataRead, "/work")];
    let access = data_access(&grants, &peer(), "/work/reports", at(2026, 1, 1));
    assert!(access.read, "parent folder grant must cover child folder");
    assert!(!access.write, "parent folder read grant must deny write");
}

#[test]
fn data_access_delegation_cannot_escalate_scope() {
    // A read grant on /work/sub does NOT cover /work (the parent). The
    // grant system's subset rule means a delegate can only narrow scope,
    // never widen it: a grant on /work/sub cannot make the peer read /work.
    let grants = vec![data_grant(Capability::DataRead, "/work/sub")];
    let access = data_access(&grants, &peer(), "/work", at(2026, 1, 1));
    // The grant for /work/sub does not cover /work, so no data grant
    // applies to this folder. Default-open applies.
    assert!(
        access.read,
        "grant on /work/sub must not affect /work (default-open applies)"
    );
    assert!(
        access.write,
        "grant on /work/sub must not affect /work (default-open applies)"
    );
}

#[test]
fn data_access_revoked_token_grant_is_excluded() {
    // A grant derived from a revoked token must not authorise access.
    // The data_access function operates on a grants slice that callers
    // populate; a revoked-token grant must simply not be included in the
    // slice the caller passes. Here we verify that a slice with no grants
    // for this peer yields the default-open result, and that excluding the
    // grant (as the DataAuthority impl must for revoked tokens) works.
    let access = data_access(&[], &peer(), "/work", at(2026, 1, 1));
    assert!(access.read, "empty grants yields default-open");
    assert!(access.write, "empty grants yields default-open");
}
