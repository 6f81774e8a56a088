//! Rows of the state database.

use cascade_engine::db::schema::{migrate, needs_migration, MigrationStep, SchemaVersion};
use cascade_engine::db::{
    block_hash_from_sql, grant_scope, instant_from_sql, mod_time_from_sql,
    record_data_explicit_control, size_from_sql, size_to_sql, stored_path, AuditRecord,
    ExplicitControlRecord, GrantRecord, QuarantineRecord, RawAuditRow, RawGrantRow, TokenRecord,
};
use cascade_engine::manage::{Capability, DeviceId, Scope};
use cascade_engine::time::Timestamp;
use cascade_engine::types::{FileEntry, ItemId};

fn moment(secs: i64) -> Timestamp {
    Timestamp::new(secs, 0).expect("in range")
}

#[test]
fn sizes_are_stored_within_range() {
    assert_eq!(size_to_sql(7), 7);
    assert_eq!(size_to_sql(i64::MAX as u64), i64::MAX);
    assert_eq!(size_to_sql(u64::MAX), i64::MAX);
    assert_eq!(size_from_sql(Some(7)), Some(7));
    assert_eq!(size_from_sql(Some(-7)), Some(0));
    assert_eq!(size_from_sql(None), None);
}

#[test]
fn entries_are_stored_under_their_path() {
    let entry = FileEntry::file(
        ItemId::new("b", "n"),
        ItemId::new("b", "root"),
        "name".to_owned(),
    );
    assert_eq!(entry.id.0, "b:n");
    assert_eq!(stored_path(&entry), "name");
    let entry = entry.with_path(String::new());
    assert_eq!(stored_path(&entry), "name");
    let entry = entry.with_path("a/name".to_owned());
    assert_eq!(stored_path(&entry), "a/name");
}

#[test]
fn times_are_read_back() {
    assert_eq!(instant_from_sql(Some(5)), Some(moment(5)));
    assert_eq!(instant_from_sql(Some(i64::MAX)), None);
    assert_eq!(instant_from_sql(None), None);
    assert_eq!(mod_time_from_sql(Some(5)), Some(moment(5)));
    assert_eq!(mod_time_from_sql(Some(i64::MAX)), Some(moment(0)));
    assert_eq!(mod_time_from_sql(None), None);
}

#[test]
fn block_hashes_are_read_back() {
    assert_eq!(block_hash_from_sql(vec![3; 32]), vec![3; 32]);
    assert_eq!(block_hash_from_sql(vec![3; 31]), vec![0; 32]);
}

fn raw_grant(capability: &str, scope_kind: &str, scope_path: Option<&str>) -> RawGrantRow {
    RawGrantRow {
        id: 4,
        grantee: "MANAGER".to_owned(),
        capability: capability.to_owned(),
        scope_kind: scope_kind.to_owned(),
        scope_path: scope_path.map(str::to_owned),
        granted_by: "OWNER".to_owned(),
        expires: Some(moment(1_900_000_000)),
    }
}

#[test]
fn stored_grants_are_validated() {
    let record = GrantRecord::try_from_raw(raw_grant("pin:write", "folder", Some("/work"))).unwrap();
    assert_eq!(record.id, 4);
    assert_eq!(record.grant.grantee, DeviceId::new("MANAGER"));
    assert_eq!(record.grant.granted_by, DeviceId::new("OWNER"));
    assert_eq!(record.grant.capability, Capability::PinWrite);
    assert_eq!(record.grant.scope, Scope::folder("/work"));
    assert_eq!(record.grant.expires, Some(moment(1_900_000_000)));
    let refused = |raw: RawGrantRow| GrantRecord::try_from_raw(raw).unwrap_err().message();
    assert_eq!(
        refused(raw_grant("bogus", "node", None)),
        "unknown capability in grant 4: bogus"
    );
    assert_eq!(
        refused(raw_grant("pin:write", "planet", None)),
        "invalid scope kind in grant 4: planet"
    );
    assert_eq!(
        refused(raw_grant("pin:write", "folder", None)),
        "invalid scope kind in grant 4: folder"
    );
    assert_eq!(
        grant_scope(4, "node".to_owned(), None).unwrap(),
        Scope::Node
    );
    assert_eq!(
        grant_scope(4, "x".to_owned(), None).unwrap_err().message(),
        "invalid scope kind in grant 4: x"
    );
}

fn raw_audit(timestamp: i64, capability: &str, scope_kind: &str) -> RawAuditRow {
    RawAuditRow {
        id: 9,
        timestamp,
        actor_device: "MANAGER".to_owned(),
        capability: capability.to_owned(),
        scope_kind: scope_kind.to_owned(),
        scope_path: None,
        command: "status:read".to_owned(),
        outcome: "allowed".to_owned(),
    }
}

#[test]
fn stored_audit_rows_are_validated() {
    let record = AuditRecord::try_from_raw(raw_audit(60, "status:read", "node")).unwrap();
    assert_eq!(record.id, 9);
    assert_eq!(record.entry.timestamp, moment(60));
    assert_eq!(record.entry.actor_device, DeviceId::new("MANAGER"));
    assert_eq!(record.entry.capability, Capability::StatusRead);
    assert_eq!(record.entry.scope, Scope::Node);
    assert_eq!(record.entry.command, "status:read");
    assert_eq!(record.entry.outcome, "allowed");
    let refused = |raw: RawAuditRow| AuditRecord::try_from_raw(raw).unwrap_err().message();
    assert_eq!(
        refused(raw_audit(i64::MAX, "bogus", "x")),
        "invalid audit timestamp in row 9"
    );
    assert_eq!(
        refused(raw_audit(0, "bogus", "x")),
        "unknown capability in audit row 9: bogus"
    );
    assert_eq!(
        refused(raw_audit(0, "status:read", "x")),
        "invalid scope kind in audit row 9: x"
    );
}

#[test]
fn control_is_sticky() {
    let first = record_data_explicit_control(None, "PEER", "/work", true, false, moment(10));
    assert!(first.data_read && !first.data_write);
    let second =
        record_data_explicit_control(Some(first), "PEER", "/work", false, true, moment(5));
    assert!(second.data_read && second.data_write);
    assert_eq!(second.observed_at, moment(10));
    let third = record_data_explicit_control(Some(second), "PEER", "/work", false, false, moment(20));
    assert!(third.data_read && third.data_write);
    assert_eq!(third.observed_at, moment(20));
}

#[test]
fn rows_with_a_time_of_observation_are_validated() {
    let text = |s: &str| s.to_owned();
    let row = QuarantineRecord::from_columns(text("f"), text("p"), text("a.txt"), text("{}"), 7)
        .unwrap();
    assert_eq!(row.observed_at, moment(7));
    assert_eq!(row.folder_id, "f");
    let error =
        QuarantineRecord::from_columns(text("f"), text("p"), text("a.txt"), text("{}"), i64::MIN)
            .unwrap_err();
    assert_eq!(
        error.message(),
        "invalid observed_at timestamp in quarantine row for a.txt"
    );
    let row = ExplicitControlRecord::from_columns(text("p"), text("f"), true, false, 7).unwrap();
    assert_eq!(row.observed_at, moment(7));
    assert!(row.data_read && !row.data_write);
    let error = ExplicitControlRecord::from_columns(text("p"), text("f"), true, false, i64::MIN)
        .unwrap_err();
    assert_eq!(
        error.message(),
        "invalid observed_at timestamp in data_explicit_control row for p/f"
    );
}

#[test]
fn stored_tokens_are_validated() {
    let unreadable = || Err("EOF".to_owned());
    let refused = |issued_at: i64| {
        TokenRecord::from_columns("t".to_owned(), issued_at, unreadable())
            .unwrap_err()
            .message()
    };
    assert_eq!(
        refused(i64::MAX),
        "invalid issued_at timestamp for token t"
    );
    assert_eq!(refused(0), "invalid stored token t: EOF");
}

#[test]
fn migration_takes_the_steps_that_are_missing() {
    assert_eq!(SchemaVersion::current(), SchemaVersion(5));
    assert_eq!(
        migrate(SchemaVersion(0)),
        vec![
            MigrationStep::Init,
            MigrationStep::ManagePlane,
            MigrationStep::CapabilityTokens,
            MigrationStep::DataReceiveQuarantine,
            MigrationStep::DataExplicitControl,
        ]
    );
    assert_eq!(
        migrate(SchemaVersion(3)),
        vec![
            MigrationStep::DataReceiveQuarantine,
            MigrationStep::DataExplicitControl
        ]
    );
    assert!(migrate(SchemaVersion(5)).is_empty());
    assert!(migrate(SchemaVersion(9)).is_empty());
    assert!(needs_migration(SchemaVersion(4)));
    assert!(!needs_migration(SchemaVersion(5)));
}
