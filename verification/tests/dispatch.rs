//! Management commands from request to reply, with the grant store and the
//! executor played by the tests.

use std::cell::RefCell;
use std::sync::atomic::{AtomicU64, Ordering};

use cascade_engine::db::AuditEntry;
use cascade_engine::manage::command::{
    command_summary, DispatchOutcome, ExecutorCall, ManageCommand, ManageConfigFormat, ManageErrorKind, ManageGrant,
    ManageResult, ManageScope,
};
use cascade_engine::manage::delegation::{grant_from_wire, ExpiryBound};
use cascade_engine::manage::dispatch::{
    glob_fixed_prefix, TokenReading, OUTCOME_ALLOWED, OUTCOME_DENIED, OUTCOME_FAILED,
};
use cascade_engine::manage::run::{resume, DispatchAction, DispatchEvent};
use cascade_engine::manage::token::{DeviceKeyError, SignatureCheck, MAX_TOKEN_JSON_BYTES};
use cascade_engine::manage::{
    authorises, verify_data_token, Capability, CapabilityToken, DelegateError, DeviceId, Grant,
    Scope, TokenClaims,
};
use cascade_engine::time::Timestamp;
use chrono::{TimeZone, Utc};
use sha2::{Digest, Sha256};

fn at(year: i32, month: u32, day: u32) -> Timestamp {
    let date = Utc
        .with_ymd_and_hms(year, month, day, 0, 0, 0)
        .single()
        .expect("valid date");
    Timestamp::new(date.timestamp(), 0).expect("in range")
}

fn manager() -> DeviceId {
    DeviceId::new("MANAGER")
}

fn owner() -> DeviceId {
    DeviceId::new("OWNER")
}

/// A device identity of the tests: its certificate is its id, and it signs by
/// hashing.
struct DeviceIdentity {
    device_id: String,
}

impl DeviceIdentity {
    fn generate() -> DeviceIdentity {
        let n = NEXT_DEVICE.fetch_add(1, Ordering::SeqCst);
        DeviceIdentity {
            device_id: format!("DEVICE-{n}"),
        }
    }

    fn cert_der(&self) -> Vec<u8> {
        self.device_id.as_bytes().to_vec()
    }

    fn sign_capability(&self, message: &[u8]) -> [u8; 64] {
        let mut salted = self.device_id.as_bytes().to_vec();
        salted.extend_from_slice(message);
        let first = Sha256::digest(&salted);
        salted.push(0);
        let second = Sha256::digest(&salted);
        let mut signature = [0u8; 64];
        signature[..32].copy_from_slice(&first);
        signature[32..].copy_from_slice(&second);
        signature
    }
}

static NEXT_DEVICE: AtomicU64 = AtomicU64::new(1);

/// What checking one signature reports.
fn check(check: &SignatureCheck) -> Option<DeviceKeyError> {
    let issuer = DeviceIdentity {
        device_id: check.issuer.as_str().to_owned(),
    };
    if issuer.cert_der() != check.issuer_cert_der {
        return Some(DeviceKeyError("certificate is not the issuer's".to_owned()));
    }
    if issuer.sign_capability(&check.signed) != check.signature {
        return Some(DeviceKeyError("signature does not match".to_owned()));
    }
    None
}

/// The verdicts on every signature of a token.
fn verdicts(token: &CapabilityToken) -> Vec<Option<DeviceKeyError>> {
    token.signature_checks().iter().map(check).collect()
}

/// Issues a token signed by `issuer`.
fn issue(
    token_id: &str,
    issuer: &DeviceIdentity,
    bearer: &DeviceId,
    capability: Capability,
    scope: Scope,
    expires: Timestamp,
) -> Result<CapabilityToken, DeviceKeyError> {
    let claims = TokenClaims {
        token_id: token_id.to_owned(),
        issuer: DeviceId::new(&issuer.device_id),
        bearer: bearer.clone(),
        capability,
        scope,
        expires,
    };
    let signature = issuer.sign_capability(&claims.signing_bytes());
    CapabilityToken::issue(claims, Ok(signature), Ok(issuer.cert_der()))
}

/// Delegates from `parent`, signed by `delegator`.
fn delegate(
    parent: &CapabilityToken,
    token_id: &str,
    delegator: &DeviceIdentity,
    bearer: &DeviceId,
    capability: Capability,
    scope: Scope,
    expires: Timestamp,
) -> Result<CapabilityToken, DelegateError> {
    let id = DeviceId::new(&delegator.device_id);
    let claims =
        parent.delegated_claims(token_id, &id, bearer, capability, scope.clone(), expires)?;
    let signature = delegator.sign_capability(&claims.signing_bytes());
    parent.delegate(
        token_id,
        &id,
        bearer,
        capability,
        scope,
        expires,
        Ok(signature),
        Ok(delegator.cert_der()),
    )
}

/// A grant store and audit sink in memory.
struct FakeStore {
    grants: Vec<Grant>,
    /// The scopes of stored grants by row id.
    stored: Vec<(i64, Scope)>,
    audit: RefCell<Vec<AuditEntry>>,
    /// This node's own identity, in which the chain of a token must root.
    node_identity: DeviceIdentity,
    /// The revoked token ids.
    revoked: Vec<String>,
    /// The scopes of running sessions by id.
    exec_sessions: Vec<(u64, Scope)>,
    /// The tokens that texts stand for.
    tokens: RefCell<Vec<(String, CapabilityToken)>>,
}

impl FakeStore {
    fn new(grants: Vec<Grant>) -> Self {
        Self {
            grants,
            stored: Vec::new(),
            audit: RefCell::new(Vec::new()),
            node_identity: DeviceIdentity::generate(),
            revoked: Vec::new(),
            exec_sessions: Vec::new(),
            tokens: RefCell::new(Vec::new()),
        }
    }

    fn with_exec_session(mut self, id: u64, scope: Scope) -> Self {
        self.exec_sessions.push((id, scope));
        self
    }

    fn with_node_identity(node_identity: DeviceIdentity) -> Self {
        let mut store = Self::new(Vec::new());
        store.node_identity = node_identity;
        store
    }

    fn with_revoked_token(mut self, token_id: &str) -> Self {
        self.revoked.push(token_id.to_owned());
        self
    }

    fn with_stored_grant(mut self, id: i64, scope: Scope) -> Self {
        self.stored.push((id, scope));
        self
    }

    /// The text under which a token is presented.
    fn present(&self, token: CapabilityToken) -> String {
        let text = format!("{{{}}}", token.claims.token_id);
        self.tokens.borrow_mut().push((text.clone(), token));
        text
    }

    /// Issues a token signed by this node and returns its text.
    fn issue_token_json(
        &self,
        token_id: &str,
        bearer: &DeviceId,
        capability: Capability,
        scope: Scope,
        expires: Timestamp,
    ) -> String {
        let token = issue(
            token_id,
            &self.node_identity,
            bearer,
            capability,
            scope,
            expires,
        )
        .expect("issue a token with the node identity");
        self.present(token)
    }

    /// What there is to judge a presented token by.
    fn reading(&self, text: &str) -> TokenReading {
        let parsed = self
            .tokens
            .borrow()
            .iter()
            .find(|(t, _)| t == text)
            .map(|(_, token)| token.duplicate())
            .ok_or_else(|| "expected ident at line 1 column 2".to_owned());
        let verdicts = parsed.as_ref().map(verdicts).unwrap_or_default();
        TokenReading {
            parsed,
            node: Ok(DeviceId::new(&self.node_identity.device_id)),
            revoked: Ok(self.revoked.clone()),
            verdicts,
        }
    }

    fn audit_rows(&self) -> std::cell::Ref<'_, Vec<AuditEntry>> {
        self.audit.borrow()
    }
}

/// An executor that records each call.
#[derive(Default)]
struct FakeExecutor {
    calls: RefCell<Vec<String>>,
    fail: bool,
}

impl FakeExecutor {
    fn calls(&self) -> Vec<String> {
        self.calls.borrow().clone()
    }

    fn execute(&self, call: ExecutorCall) -> Result<DispatchOutcome, String> {
        let (record, reply) = match call {
            ExecutorCall::Status => ("status".to_owned(), "status ok".to_owned()),
            ExecutorCall::Pin { path_glob, recursive } => (
                format!("pin {path_glob} {recursive}"),
                format!("pinned {path_glob}"),
            ),
            ExecutorCall::Unpin { path_glob } => {
                (format!("unpin {path_glob}"), format!("unpinned {path_glob}"))
            }
            ExecutorCall::CacheEvict => ("evict".to_owned(), "evicted".to_owned()),
            ExecutorCall::CacheWarm { path_glob } => {
                (format!("warm {path_glob}"), format!("warmed {path_glob}"))
            }
            ExecutorCall::ConfigPush { format, folder, body } => (
                format!("config_push {format:?} {folder} {body}"),
                format!("pushed into {folder}"),
            ),
            ExecutorCall::PolicySet {
                path_glob,
                max_age_secs,
                max_file_size,
                priority,
            } => (
                format!("policy_set {path_glob} {max_age_secs:?} {max_file_size:?} {priority}"),
                format!("policy set for {path_glob}"),
            ),
            ExecutorCall::BackendAdd {
                name,
                backend_type,
                mount_path,
                config_toml,
            } => (
                format!("backend_add {name} {backend_type} {mount_path} {config_toml}"),
                format!("backend {name} added"),
            ),
            ExecutorCall::BackendRemove { name, mount_path } => (
                format!("backend_remove {name} {mount_path}"),
                format!("backend {name} removed"),
            ),
            ExecutorCall::Restart => ("restart".to_owned(), "restarted".to_owned()),
            ExecutorCall::Stop => ("stop".to_owned(), "stopped".to_owned()),
            ExecutorCall::GrantAdd { grant } => (
                format!(
                    "grant_add grantee={} cap={} scope={:?} granted_by={} expires={:?}",
                    grant.grantee.as_str(),
                    grant.capability.as_wire(),
                    grant.scope,
                    grant.granted_by.as_str(),
                    grant.expires.map(|t| t.secs()),
                ),
                "grant added".to_owned(),
            ),
            ExecutorCall::GrantRevoke { grant_id } => (
                format!("grant_revoke {grant_id}"),
                format!("grant {grant_id} revoked"),
            ),
            ExecutorCall::PtySpawn { owner, scope, .. } => {
                self.calls
                    .borrow_mut()
                    .push(format!("pty_spawn owner={} scope={scope:?}", owner.as_str()));
                return Ok(DispatchOutcome::ExecSpawned(SPAWNED_SESSION_ID));
            }
            ExecutorCall::ProcSpawn { owner, scope, .. } => {
                self.calls
                    .borrow_mut()
                    .push(format!("proc_spawn owner={} scope={scope:?}", owner.as_str()));
                return Ok(DispatchOutcome::ExecSpawned(SPAWNED_SESSION_ID));
            }
            ExecutorCall::PtyWrite { session, bytes } => (
                format!("pty_write {session} {}", bytes.len()),
                format!("wrote to {session}"),
            ),
            other => (format!("{other:?}"), "done".to_owned()),
        };
        self.calls.borrow_mut().push(record);
        if self.fail {
            return Err("status failed".to_owned());
        }
        Ok(DispatchOutcome::Summary(reply))
    }
}

/// Runs a command to its reply.
fn run_dispatch(
    store: &FakeStore,
    executor: &FakeExecutor,
    caller: &DeviceId,
    command: ManageCommand,
    wire_scope: ManageScope,
    token: Option<String>,
    now: Timestamp,
) -> ManageResult {
    let (mut state, mut action) = cascade_engine::manage::run_dispatch(
        caller.clone(),
        command,
        wire_scope,
        token,
        now,
    );
    loop {
        let event = match action {
            DispatchAction::ReadGrants => DispatchEvent::Grants(Ok(store.grants.clone())),
            DispatchAction::ReadToken(text) => DispatchEvent::Token(store.reading(&text)),
            DispatchAction::ReadGrantScope(id) => DispatchEvent::Scope(Ok(store
                .stored
                .iter()
                .find(|(row, _)| *row == id)
                .map(|(_, scope)| scope.clone()))),
            DispatchAction::ReadSessionScope(id) => DispatchEvent::Scope(Ok(store
                .exec_sessions
                .iter()
                .find(|(session, _)| *session == id)
                .map(|(_, scope)| scope.clone()))),
            DispatchAction::AppendAudit(entry) => {
                store.audit.borrow_mut().push(entry);
                DispatchEvent::AuditWritten(Ok(()))
            }
            DispatchAction::Execute(call) => DispatchEvent::Executed(executor.execute(call)),
            DispatchAction::Reply(result) => return result,
        };
        (state, action) = resume(state, event);
    }
}

/// The session id that the executor opens.
const SPAWNED_SESSION_ID: u64 = 42;

fn grant(capability: Capability, scope: Scope) -> Grant {
    Grant {
        grantee: manager(),
        capability,
        scope,
        granted_by: owner(),
        expires: None,
    }
}

#[test]
fn authorised_command_runs_and_audits_allowed() {
    let store = FakeStore::new(vec![grant(Capability::PinWrite, Scope::folder("/work"))]);
    let executor = FakeExecutor::default();
    let result = run_dispatch(
        &store,
        &executor,
        &manager(),
        ManageCommand::Pin {
            path_glob: "/work/reports".to_owned(),
            recursive: true,
        },
        ManageScope::Folder {
            path: "/work/reports".to_owned(),
        },
        None,
        at(2026, 1, 1),
    );

    assert!(
        matches!(result, ManageResult::Completed { .. }),
        "authorised pin should succeed, got {result:?}",
    );
    assert_eq!(
        executor.calls(),
        vec!["pin /work/reports true".to_owned()],
        "the side effect must have run exactly once",
    );
    let audit = store.audit_rows();
    assert_eq!(audit.len(), 1, "exactly one audit row");
    let row = audit.first().expect("one audit row");
    assert_eq!(row.outcome, OUTCOME_ALLOWED);
    assert_eq!(row.actor_device, manager());
    assert_eq!(row.capability, Capability::PinWrite);
}

#[test]
fn pin_path_outside_granted_scope_is_refused_even_when_wire_scope_lies() {
    // Scope-escape regression: the caller holds PinWrite over `/work` only,
    // and advertises a wire scope of `/work` (which the grant covers), but
    // the command's `path_glob` targets `/personal/secret`. Authorisation
    // must key on the path the command actually mutates, not the advertised
    // wire scope, so the request is refused and no pin runs.
    let store = FakeStore::new(vec![grant(Capability::PinWrite, Scope::folder("/work"))]);
    let executor = FakeExecutor::default();
    let result = run_dispatch(
        &store,
        &executor,
        &manager(),
        ManageCommand::Pin {
            path_glob: "/personal/secret".to_owned(),
            recursive: false,
        },
        // The caller lies: it advertises a scope its grant *does* cover.
        ManageScope::Folder {
            path: "/work".to_owned(),
        },
        None,
        at(2026, 1, 1),
    );

    assert!(
        matches!(
            result,
            ManageResult::Error {
                kind: ManageErrorKind::Unauthorised,
                ..
            }
        ),
        "a pin whose path escapes the granted scope must be refused, got {result:?}",
    );
    assert!(
        executor.calls().is_empty(),
        "no pin rule may be created when the path escapes the granted scope",
    );
    let audit = store.audit_rows();
    assert_eq!(audit.len(), 1, "the denial must still be audited");
    let row = audit.first().expect("one audit row");
    assert_eq!(row.outcome, OUTCOME_DENIED);
    assert_eq!(
        row.scope,
        Scope::folder("/personal/secret"),
        "the audit row records the path actually targeted, not the advertised wire scope",
    );
}

#[test]
fn pin_glob_is_confined_to_its_fixed_prefix() {
    // A glob `path_glob` is authorisable only over the fixed directory
    // prefix it can ever match. A grant over `/work` covers `/work/*`
    // (fixed prefix `/work`) but a `/work` grant must NOT authorise a glob
    // whose fixed prefix climbs out of `/work`.
    let store = FakeStore::new(vec![grant(Capability::PinWrite, Scope::folder("/work"))]);
    let executor = FakeExecutor::default();
    let allowed = run_dispatch(
        &store,
        &executor,
        &manager(),
        ManageCommand::Pin {
            path_glob: "/work/*.pdf".to_owned(),
            recursive: false,
        },
        ManageScope::Folder {
            path: "/work".to_owned(),
        },
        None,
        at(2026, 1, 1),
    );
    assert!(
        matches!(allowed, ManageResult::Completed { .. }),
        "a glob confined to the granted subtree is allowed, got {allowed:?}",
    );
}

#[test]
fn unauthorised_command_is_rejected_makes_no_change_and_audits_denial() {
    // Manager holds a status grant only — a pin must be refused.
    let store = FakeStore::new(vec![grant(Capability::StatusRead, Scope::Node)]);
    let executor = FakeExecutor::default();
    let result = run_dispatch(
        &store,
        &executor,
        &manager(),
        ManageCommand::Pin {
            path_glob: "/work".to_owned(),
            recursive: false,
        },
        ManageScope::Folder {
            path: "/work".to_owned(),
        },
        None,
        at(2026, 1, 1),
    );

    assert!(
        matches!(
            result,
            ManageResult::Error {
                kind: ManageErrorKind::Unauthorised,
                ..
            }
        ),
        "unauthorised pin must be refused, got {result:?}",
    );
    assert!(
        executor.calls().is_empty(),
        "no side effect must run on an unauthorised request",
    );
    let audit = store.audit_rows();
    assert_eq!(audit.len(), 1, "the denial must still be audited");
    let row = audit.first().expect("one audit row");
    assert_eq!(row.outcome, OUTCOME_DENIED);
    assert_eq!(row.capability, Capability::PinWrite);
}

#[test]
fn safe_capability_under_wildcard_grant_runs() {
    // A node-wide (wildcard) grant of a *safe* capability authorises that
    // capability over any folder target. This is the legitimate wildcard
    // path — the foil to the dangerous-capability bar below.
    let store = FakeStore::new(vec![grant(Capability::PinWrite, Scope::Node)]);
    let executor = FakeExecutor::default();
    let result = run_dispatch(
        &store,
        &executor,
        &manager(),
        ManageCommand::Pin {
            path_glob: "/anywhere".to_owned(),
            recursive: false,
        },
        ManageScope::Folder {
            path: "/anywhere".to_owned(),
        },
        None,
        at(2026, 1, 1),
    );
    assert!(
        matches!(result, ManageResult::Completed { .. }),
        "node-wide grant should cover a safe capability over any folder",
    );
}

#[test]
fn dangerous_capability_under_wildcard_grant_is_rejected() {
    // The authorisation step `run_dispatch` performs bars a dangerous
    // capability from ever being satisfied by a node-wide (wildcard) grant —
    // it must be granted explicitly for the exact folder scope. The wire
    // command surface for this phase exposes only safe verbs, so the bar is
    // asserted at the authorisation boundary `run_dispatch` calls: a
    // node-wide grant of every dangerous capability denies that capability
    // over both the node and any folder target.
    for cap in [
        Capability::BackendManage,
        Capability::LifecycleControl,
        Capability::GrantAdmin,
    ] {
        let grants = vec![grant(cap, Scope::Node)];
        assert!(
            !authorises(&grants, &manager(), cap, &Scope::Node, at(2026, 1, 1)),
            "wildcard grant must not satisfy dangerous {cap:?} over the node",
        );
        assert!(
            !authorises(
                &grants,
                &manager(),
                cap,
                &Scope::folder("/work"),
                at(2026, 1, 1),
            ),
            "wildcard grant must not satisfy dangerous {cap:?} over a folder",
        );
    }
}

#[test]
fn expired_grant_is_refused_and_audited() {
    let mut g = grant(Capability::CacheManage, Scope::Node);
    g.expires = Some(at(2026, 1, 1));
    let store = FakeStore::new(vec![g]);
    let executor = FakeExecutor::default();
    let result = run_dispatch(
        &store,
        &executor,
        &manager(),
        ManageCommand::CacheEvict,
        ManageScope::Node,
        None,
        at(2026, 6, 1),
    );
    assert!(
        matches!(
            result,
            ManageResult::Error {
                kind: ManageErrorKind::Unauthorised,
                ..
            }
        ),
        "an expired grant must not authorise",
    );
    assert!(executor.calls().is_empty());
    let audit = store.audit_rows();
    assert_eq!(audit.len(), 1);
    assert_eq!(
        audit.first().map(|r| r.outcome.as_str()),
        Some(OUTCOME_DENIED),
    );
}

#[test]
fn authorised_command_that_fails_reports_failed_and_audits_both() {
    let store = FakeStore::new(vec![grant(Capability::StatusRead, Scope::Node)]);
    let executor = FakeExecutor {
        calls: RefCell::new(Vec::new()),
        fail: true,
    };
    let result = run_dispatch(
        &store,
        &executor,
        &manager(),
        ManageCommand::StatusRead,
        ManageScope::Node,
        None,
        at(2026, 1, 1),
    );
    assert!(
        matches!(
            result,
            ManageResult::Error {
                kind: ManageErrorKind::Failed,
                ..
            }
        ),
        "a command that fails while running reports Failed, got {result:?}",
    );
    let audit = store.audit_rows();
    // The allowed row is written before the side effect; the failure row
    // follows once the command errors.
    assert_eq!(audit.len(), 2, "allowed then failed audit rows");
    assert_eq!(
        audit.first().map(|r| r.outcome.as_str()),
        Some(OUTCOME_ALLOWED)
    );
    assert_eq!(
        audit.get(1).map(|r| r.outcome.as_str()),
        Some(OUTCOME_FAILED)
    );
}

// ── New command surface: authorised round-trips ──

/// Assert an authorised command runs exactly once, audits a single
/// `allowed` row carrying the expected capability and target scope, and the
/// recorded executor call matches `expected_call`.
fn assert_authorised(
    grants: Vec<Grant>,
    command: ManageCommand,
    wire_scope: ManageScope,
    expected_capability: Capability,
    expected_scope: Scope,
    expected_call: &str,
) {
    let store = FakeStore::new(grants);
    let executor = FakeExecutor::default();
    let result = run_dispatch(
        &store,
        &executor,
        &manager(),
        command,
        wire_scope,
        None,
        at(2026, 1, 1),
    );
    assert!(
        matches!(result, ManageResult::Completed { .. }),
        "authorised command should succeed, got {result:?}",
    );
    assert_eq!(
        executor.calls(),
        vec![expected_call.to_owned()],
        "the side effect must run exactly once with the expected arguments",
    );
    let audit = store.audit_rows();
    assert_eq!(audit.len(), 1, "exactly one audit row");
    let row = audit.first().expect("one audit row");
    assert_eq!(row.outcome, OUTCOME_ALLOWED);
    assert_eq!(row.capability, expected_capability);
    assert_eq!(row.scope, expected_scope);
}

#[test]
fn cache_warm_authorised_runs_and_audits() {
    assert_authorised(
        vec![grant(Capability::CacheManage, Scope::folder("/work"))],
        ManageCommand::CacheWarm {
            path_glob: "/work/**".to_owned(),
        },
        ManageScope::Folder {
            path: "/work".to_owned(),
        },
        Capability::CacheManage,
        Scope::folder("/work"),
        "warm /work/**",
    );
}

#[test]
fn config_push_authorised_runs_and_audits() {
    assert_authorised(
        vec![grant(Capability::ConfigPush, Scope::folder("/work"))],
        ManageCommand::ConfigPush {
            format: ManageConfigFormat::Gitignore,
            folder: "/work".to_owned(),
            body: "*.tmp\n".to_owned(),
        },
        ManageScope::Folder {
            path: "/work".to_owned(),
        },
        Capability::ConfigPush,
        Scope::folder("/work"),
        "config_push Gitignore /work *.tmp\n",
    );
}

#[test]
fn policy_set_authorised_runs_and_audits() {
    assert_authorised(
        vec![grant(Capability::PolicySet, Scope::folder("/work"))],
        ManageCommand::PolicySet {
            path_glob: "/work/*.tmp".to_owned(),
            max_age_secs: Some(3600),
            max_file_size: None,
            priority: 2,
        },
        ManageScope::Folder {
            path: "/work".to_owned(),
        },
        Capability::PolicySet,
        Scope::folder("/work"),
        "policy_set /work/*.tmp Some(3600) None 2",
    );
}

#[test]
fn backend_add_authorised_under_explicit_folder_grant_runs_and_audits() {
    // BackendManage is dangerous, so an explicit folder grant — never a
    // node-wide one — is required.
    assert_authorised(
        vec![grant(Capability::BackendManage, Scope::folder("/drive"))],
        ManageCommand::BackendAdd {
            name: "personal".to_owned(),
            backend_type: "gdrive".to_owned(),
            mount_path: "/drive".to_owned(),
            config_toml: "type = \"gdrive\"\n".to_owned(),
        },
        ManageScope::Folder {
            path: "/drive".to_owned(),
        },
        Capability::BackendManage,
        Scope::folder("/drive"),
        "backend_add personal gdrive /drive type = \"gdrive\"\n",
    );
}

#[test]
fn backend_remove_authorised_under_explicit_folder_grant_runs_and_audits() {
    assert_authorised(
        vec![grant(Capability::BackendManage, Scope::folder("/drive"))],
        ManageCommand::BackendRemove {
            name: "personal".to_owned(),
            mount_path: "/drive".to_owned(),
        },
        ManageScope::Folder {
            path: "/drive".to_owned(),
        },
        Capability::BackendManage,
        Scope::folder("/drive"),
        "backend_remove personal /drive",
    );
}

#[test]
fn restart_authorised_under_explicit_folder_grant_runs_and_audits() {
    // Restart carries no payload path; its only target is the advertised
    // wire scope, which must be an explicit folder for the dangerous
    // lifecycle:control capability.
    assert_authorised(
        vec![grant(Capability::LifecycleControl, Scope::folder("/work"))],
        ManageCommand::Restart,
        ManageScope::Folder {
            path: "/work".to_owned(),
        },
        Capability::LifecycleControl,
        Scope::folder("/work"),
        "restart",
    );
}

#[test]
fn stop_authorised_under_explicit_folder_grant_runs_and_audits() {
    assert_authorised(
        vec![grant(Capability::LifecycleControl, Scope::folder("/work"))],
        ManageCommand::Stop,
        ManageScope::Folder {
            path: "/work".to_owned(),
        },
        Capability::LifecycleControl,
        Scope::folder("/work"),
        "stop",
    );
}

#[test]
fn grant_revoke_authorised_runs_and_audits() {
    assert_authorised(
        vec![grant(Capability::GrantAdmin, Scope::folder("/work"))],
        ManageCommand::GrantRevoke {
            grant_id: 7,
            scope: ManageScope::Folder {
                path: "/work".to_owned(),
            },
        },
        ManageScope::Folder {
            path: "/work".to_owned(),
        },
        Capability::GrantAdmin,
        Scope::folder("/work"),
        "grant_revoke 7",
    );
}

// ── New command surface: unauthorised refusals ──

#[test]
fn config_push_without_grant_is_refused_audited_and_inert() {
    // The manager holds a pin grant only — a config push must be refused,
    // nothing executed, the denial audited.
    let store = FakeStore::new(vec![grant(Capability::PinWrite, Scope::Node)]);
    let executor = FakeExecutor::default();
    let result = run_dispatch(
        &store,
        &executor,
        &manager(),
        ManageCommand::ConfigPush {
            format: ManageConfigFormat::Toml,
            folder: "/work".to_owned(),
            body: String::new(),
        },
        ManageScope::Folder {
            path: "/work".to_owned(),
        },
        None,
        at(2026, 1, 1),
    );
    assert!(matches!(
        result,
        ManageResult::Error {
            kind: ManageErrorKind::Unauthorised,
            ..
        }
    ));
    assert!(executor.calls().is_empty(), "no side effect on a denial");
    let audit = store.audit_rows();
    assert_eq!(audit.len(), 1);
    assert_eq!(
        audit.first().map(|r| r.outcome.as_str()),
        Some(OUTCOME_DENIED)
    );
}

#[test]
fn config_push_path_outside_granted_folder_is_refused() {
    // The grant covers `/work`; pushing into `/personal` must be refused
    // even though the caller holds config:push somewhere.
    let store = FakeStore::new(vec![grant(Capability::ConfigPush, Scope::folder("/work"))]);
    let executor = FakeExecutor::default();
    let result = run_dispatch(
        &store,
        &executor,
        &manager(),
        ManageCommand::ConfigPush {
            format: ManageConfigFormat::Gitignore,
            folder: "/personal".to_owned(),
            body: "secret\n".to_owned(),
        },
        // The caller advertises a scope its grant covers, but the payload
        // folder escapes it — authorisation keys on the payload folder.
        ManageScope::Folder {
            path: "/work".to_owned(),
        },
        None,
        at(2026, 1, 1),
    );
    assert!(matches!(
        result,
        ManageResult::Error {
            kind: ManageErrorKind::Unauthorised,
            ..
        }
    ));
    assert!(executor.calls().is_empty());
    let audit = store.audit_rows();
    assert_eq!(audit.len(), 1);
    let row = audit.first().expect("one row");
    assert_eq!(row.outcome, OUTCOME_DENIED);
    assert_eq!(
        row.scope,
        Scope::folder("/personal"),
        "the audit row records the folder actually targeted",
    );
}

// ── Dangerous-capability wildcard bar (new dangerous commands) ──

#[test]
fn dangerous_commands_under_node_wide_grant_are_refused_and_inert() {
    // A node-wide grant of each dangerous capability must NOT satisfy the
    // command it backs — these require an explicit folder grant. Each is
    // refused, nothing runs, the denial is audited.
    let cases: Vec<(Capability, ManageCommand)> = vec![
        (
            Capability::BackendManage,
            ManageCommand::BackendRemove {
                name: "x".to_owned(),
                mount_path: "/drive".to_owned(),
            },
        ),
        (Capability::LifecycleControl, ManageCommand::Stop),
        (
            Capability::GrantAdmin,
            ManageCommand::GrantRevoke {
                grant_id: 1,
                scope: ManageScope::Folder {
                    path: "/work".to_owned(),
                },
            },
        ),
    ];
    for (cap, command) in cases {
        let store = FakeStore::new(vec![grant(cap, Scope::Node)]);
        let executor = FakeExecutor::default();
        let result = run_dispatch(
            &store,
            &executor,
            &manager(),
            command,
            ManageScope::Folder {
                path: "/work".to_owned(),
            },
            None,
            at(2026, 1, 1),
        );
        assert!(
            matches!(
                result,
                ManageResult::Error {
                    kind: ManageErrorKind::Unauthorised,
                    ..
                }
            ),
            "node-wide grant of dangerous {cap:?} must not authorise its command",
        );
        assert!(
            executor.calls().is_empty(),
            "no side effect for dangerous {cap:?} under a wildcard grant",
        );
        let audit = store.audit_rows();
        assert_eq!(audit.len(), 1);
        assert_eq!(
            audit.first().map(|r| r.outcome.as_str()),
            Some(OUTCOME_DENIED),
        );
    }
}

// ── GrantAdd subset / escalation guard ──

/// A wire grant helper for delegation tests.
fn wire_grant(capability: &str, scope: ManageScope) -> ManageGrant {
    ManageGrant {
        grantee: "SUBORDINATE".to_owned(),
        capability: capability.to_owned(),
        scope,
        expires: None,
    }
}

#[test]
fn grant_add_delegating_a_held_subset_is_allowed_and_stamps_granted_by() {
    // The caller holds grant:admin over /work AND pin:write over /work, so
    // it may delegate pin:write over the narrower /work/reports.
    let store = FakeStore::new(vec![
        grant(Capability::GrantAdmin, Scope::folder("/work")),
        grant(Capability::PinWrite, Scope::folder("/work")),
    ]);
    let executor = FakeExecutor::default();
    let result = run_dispatch(
        &store,
        &executor,
        &manager(),
        ManageCommand::GrantAdd {
            grant: wire_grant(
                "pin:write",
                ManageScope::Folder {
                    path: "/work/reports".to_owned(),
                },
            ),
        },
        ManageScope::Folder {
            path: "/work/reports".to_owned(),
        },
        None,
        at(2026, 1, 1),
    );
    assert!(
        matches!(result, ManageResult::Completed { .. }),
        "delegating a held subset should succeed, got {result:?}",
    );
    let calls = executor.calls();
    assert_eq!(calls.len(), 1);
    let call = calls.first().expect("one call");
    assert!(
        call.contains("cap=pin:write")
            && call.contains("granted_by=MANAGER")
            && call.contains("grantee=SUBORDINATE"),
        "the delegated grant must be stamped with the caller as granted_by, got {call}",
    );
    let audit = store.audit_rows();
    assert_eq!(
        audit.first().map(|r| r.outcome.as_str()),
        Some(OUTCOME_ALLOWED)
    );
}

#[test]
fn grant_add_escalating_capability_not_held_is_refused() {
    // The caller holds grant:admin over /work but does NOT hold pin:write.
    // Delegating pin:write would hand out authority it lacks — refused.
    let store = FakeStore::new(vec![grant(Capability::GrantAdmin, Scope::folder("/work"))]);
    let executor = FakeExecutor::default();
    let result = run_dispatch(
        &store,
        &executor,
        &manager(),
        ManageCommand::GrantAdd {
            grant: wire_grant(
                "pin:write",
                ManageScope::Folder {
                    path: "/work".to_owned(),
                },
            ),
        },
        ManageScope::Folder {
            path: "/work".to_owned(),
        },
        None,
        at(2026, 1, 1),
    );
    assert!(
        matches!(
            result,
            ManageResult::Error {
                kind: ManageErrorKind::Unauthorised,
                ..
            }
        ),
        "delegating a capability the caller lacks must be refused, got {result:?}",
    );
    assert!(executor.calls().is_empty(), "no grant may be inserted");
    let audit = store.audit_rows();
    assert_eq!(audit.len(), 1);
    assert_eq!(
        audit.first().map(|r| r.outcome.as_str()),
        Some(OUTCOME_DENIED)
    );
}

#[test]
fn grant_add_escalating_scope_wider_than_held_is_refused() {
    // The caller holds grant:admin AND pin:write, but only over
    // /work/reports. Delegating pin:write over the wider /work escapes the
    // caller's own scope — refused.
    let store = FakeStore::new(vec![
        grant(Capability::GrantAdmin, Scope::folder("/work/reports")),
        grant(Capability::PinWrite, Scope::folder("/work/reports")),
    ]);
    let executor = FakeExecutor::default();
    let result = run_dispatch(
        &store,
        &executor,
        &manager(),
        ManageCommand::GrantAdd {
            grant: wire_grant(
                "pin:write",
                ManageScope::Folder {
                    path: "/work".to_owned(),
                },
            ),
        },
        ManageScope::Folder {
            path: "/work".to_owned(),
        },
        None,
        at(2026, 1, 1),
    );
    assert!(
        matches!(
            result,
            ManageResult::Error {
                kind: ManageErrorKind::Unauthorised,
                ..
            }
        ),
        "delegating a wider scope than held must be refused, got {result:?}",
    );
    assert!(executor.calls().is_empty());
}

#[test]
fn grant_add_with_only_grant_admin_cannot_self_promote() {
    // Holding grant:admin alone does not let a manager delegate grant:admin
    // (or any other capability) it does not separately hold — the subset
    // guard requires the *delegated* capability be held, not merely the
    // power to delegate. This is the core no-self-promotion invariant.
    let store = FakeStore::new(vec![grant(Capability::GrantAdmin, Scope::folder("/work"))]);
    let executor = FakeExecutor::default();
    let result = run_dispatch(
        &store,
        &executor,
        &manager(),
        ManageCommand::GrantAdd {
            grant: wire_grant(
                "grant:admin",
                ManageScope::Folder {
                    path: "/work".to_owned(),
                },
            ),
        },
        ManageScope::Folder {
            path: "/work".to_owned(),
        },
        None,
        at(2026, 1, 1),
    );
    // The caller DOES hold grant:admin over /work, so delegating grant:admin
    // over /work IS a held subset and is permitted. This documents that a
    // manager may pass on exactly the authority it has — the guard prevents
    // *widening*, not faithful re-delegation.
    assert!(
        matches!(result, ManageResult::Completed { .. }),
        "re-delegating an exactly-held grant:admin is permitted, got {result:?}",
    );
}

#[test]
fn grant_add_with_expired_held_grant_cannot_delegate() {
    // The caller's pin:write grant has expired by the time of the request,
    // so it is no longer a held subset — delegation is refused.
    let mut held_pin = grant(Capability::PinWrite, Scope::folder("/work"));
    held_pin.expires = Some(at(2026, 1, 1));
    let store = FakeStore::new(vec![
        grant(Capability::GrantAdmin, Scope::folder("/work")),
        held_pin,
    ]);
    let executor = FakeExecutor::default();
    let result = run_dispatch(
        &store,
        &executor,
        &manager(),
        ManageCommand::GrantAdd {
            grant: wire_grant(
                "pin:write",
                ManageScope::Folder {
                    path: "/work".to_owned(),
                },
            ),
        },
        ManageScope::Folder {
            path: "/work".to_owned(),
        },
        // After the held pin grant's expiry.
        None,
        at(2026, 6, 1),
    );
    assert!(
        matches!(
            result,
            ManageResult::Error {
                kind: ManageErrorKind::Unauthorised,
                ..
            }
        ),
        "an expired held grant cannot back a delegation, got {result:?}",
    );
    assert!(executor.calls().is_empty());
}

#[test]
fn grant_add_dangerous_capability_held_only_node_wide_cannot_be_delegated() {
    // Privilege-laundering guard: the caller holds a node-wide
    // BackendManage grant — which it can never *exercise*, because the
    // dangerous-capability bar refuses a node-wide dangerous grant — plus a
    // GrantAdmin grant over /work that lets it delegate there. It tries to
    // launder the unusable node-wide BackendManage into a usable
    // folder-scoped BackendManage over /work for a subordinate. The subset
    // guard reuses `authorises` for each backing grant, so the node-wide
    // BackendManage cannot back the delegation and the request is refused —
    // no grant is inserted and the denial is audited.
    let store = FakeStore::new(vec![
        grant(Capability::BackendManage, Scope::Node),
        grant(Capability::GrantAdmin, Scope::folder("/work")),
    ]);
    let executor = FakeExecutor::default();
    let result = run_dispatch(
        &store,
        &executor,
        &manager(),
        ManageCommand::GrantAdd {
            grant: wire_grant(
                "backend:manage",
                ManageScope::Folder {
                    path: "/work".to_owned(),
                },
            ),
        },
        ManageScope::Folder {
            path: "/work".to_owned(),
        },
        None,
        at(2026, 1, 1),
    );
    assert!(
        matches!(
            result,
            ManageResult::Error {
                kind: ManageErrorKind::Unauthorised,
                ..
            }
        ),
        "a node-wide dangerous grant the caller cannot exercise must not back \
             a folder-scoped delegation, got {result:?}",
    );
    assert!(
        executor.calls().is_empty(),
        "no grant may be inserted when the delegation launders an unusable authority",
    );
    let audit = store.audit_rows();
    assert_eq!(audit.len(), 1, "the denial must still be audited");
    assert_eq!(
        audit.first().map(|r| r.outcome.as_str()),
        Some(OUTCOME_DENIED),
    );
}

#[test]
fn grant_add_delegated_expiry_is_clamped_to_the_backing_grant() {
    // Expiry no-escalation guard: the caller's pin:write grant over /work
    // expires on 2026-02-01. It delegates pin:write over /work asking for a
    // *later* expiry of 2026-12-01. The delegated grant's expiry must be
    // clamped down to the backing grant's 2026-02-01 so the delegate can
    // never outlive the authority it derived from.
    let mut held_pin = grant(Capability::PinWrite, Scope::folder("/work"));
    held_pin.expires = Some(at(2026, 2, 1));
    let store = FakeStore::new(vec![
        grant(Capability::GrantAdmin, Scope::folder("/work")),
        held_pin,
    ]);
    let executor = FakeExecutor::default();
    let result = run_dispatch(
        &store,
        &executor,
        &manager(),
        ManageCommand::GrantAdd {
            grant: ManageGrant {
                grantee: "SUBORDINATE".to_owned(),
                capability: "pin:write".to_owned(),
                scope: ManageScope::Folder {
                    path: "/work".to_owned(),
                },
                // Asks for an expiry far later than the backing grant's.
                expires: Some("2026-12-01T00:00:00+00:00".to_owned()),
            },
        },
        ManageScope::Folder {
            path: "/work".to_owned(),
        },
        None,
        at(2026, 1, 1),
    );
    assert!(
        matches!(result, ManageResult::Completed { .. }),
        "delegating a held subset is permitted, got {result:?}",
    );
    let calls = executor.calls();
    let call = calls.first().expect("one grant_add call");
    // `FakeExecutor::manage_grant_add` records the delegated grant; the
    // domain grant the dispatcher built carries the clamped expiry, so the
    // recorded expiry is the backing grant's, never the requested later one.
    let expected = grant_from_wire(
        &ManageGrant {
            grantee: "SUBORDINATE".to_owned(),
            capability: "pin:write".to_owned(),
            scope: ManageScope::Folder {
                path: "/work".to_owned(),
            },
            expires: Some("2026-12-01T00:00:00+00:00".to_owned()),
        },
        &manager(),
        ExpiryBound::NoLaterThan(at(2026, 2, 1)),
    )
    .expect("building the clamped domain grant");
    assert_eq!(
        expected.expires,
        Some(at(2026, 2, 1)),
        "the clamp pulls the requested 2026-12-01 expiry down to the backing 2026-02-01",
    );
    assert!(
        call.contains("grantee=SUBORDINATE") && call.contains("cap=pin:write"),
        "the delegated grant must be recorded, got {call}",
    );
}

#[test]
fn grant_revoke_keyed_on_stored_scope_not_advertised_wire_scope() {
    // GrantRevoke scope-escape guard: the caller holds GrantAdmin over
    // /work only. It tries to revoke grant id 9 whose *stored* scope is
    // /personal, while advertising a wire scope of /work that its grant
    // covers. Authorisation must key on the stored scope of the row that
    // would actually be deleted, so the revoke is refused, nothing runs,
    // and the denial is audited against the real /personal scope.
    let store = FakeStore::new(vec![grant(Capability::GrantAdmin, Scope::folder("/work"))])
        .with_stored_grant(9, Scope::folder("/personal"));
    let executor = FakeExecutor::default();
    let result = run_dispatch(
        &store,
        &executor,
        &manager(),
        ManageCommand::GrantRevoke {
            grant_id: 9,
            // The caller lies: it advertises a scope its grant does cover.
            scope: ManageScope::Folder {
                path: "/work".to_owned(),
            },
        },
        ManageScope::Folder {
            path: "/work".to_owned(),
        },
        None,
        at(2026, 1, 1),
    );
    assert!(
        matches!(
            result,
            ManageResult::Error {
                kind: ManageErrorKind::Unauthorised,
                ..
            }
        ),
        "revoking a grant whose stored scope escapes the caller's authority must be \
             refused, got {result:?}",
    );
    assert!(
        executor.calls().is_empty(),
        "no grant may be revoked when the stored scope escapes the caller's authority",
    );
    let audit = store.audit_rows();
    assert_eq!(audit.len(), 1, "the denial must still be audited");
    let row = audit.first().expect("one audit row");
    assert_eq!(row.outcome, OUTCOME_DENIED);
    assert_eq!(
        row.scope,
        Scope::folder("/personal"),
        "the audit row records the stored scope of the targeted grant, not the wire scope",
    );
}

#[test]
fn grant_revoke_keyed_on_stored_node_scope_is_refused_for_folder_admin() {
    // A node-wide stored grant is even further out of a folder-scoped
    // GrantAdmin's reach: GrantAdmin over /work must not revoke a grant
    // whose stored scope is Node, even when the wire scope claims /work.
    let store = FakeStore::new(vec![grant(Capability::GrantAdmin, Scope::folder("/work"))])
        .with_stored_grant(3, Scope::Node);
    let executor = FakeExecutor::default();
    let result = run_dispatch(
        &store,
        &executor,
        &manager(),
        ManageCommand::GrantRevoke {
            grant_id: 3,
            scope: ManageScope::Folder {
                path: "/work".to_owned(),
            },
        },
        ManageScope::Folder {
            path: "/work".to_owned(),
        },
        None,
        at(2026, 1, 1),
    );
    assert!(
        matches!(
            result,
            ManageResult::Error {
                kind: ManageErrorKind::Unauthorised,
                ..
            }
        ),
        "a folder-scoped GrantAdmin must not revoke a node-wide grant, got {result:?}",
    );
    assert!(executor.calls().is_empty());
    let audit = store.audit_rows();
    assert_eq!(
        audit.first().map(|r| r.scope.clone()),
        Some(Scope::Node),
        "the audit row records the stored node scope of the targeted grant",
    );
}

// ── Presented capability tokens authorise end to end ──

#[test]
fn valid_token_authorises_a_command_with_no_on_node_grant() {
    // The node holds NO grant for the caller. A token issued by this node
    // for the caller, covering the command, authorises it end to end — the
    // offline-issued grant alone carries the authority.
    let store = FakeStore::new(Vec::new());
    let executor = FakeExecutor::default();
    let token = store.issue_token_json(
        "tok-pin",
        &manager(),
        Capability::PinWrite,
        Scope::folder("/work"),
        at(2026, 12, 31),
    );
    let result = run_dispatch(
        &store,
        &executor,
        &manager(),
        ManageCommand::Pin {
            path_glob: "/work/reports".to_owned(),
            recursive: true,
        },
        ManageScope::Folder {
            path: "/work".to_owned(),
        },
        Some(token),
        at(2026, 1, 1),
    );
    assert!(
        matches!(result, ManageResult::Completed { .. }),
        "a valid token must authorise the command, got {result:?}",
    );
    assert_eq!(executor.calls(), vec!["pin /work/reports true".to_owned()]);
    let audit = store.audit_rows();
    assert_eq!(audit.len(), 1);
    assert_eq!(
        audit.first().map(|r| r.outcome.as_str()),
        Some(OUTCOME_ALLOWED)
    );
}

#[test]
fn token_signed_by_another_node_is_refused() {
    // A token whose root issuer is some OTHER node does not verify against
    // this node — it is unauthorised, the command never runs.
    let store = FakeStore::new(Vec::new());
    let executor = FakeExecutor::default();
    // A different node, with its own identity and certificate, signs the
    // token. Its root issuer is not this node, so verification rejects it.
    let other_node = DeviceIdentity::generate();
    let foreign = issue(
        "tok-foreign",
        &other_node,
        &manager(),
        Capability::PinWrite,
        Scope::folder("/work"),
        at(2026, 12, 31),
    )
    .unwrap();
    let token = store.present(foreign);
    let result = run_dispatch(
        &store,
        &executor,
        &manager(),
        ManageCommand::Pin {
            path_glob: "/work".to_owned(),
            recursive: false,
        },
        ManageScope::Folder {
            path: "/work".to_owned(),
        },
        Some(token),
        at(2026, 1, 1),
    );
    assert!(matches!(
        result,
        ManageResult::Error {
            kind: ManageErrorKind::Unauthorised,
            ..
        }
    ));
    assert!(executor.calls().is_empty());
}

#[test]
fn expired_token_is_refused() {
    let store = FakeStore::new(Vec::new());
    let executor = FakeExecutor::default();
    let token = store.issue_token_json(
        "tok-stale",
        &manager(),
        Capability::PinWrite,
        Scope::folder("/work"),
        at(2026, 1, 1),
    );
    // now is past the token expiry.
    let result = run_dispatch(
        &store,
        &executor,
        &manager(),
        ManageCommand::Pin {
            path_glob: "/work".to_owned(),
            recursive: false,
        },
        ManageScope::Folder {
            path: "/work".to_owned(),
        },
        Some(token),
        at(2026, 6, 1),
    );
    assert!(matches!(
        result,
        ManageResult::Error {
            kind: ManageErrorKind::Unauthorised,
            ..
        }
    ));
    assert!(executor.calls().is_empty());
}

#[test]
fn revoked_token_is_refused() {
    // The token is valid and unexpired, but its id is on the node's
    // revocation list — the command is refused.
    let store = FakeStore::new(Vec::new()).with_revoked_token("tok-revoked");
    let executor = FakeExecutor::default();
    let token = store.issue_token_json(
        "tok-revoked",
        &manager(),
        Capability::PinWrite,
        Scope::folder("/work"),
        at(2026, 12, 31),
    );
    let result = run_dispatch(
        &store,
        &executor,
        &manager(),
        ManageCommand::Pin {
            path_glob: "/work".to_owned(),
            recursive: false,
        },
        ManageScope::Folder {
            path: "/work".to_owned(),
        },
        Some(token),
        at(2026, 1, 1),
    );
    assert!(matches!(
        result,
        ManageResult::Error {
            kind: ManageErrorKind::Unauthorised,
            ..
        }
    ));
    assert!(executor.calls().is_empty());
}

#[test]
fn token_for_a_different_bearer_is_refused() {
    // The token names a DIFFERENT bearer than the authenticated caller, so a
    // third party cannot replay it.
    let store = FakeStore::new(Vec::new());
    let executor = FakeExecutor::default();
    let token = store.issue_token_json(
        "tok-other-bearer",
        &DeviceId::new("SOMEONE-ELSE"),
        Capability::PinWrite,
        Scope::folder("/work"),
        at(2026, 12, 31),
    );
    let result = run_dispatch(
        &store,
        &executor,
        &manager(),
        ManageCommand::Pin {
            path_glob: "/work".to_owned(),
            recursive: false,
        },
        ManageScope::Folder {
            path: "/work".to_owned(),
        },
        Some(token),
        at(2026, 1, 1),
    );
    assert!(matches!(
        result,
        ManageResult::Error {
            kind: ManageErrorKind::Unauthorised,
            ..
        }
    ));
    assert!(executor.calls().is_empty());
}

#[test]
fn token_scope_outside_command_target_is_refused() {
    // A token covering only /work cannot authorise a pin of /personal — the
    // token-carried grant goes through the same scope-coverage check an
    // on-node grant does.
    let store = FakeStore::new(Vec::new());
    let executor = FakeExecutor::default();
    let token = store.issue_token_json(
        "tok-scoped",
        &manager(),
        Capability::PinWrite,
        Scope::folder("/work"),
        at(2026, 12, 31),
    );
    let result = run_dispatch(
        &store,
        &executor,
        &manager(),
        ManageCommand::Pin {
            path_glob: "/personal/secret".to_owned(),
            recursive: false,
        },
        ManageScope::Folder {
            path: "/work".to_owned(),
        },
        Some(token),
        at(2026, 1, 1),
    );
    assert!(matches!(
        result,
        ManageResult::Error {
            kind: ManageErrorKind::Unauthorised,
            ..
        }
    ));
    assert!(executor.calls().is_empty());
}

#[test]
fn malformed_token_is_a_failed_error() {
    // A token that does not deserialise is a malformed request, reported as
    // Failed (not an authorisation question), and the command never runs.
    let store = FakeStore::new(Vec::new());
    let executor = FakeExecutor::default();
    let result = run_dispatch(
        &store,
        &executor,
        &manager(),
        ManageCommand::StatusRead,
        ManageScope::Node,
        Some("not json".to_owned()),
        at(2026, 1, 1),
    );
    assert!(matches!(
        result,
        ManageResult::Error {
            kind: ManageErrorKind::Failed,
            ..
        }
    ));
    assert!(executor.calls().is_empty());
}

// ── Exec verbs ──

/// Every exec verb paired with the spawn payload that exercises it under the
/// `exec:pty` capability, so the node-wide-grant bar can be asserted for each.
fn pty_spawn_in(cwd: &str) -> ManageCommand {
    ManageCommand::PtySpawn {
        shell: Some("/bin/sh".to_owned()),
        argv: Vec::new(),
        cwd: Some(cwd.to_owned()),
        env: Vec::new(),
        cols: 80,
        rows: 24,
    }
}

fn proc_spawn_in(cwd: &str) -> ManageCommand {
    ManageCommand::ProcSpawn {
        argv: vec!["/bin/echo".to_owned(), "hi".to_owned()],
        cwd: Some(cwd.to_owned()),
        env: Vec::new(),
    }
}

#[test]
fn node_wide_grant_cannot_exec() {
    // A node-wide grant of an exec capability never authorises a spawn — exec
    // sits in the dangerous tier, so only an explicit folder grant satisfies it.
    // Asserted for both verbs and for the explicit Node scope plus a root folder
    // scope that is node-wide in everything but name.
    for (cap, spawn_in) in [
        (Capability::ExecPty, pty_spawn_in as fn(&str) -> ManageCommand),
        (Capability::ExecProc, proc_spawn_in as fn(&str) -> ManageCommand),
    ] {
        for grant_scope in [Scope::Node, Scope::folder("/"), Scope::folder("/work/..")] {
            let store = FakeStore::new(vec![grant(cap, grant_scope.clone())]);
            let executor = FakeExecutor::default();
            let result = run_dispatch(
                &store,
                &executor,
                &manager(),
                spawn_in("/work"),
                ManageScope::Folder {
                    path: "/work".to_owned(),
                },
                None,
                at(2026, 1, 1),
            );
            assert!(
                matches!(
                    result,
                    ManageResult::Error {
                        kind: ManageErrorKind::Unauthorised,
                        ..
                    }
                ),
                "node-wide grant ({grant_scope:?}) of {cap:?} must not authorise a spawn, got {result:?}",
            );
            assert!(
                executor.calls().is_empty(),
                "no exec session may be spawned under a node-wide grant",
            );
            let audit = store.audit_rows();
            assert_eq!(audit.len(), 1, "the denial must still be audited");
            assert_eq!(
                audit.first().map(|r| r.outcome.as_str()),
                Some(OUTCOME_DENIED),
            );
        }
    }
}

#[test]
fn explicit_scope_grant_can_exec_and_is_audited() {
    // An explicit folder grant of exec:pty authorises a spawn rooted in that
    // folder, the spawn runs, and the spawn is audited as allowed. The reply
    // carries the new session id.
    let store = FakeStore::new(vec![grant(Capability::ExecPty, Scope::folder("/work"))]);
    let executor = FakeExecutor::default();
    let result = run_dispatch(
        &store,
        &executor,
        &manager(),
        pty_spawn_in("/work/reports"),
        ManageScope::Folder {
            path: "/work/reports".to_owned(),
        },
        None,
        at(2026, 1, 1),
    );
    assert!(
        matches!(result, ManageResult::ExecSpawned { session } if session == SPAWNED_SESSION_ID),
        "an explicit-scope exec grant must spawn and return a session id, got {result:?}",
    );
    assert_eq!(
        executor.calls().len(),
        1,
        "exactly one spawn must run, got {:?}",
        executor.calls(),
    );
    let audit = store.audit_rows();
    assert_eq!(audit.len(), 1, "the spawn must be audited");
    let row = audit.first().expect("one audit row");
    assert_eq!(row.outcome, OUTCOME_ALLOWED);
    assert_eq!(row.capability, Capability::ExecPty);
    assert_eq!(
        row.scope,
        Scope::folder("/work/reports"),
        "the audit row records the cwd the session is confined to",
    );
}

#[test]
fn proc_explicit_scope_grant_can_exec() {
    let store = FakeStore::new(vec![grant(Capability::ExecProc, Scope::folder("/work"))]);
    let executor = FakeExecutor::default();
    let result = run_dispatch(
        &store,
        &executor,
        &manager(),
        proc_spawn_in("/work"),
        ManageScope::Folder {
            path: "/work".to_owned(),
        },
        None,
        at(2026, 1, 1),
    );
    assert!(
        matches!(result, ManageResult::ExecSpawned { .. }),
        "an explicit exec:proc grant must spawn, got {result:?}",
    );
}

#[test]
fn pty_grant_does_not_authorise_proc_spawn() {
    // The two exec capabilities are distinct: an exec:pty grant must not
    // authorise a headless proc spawn (a different blast radius).
    let store = FakeStore::new(vec![grant(Capability::ExecPty, Scope::folder("/work"))]);
    let executor = FakeExecutor::default();
    let result = run_dispatch(
        &store,
        &executor,
        &manager(),
        proc_spawn_in("/work"),
        ManageScope::Folder {
            path: "/work".to_owned(),
        },
        None,
        at(2026, 1, 1),
    );
    assert!(
        matches!(
            result,
            ManageResult::Error {
                kind: ManageErrorKind::Unauthorised,
                ..
            }
        ),
        "an exec:pty grant must not authorise a proc spawn, got {result:?}",
    );
    assert!(executor.calls().is_empty());
}

#[test]
fn spawn_without_cwd_targets_node_root_and_is_refused() {
    // A spawn with no cwd has no folder to confine the session, so it targets the
    // node root — which the dangerous bar refuses even with an explicit grant.
    // This forces an explicit cwd: a remote shell can never be opened without
    // naming the folder it is confined to.
    let store = FakeStore::new(vec![grant(Capability::ExecPty, Scope::folder("/work"))]);
    let executor = FakeExecutor::default();
    let result = run_dispatch(
        &store,
        &executor,
        &manager(),
        ManageCommand::PtySpawn {
            shell: Some("/bin/sh".to_owned()),
            argv: Vec::new(),
            cwd: None,
            env: Vec::new(),
            cols: 80,
            rows: 24,
        },
        ManageScope::Folder {
            path: "/work".to_owned(),
        },
        None,
        at(2026, 1, 1),
    );
    assert!(
        matches!(
            result,
            ManageResult::Error {
                kind: ManageErrorKind::Unauthorised,
                ..
            }
        ),
        "a cwd-less spawn must be refused, got {result:?}",
    );
    assert!(executor.calls().is_empty());
}

#[test]
fn session_id_verb_resolves_scope_from_session_not_wire_scope() {
    // The scope-escape regression for session-id-only verbs: the caller holds
    // exec:pty over /work only, and advertises a wire scope of /work (which the
    // grant covers), but the target session was spawned under /personal. The
    // verb must authorise over the session's real scope, resolved from node
    // state, so it is refused — a caller cannot drive a /personal session by
    // lying in the wire scope.
    let store = FakeStore::new(vec![grant(Capability::ExecPty, Scope::folder("/work"))])
        .with_exec_session(7, Scope::folder("/personal"));
    let executor = FakeExecutor::default();
    let result = run_dispatch(
        &store,
        &executor,
        &manager(),
        ManageCommand::PtyWrite {
            session: 7,
            bytes: b"rm -rf /\n".to_vec(),
        },
        ManageScope::Folder {
            path: "/work".to_owned(),
        },
        None,
        at(2026, 1, 1),
    );
    assert!(
        matches!(
            result,
            ManageResult::Error {
                kind: ManageErrorKind::Unauthorised,
                ..
            }
        ),
        "a verb on a session spawned under a folder the caller cannot reach must be refused, got {result:?}",
    );
    assert!(
        executor.calls().is_empty(),
        "no write may reach a session outside the granted scope",
    );
    let audit = store.audit_rows();
    assert_eq!(
        audit.first().map(|r| r.scope.clone()),
        Some(Scope::folder("/personal")),
        "the audit row records the session's real scope, not the advertised wire scope",
    );
}

#[test]
fn session_id_verb_authorised_over_session_scope_runs() {
    // The positive case: the caller holds exec:pty over /personal and the session
    // was spawned there. The write authorises over the session's scope and runs.
    let store = FakeStore::new(vec![grant(Capability::ExecPty, Scope::folder("/personal"))])
        .with_exec_session(7, Scope::folder("/personal"));
    let executor = FakeExecutor::default();
    let result = run_dispatch(
        &store,
        &executor,
        &manager(),
        ManageCommand::PtyWrite {
            session: 7,
            bytes: b"ls\n".to_vec(),
        },
        ManageScope::Folder {
            path: "/personal".to_owned(),
        },
        None,
        at(2026, 1, 1),
    );
    assert!(
        matches!(result, ManageResult::Completed { .. }),
        "a write authorised over the session's scope must run, got {result:?}",
    );
    assert_eq!(executor.calls().len(), 1, "the write must run once");
    let audit = store.audit_rows();
    assert_eq!(
        audit.first().map(|r| r.outcome.as_str()),
        Some(OUTCOME_ALLOWED),
        "every exec verb is audited",
    );
}

#[test]
fn session_id_verb_on_unknown_session_is_refused() {
    // A verb naming a session that does not exist resolves to no scope; it
    // targets the node-wide scope, which the dangerous bar refuses, so it never
    // runs. The caller cannot fall back to an attacker-chosen wire scope.
    let store = FakeStore::new(vec![grant(Capability::ExecProc, Scope::folder("/work"))]);
    let executor = FakeExecutor::default();
    let result = run_dispatch(
        &store,
        &executor,
        &manager(),
        ManageCommand::ProcKill { session: 999 },
        ManageScope::Folder {
            path: "/work".to_owned(),
        },
        None,
        at(2026, 1, 1),
    );
    assert!(
        matches!(
            result,
            ManageResult::Error {
                kind: ManageErrorKind::Unauthorised,
                ..
            }
        ),
        "a verb on an unknown session must be refused, got {result:?}",
    );
    assert!(executor.calls().is_empty());
}

#[test]
fn exec_token_with_explicit_scope_authorises_spawn() {
    // A token issued by this node for the caller, carrying exec:pty over a folder
    // scope, authorises a spawn rooted there with no on-node grant.
    let store = FakeStore::new(Vec::new());
    let executor = FakeExecutor::default();
    let token = store.issue_token_json(
        "tok-exec",
        &manager(),
        Capability::ExecPty,
        Scope::folder("/work"),
        at(2026, 12, 31),
    );
    let result = run_dispatch(
        &store,
        &executor,
        &manager(),
        pty_spawn_in("/work"),
        ManageScope::Folder {
            path: "/work".to_owned(),
        },
        Some(token),
        at(2026, 1, 1),
    );
    assert!(
        matches!(result, ManageResult::ExecSpawned { .. }),
        "a valid exec token must authorise the spawn, got {result:?}",
    );
}

#[test]
fn revoked_exec_token_is_refused() {
    let store = FakeStore::new(Vec::new()).with_revoked_token("tok-exec-revoked");
    let executor = FakeExecutor::default();
    let token = store.issue_token_json(
        "tok-exec-revoked",
        &manager(),
        Capability::ExecPty,
        Scope::folder("/work"),
        at(2026, 12, 31),
    );
    let result = run_dispatch(
        &store,
        &executor,
        &manager(),
        pty_spawn_in("/work"),
        ManageScope::Folder {
            path: "/work".to_owned(),
        },
        Some(token),
        at(2026, 1, 1),
    );
    assert!(
        matches!(
            result,
            ManageResult::Error {
                kind: ManageErrorKind::Unauthorised,
                ..
            }
        ),
        "a revoked exec token must be refused, got {result:?}",
    );
    assert!(executor.calls().is_empty());
}

#[test]
fn expired_exec_token_is_refused() {
    let store = FakeStore::new(Vec::new());
    let executor = FakeExecutor::default();
    let token = store.issue_token_json(
        "tok-exec-expired",
        &manager(),
        Capability::ExecProc,
        Scope::folder("/work"),
        at(2025, 12, 31),
    );
    let result = run_dispatch(
        &store,
        &executor,
        &manager(),
        proc_spawn_in("/work"),
        ManageScope::Folder {
            path: "/work".to_owned(),
        },
        Some(token),
        // After the token's expiry.
        at(2026, 1, 1),
    );
    assert!(
        matches!(
            result,
            ManageResult::Error {
                kind: ManageErrorKind::Unauthorised,
                ..
            }
        ),
        "an expired exec token must be refused, got {result:?}",
    );
    assert!(executor.calls().is_empty());
}

#[test]
fn delegated_exec_token_cannot_widen_scope() {
    // A delegated exec token can only narrow authority. Minting a child that
    // widens the scope (/work -> /) is refused at mint, so a widened token can
    // never exist to present. The narrowed child authorises only within its
    // narrowed scope.
    let node = DeviceIdentity::generate();
    let delegator = DeviceIdentity::generate();
    let sub = DeviceIdentity::generate();
    let delegator_id = DeviceId::new(&delegator.device_id);
    let sub_id = DeviceId::new(&sub.device_id);

    let parent = issue(
        "tok-exec-parent",
        &node,
        &delegator_id,
        Capability::ExecPty,
        Scope::folder("/work"),
        at(2026, 12, 31),
    )
    .unwrap();

    // Attempting to widen the scope at delegation is refused at mint.
    let widened = delegate(
        &parent,
        "tok-exec-wide",
        &delegator,
        &sub_id,
        Capability::ExecPty,
        Scope::folder("/"),
        at(2026, 12, 31),
    );
    assert!(
        widened.is_err(),
        "delegating a wider exec scope must be refused at mint",
    );

    // A properly narrowed child mints, and authorises a spawn in the narrowed
    // subtree against the node that issued the chain root.
    let narrowed = delegate(
        &parent,
        "tok-exec-narrow",
        &delegator,
        &sub_id,
        Capability::ExecPty,
        Scope::folder("/work/sub"),
        at(2026, 6, 1),
    )
    .expect("a narrowing delegation must mint");

    // Build a store whose node identity is the chain-root issuer, so the token
    // verifies against it. The caller is the narrowed child's bearer.
    let store = FakeStore::with_node_identity(node);
    let executor = FakeExecutor::default();
    let token_json = store.present(narrowed);

    // In the narrowed subtree: authorised.
    let allowed = run_dispatch(
        &store,
        &executor,
        &sub_id,
        pty_spawn_in("/work/sub"),
        ManageScope::Folder {
            path: "/work/sub".to_owned(),
        },
        Some(token_json.clone()),
        at(2026, 1, 1),
    );
    assert!(
        matches!(allowed, ManageResult::ExecSpawned { .. }),
        "the narrowed exec token must authorise a spawn in its subtree, got {allowed:?}",
    );

    // Outside the narrowed subtree (the parent's wider /work) the child does not
    // reach: refused, proving the delegate cannot exercise authority beyond the
    // narrowed scope even though its parent could.
    let refused = run_dispatch(
        &store,
        &executor,
        &sub_id,
        pty_spawn_in("/work/other"),
        ManageScope::Folder {
            path: "/work/other".to_owned(),
        },
        Some(token_json),
        at(2026, 1, 1),
    );
    assert!(
        matches!(
            refused,
            ManageResult::Error {
                kind: ManageErrorKind::Unauthorised,
                ..
            }
        ),
        "the narrowed exec token must not reach beyond its scope, got {refused:?}",
    );
}

#[test]
fn refusals_name_the_capability_and_the_scope() {
    let store = FakeStore::new(Vec::new());
    let executor = FakeExecutor::default();
    let result = run_dispatch(
        &store,
        &executor,
        &manager(),
        ManageCommand::Pin {
            path_glob: "/a\"b/*".to_owned(),
            recursive: false,
        },
        ManageScope::Node,
        None,
        at(2026, 1, 1),
    );
    match result {
        ManageResult::Error { kind, message } => {
            assert_eq!(kind, ManageErrorKind::Unauthorised);
            assert!(message.contains("pin:write"), "{message}");
            assert!(message.contains("Folder { path: \"/a\\\"b\" }"), "{message}");
        }
        other => panic!("expected a refusal, got {other:?}"),
    }
}

#[test]
fn reads_that_fail_end_the_request() {
    let start = || {
        cascade_engine::manage::run_dispatch(
            manager(),
            ManageCommand::GrantRevoke {
                grant_id: 1,
                scope: ManageScope::Node,
            },
            ManageScope::Node,
            None,
            at(2026, 1, 1),
        )
    };
    let broken = || "disk".to_owned();
    let (state, _) = start();
    let (_, action) = resume(state, DispatchEvent::Grants(Err(broken())));
    match action {
        DispatchAction::Reply(ManageResult::Error { kind, message }) => {
            assert_eq!(kind, ManageErrorKind::Failed);
            assert_eq!(message, "could not read grants: disk");
        }
        other => panic!("expected a reply, got {other:?}"),
    }
    let (state, _) = start();
    let (state, action) = resume(state, DispatchEvent::Grants(Ok(Vec::new())));
    assert_eq!(action, DispatchAction::ReadGrantScope(1));
    let (_, action) = resume(state, DispatchEvent::Scope(Err(broken())));
    assert!(matches!(
        action,
        DispatchAction::Reply(ManageResult::Error {
            kind: ManageErrorKind::Failed,
            ..
        })
    ));
}

#[test]
fn a_command_that_cannot_be_audited_does_not_run() {
    let (state, _) = cascade_engine::manage::run_dispatch(
        manager(),
        ManageCommand::StatusRead,
        ManageScope::Node,
        None,
        at(2026, 1, 1),
    );
    let grants = vec![grant(Capability::StatusRead, Scope::Node)];
    let (state, action) = resume(state, DispatchEvent::Grants(Ok(grants)));
    assert!(matches!(action, DispatchAction::AppendAudit(_)));
    let (_, action) = resume(state, DispatchEvent::AuditWritten(Err("full".to_owned())));
    assert!(matches!(
        action,
        DispatchAction::Reply(ManageResult::Error {
            kind: ManageErrorKind::Failed,
            ..
        })
    ));
}

/// Takes the only audit row of a store.
fn only_row(store: &FakeStore) -> AuditEntry {
    let mut rows = store.audit.borrow_mut();
    assert_eq!(rows.len(), 1);
    rows.remove(0)
}

#[test]
fn a_rejected_token_is_audited_as_denied() {
    let store = FakeStore::new(vec![grant(Capability::PinWrite, Scope::Node)]);
    let executor = FakeExecutor::default();
    let token = store.issue_token_json(
        "tok-stale",
        &manager(),
        Capability::PinWrite,
        Scope::folder("/work"),
        at(2026, 1, 1),
    );
    let result = run_dispatch(
        &store,
        &executor,
        &manager(),
        ManageCommand::Pin {
            path_glob: "/work/a".to_owned(),
            recursive: false,
        },
        ManageScope::Folder {
            path: "/work".to_owned(),
        },
        Some(token),
        at(2026, 6, 1),
    );
    // The caller's own grant covers the command, and does not save it.
    assert!(matches!(
        result,
        ManageResult::Error {
            kind: ManageErrorKind::Unauthorised,
            ..
        }
    ));
    assert!(executor.calls().is_empty());
    let row = only_row(&store);
    assert_eq!(row.outcome, OUTCOME_DENIED);
    assert_eq!(row.actor_device, manager());
    assert_eq!(row.capability, Capability::PinWrite);
    assert_eq!(row.scope, Scope::folder("/work/a"));
    assert_eq!(row.timestamp, at(2026, 6, 1));
}

#[test]
fn an_unreadable_token_is_a_failed_request() {
    let store = FakeStore::new(vec![grant(Capability::StatusRead, Scope::Node)]);
    let executor = FakeExecutor::default();
    let result = run_dispatch(
        &store,
        &executor,
        &manager(),
        ManageCommand::StatusRead,
        ManageScope::Node,
        Some("nonsense".to_owned()),
        at(2026, 1, 1),
    );
    assert!(matches!(
        result,
        ManageResult::Error {
            kind: ManageErrorKind::Failed,
            ..
        }
    ));
    assert!(executor.calls().is_empty());
    assert!(store.audit_rows().is_empty());
}

/// Presents a token that had expired by 2026.
fn stale_token(store: &FakeStore) -> String {
    store.issue_token_json(
        "tok-stale",
        &manager(),
        Capability::GrantAdmin,
        Scope::Node,
        at(2025, 1, 1),
    )
}

#[test]
fn a_rejected_revocation_is_audited_over_the_stored_scope() {
    let revoke = || ManageCommand::GrantRevoke {
        grant_id: 7,
        scope: ManageScope::Folder {
            path: "/work".to_owned(),
        },
    };
    let advertised = || ManageScope::Folder {
        path: "/work".to_owned(),
    };
    let store = FakeStore::new(Vec::new()).with_stored_grant(7, Scope::folder("/personal"));
    let stale = stale_token(&store);
    let executor = FakeExecutor::default();
    let result = run_dispatch(
        &store,
        &executor,
        &manager(),
        revoke(),
        advertised(),
        Some(stale.clone()),
        at(2026, 1, 1),
    );
    assert!(matches!(
        result,
        ManageResult::Error {
            kind: ManageErrorKind::Unauthorised,
            ..
        }
    ));
    assert!(executor.calls().is_empty());
    let row = only_row(&store);
    assert_eq!(row.outcome, OUTCOME_DENIED);
    assert_eq!(row.scope, Scope::folder("/personal"));

    // Where the stored scope cannot be read, the advertised one is audited.
    let (state, _) = cascade_engine::manage::run_dispatch(
        manager(),
        revoke(),
        advertised(),
        Some(stale.clone()),
        at(2026, 1, 1),
    );
    let (state, action) = resume(state, DispatchEvent::Grants(Ok(Vec::new())));
    assert_eq!(action, DispatchAction::ReadToken(stale.clone()));
    let (state, action) = resume(state, DispatchEvent::Token(store.reading(&stale)));
    assert_eq!(action, DispatchAction::ReadGrantScope(7));
    let (state, action) = resume(state, DispatchEvent::Scope(Err("disk".to_owned())));
    match action {
        DispatchAction::AppendAudit(row) => {
            assert_eq!(row.outcome, OUTCOME_DENIED);
            assert_eq!(row.scope, Scope::folder("/work"));
        }
        other => panic!("expected an audit row, got {other:?}"),
    }
    // The caller learns of the rejection only once the row is written.
    let (_, action) = resume(state, DispatchEvent::AuditWritten(Ok(())));
    assert!(matches!(
        action,
        DispatchAction::Reply(ManageResult::Error {
            kind: ManageErrorKind::Unauthorised,
            ..
        })
    ));
}

#[test]
fn a_rejected_session_command_is_audited_over_the_session_scope() {
    let store = FakeStore::new(Vec::new()).with_exec_session(9, Scope::folder("/work"));
    let stale = stale_token(&store);
    let executor = FakeExecutor::default();
    for (session, scope) in [(9, Scope::folder("/work")), (10, Scope::Node)] {
        let result = run_dispatch(
            &store,
            &executor,
            &manager(),
            ManageCommand::PtyWrite {
                session,
                bytes: b"ls".to_vec(),
            },
            ManageScope::Folder {
                path: "/other".to_owned(),
            },
            Some(stale.clone()),
            at(2026, 1, 1),
        );
        assert!(matches!(
            result,
            ManageResult::Error {
                kind: ManageErrorKind::Unauthorised,
                ..
            }
        ));
        assert!(executor.calls().is_empty());
        let row = only_row(&store);
        assert_eq!(row.outcome, OUTCOME_DENIED);
        assert_eq!(row.scope, scope);
    }
}

#[test]
fn an_oversized_token_is_refused_unread() {
    let store = FakeStore::new(vec![grant(Capability::StatusRead, Scope::Node)]);
    let executor = FakeExecutor::default();
    let result = run_dispatch(
        &store,
        &executor,
        &manager(),
        ManageCommand::StatusRead,
        ManageScope::Node,
        Some("x".repeat(MAX_TOKEN_JSON_BYTES + 1)),
        at(2026, 1, 1),
    );
    match result {
        ManageResult::Error { message, .. } => assert_eq!(
            message,
            format!(
                "presented capability token exceeds maximum length ({} > {MAX_TOKEN_JSON_BYTES} bytes)",
                MAX_TOKEN_JSON_BYTES + 1
            )
        ),
        other => panic!("expected a refusal, got {other:?}"),
    }
    assert!(executor.calls().is_empty());
}

#[test]
fn data_tokens_confer_data_verbs_over_folders_only() {
    let store = FakeStore::new(Vec::new());
    let confers = |capability: Capability, scope: Scope| {
        let text = store.issue_token_json("tok", &manager(), capability, scope, at(2026, 12, 31));
        let reading = store.reading(&text);
        let granted = verify_data_token(&text, &reading, &manager(), at(2026, 1, 1));
        store.tokens.borrow_mut().clear();
        granted
    };
    let granted = confers(Capability::DataRead, Scope::folder("/work")).expect("a data grant");
    assert_eq!(granted.capability, Capability::DataRead);
    assert_eq!(granted.grantee, manager());
    assert!(confers(Capability::DataWrite, Scope::folder("/work")).is_some());
    assert!(confers(Capability::DataRead, Scope::Node).is_none());
    assert!(confers(Capability::DataRead, Scope::folder("/")).is_none());
    assert!(confers(Capability::PinWrite, Scope::folder("/work")).is_none());
    // Unreadable, oversized or expired tokens confer nothing.
    let reading = store.reading("nonsense");
    assert!(verify_data_token("nonsense", &reading, &manager(), at(2026, 1, 1)).is_none());
    let long = "x".repeat(MAX_TOKEN_JSON_BYTES + 1);
    assert!(verify_data_token(&long, &reading, &manager(), at(2026, 1, 1)).is_none());
    let text = store.issue_token_json(
        "tok",
        &manager(),
        Capability::DataRead,
        Scope::folder("/work"),
        at(2026, 12, 31),
    );
    let reading = store.reading(&text);
    assert!(verify_data_token(&text, &reading, &manager(), at(2027, 1, 1)).is_none());
}

#[test]
fn delegated_grants_are_read_with_care() {
    let wire = |capability: &str, scope: ManageScope, expires: Option<&str>| ManageGrant {
        grantee: "SUB".to_owned(),
        capability: capability.to_owned(),
        scope,
        expires: expires.map(str::to_owned),
    };
    let refused = |grant: &ManageGrant| {
        grant_from_wire(grant, &manager(), ExpiryBound::Unbounded)
            .unwrap_err()
            .message()
    };
    assert_eq!(
        refused(&wire("bogus", ManageScope::Node, None)),
        "unknown capability in delegated grant: bogus"
    );
    assert!(refused(&wire("backend:manage", ManageScope::Node, None)).contains("backend:manage"));
    let work = || ManageScope::Folder {
        path: "/work".to_owned(),
    };
    assert!(grant_from_wire(
        &wire("pin:write", work(), Some("tomorrow")),
        &manager(),
        ExpiryBound::Unbounded
    )
    .is_err());
    let unbounded = grant_from_wire(
        &wire("pin:write", work(), None),
        &manager(),
        ExpiryBound::Unbounded,
    )
    .unwrap();
    assert_eq!(unbounded.expires, None);
    let bounded = grant_from_wire(
        &wire("pin:write", work(), None),
        &manager(),
        ExpiryBound::NoLaterThan(at(2026, 2, 1)),
    )
    .unwrap();
    assert_eq!(bounded.expires, Some(at(2026, 2, 1)));
}

#[test]
fn commands_are_described_for_the_audit_log() {
    let folder = |path: &str| ManageScope::Folder {
        path: path.to_owned(),
    };
    assert_eq!(command_summary(&ManageCommand::StatusRead), "status:read");
    assert_eq!(
        command_summary(&ManageCommand::Pin {
            path_glob: "a".to_owned(),
            recursive: true
        }),
        "pin a (recursive=true)"
    );
    assert_eq!(
        command_summary(&ManageCommand::GrantAdd {
            grant: wire_grant("pin:write", folder("/w\"x"))
        }),
        "grant add pin:write to SUBORDINATE over Folder { path: \"/w\\\"x\" }"
    );
    assert_eq!(
        command_summary(&proc_spawn_in("/work")),
        "proc spawn /bin/echo in /work"
    );
    assert_eq!(
        command_summary(&ManageCommand::PtyWrite {
            session: 3,
            bytes: vec![0; 12]
        }),
        "pty write 12 bytes to 3"
    );
}

#[test]
fn globs_have_a_fixed_prefix() {
    assert_eq!(glob_fixed_prefix("/work/*.pdf"), "/work");
    assert_eq!(glob_fixed_prefix("/work/reports"), "/work/reports");
    assert_eq!(glob_fixed_prefix("/work/a?/b"), "/work");
    assert_eq!(glob_fixed_prefix("*"), "/");
}

#[test]
fn a_call_runs_in_the_step_after_its_audit_row() {
    let (state, first) = cascade_engine::manage::run_dispatch(
        manager(),
        ManageCommand::StatusRead,
        ManageScope::Node,
        None,
        at(2026, 1, 1),
    );
    assert_eq!(first, DispatchAction::ReadGrants);
    let grants = vec![grant(Capability::StatusRead, Scope::Node)];
    let (state, audit) = resume(state, DispatchEvent::Grants(Ok(grants)));
    match audit {
        DispatchAction::AppendAudit(entry) => {
            assert_eq!(entry.outcome, "allowed");
            assert_eq!(entry.command, "status:read");
            assert_eq!(entry.actor_device, manager());
        }
        other => panic!("expected an audit row, got {other:?}"),
    }
    let (state, run) = resume(state, DispatchEvent::AuditWritten(Ok(())));
    assert_eq!(run, DispatchAction::Execute(ExecutorCall::Status));
    let outcome = DispatchOutcome::Summary("fine".to_owned());
    let (_, reply) = resume(state, DispatchEvent::Executed(Ok(outcome)));
    assert_eq!(
        reply,
        DispatchAction::Reply(ManageResult::Completed {
            summary: "fine".to_owned()
        })
    );
}
