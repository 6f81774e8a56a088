//! The authorise, audit, execute flow of one command, step by step.
//!
//! The flow is a state machine: each step names one thing the node is to do
//! (read its grants, write an audit row, carry out the command) and the machine
//! goes on with what came back. The order of the steps is what keeps the plane
//! honest: nothing is carried out before its audit row is written, and nothing is
//! refused without one. A request whose token is rejected is denied over what its
//! command touches; where that cannot be looked up, over the scope it advertises,
//! or the whole node for a command on a session.

use vstd::prelude::*;

use crate::bytes;
use crate::db::{AuditEntry, AuditView};
use crate::manage::command;
use crate::manage::command::{
    DispatchOutcome, ExecutorCall, ManageCommand, ManageErrorKind, ManageResult, ManageScope,
};
use crate::manage::delegation;
use crate::manage::delegation::{DelegatedGrantError, Delegation, ExpiryBound};
use crate::manage::dispatch;
use crate::manage::dispatch::{TokenReading, OUTCOME_ALLOWED, OUTCOME_DENIED, OUTCOME_FAILED};
use crate::manage::grant;
use crate::manage::token::MAX_TOKEN_JSON_BYTES;
use crate::manage::{Capability, DeviceId, Grant, GrantView, Scope, ScopeView};
use crate::text;
use crate::time;
use crate::time::Timestamp;

verus! {

/// A command, who asks for it, and when.
#[derive(Debug, PartialEq, Eq)]
pub struct DispatchRequest {
    /// The authenticated caller.
    pub caller: DeviceId,
    /// The command.
    pub command: ManageCommand,
    /// The scope the caller advertises.
    pub wire_scope: ManageScope,
    /// The time of the request.
    pub now: Timestamp,
}

/// Where a request stands.
#[derive(Debug, PartialEq, Eq)]
pub enum DispatchState {
    /// Waiting for the grants held on this node.
    Grants {
        /// The request.
        request: DispatchRequest,
        /// The presented token, if any.
        token: Option<String>,
    },
    /// Waiting for what there is to judge the presented token by.
    Token {
        /// The request.
        request: DispatchRequest,
        /// The grants held on this node.
        grants: Vec<Grant>,
        /// The presented token.
        json: String,
    },
    /// Waiting for the scope of the grant that is to be revoked.
    GrantScope {
        /// The request.
        request: DispatchRequest,
        /// The grants that count.
        grants: Vec<Grant>,
        /// The row id of the grant.
        grant_id: i64,
        /// Why the presented token was rejected, if it was.
        rejection: Option<String>,
    },
    /// Waiting for the scope of the session the command names.
    SessionScope {
        /// The request.
        request: DispatchRequest,
        /// The grants that count.
        grants: Vec<Grant>,
        /// The session.
        session: u64,
        /// Why the presented token was rejected, if it was.
        rejection: Option<String>,
    },
    /// Decided; waiting for the audit row to be written.
    Audit {
        /// The request.
        request: DispatchRequest,
        /// What the command really touches.
        target: Scope,
        /// The audit description of the command.
        summary: String,
        /// Whether it may run.
        authorised: bool,
        /// How long a delegated grant may live.
        bound: ExpiryBound,
        /// Why the presented token was rejected, if it was.
        rejection: Option<String>,
    },
    /// Waiting for the command to be carried out.
    Execution {
        /// The audit row to write if it fails.
        failure: AuditEntry,
    },
    /// The command failed; waiting for that to be audited.
    FailureAudit {
        /// Why it failed.
        message: String,
    },
    /// Answered.
    Done,
}

/// What the node is to do next.
#[derive(Debug, PartialEq, Eq)]
pub enum DispatchAction {
    /// Read every grant held on this node.
    ReadGrants,
    /// Read what there is to judge this token by.
    ReadToken(String),
    /// Look up the scope of the stored grant with this row id.
    ReadGrantScope(i64),
    /// Look up the scope of the running session with this id.
    ReadSessionScope(u64),
    /// Write this audit row.
    AppendAudit(AuditEntry),
    /// Carry out this call.
    Execute(ExecutorCall),
    /// Answer the caller.
    Reply(ManageResult),
}

/// What came back.
#[derive(Debug, PartialEq, Eq)]
pub enum DispatchEvent {
    /// The grants, or why they cannot be read.
    Grants(Result<Vec<Grant>, String>),
    /// What there is to judge the token by.
    Token(TokenReading),
    /// The scope that was looked up, if there is one, or why it cannot be read.
    Scope(Result<Option<Scope>, String>),
    /// Whether the audit row was written.
    AuditWritten(Result<(), String>),
    /// What carrying out the command gave.
    Executed(Result<DispatchOutcome, String>),
}

impl DispatchState {
    /// Whether `event` is what this state waits for.
    pub open spec fn expects(self, event: DispatchEvent) -> bool {
        match self {
            DispatchState::Grants { .. } => event is Grants,
            DispatchState::Token { .. } => event matches DispatchEvent::Token(reading)
                && reading.complete(),
            DispatchState::GrantScope { .. } => event is Scope,
            DispatchState::SessionScope { .. } => event is Scope,
            DispatchState::Audit { .. } => event is AuditWritten,
            DispatchState::Execution { .. } => event is Executed,
            DispatchState::FailureAudit { .. } => event is AuditWritten,
            DispatchState::Done => false,
        }
    }
}

/// Whether the step ends the request with an error reply.
pub open spec fn fails(
    n: DispatchState,
    a: DispatchAction,
    kind: ManageErrorKind,
    message: Seq<char>,
) -> bool {
    n is Done && (a matches DispatchAction::Reply(reply) && reply.is_error(kind, message))
}

/// Whether the command may run: the caller is authorised over what the command
/// touches and over what it advertises, and a delegation hands on no more than
/// the caller holds.
pub open spec fn permitted(
    request: DispatchRequest,
    grants: Seq<GrantView>,
    target: ScopeView,
) -> bool {
    let caller = request.caller@;
    let capability = dispatch::needed(request.command);
    &&& grant::authorised(grants, caller, capability, target, request.now)
    &&& grant::authorised(grants, caller, capability, request.wire_scope@, request.now)
    &&& request.command matches ManageCommand::GrantAdd { grant: wire } ==> delegable(
        grants,
        caller,
        wire,
        request.now,
    )
}

/// Whether some grant of the caller backs handing on `wire`.
pub open spec fn delegable(
    grants: Seq<GrantView>,
    caller: Seq<char>,
    wire: command::ManageGrant,
    now: Timestamp,
) -> bool {
    Capability::named(wire.capability@) matches Some(c) && exists|i: int|
        0 <= i < grants.len() && #[trigger] delegation::backs(
            grants,
            i,
            caller,
            c,
            wire.scope@,
            now,
        )
}

/// The audit row of a request over `target`.
pub open spec fn audit_row(request: DispatchRequest, target: ScopeView, outcome: Seq<char>) -> AuditView {
    AuditView {
        timestamp: request.now,
        actor_device: request.caller@,
        capability: dispatch::needed(request.command),
        scope: target,
        command: command::summary(request.command),
        outcome,
    }
}

/// Whether the step decides the request over `target` and audits the decision. A
/// request whose token was rejected is denied.
pub open spec fn decides(
    request: DispatchRequest,
    grants: Seq<GrantView>,
    rejection: Option<Seq<char>>,
    target: ScopeView,
    n: DispatchState,
    a: DispatchAction,
) -> bool {
    n matches DispatchState::Audit {
        request: kept,
        target: over,
        summary,
        authorised,
        bound,
        rejection: why,
    } && {
        &&& kept == request
        &&& text::opt_text(why) == rejection
        &&& over@ == target
        &&& summary@ == command::summary(request.command)
        &&& authorised == (rejection is None && permitted(request, grants, target))
        &&& match request.command {
            ManageCommand::GrantAdd { grant: wire } => authorised ==> delegation::delegation_for(
                Delegation::Permitted(bound),
                grants,
                request.caller@,
                wire,
                request.now,
            ),
            _ => bound is Unbounded,
        }
        &&& a matches DispatchAction::AppendAudit(entry) && entry@ == audit_row(
            request,
            target,
            if authorised {
                OUTCOME_ALLOWED@
            } else {
                OUTCOME_DENIED@
            },
        )
    }
}

/// The session a command names, where that is all it names.
pub open spec fn named_session(command: ManageCommand) -> Option<u64> {
    match command {
        ManageCommand::PtyWrite { session, .. } => Some(session),
        ManageCommand::PtyResize { session, .. } => Some(session),
        ManageCommand::PtyKill { session, .. } => Some(session),
        ManageCommand::ProcSignal { session, .. } => Some(session),
        ManageCommand::ProcKill { session } => Some(session),
        _ => None,
    }
}

/// Whether the step finds out what the request touches: the stored scope of a
/// grant, the scope of a session, or what the payload says and, failing that,
/// what the caller advertises.
pub open spec fn resolves(
    request: DispatchRequest,
    grants: Seq<GrantView>,
    rejection: Option<Seq<char>>,
    n: DispatchState,
    a: DispatchAction,
) -> bool {
    match request.command {
        ManageCommand::GrantRevoke { grant_id, .. } => {
            &&& n matches DispatchState::GrantScope {
                request: kept,
                grants: held,
                grant_id: id,
                rejection: why,
            }
            &&& kept == request
            &&& text::opt_text(why) == rejection
            &&& grant::grant_views(held@) == grants
            &&& id == grant_id
            &&& a == DispatchAction::ReadGrantScope(grant_id)
        },
        _ => match named_session(request.command) {
            Some(session) => {
                &&& n matches DispatchState::SessionScope {
                    request: kept,
                    grants: held,
                    session: id,
                    rejection: why,
                }
                &&& kept == request
                &&& text::opt_text(why) == rejection
                &&& grant::grant_views(held@) == grants
                &&& id == session
                &&& a == DispatchAction::ReadSessionScope(session)
            },
            None => decides(
                request,
                grants,
                rejection,
                match dispatch::payload_scope(request.command) {
                    Some(target) => target,
                    None => request.wire_scope@,
                },
                n,
                a,
            ),
        },
    }
}

/// Whether `call` carries out `command` for `caller` over `target`. What a
/// delegated grant holds is left to [`delegation::wire_grant_outcome`].
pub open spec fn carries_out(
    call: ExecutorCall,
    command: ManageCommand,
    caller: Seq<char>,
    target: ScopeView,
) -> bool {
    match command {
        ManageCommand::StatusRead => call is Status,
        ManageCommand::Pin { path_glob, recursive } => call == (ExecutorCall::Pin {
            path_glob,
            recursive,
        }),
        ManageCommand::Unpin { path_glob } => call == (ExecutorCall::Unpin { path_glob }),
        ManageCommand::CacheEvict => call is CacheEvict,
        ManageCommand::CacheWarm { path_glob } => call == (ExecutorCall::CacheWarm { path_glob }),
        ManageCommand::ConfigPush { format, folder, body } => call == (ExecutorCall::ConfigPush {
            format,
            folder,
            body,
        }),
        ManageCommand::PolicySet { path_glob, max_age_secs, max_file_size, priority } => call == (
        ExecutorCall::PolicySet { path_glob, max_age_secs, max_file_size, priority }),
        ManageCommand::BackendAdd { name, backend_type, mount_path, config_toml } => call == (
        ExecutorCall::BackendAdd { name, backend_type, mount_path, config_toml }),
        ManageCommand::BackendRemove { name, mount_path } => call == (ExecutorCall::BackendRemove {
            name,
            mount_path,
        }),
        ManageCommand::Restart => call is Restart,
        ManageCommand::Stop => call is Stop,
        ManageCommand::GrantAdd { .. } => call is GrantAdd,
        ManageCommand::GrantRevoke { grant_id, .. } => call == (ExecutorCall::GrantRevoke {
            grant_id,
        }),
        ManageCommand::PtySpawn { shell, argv, cwd, env, cols, rows } => {
            &&& call matches ExecutorCall::PtySpawn {
                owner,
                scope,
                shell: s,
                argv: v,
                cwd: d,
                env: e,
                cols: c,
                rows: r,
            }
            &&& owner@ == caller
            &&& scope@ == target
            &&& s == shell && v == argv && d == cwd && e == env && c == cols && r == rows
        },
        ManageCommand::PtyWrite { session, bytes } => call == (ExecutorCall::PtyWrite {
            session,
            bytes,
        }),
        ManageCommand::PtyResize { session, cols, rows } => call == (ExecutorCall::PtyResize {
            session,
            cols,
            rows,
        }),
        ManageCommand::PtyKill { session, signal } => call == (ExecutorCall::PtyKill {
            session,
            signal,
        }),
        ManageCommand::ProcSpawn { argv, cwd, env } => {
            &&& call matches ExecutorCall::ProcSpawn { owner, scope, argv: v, cwd: d, env: e }
            &&& owner@ == caller
            &&& scope@ == target
            &&& v == argv && d == cwd && e == env
        },
        ManageCommand::ProcSignal { session, signal } => call == (ExecutorCall::ProcSignal {
            session,
            signal,
        }),
        ManageCommand::ProcKill { session } => call == (ExecutorCall::ProcKill { session }),
    }
}

/// Whether `r` is what preparing an authorised command gives: the call that
/// carries it out, or why a delegated grant cannot be built.
pub open spec fn prepared(
    r: Result<ExecutorCall, DelegatedGrantError>,
    command: ManageCommand,
    caller: Seq<char>,
    target: ScopeView,
    bound: ExpiryBound,
) -> bool {
    match command {
        ManageCommand::GrantAdd { grant: wire } => match r {
            Ok(call) => call matches ExecutorCall::GrantAdd { grant }
                && delegation::wire_grant_outcome(
                Ok::<Grant, DelegatedGrantError>(grant),
                wire,
                caller,
                bound,
            ),
            Err(e) => delegation::wire_grant_outcome(
                Err::<Grant, DelegatedGrantError>(e),
                wire,
                caller,
                bound,
            ),
        },
        _ => r matches Ok(call) && carries_out(call, command, caller, target),
    }
}

/// Turn an authorised command into the call that carries it out. The caller is
/// stamped as the granter of a delegated grant and as the owner of a session.
pub fn execute(
    caller: &DeviceId,
    target_scope: &Scope,
    command: ManageCommand,
    delegation_bound: ExpiryBound,
) -> (r: Result<ExecutorCall, DelegatedGrantError>)
    ensures
        prepared(r, command, caller@, target_scope@, delegation_bound),
{
    Ok(
        match command {
            ManageCommand::StatusRead => ExecutorCall::Status,
            ManageCommand::Pin { path_glob, recursive } => ExecutorCall::Pin {
                path_glob,
                recursive,
            },
            ManageCommand::Unpin { path_glob } => ExecutorCall::Unpin { path_glob },
            ManageCommand::CacheEvict => ExecutorCall::CacheEvict,
            ManageCommand::CacheWarm { path_glob } => ExecutorCall::CacheWarm { path_glob },
            ManageCommand::ConfigPush { format, folder, body } => ExecutorCall::ConfigPush {
                format,
                folder,
                body,
            },
            ManageCommand::PolicySet { path_glob, max_age_secs, max_file_size, priority } =>
                ExecutorCall::PolicySet { path_glob, max_age_secs, max_file_size, priority },
            ManageCommand::BackendAdd { name, backend_type, mount_path, config_toml } =>
                ExecutorCall::BackendAdd { name, backend_type, mount_path, config_toml },
            ManageCommand::BackendRemove { name, mount_path } => ExecutorCall::BackendRemove {
                name,
                mount_path,
            },
            ManageCommand::Restart => ExecutorCall::Restart,
            ManageCommand::Stop => ExecutorCall::Stop,
            ManageCommand::GrantAdd { grant } => match delegation::grant_from_wire(
                &grant,
                caller,
                delegation_bound,
            ) {
                Ok(built) => ExecutorCall::GrantAdd { grant: built },
                Err(e) => {
                    return Err(e);
                },
            },
            ManageCommand::GrantRevoke { grant_id, .. } => ExecutorCall::GrantRevoke { grant_id },
            ManageCommand::PtySpawn { shell, argv, cwd, env, cols, rows } =>
                ExecutorCall::PtySpawn {
                owner: caller.clone(),
                scope: target_scope.clone(),
                shell,
                argv,
                cwd,
                env,
                cols,
                rows,
            },
            ManageCommand::PtyWrite { session, bytes } => ExecutorCall::PtyWrite {
                session,
                bytes,
            },
            ManageCommand::PtyResize { session, cols, rows } => ExecutorCall::PtyResize {
                session,
                cols,
                rows,
            },
            ManageCommand::PtyKill { session, signal } => ExecutorCall::PtyKill {
                session,
                signal,
            },
            ManageCommand::ProcSpawn { argv, cwd, env } => ExecutorCall::ProcSpawn {
                owner: caller.clone(),
                scope: target_scope.clone(),
                argv,
                cwd,
                env,
            },
            ManageCommand::ProcSignal { session, signal } => ExecutorCall::ProcSignal {
                session,
                signal,
            },
            ManageCommand::ProcKill { session } => ExecutorCall::ProcKill { session },
        },
    )
}

/// Whether the step audits that the command failed and then waits to say why.
pub open spec fn audits_failure(
    row: AuditView,
    message: Seq<char>,
    n: DispatchState,
    a: DispatchAction,
) -> bool {
    &&& n matches DispatchState::FailureAudit { message: m } && m@ == message
    &&& a matches DispatchAction::AppendAudit(entry) && entry@ == row
}

/// The message of a refusal.
pub open spec fn refusal(request: DispatchRequest, target: ScopeView) -> Seq<char> {
    "caller "@ + request.caller@ + " lacks "@ + dispatch::needed(request.command).wire() + " over "@
        + command::scope_debug(target) + " (wire scope "@ + command::scope_debug(
        request.wire_scope@,
    ) + ")"@
}

/// The message of a denial: why the token was rejected, or what the caller lacks.
pub open spec fn denial(
    request: DispatchRequest,
    target: ScopeView,
    rejection: Option<Seq<char>>,
) -> Seq<char> {
    match rejection {
        Some(why) => why,
        None => refusal(request, target),
    }
}

/// Whether the step from `s` on `e` leads to `n` with action `a`.
pub open spec fn steps(
    s: DispatchState,
    e: DispatchEvent,
    n: DispatchState,
    a: DispatchAction,
) -> bool {
    match (s, e) {
        (DispatchState::Grants { request, token }, DispatchEvent::Grants(Err(why))) => fails(
            n,
            a,
            ManageErrorKind::Failed,
            "could not read grants: "@ + why@,
        ),
        (DispatchState::Grants { request, token }, DispatchEvent::Grants(Ok(grants))) =>
            match token {
            None => resolves(request, grant::grant_views(grants@), None, n, a),
            Some(json) => if bytes::utf8(json@).len() > MAX_TOKEN_JSON_BYTES {
                fails(
                    n,
                    a,
                    ManageErrorKind::Failed,
                    dispatch::too_long(bytes::utf8(json@).len()),
                )
            } else {
                &&& n == (DispatchState::Token { request, grants, json })
                &&& a matches DispatchAction::ReadToken(asked) && asked@ == json@
            },
        },
        (DispatchState::Token { request, grants, json }, DispatchEvent::Token(reading)) => exists|
            judged: Result<Grant, ManageResult>,
        | #[trigger]
            dispatch::presented_token_outcome(
                judged,
                json@,
                reading,
                request.caller@,
                request.now,
            ) && match judged {
                Ok(extra) => resolves(
                    request,
                    grant::grant_views(grants@).push(extra@),
                    None,
                    n,
                    a,
                ),
                Err(ManageResult::Error { kind: ManageErrorKind::Unauthorised, message }) =>
                    resolves(request, grant::grant_views(grants@), Some(message@), n, a),
                Err(reply) => n is Done && a == DispatchAction::Reply(reply),
            },
        (
            DispatchState::GrantScope { request, grants, grant_id, rejection },
            DispatchEvent::Scope(found),
        ) => match found {
            Ok(Some(stored)) => decides(
                request,
                grant::grant_views(grants@),
                text::opt_text(rejection),
                stored@,
                n,
                a,
            ),
            Ok(None) => decides(
                request,
                grant::grant_views(grants@),
                text::opt_text(rejection),
                request.wire_scope@,
                n,
                a,
            ),
            Err(_) if rejection is Some => decides(
                request,
                grant::grant_views(grants@),
                text::opt_text(rejection),
                request.wire_scope@,
                n,
                a,
            ),
            Err(why) => fails(
                n,
                a,
                ManageErrorKind::Failed,
                "could not resolve grant "@ + text::decimal(grant_id as int) + " for revocation: "@
                    + why@,
            ),
        },
        (
            DispatchState::SessionScope { request, grants, session, rejection },
            DispatchEvent::Scope(found),
        ) => match found {
            Ok(Some(scope)) => decides(
                request,
                grant::grant_views(grants@),
                text::opt_text(rejection),
                scope@,
                n,
                a,
            ),
            Ok(None) => decides(
                request,
                grant::grant_views(grants@),
                text::opt_text(rejection),
                ScopeView::Node,
                n,
                a,
            ),
            Err(_) if rejection is Some => decides(
                request,
                grant::grant_views(grants@),
                text::opt_text(rejection),
                ScopeView::Node,
                n,
                a,
            ),
            Err(why) => fails(
                n,
                a,
                ManageErrorKind::Failed,
                "could not resolve exec session "@ + text::decimal(session as int) + " scope: "@
                    + why@,
            ),
        },
        (
            DispatchState::Audit { request, target, summary, authorised, bound, rejection },
            DispatchEvent::AuditWritten(written),
        ) => match written {
            Err(why) => fails(
                n,
                a,
                ManageErrorKind::Failed,
                "could not record audit row: "@ + why@,
            ),
            Ok(_) => if !authorised {
                fails(
                    n,
                    a,
                    ManageErrorKind::Unauthorised,
                    denial(request, target@, text::opt_text(rejection)),
                )
            } else {
                let row = AuditView {
                    timestamp: request.now,
                    actor_device: request.caller@,
                    capability: dispatch::needed(request.command),
                    scope: target@,
                    command: summary@,
                    outcome: OUTCOME_FAILED@,
                };
                exists|ready: Result<ExecutorCall, DelegatedGrantError>| #[trigger]
                    prepared(ready, request.command, request.caller@, target@, bound)
                        && match ready {
                        Ok(call) => {
                            &&& n matches DispatchState::Execution { failure } && failure@ == row
                            &&& a == DispatchAction::Execute(call)
                        },
                        Err(why) => audits_failure(row, why.text(), n, a),
                    }
            },
        },
        (DispatchState::Execution { failure }, DispatchEvent::Executed(outcome)) => match outcome {
            Ok(DispatchOutcome::Summary(summary)) => n is Done && a == DispatchAction::Reply(
                ManageResult::Completed { summary },
            ),
            Ok(DispatchOutcome::ExecSpawned(session)) => n is Done && a == DispatchAction::Reply(
                ManageResult::ExecSpawned { session },
            ),
            Err(why) => audits_failure(failure@, why@, n, a),
        },
        (DispatchState::FailureAudit { message }, DispatchEvent::AuditWritten(_)) => fails(
            n,
            a,
            ManageErrorKind::Failed,
            message@,
        ),
        _ => false,
    }
}

/// Decide a request over `target` and audit the decision.
fn decide(
    request: DispatchRequest,
    grants: &Vec<Grant>,
    rejection: Option<String>,
    target: Scope,
) -> (r: (DispatchState, DispatchAction))
    ensures
        decides(
            request,
            grant::grant_views(grants@),
            text::opt_text(rejection),
            target@,
            r.0,
            r.1,
        ),
{
    let capability: Capability = dispatch::required_capability(&request.command);
    let scope: Scope = dispatch::scope_from_wire(&request.wire_scope);
    let summary: String = command::command_summary(&request.command);
    let capability_authorised: bool = grant::authorises(
        grants.as_slice(),
        &request.caller,
        capability,
        &target,
        request.now,
    ) && grant::authorises(
        grants.as_slice(),
        &request.caller,
        capability,
        &scope,
        request.now,
    );
    let answer: Delegation = match &request.command {
        ManageCommand::GrantAdd { grant } => delegation::caller_can_delegate(
            grants.as_slice(),
            &request.caller,
            grant,
            request.now,
        ),
        _ => Delegation::Permitted(ExpiryBound::Unbounded),
    };
    let (delegation_permitted, bound): (bool, ExpiryBound) = match answer {
        Delegation::Permitted(bound) => (true, bound),
        Delegation::Refused => (false, ExpiryBound::Unbounded),
    };
    let authorised: bool = rejection.is_none() && capability_authorised && delegation_permitted;
    proof {
        if let ManageCommand::GrantAdd { grant: wire } = &request.command {
            lemma_delegable(
                answer,
                grant::grant_views(grants@),
                request.caller@,
                *wire,
                request.now,
            );
        }
    }
    let outcome: &'static str = if authorised {
        OUTCOME_ALLOWED
    } else {
        OUTCOME_DENIED
    };
    let entry: AuditEntry = AuditEntry {
        timestamp: request.now,
        actor_device: request.caller.clone(),
        capability,
        scope: target.clone(),
        command: summary.clone(),
        outcome: outcome.to_owned(),
    };
    (
        DispatchState::Audit { request, target, summary, authorised, bound, rejection },
        DispatchAction::AppendAudit(entry),
    )
}

/// A delegation is permitted exactly where some grant backs it.
proof fn lemma_delegable(
    d: Delegation,
    grants: Seq<GrantView>,
    caller: Seq<char>,
    wire: command::ManageGrant,
    now: Timestamp,
)
    requires
        delegation::delegation_for(d, grants, caller, wire, now),
    ensures
        d is Permitted <==> delegable(grants, caller, wire, now),
{
    if let Some(c) = Capability::named(wire.capability@) {
        match d {
            Delegation::Permitted(ExpiryBound::Unbounded) => {
                let i = choose|i: int|
                    0 <= i < grants.len() && #[trigger] delegation::backs(
                        grants,
                        i,
                        caller,
                        c,
                        wire.scope@,
                        now,
                    ) && grants[i].expires is None;
                assert(delegation::backs(grants, i, caller, c, wire.scope@, now));
            },
            Delegation::Permitted(ExpiryBound::NoLaterThan(limit)) => {
                let i = choose|i: int|
                    0 <= i < grants.len() && #[trigger] delegation::backs(
                        grants,
                        i,
                        caller,
                        c,
                        wire.scope@,
                        now,
                    ) && grants[i].expires == Some(limit);
                assert(delegation::backs(grants, i, caller, c, wire.scope@, now));
            },
            Delegation::Refused => {},
        }
    }
}

/// Find out what a request touches, or decide it straight away.
fn resolve(request: DispatchRequest, grants: Vec<Grant>, rejection: Option<String>) -> (r: (
    DispatchState,
    DispatchAction,
))
    ensures
        resolves(request, grant::grant_views(grants@), text::opt_text(rejection), r.0, r.1),
{
    let session: Option<u64> = match &request.command {
        ManageCommand::GrantRevoke { grant_id, .. } => {
            let id: i64 = *grant_id;
            return (
                DispatchState::GrantScope { request, grants, grant_id: id, rejection },
                DispatchAction::ReadGrantScope(id),
            );
        },
        ManageCommand::PtyWrite { session, .. } => Some(*session),
        ManageCommand::PtyResize { session, .. } => Some(*session),
        ManageCommand::PtyKill { session, .. } => Some(*session),
        ManageCommand::ProcSignal { session, .. } => Some(*session),
        ManageCommand::ProcKill { session } => Some(*session),
        _ => None,
    };
    match session {
        Some(session) => (
            DispatchState::SessionScope { request, grants, session, rejection },
            DispatchAction::ReadSessionScope(session),
        ),
        None => {
            let target: Scope = match dispatch::command_target_scope(&request.command) {
                Some(target) => target,
                None => dispatch::scope_from_wire(&request.wire_scope),
            };
            decide(request, &grants, rejection, target)
        },
    }
}

/// End a request with an error reply.
fn fail(kind: ManageErrorKind, prefix: &str, detail: &str) -> (r: (DispatchState, DispatchAction))
    ensures
        fails(r.0, r.1, kind, prefix@ + detail@),
{
    (DispatchState::Done, DispatchAction::Reply(dispatch::error(kind, prefix, detail)))
}

/// Refuse a request that is not authorised.
fn refuse(request: &DispatchRequest, target: &Scope) -> (r: (DispatchState, DispatchAction))
    ensures
        fails(r.0, r.1, ManageErrorKind::Unauthorised, refusal(*request, target@)),
{
    let mut m: String = "caller ".to_owned();
    m.append(request.caller.as_str());
    m.append(" lacks ");
    m.append(dispatch::required_capability(&request.command).as_wire());
    m.append(" over ");
    let over: String = command::scope_text(target);
    m.append(over.as_str());
    m.append(" (wire scope ");
    let wire: String = command::wire_scope_text(&request.wire_scope);
    m.append(wire.as_str());
    m.append(")");
    (
        DispatchState::Done,
        DispatchAction::Reply(
            ManageResult::Error { kind: ManageErrorKind::Unauthorised, message: m },
        ),
    )
}

/// Begin the authorise, audit, execute flow for one command.
pub fn run_dispatch(
    caller: DeviceId,
    command: ManageCommand,
    wire_scope: ManageScope,
    token: Option<String>,
    now: Timestamp,
) -> (r: (DispatchState, DispatchAction))
    ensures
        r.0 == (DispatchState::Grants {
            request: DispatchRequest { caller, command, wire_scope, now },
            token,
        }),
        r.1 == DispatchAction::ReadGrants,
{
    (
        DispatchState::Grants {
            request: DispatchRequest { caller, command, wire_scope, now },
            token,
        },
        DispatchAction::ReadGrants,
    )
}

/// Go on from `state` with what came back.
pub fn resume(state: DispatchState, event: DispatchEvent) -> (r: (DispatchState, DispatchAction))
    requires
        state.expects(event),
    ensures
        steps(state, event, r.0, r.1),
{
    match (state, event) {
        (DispatchState::Grants { request, token }, DispatchEvent::Grants(read)) => match read {
            Err(why) => fail(
                ManageErrorKind::Failed,
                "could not read grants: ",
                why.as_str(),
            ),
            Ok(grants) => match token {
                None => resolve(request, grants, None),
                Some(json) => {
                    let size: usize = dispatch::byte_len(json.as_str());
                    if size > MAX_TOKEN_JSON_BYTES {
                        (
                            DispatchState::Done,
                            DispatchAction::Reply(dispatch::oversize_reply(size)),
                        )
                    } else {
                        let asked: String = json.clone();
                        (
                            DispatchState::Token { request, grants, json },
                            DispatchAction::ReadToken(asked),
                        )
                    }
                },
            },
        },
        (DispatchState::Token { request, grants, json }, DispatchEvent::Token(reading)) => {
            let judged: Result<Grant, ManageResult> = dispatch::verify_presented_token(
                json.as_str(),
                &reading,
                &request.caller,
                request.now,
            );
            assert(dispatch::presented_token_outcome(
                judged,
                json@,
                reading,
                request.caller@,
                request.now,
            ));
            match judged {
                Err(ManageResult::Error { kind: ManageErrorKind::Unauthorised, message }) =>
                    resolve(request, grants, Some(message)),
                Err(reply) => (DispatchState::Done, DispatchAction::Reply(reply)),
                Ok(extra) => {
                    let ghost before = grants@;
                    let mut all: Vec<Grant> = grants;
                    all.push(extra);
                    assert(grant::grant_views(all@) == grant::grant_views(before).push(extra@));
                    resolve(request, all, None)
                },
            }
        },
        (
            DispatchState::GrantScope { request, grants, grant_id, rejection },
            DispatchEvent::Scope(found),
        ) => match found {
            Ok(Some(stored)) => decide(request, &grants, rejection, stored),
            Ok(None) => {
                let scope: Scope = dispatch::scope_from_wire(&request.wire_scope);
                decide(request, &grants, rejection, scope)
            },
            Err(_) if rejection.is_some() => {
                let scope: Scope = dispatch::scope_from_wire(&request.wire_scope);
                decide(request, &grants, rejection, scope)
            },
            Err(why) => {
                let mut prefix: String = "could not resolve grant ".to_owned();
                let id: String = text::i64_text(grant_id);
                prefix.append(id.as_str());
                prefix.append(" for revocation: ");
                fail(ManageErrorKind::Failed, prefix.as_str(), why.as_str())
            },
        },
        (
            DispatchState::SessionScope { request, grants, session, rejection },
            DispatchEvent::Scope(found),
        ) => match found {
            Ok(Some(scope)) => decide(request, &grants, rejection, scope),
            Ok(None) => decide(request, &grants, rejection, Scope::Node),
            Err(_) if rejection.is_some() => decide(request, &grants, rejection, Scope::Node),
            Err(why) => {
                let mut prefix: String = "could not resolve exec session ".to_owned();
                let id: String = text::u64_text(session);
                prefix.append(id.as_str());
                prefix.append(" scope: ");
                fail(ManageErrorKind::Failed, prefix.as_str(), why.as_str())
            },
        },
        (
            DispatchState::Audit { request, target, summary, authorised, bound, rejection },
            DispatchEvent::AuditWritten(written),
        ) => match written {
            Err(why) => fail(
                ManageErrorKind::Failed,
                "could not record audit row: ",
                why.as_str(),
            ),
            Ok(_) => {
                if !authorised {
                    return match rejection {
                        Some(message) => (
                            DispatchState::Done,
                            DispatchAction::Reply(
                                ManageResult::Error {
                                    kind: ManageErrorKind::Unauthorised,
                                    message,
                                },
                            ),
                        ),
                        None => refuse(&request, &target),
                    };
                }
                let failure: AuditEntry = AuditEntry {
                    timestamp: request.now,
                    actor_device: request.caller.clone(),
                    capability: dispatch::required_capability(&request.command),
                    scope: target.clone(),
                    command: summary,
                    outcome: OUTCOME_FAILED.to_owned(),
                };
                let ready: Result<ExecutorCall, DelegatedGrantError> = execute(
                    &request.caller,
                    &target,
                    request.command,
                    bound,
                );
                assert(prepared(ready, request.command, request.caller@, target@, bound));
                match ready {
                    Ok(call) => (
                        DispatchState::Execution { failure },
                        DispatchAction::Execute(call),
                    ),
                    Err(why) => (
                        DispatchState::FailureAudit { message: why.message() },
                        DispatchAction::AppendAudit(failure),
                    ),
                }
            },
        },
        (DispatchState::Execution { failure }, DispatchEvent::Executed(outcome)) => match outcome {
            Ok(DispatchOutcome::Summary(summary)) => (
                DispatchState::Done,
                DispatchAction::Reply(ManageResult::Completed { summary }),
            ),
            Ok(DispatchOutcome::ExecSpawned(session)) => (
                DispatchState::Done,
                DispatchAction::Reply(ManageResult::ExecSpawned { session }),
            ),
            Err(message) => (
                DispatchState::FailureAudit { message },
                DispatchAction::AppendAudit(failure),
            ),
        },
        (DispatchState::FailureAudit { message }, DispatchEvent::AuditWritten(_)) => (
            DispatchState::Done,
            DispatchAction::Reply(ManageResult::Error { kind: ManageErrorKind::Failed, message }),
        ),
        (state, _) => {
            assert(false);
            (state, DispatchAction::ReadGrants)
        },
    }
}

impl DispatchState {
    /// What holds of a state however it was reached: the description kept for
    /// the audit log is that of the command, and the row kept for a failure is
    /// marked as one.
    pub open spec fn wf(self) -> bool {
        match self {
            DispatchState::Audit { request, summary, .. } => summary@ == command::summary(
                request.command,
            ),
            DispatchState::Execution { failure } => failure@.outcome == OUTCOME_FAILED@,
            _ => true,
        }
    }

    /// How many steps are left at most.
    pub open spec fn rank(self) -> nat {
        match self {
            DispatchState::Grants { .. } => 6,
            DispatchState::Token { .. } => 5,
            DispatchState::GrantScope { .. } => 4,
            DispatchState::SessionScope { .. } => 4,
            DispatchState::Audit { .. } => 3,
            DispatchState::Execution { .. } => 2,
            DispatchState::FailureAudit { .. } => 1,
            DispatchState::Done => 0,
        }
    }
}

/// Every step keeps what holds of a state, makes progress, and answers the
/// caller exactly when it ends the request.
pub proof fn law_every_request_is_answered(
    s: DispatchState,
    e: DispatchEvent,
    n: DispatchState,
    a: DispatchAction,
)
    requires
        s.wf(),
        steps(s, e, n, a),
    ensures
        n.wf(),
        n.rank() < s.rank(),
        n is Done <==> a is Reply,
{
}

/// Nothing is carried out before its audit row is written: the only step that
/// executes a call follows an audit row that was written for a request that was
/// found authorised.
pub proof fn law_nothing_runs_unaudited(
    s: DispatchState,
    e: DispatchEvent,
    n: DispatchState,
    a: DispatchAction,
)
    requires
        steps(s, e, n, a),
        a is Execute,
    ensures
        s matches DispatchState::Audit { authorised, .. } && authorised,
        e matches DispatchEvent::AuditWritten(written) && written is Ok,
{
}

/// A request reaches its decision only with an audit row for it, which says
/// `allowed` exactly when the request is authorised and `denied` otherwise, and
/// names the caller, the capability and what the command really touches.
pub proof fn law_every_decision_is_audited(
    s: DispatchState,
    e: DispatchEvent,
    n: DispatchState,
    a: DispatchAction,
)
    requires
        steps(s, e, n, a),
        n is Audit,
    ensures
        n matches DispatchState::Audit { request, target, authorised, .. } && (
        a matches DispatchAction::AppendAudit(entry) && entry@ == audit_row(
            request,
            target@,
            if authorised {
                OUTCOME_ALLOWED@
            } else {
                OUTCOME_DENIED@
            },
        )),
{
}

/// Whether the states, the events and the actions are those of one request: each
/// step is taken from the state before it on the event that came back.
pub open spec fn run_of(
    request: DispatchRequest,
    token: Option<String>,
    states: Seq<DispatchState>,
    events: Seq<DispatchEvent>,
    actions: Seq<DispatchAction>,
) -> bool {
    &&& states.len() == events.len() + 1
    &&& actions.len() == events.len()
    &&& states[0] == (DispatchState::Grants { request, token })
    &&& forall|i: int|
        0 <= i < events.len() ==> steps(states[i], events[i], states[i + 1], #[trigger] actions[i])
}

/// Whether `grants` are the ones a request is decided by: those that were read,
/// and with them the one that a presented token confers.
pub open spec fn counting(
    request: DispatchRequest,
    token: Option<String>,
    events: Seq<DispatchEvent>,
    grants: Seq<GrantView>,
) -> bool {
    events[0] matches DispatchEvent::Grants(Ok(read)) && match token {
        None => grants == grant::grant_views(read@),
        Some(json) => events[1] matches DispatchEvent::Token(reading) && exists|extra: Grant|
            #[trigger] dispatch::presented_token_outcome(
                Ok::<Grant, ManageResult>(extra),
                json@,
                reading,
                request.caller@,
                request.now,
            ) && grants == grant::grant_views(read@).push(extra@),
    }
}

/// Whether the grants that count permit the request over `target`.
pub open spec fn warranted(
    request: DispatchRequest,
    token: Option<String>,
    events: Seq<DispatchEvent>,
    grants: Seq<GrantView>,
    target: ScopeView,
) -> bool {
    counting(request, token, events, grants) && permitted(request, grants, target)
}

/// What the state before step `i` of a run owes to the steps before it.
spec fn accounted(
    request: DispatchRequest,
    token: Option<String>,
    states: Seq<DispatchState>,
    events: Seq<DispatchEvent>,
    actions: Seq<DispatchAction>,
    i: int,
) -> bool {
    match states[i] {
        DispatchState::Grants { .. } => i == 0,
        DispatchState::Token { request: kept, grants, json } => i == 1 && kept == request && token
            == Some(json) && events[0] == DispatchEvent::Grants(Ok(grants)),
        DispatchState::GrantScope { request: kept, grants, rejection, .. } => kept == request && (
        rejection is None ==> counting(request, token, events, grant::grant_views(grants@))),
        DispatchState::SessionScope { request: kept, grants, rejection, .. } => kept == request && (
        rejection is None ==> counting(request, token, events, grant::grant_views(grants@))),
        DispatchState::Audit { request: kept, target, authorised, .. } => {
            &&& i >= 1 && kept == request
            &&& authorised ==> exists|grants: Seq<GrantView>| #[trigger]
                warranted(request, token, events, grants, target@)
            &&& actions[i - 1] matches DispatchAction::AppendAudit(entry) && entry@ == audit_row(
                request,
                target@,
                if authorised {
                    OUTCOME_ALLOWED@
                } else {
                    OUTCOME_DENIED@
                },
            )
        },
        _ => true,
    }
}

/// Every state of a run is accounted for.
proof fn lemma_accounted(
    request: DispatchRequest,
    token: Option<String>,
    states: Seq<DispatchState>,
    events: Seq<DispatchEvent>,
    actions: Seq<DispatchAction>,
    i: int,
)
    requires
        run_of(request, token, states, events, actions),
        0 <= i < states.len(),
    ensures
        accounted(request, token, states, events, actions, i),
    decreases i,
{
    if i > 0 {
        let j = i - 1;
        lemma_accounted(request, token, states, events, actions, j);
        assert(steps(states[j], events[j], states[j + 1], actions[j]));
        match (states[j], events[j]) {
            (DispatchState::Grants { .. }, DispatchEvent::Grants(Ok(read))) => {
                if token is None {
                    let grants = grant::grant_views(read@);
                    lemma_resolved(request, token, states, events, actions, i, grants, None);
                }
            },
            (DispatchState::Token { grants, json, .. }, DispatchEvent::Token(reading)) => {
                let judged = choose|judged: Result<Grant, ManageResult>| #[trigger]
                    dispatch::presented_token_outcome(
                        judged,
                        json@,
                        reading,
                        request.caller@,
                        request.now,
                    ) && match judged {
                        Ok(extra) => resolves(
                            request,
                            grant::grant_views(grants@).push(extra@),
                            None,
                            states[i],
                            actions[j],
                        ),
                        Err(
                            ManageResult::Error { kind: ManageErrorKind::Unauthorised, message },
                        ) => resolves(
                            request,
                            grant::grant_views(grants@),
                            Some(message@),
                            states[i],
                            actions[j],
                        ),
                        Err(reply) => states[i] is Done && actions[j] == DispatchAction::Reply(
                            reply,
                        ),
                    };
                match judged {
                    Ok(extra) => {
                        let all = grant::grant_views(grants@).push(extra@);
                        lemma_resolved(request, token, states, events, actions, i, all, None);
                    },
                    Err(ManageResult::Error { kind: ManageErrorKind::Unauthorised, message }) => {
                        let held = grant::grant_views(grants@);
                        lemma_resolved(
                            request,
                            token,
                            states,
                            events,
                            actions,
                            i,
                            held,
                            Some(message@),
                        );
                    },
                    Err(_) => {},
                }
            },
            (DispatchState::GrantScope { grants, .. }, DispatchEvent::Scope(found)) => {
                if let DispatchState::Audit { target, .. } = states[i] {
                    let held = grant::grant_views(grants@);
                    assert(warranted(request, token, events, held, target@) <==> counting(
                        request,
                        token,
                        events,
                        held,
                    ) && permitted(request, held, target@));
                }
            },
            (DispatchState::SessionScope { grants, .. }, DispatchEvent::Scope(found)) => {
                if let DispatchState::Audit { target, .. } = states[i] {
                    let held = grant::grant_views(grants@);
                    assert(warranted(request, token, events, held, target@) <==> counting(
                        request,
                        token,
                        events,
                        held,
                    ) && permitted(request, held, target@));
                }
            },
            _ => {},
        }
    }
}

/// A state that a resolving step leads to is accounted for.
proof fn lemma_resolved(
    request: DispatchRequest,
    token: Option<String>,
    states: Seq<DispatchState>,
    events: Seq<DispatchEvent>,
    actions: Seq<DispatchAction>,
    i: int,
    grants: Seq<GrantView>,
    rejection: Option<Seq<char>>,
)
    requires
        i >= 1,
        rejection is None ==> counting(request, token, events, grants),
        resolves(request, grants, rejection, states[i], actions[i - 1]),
    ensures
        accounted(request, token, states, events, actions, i),
{
    if let DispatchState::Audit { target, .. } = states[i] {
        assert(warranted(request, token, events, grants, target@) <==> counting(
            request,
            token,
            events,
            grants,
        ) && permitted(request, grants, target@));
    }
}

/// Whatever runs was asked for, was permitted by the grants that count, and had
/// its audit row written first: a call is executed only in the step after a row
/// that says `allowed` was written for this very request, and it carries out the
/// request's command over what the row names.
pub proof fn law_what_runs_was_permitted_and_audited(
    request: DispatchRequest,
    token: Option<String>,
    states: Seq<DispatchState>,
    events: Seq<DispatchEvent>,
    actions: Seq<DispatchAction>,
    k: int,
)
    requires
        run_of(request, token, states, events, actions),
        0 <= k < actions.len(),
        actions[k] is Execute,
    ensures
        k >= 1,
        events[k] matches DispatchEvent::AuditWritten(Ok(_)),
        states[k] matches DispatchState::Audit { target, .. } && {
            &&& exists|grants: Seq<GrantView>| #[trigger]
                warranted(request, token, events, grants, target@)
            &&& actions[k - 1] matches DispatchAction::AppendAudit(entry) && entry@ == audit_row(
                request,
                target@,
                OUTCOME_ALLOWED@,
            )
            &&& actions[k] matches DispatchAction::Execute(call) && carries_out(
                call,
                request.command,
                request.caller@,
                target@,
            )
        },
{
    lemma_accounted(request, token, states, events, actions, k);
    assert(steps(states[k], events[k], states[k + 1], actions[k]));
}

/// Every refusal was audited: a request is answered `Unauthorised` only in the
/// step after a row that says `denied` was written for it, and that row names the
/// caller, the capability and what the command really touches. A request whose
/// token was rejected is no exception.
pub proof fn law_every_refusal_was_audited(
    request: DispatchRequest,
    token: Option<String>,
    states: Seq<DispatchState>,
    events: Seq<DispatchEvent>,
    actions: Seq<DispatchAction>,
    k: int,
)
    requires
        run_of(request, token, states, events, actions),
        0 <= k < actions.len(),
        actions[k] matches DispatchAction::Reply(ManageResult::Error { kind, .. }) && kind
            == ManageErrorKind::Unauthorised,
    ensures
        k >= 1,
        events[k] matches DispatchEvent::AuditWritten(Ok(_)),
        states[k] matches DispatchState::Audit { target, authorised, .. } && !authorised && (
        actions[k - 1] matches DispatchAction::AppendAudit(entry) && entry@ == audit_row(
            request,
            target@,
            OUTCOME_DENIED@,
        )),
{
    lemma_accounted(request, token, states, events, actions, k);
    assert(steps(states[k], events[k], states[k + 1], actions[k]));
}

/// A refused request has no effect: once its denial is audited it is answered
/// `Unauthorised`, and where the audit row cannot be written no request goes
/// on, authorised or not.
pub proof fn law_refused_request_has_no_effect(
    s: DispatchState,
    e: DispatchEvent,
    n: DispatchState,
    a: DispatchAction,
)
    requires
        steps(s, e, n, a),
        s is Audit,
        !s->authorised || (e matches DispatchEvent::AuditWritten(w) && w is Err),
    ensures
        n is Done,
        a matches DispatchAction::Reply(ManageResult::Error { kind, .. }) && (kind
            == ManageErrorKind::Unauthorised <==> (e matches DispatchEvent::AuditWritten(w) && w is Ok)),
{
}

/// A command that fails while running leaves a second audit row, marked as
/// failed, before the caller hears of it.
pub proof fn law_failure_is_audited(
    s: DispatchState,
    why: String,
    n: DispatchState,
    a: DispatchAction,
)
    requires
        s.wf(),
        s is Execution,
        steps(s, DispatchEvent::Executed(Err(why)), n, a),
    ensures
        a matches DispatchAction::AppendAudit(entry) && entry@ == s->failure@ && entry@.outcome
            == OUTCOME_FAILED@,
        n matches DispatchState::FailureAudit { message } && message@ == why@,
{
}

/// A presented token that does not verify refuses the whole command, whatever
/// grants the caller holds besides: nothing is executed in such a run.
pub proof fn law_bad_token_refuses_the_command(
    request: DispatchRequest,
    token: Option<String>,
    reading: TokenReading,
    states: Seq<DispatchState>,
    events: Seq<DispatchEvent>,
    actions: Seq<DispatchAction>,
    k: int,
)
    requires
        run_of(request, token, states, events, actions),
        0 <= k < actions.len(),
        token is Some,
        events.len() > 1 ==> events[1] == DispatchEvent::Token(reading),
        reading.parsed matches Ok(t) && (reading.node matches Ok(node) && (
        reading.revoked matches Ok(revoked) && reading.outcome(
            t,
            node,
            revoked,
            request.caller@,
            request.now,
        ) is Err)),
    ensures
        !(actions[k] is Execute),
{
    if actions[k] is Execute {
        law_what_runs_was_permitted_and_audited(request, token, states, events, actions, k);
        let target = states[k]->Audit_target@;
        let grants = choose|grants: Seq<GrantView>| #[trigger]
            warranted(request, token, events, grants, target);
        assert(counting(request, token, events, grants));
    }
}

/// A command that names a session that does not run is refused: no grant
/// reaches it.
pub proof fn law_unknown_session_is_refused(
    s: DispatchState,
    n: DispatchState,
    a: DispatchAction,
)
    requires
        s is SessionScope,
        dispatch::needed(s->SessionScope_request.command).dangerous(),
        steps(s, DispatchEvent::Scope(Ok(None)), n, a),
    ensures
        n matches DispatchState::Audit { authorised, .. } && !authorised,
{
    let request = s->SessionScope_request;
    let grants = grant::grant_views(s->SessionScope_grants@);
    grant::law_dangerous_needs_an_explicit_folder(
        grants,
        request.caller@,
        dispatch::needed(request.command),
        ScopeView::Node,
        request.now,
    );
}

/// What a request is found authorised over is what its command really touches,
/// not only what the caller advertises: both must be covered.
pub proof fn law_advertised_scope_is_not_enough(
    request: DispatchRequest,
    grants: Seq<GrantView>,
    rejection: Option<Seq<char>>,
    target: ScopeView,
    n: DispatchState,
    a: DispatchAction,
)
    requires
        decides(request, grants, rejection, target, n, a),
        !grant::authorised(
            grants,
            request.caller@,
            dispatch::needed(request.command),
            target,
            request.now,
        ) || !grant::authorised(
            grants,
            request.caller@,
            dispatch::needed(request.command),
            request.wire_scope@,
            request.now,
        ),
    ensures
        n matches DispatchState::Audit { authorised, .. } && !authorised,
{
}

/// What is executed is what was asked for: a call is of the kind of the request's
/// command, with that command's own arguments. A session is opened for the caller
/// over what the audit row names, and a grant is made out as it was asked for, by
/// the caller, to live no longer than was asked.
pub proof fn law_a_run_executes_the_command_asked_for(
    request: DispatchRequest,
    token: Option<String>,
    states: Seq<DispatchState>,
    events: Seq<DispatchEvent>,
    actions: Seq<DispatchAction>,
    k: int,
    call: ExecutorCall,
)
    requires
        run_of(request, token, states, events, actions),
        0 <= k < actions.len(),
        actions[k] == DispatchAction::Execute(call),
    ensures
        call is Status <==> request.command is StatusRead,
        call is Pin <==> request.command is Pin,
        call is Unpin <==> request.command is Unpin,
        call is CacheEvict <==> request.command is CacheEvict,
        call is CacheWarm <==> request.command is CacheWarm,
        call is ConfigPush <==> request.command is ConfigPush,
        call is PolicySet <==> request.command is PolicySet,
        call is BackendAdd <==> request.command is BackendAdd,
        call is BackendRemove <==> request.command is BackendRemove,
        call is Restart <==> request.command is Restart,
        call is Stop <==> request.command is Stop,
        call is GrantAdd <==> request.command is GrantAdd,
        call is GrantRevoke <==> request.command is GrantRevoke,
        call is PtySpawn <==> request.command is PtySpawn,
        call is PtyWrite <==> request.command is PtyWrite,
        call is PtyResize <==> request.command is PtyResize,
        call is PtyKill <==> request.command is PtyKill,
        call is ProcSpawn <==> request.command is ProcSpawn,
        call is ProcSignal <==> request.command is ProcSignal,
        call is ProcKill <==> request.command is ProcKill,
        call is Pin ==> {
            &&& call->Pin_path_glob == request.command->Pin_path_glob
            &&& call->Pin_recursive == request.command->Pin_recursive
        },
        call is Unpin ==> call->Unpin_path_glob == request.command->Unpin_path_glob,
        call is CacheWarm ==> call->CacheWarm_path_glob == request.command->CacheWarm_path_glob,
        call is ConfigPush ==> {
            &&& call->ConfigPush_format == request.command->ConfigPush_format
            &&& call->ConfigPush_folder == request.command->ConfigPush_folder
            &&& call->ConfigPush_body == request.command->ConfigPush_body
        },
        call is PolicySet ==> {
            &&& call->PolicySet_path_glob == request.command->PolicySet_path_glob
            &&& call->PolicySet_max_age_secs == request.command->PolicySet_max_age_secs
            &&& call->PolicySet_max_file_size == request.command->PolicySet_max_file_size
            &&& call->PolicySet_priority == request.command->PolicySet_priority
        },
        call is BackendAdd ==> {
            &&& call->BackendAdd_name == request.command->BackendAdd_name
            &&& call->BackendAdd_backend_type == request.command->BackendAdd_backend_type
            &&& call->BackendAdd_mount_path == request.command->BackendAdd_mount_path
            &&& call->BackendAdd_config_toml == request.command->BackendAdd_config_toml
        },
        call is BackendRemove ==> {
            &&& call->BackendRemove_name == request.command->BackendRemove_name
            &&& call->BackendRemove_mount_path == request.command->BackendRemove_mount_path
        },
        call is GrantRevoke ==> {
            &&& call->GrantRevoke_grant_id == request.command->GrantRevoke_grant_id
        },
        call is PtySpawn ==> {
            &&& call->PtySpawn_shell == request.command->PtySpawn_shell
            &&& call->PtySpawn_argv == request.command->PtySpawn_argv
            &&& call->PtySpawn_cwd == request.command->PtySpawn_cwd
            &&& call->PtySpawn_env == request.command->PtySpawn_env
            &&& call->PtySpawn_cols == request.command->PtySpawn_cols
            &&& call->PtySpawn_rows == request.command->PtySpawn_rows
        },
        call is PtyWrite ==> {
            &&& call->PtyWrite_session == request.command->PtyWrite_session
            &&& call->PtyWrite_bytes == request.command->PtyWrite_bytes
        },
        call is PtyResize ==> {
            &&& call->PtyResize_session == request.command->PtyResize_session
            &&& call->PtyResize_cols == request.command->PtyResize_cols
            &&& call->PtyResize_rows == request.command->PtyResize_rows
        },
        call is PtyKill ==> {
            &&& call->PtyKill_session == request.command->PtyKill_session
            &&& call->PtyKill_signal == request.command->PtyKill_signal
        },
        call is ProcSpawn ==> {
            &&& call->ProcSpawn_argv == request.command->ProcSpawn_argv
            &&& call->ProcSpawn_cwd == request.command->ProcSpawn_cwd
            &&& call->ProcSpawn_env == request.command->ProcSpawn_env
        },
        call is ProcSignal ==> {
            &&& call->ProcSignal_session == request.command->ProcSignal_session
            &&& call->ProcSignal_signal == request.command->ProcSignal_signal
        },
        call is ProcKill ==> call->ProcKill_session == request.command->ProcKill_session,
        call is PtySpawn ==> call->PtySpawn_owner@ == request.caller@,
        call is ProcSpawn ==> call->ProcSpawn_owner@ == request.caller@,
        k >= 1,
        actions[k - 1] matches DispatchAction::AppendAudit(row) && {
            &&& call is PtySpawn ==> call->PtySpawn_scope@ == row@.scope
            &&& call is ProcSpawn ==> call->ProcSpawn_scope@ == row@.scope
        },
        call is GrantAdd ==> {
            let made = call->GrantAdd_grant;
            let asked = request.command->GrantAdd_grant;
            &&& made.grantee@ == asked.grantee@
            &&& made.capability.wire() == asked.capability@
            &&& made.scope@ == asked.scope@
            &&& made.granted_by@ == request.caller@
            &&& asked.expires matches Some(raw) ==> (made.expires matches Some(lapse) && exists|
                at: Timestamp,
            |
                time::rfc3339(raw@) == Ok::<(i64, u32), Seq<char>>(
                    (at.spec_secs(), at.spec_nanos()),
                ) && #[trigger] at.at_or_after(lapse))
        },
{
    law_what_runs_was_permitted_and_audited(request, token, states, events, actions, k);
    lemma_accounted(request, token, states, events, actions, k);
    assert(steps(states[k], events[k], states[k + 1], actions[k]));
    let target = states[k]->Audit_target@;
    let bound = states[k]->Audit_bound;
    assert(prepared(
        Ok::<ExecutorCall, DelegatedGrantError>(call),
        request.command,
        request.caller@,
        target,
        bound,
    ));
    if call is GrantAdd {
        let made = call->GrantAdd_grant;
        let asked = request.command->GrantAdd_grant;
        lemma_named(asked.capability@, made.capability);
        let requested = choose|requested: Option<Timestamp>|
            #![trigger bound.clamped(requested)]
            grant::expiry_of(text::opt_text(asked.expires), requested) && made.expires
                == bound.clamped(requested);
        if asked.expires is Some {
            let at = requested->0;
            let lapse = made.expires->0;
            time::lemma_order_total(at, lapse);
            assert(at.at_or_after(lapse));
        }
    }
}

/// A capability that an identifier names has that identifier.
proof fn lemma_named(identifier: Seq<char>, capability: Capability)
    requires
        Capability::named(identifier) == Some(capability),
    ensures
        capability.wire() == identifier,
{
}

/// Each step of a run leaves fewer steps to go.
proof fn lemma_ranks_fall(
    request: DispatchRequest,
    token: Option<String>,
    states: Seq<DispatchState>,
    events: Seq<DispatchEvent>,
    actions: Seq<DispatchAction>,
    j: int,
    k: int,
)
    requires
        run_of(request, token, states, events, actions),
        0 <= j <= k < states.len(),
    ensures
        states[k].wf(),
        states[k].rank() + (k - j) <= states[j].rank(),
    decreases k,
{
    if k > 0 {
        if j == k {
            lemma_ranks_fall(request, token, states, events, actions, 0, k - 1);
        } else {
            lemma_ranks_fall(request, token, states, events, actions, j, k - 1);
        }
        assert(steps(states[k - 1], events[k - 1], states[k], actions[k - 1]));
        law_every_request_is_answered(states[k - 1], events[k - 1], states[k], actions[k - 1]);
    }
}

/// A request is answered once, and its command is carried out at most once, after
/// at most two audit rows.
pub proof fn law_a_command_runs_at_most_once(
    request: DispatchRequest,
    token: Option<String>,
    states: Seq<DispatchState>,
    events: Seq<DispatchEvent>,
    actions: Seq<DispatchAction>,
    j: int,
    k: int,
)
    requires
        run_of(request, token, states, events, actions),
        0 <= j < k < actions.len(),
    ensures
        actions.len() <= 6,
        !(actions[j] is Reply),
        !(actions[j] is Execute && actions[k] is Execute),
{
    lemma_ranks_fall(request, token, states, events, actions, 0, states.len() - 1);
    lemma_ranks_fall(request, token, states, events, actions, 0, j);
    lemma_ranks_fall(request, token, states, events, actions, j + 1, k);
    assert(steps(states[j], events[j], states[j + 1], actions[j]));
    assert(steps(states[k], events[k], states[k + 1], actions[k]));
    law_every_request_is_answered(states[j], events[j], states[j + 1], actions[j]);
}

/// Once its audit row is written, an authorised command is carried out; only a
/// delegated grant that cannot be built fails instead, and that is audited.
pub proof fn law_an_authorised_command_is_carried_out(
    s: DispatchState,
    n: DispatchState,
    a: DispatchAction,
)
    requires
        s matches DispatchState::Audit { authorised, .. } && authorised,
        steps(s, DispatchEvent::AuditWritten(Ok(())), n, a),
    ensures
        !(s->Audit_request.command is GrantAdd) ==> a is Execute,
        a is Execute || a is AppendAudit,
        a is Execute ==> n is Execution,
        a is AppendAudit ==> n is FailureAudit,
{
}

/// A command is judged over what it really touches. Revoking a grant is judged over
/// the scope that the stored grant has, and a command on a session over the scope
/// of the running session; where there is no such grant the advertised scope
/// stands in, and where there is no such session the whole node does.
pub proof fn law_a_command_is_judged_over_what_it_touches(
    s: DispatchState,
    e: DispatchEvent,
    n: DispatchState,
    a: DispatchAction,
)
    requires
        steps(s, e, n, a),
        n is Audit,
    ensures
        s is GrantScope ==> match e->Scope_0 {
            Ok(Some(stored)) => n->Audit_target@ == stored@,
            _ => n->Audit_target@ == s->GrantScope_request.wire_scope@,
        },
        s is SessionScope ==> match e->Scope_0 {
            Ok(Some(scope)) => n->Audit_target@ == scope@,
            _ => n->Audit_target@ == ScopeView::Node,
        },
        s is Grants || s is Token ==> match dispatch::payload_scope(n->Audit_request.command) {
            Some(named) => n->Audit_target@ == named,
            None => n->Audit_target@ == n->Audit_request.wire_scope@,
        },
        s is Grants ==> n->Audit_request == s->Grants_request,
        s is Token ==> n->Audit_request == s->Token_request,
        s is GrantScope ==> n->Audit_request == s->GrantScope_request,
        s is SessionScope ==> n->Audit_request == s->SessionScope_request,
{
}

/// Only the commands that name a grant or a session have a scope looked up, and
/// they always do before they are judged: the one of that very grant or session.
pub proof fn law_stored_scopes_are_looked_up(
    s: DispatchState,
    e: DispatchEvent,
    n: DispatchState,
    a: DispatchAction,
)
    requires
        steps(s, e, n, a),
        s is Grants || s is Token,
    ensures
        n is GrantScope ==> (n->GrantScope_request.command matches ManageCommand::GrantRevoke {
            grant_id,
            ..
        } && a == DispatchAction::ReadGrantScope(grant_id)),
        n is SessionScope ==> match n->SessionScope_request.command {
            ManageCommand::PtyWrite { session, .. } => a == DispatchAction::ReadSessionScope(
                session,
            ),
            ManageCommand::PtyResize { session, .. } => a == DispatchAction::ReadSessionScope(
                session,
            ),
            ManageCommand::PtyKill { session, .. } => a == DispatchAction::ReadSessionScope(
                session,
            ),
            ManageCommand::ProcSignal { session, .. } => a == DispatchAction::ReadSessionScope(
                session,
            ),
            ManageCommand::ProcKill { session } => a == DispatchAction::ReadSessionScope(session),
            _ => false,
        },
        n is Audit ==> {
            let command = n->Audit_request.command;
            !(command is GrantRevoke || command is PtyWrite || command is PtyResize
                || command is PtyKill || command is ProcSignal || command is ProcKill)
        },
{
}

/// A request is allowed exactly where no token was rejected, the grants that count
/// authorise the caller both over what the command touches and over what it
/// advertises, and a delegation is backed: some grant of the caller has the
/// capability to be handed on, covers the scope to be handed on, and is one the
/// caller can itself exercise.
pub proof fn law_a_decision_is_by_the_grants_that_count(
    request: DispatchRequest,
    grants: Seq<GrantView>,
    rejection: Option<Seq<char>>,
    target: ScopeView,
    n: DispatchState,
    a: DispatchAction,
)
    requires
        decides(request, grants, rejection, target, n, a),
    ensures
        n->Audit_authorised <==> {
            let needed = dispatch::needed(request.command);
            &&& rejection is None
            &&& grant::authorised(grants, request.caller@, needed, target, request.now)
            &&& grant::authorised(
                grants,
                request.caller@,
                needed,
                request.wire_scope@,
                request.now,
            )
            &&& request.command is GrantAdd ==> exists|i: int|
                {
                    &&& 0 <= i < grants.len()
                    &&& (#[trigger] grants[i]).grantee == request.caller@
                    &&& grants[i].capability.wire()
                        == request.command->GrantAdd_grant.capability@
                    &&& grants[i].scope.covers(request.command->GrantAdd_grant.scope@)
                    &&& grant::authorised(
                        grants,
                        request.caller@,
                        grants[i].capability,
                        grants[i].scope,
                        request.now,
                    )
                }
        },
{
    if let ManageCommand::GrantAdd { grant: wire } = request.command {
        if delegable(grants, request.caller@, wire, request.now) {
            let c = Capability::named(wire.capability@)->0;
            lemma_named(wire.capability@, c);
            let i = choose|i: int|
                0 <= i < grants.len() && #[trigger] delegation::backs(
                    grants,
                    i,
                    request.caller@,
                    c,
                    wire.scope@,
                    request.now,
                );
            assert(grants[i].grantee == request.caller@);
        }
        assert forall|i: int|
            {
                &&& 0 <= i < grants.len()
                &&& (#[trigger] grants[i]).grantee == request.caller@
                &&& grants[i].capability.wire() == wire.capability@
                &&& grants[i].scope.covers(wire.scope@)
                &&& grant::authorised(
                    grants,
                    request.caller@,
                    grants[i].capability,
                    grants[i].scope,
                    request.now,
                )
            } implies delegable(grants, request.caller@, wire, request.now) by {
            crate::manage::law_wire_round_trip(grants[i].capability);
            assert(delegation::backs(
                grants,
                i,
                request.caller@,
                grants[i].capability,
                wire.scope@,
                request.now,
            ));
        }
    }
}

/// An audit row for a decision says who asked, when, for what capability, over what
/// the command touches, and whether it was allowed or denied.
pub proof fn law_an_audit_row_says_who_what_and_when(
    s: DispatchState,
    e: DispatchEvent,
    n: DispatchState,
    a: DispatchAction,
)
    requires
        steps(s, e, n, a),
        n is Audit,
    ensures
        a matches DispatchAction::AppendAudit(row) && {
            let request = n->Audit_request;
            &&& row@.timestamp == request.now
            &&& row@.actor_device == request.caller@
            &&& row@.capability == dispatch::needed(request.command)
            &&& row@.scope == n->Audit_target@
            &&& row@.command == command::summary(request.command)
            &&& n->Audit_authorised ==> row@.outcome == "allowed"@
            &&& !n->Audit_authorised ==> row@.outcome == "denied"@
        },
{
}

/// The row kept for a command that may yet fail differs from the one written when it
/// was allowed in its outcome alone, and it is the row written where the command
/// fails.
pub proof fn law_a_failure_row_repeats_the_request(
    s: DispatchState,
    n: DispatchState,
    a: DispatchAction,
)
    requires
        s.wf(),
        s matches DispatchState::Audit { authorised, .. } && authorised,
        steps(s, DispatchEvent::AuditWritten(Ok(())), n, a),
    ensures
        ({
            let request = s->Audit_request;
            let row = if n is Execution {
                n->failure@
            } else {
                a->AppendAudit_0@
            };
            &&& n is Execution || a is AppendAudit
            &&& row.timestamp == request.now
            &&& row.actor_device == request.caller@
            &&& row.capability == dispatch::needed(request.command)
            &&& row.scope == s->Audit_target@
            &&& row.command == command::summary(request.command)
            &&& row.outcome == "failed"@
        }),
{
}

/// The caller is told what came of its command: the summary or the session that
/// carrying it out gave, and of a failure what went wrong, once that is audited.
pub proof fn law_the_outcome_is_reported(
    s: DispatchState,
    e: DispatchEvent,
    n: DispatchState,
    a: DispatchAction,
)
    requires
        steps(s, e, n, a),
        s is Execution || s is FailureAudit,
    ensures
        s is Execution ==> match e->Executed_0 {
            Ok(DispatchOutcome::Summary(said)) => a matches DispatchAction::Reply(
                ManageResult::Completed { summary },
            ) && summary@ == said@,
            Ok(DispatchOutcome::ExecSpawned(opened)) => a matches DispatchAction::Reply(
                ManageResult::ExecSpawned { session },
            ) && session == opened,
            Err(why) => n matches DispatchState::FailureAudit { message } && message@ == why@,
        },
        s is FailureAudit ==> (a matches DispatchAction::Reply(
            ManageResult::Error { kind, message },
        ) && kind == ManageErrorKind::Failed && message@ == s->message@),
{
}

/// What cannot be read ends the request as failed, never as refused, and the caller
/// is told why.
pub proof fn law_what_cannot_be_read_is_a_failure(
    s: DispatchState,
    e: DispatchEvent,
    n: DispatchState,
    a: DispatchAction,
    why: String,
)
    requires
        steps(s, e, n, a),
        (s is Grants && e == DispatchEvent::Grants(Err(why))) || (s is GrantScope && e
            == DispatchEvent::Scope(Err(why)) && s->GrantScope_rejection is None) || (
        s is SessionScope && e == DispatchEvent::Scope(Err(why)) && s->SessionScope_rejection
            is None) || (s is Audit && e == DispatchEvent::AuditWritten(Err(why))),
    ensures
        n is Done,
        a matches DispatchAction::Reply(ManageResult::Error { kind, message }) && kind
            == ManageErrorKind::Failed && why@.is_suffix_of(message@),
{
    let message = a->Reply_0->message@;
    assert(message.subrange(message.len() - why@.len(), message.len() as int) == why@);
}

/// A token that verifies counts as one more grant, with the bearer, capability,
/// scope and expiry of its claims; it is read exactly where its text is not too
/// long.
pub proof fn law_a_verified_token_counts_as_a_grant(
    s: DispatchState,
    reading: TokenReading,
    n: DispatchState,
    a: DispatchAction,
)
    requires
        s is Token,
        steps(s, DispatchEvent::Token(reading), n, a),
        bytes::utf8(s->json@).len() <= MAX_TOKEN_JSON_BYTES,
        reading.parsed matches Ok(t) && (reading.node matches Ok(node) && (
        reading.revoked matches Ok(revoked) && reading.outcome(
            t,
            node,
            revoked,
            s->Token_request.caller@,
            s->Token_request.now,
        ) is Ok)),
    ensures
        ({
            let claims = reading.parsed->Ok_0.claims;
            let held = grant::grant_views(s->Token_grants@);
            exists|extra: GrantView|
                {
                    &&& extra.grantee == claims.bearer@
                    &&& extra.capability == claims.capability
                    &&& extra.scope == claims.scope@
                    &&& extra.granted_by == claims.issuer@
                    &&& extra.expires == Some(claims.expires)
                    &&& #[trigger] resolves(s->Token_request, held.push(extra), None, n, a)
                }
        }),
{
}

/// A presented token is read before anything is decided, and a text that is too long
/// fails the request unread.
pub proof fn law_a_presented_token_is_read_first(
    s: DispatchState,
    grants: Vec<Grant>,
    n: DispatchState,
    a: DispatchAction,
)
    requires
        s is Grants,
        s->token is Some,
        steps(s, DispatchEvent::Grants(Ok(grants)), n, a),
    ensures
        bytes::utf8(s->token->0@).len() <= 65536 ==> {
            &&& a matches DispatchAction::ReadToken(asked) && asked@ == s->token->0@
            &&& n matches DispatchState::Token { request, grants: held, json } && request
                == s->Grants_request && held == grants && json@ == s->token->0@
        },
        bytes::utf8(s->token->0@).len() > 65536 ==> n is Done && (a matches DispatchAction::Reply(
            ManageResult::Error { kind, .. },
        ) && kind == ManageErrorKind::Failed),
{
}

/// A refusal names the caller, the capability it lacks, and both the scope that the
/// command touches and the one it advertises; that of a rejected token is the
/// rejection itself.
pub proof fn law_a_refusal_says_what_is_lacking(
    request: DispatchRequest,
    target: ScopeView,
    why: Seq<char>,
)
    ensures
        denial(request, target, Some(why)) == why,
        exists|after: Seq<char>|
            denial(request, target, None) == #[trigger] ("caller "@ + request.caller@ + " lacks "@
                + dispatch::needed(request.command).wire() + " over "@ + command::scope_debug(
                target,
            ) + " (wire scope "@ + command::scope_debug(request.wire_scope@) + after),
{
    assert(denial(request, target, None) == "caller "@ + request.caller@ + " lacks "@
        + dispatch::needed(request.command).wire() + " over "@ + command::scope_debug(target)
        + " (wire scope "@ + command::scope_debug(request.wire_scope@) + ")"@);
}

/// Why a token was rejected is kept until the request is answered: the step that judges
/// the token, and every later one up to the decision, carry the same rejection on, and
/// a request that brought no bad token carries none.
pub proof fn law_a_rejection_is_carried_on(
    s: DispatchState,
    e: DispatchEvent,
    n: DispatchState,
    a: DispatchAction,
)
    requires
        steps(s, e, n, a),
        s is Grants || s is Token || s is GrantScope || s is SessionScope,
        n is GrantScope || n is SessionScope || n is Audit,
    ensures
        ({
            let carried = if n is GrantScope {
                n->GrantScope_rejection
            } else if n is SessionScope {
                n->SessionScope_rejection
            } else {
                n->Audit_rejection
            };
            &&& s is Grants ==> carried is None
            &&& s is GrantScope ==> text::opt_text(carried) == text::opt_text(
                s->GrantScope_rejection,
            )
            &&& s is SessionScope ==> text::opt_text(carried) == text::opt_text(
                s->SessionScope_rejection,
            )
            &&& s is Token ==> {
                let reading = e->Token_0;
                &&& carried is None <==> reading.outcome(
                    reading.parsed->Ok_0,
                    reading.node->Ok_0,
                    reading.revoked->Ok_0,
                    s->Token_request.caller@,
                    s->Token_request.now,
                ) is Ok
                &&& carried matches Some(why) ==> reading.outcome(
                    reading.parsed->Ok_0,
                    reading.node->Ok_0,
                    reading.revoked->Ok_0,
                    s->Token_request.caller@,
                    s->Token_request.now,
                )->Err_0.text().is_suffix_of(why@)
            }
        }),
{
    if s is Token && bytes::utf8(s->json@).len() <= MAX_TOKEN_JSON_BYTES {
        let reading = e->Token_0;
        let request = s->Token_request;
        let judged = choose|judged: Result<Grant, ManageResult>| #[trigger]
            dispatch::presented_token_outcome(
                judged,
                s->json@,
                reading,
                request.caller@,
                request.now,
            ) && match judged {
                Ok(extra) => resolves(
                    request,
                    grant::grant_views(s->Token_grants@).push(extra@),
                    None,
                    n,
                    a,
                ),
                Err(ManageResult::Error { kind: ManageErrorKind::Unauthorised, message }) =>
                    resolves(
                    request,
                    grant::grant_views(s->Token_grants@),
                    Some(message@),
                    n,
                    a,
                ),
                Err(reply) => n is Done && a == DispatchAction::Reply(reply),
            };
        if let Err(reply) = judged {
            dispatch::law_the_reply_to_a_bad_token_says_why(
                reply,
                s->json@,
                reading,
                request.caller@,
                request.now,
            );
        }
    }
}

/// A grant that may be added is bounded by the caller's own grants that back it: it may
/// live as long as asked for only where one of those never expires, and else until
/// the latest of their expiries. No other command is bounded.
pub proof fn law_an_added_grant_is_bounded_by_its_backing(
    request: DispatchRequest,
    grants: Seq<GrantView>,
    target: ScopeView,
    n: DispatchState,
    a: DispatchAction,
    i: int,
)
    requires
        decides(request, grants, None, target, n, a),
        n->Audit_authorised,
    ensures
        !(request.command is GrantAdd) ==> n->Audit_bound is Unbounded,
        request.command matches ManageCommand::GrantAdd { grant: wire } ==> {
            &&& n->Audit_bound is Unbounded ==> exists|j: int|
                0 <= j < grants.len() && (#[trigger] grants[j]).grantee == request.caller@
                    && grants[j].capability.wire() == wire.capability@ && grants[j].scope.covers(
                    wire.scope@,
                ) && grants[j].expires is None
            &&& n->Audit_bound matches ExpiryBound::NoLaterThan(limit) ==> exists|j: int|
                0 <= j < grants.len() && (#[trigger] grants[j]).grantee == request.caller@
                    && grants[j].capability.wire() == wire.capability@ && grants[j].scope.covers(
                    wire.scope@,
                ) && grants[j].expires == Some(limit)
            &&& n->Audit_bound matches ExpiryBound::NoLaterThan(limit) ==> {
                &&& 0 <= i < grants.len()
                &&& grants[i].grantee == request.caller@
                &&& grants[i].capability.wire() == wire.capability@
                &&& grants[i].scope.covers(wire.scope@)
                &&& grant::authorised(
                    grants,
                    request.caller@,
                    grants[i].capability,
                    grants[i].scope,
                    request.now,
                )
            } ==> (grants[i].expires matches Some(expiry) && limit.at_or_after(expiry))
        },
{
    if let ManageCommand::GrantAdd { grant: wire } = request.command {
        let c = Capability::named(wire.capability@)->0;
        lemma_named(wire.capability@, c);
        let bound = n->Audit_bound;
        if let ExpiryBound::NoLaterThan(limit) = bound {
            let j = choose|j: int|
                0 <= j < grants.len() && #[trigger] delegation::backs(
                    grants,
                    j,
                    request.caller@,
                    c,
                    wire.scope@,
                    request.now,
                ) && grants[j].expires == Some(limit);
            assert(grants[j].grantee == request.caller@);
            if 0 <= i < grants.len() && grants[i].capability.wire() == wire.capability@ {
                crate::manage::law_wire_round_trip(grants[i].capability);
                assert(grants[i].capability == c);
                assert(grants[i].grantee == request.caller@ && grants[i].scope.covers(wire.scope@)
                    && grant::authorised(grants, request.caller@, c, grants[i].scope, request.now)
                    ==> delegation::backs(
                    grants,
                    i,
                    request.caller@,
                    c,
                    wire.scope@,
                    request.now,
                ));
            }
        } else {
            let j = choose|j: int|
                0 <= j < grants.len() && #[trigger] delegation::backs(
                    grants,
                    j,
                    request.caller@,
                    c,
                    wire.scope@,
                    request.now,
                ) && grants[j].expires is None;
            assert(grants[j].grantee == request.caller@);
        }
    }
}

} // verus!
