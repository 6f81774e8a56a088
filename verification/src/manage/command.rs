//! The management commands a peer may ask for, and the replies they get.

use vstd::prelude::*;

use crate::manage::{DeviceId, Grant, Scope, ScopeView};
use crate::text;

verus! {

/// The scope a caller advertises with a command.
#[derive(Debug, PartialEq, Eq)]
pub enum ManageScope {
    /// The whole node.
    Node,
    /// A folder subtree.
    Folder {
        /// The folder path.
        path: String,
    },
}

impl View for ManageScope {
    type V = ScopeView;

    open spec fn view(&self) -> ScopeView {
        match *self {
            ManageScope::Node => ScopeView::Node,
            ManageScope::Folder { path } => ScopeView::Folder(path@),
        }
    }
}

/// The format of a pushed config fragment.
#[derive(Debug, Clone, Copy, PartialEq, Eq, Structural)]
pub enum ManageConfigFormat {
    /// Gitignore-style rules.
    Gitignore,
    /// TOML.
    Toml,
    /// YAML.
    Yaml,
    /// JSON.
    Json,
}

/// A grant to be delegated, as it arrives.
#[derive(Debug, PartialEq, Eq)]
pub struct ManageGrant {
    /// The device to authorise.
    pub grantee: String,
    /// The capability identifier.
    pub capability: String,
    /// The scope to grant over.
    pub scope: ManageScope,
    /// The requested RFC 3339 expiry.
    pub expires: Option<String>,
}

/// A management command.
#[derive(Debug, PartialEq, Eq)]
pub enum ManageCommand {
    /// Read the node's status.
    StatusRead,
    /// Pin a path glob.
    Pin {
        /// The glob.
        path_glob: String,
        /// Whether children are pinned too.
        recursive: bool,
    },
    /// Remove a pin rule.
    Unpin {
        /// The glob of the rule.
        path_glob: String,
    },
    /// Run one eviction sweep.
    CacheEvict,
    /// Fetch matching files on the next sync.
    CacheWarm {
        /// The glob.
        path_glob: String,
    },
    /// Merge a config fragment.
    ConfigPush {
        /// The fragment's format.
        format: ManageConfigFormat,
        /// The folder it is rooted at.
        folder: String,
        /// The fragment.
        body: String,
    },
    /// Set a lifecycle policy.
    PolicySet {
        /// The glob.
        path_glob: String,
        /// The age limit in seconds.
        max_age_secs: Option<i64>,
        /// The size limit in bytes.
        max_file_size: Option<i64>,
        /// The priority.
        priority: i32,
    },
    /// Register and mount a backend.
    BackendAdd {
        /// The backend's name.
        name: String,
        /// Its type.
        backend_type: String,
        /// Where it is mounted.
        mount_path: String,
        /// Its config document.
        config_toml: String,
    },
    /// Unmount and deregister a backend.
    BackendRemove {
        /// The backend's name.
        name: String,
        /// Where it is mounted.
        mount_path: String,
    },
    /// Restart the background workers.
    Restart,
    /// Stop the background workers.
    Stop,
    /// Delegate a grant.
    GrantAdd {
        /// The grant.
        grant: ManageGrant,
    },
    /// Revoke a grant.
    GrantRevoke {
        /// The row id of the grant.
        grant_id: i64,
        /// The scope the caller says the grant has.
        scope: ManageScope,
    },
    /// Open a terminal session.
    PtySpawn {
        /// The shell, or the default one.
        shell: Option<String>,
        /// Its arguments.
        argv: Vec<String>,
        /// The directory it runs in.
        cwd: Option<String>,
        /// Its environment.
        env: Vec<(String, String)>,
        /// The terminal's width.
        cols: u16,
        /// The terminal's height.
        rows: u16,
    },
    /// Write to a terminal session.
    PtyWrite {
        /// The session.
        session: u64,
        /// What is written.
        bytes: Vec<u8>,
    },
    /// Resize a terminal session.
    PtyResize {
        /// The session.
        session: u64,
        /// The new width.
        cols: u16,
        /// The new height.
        rows: u16,
    },
    /// Signal a terminal session.
    PtyKill {
        /// The session.
        session: u64,
        /// The signal.
        signal: i32,
    },
    /// Start a headless process.
    ProcSpawn {
        /// The program and its arguments.
        argv: Vec<String>,
        /// The directory it runs in.
        cwd: Option<String>,
        /// Its environment.
        env: Vec<(String, String)>,
    },
    /// Signal a headless process.
    ProcSignal {
        /// The session.
        session: u64,
        /// The signal.
        signal: i32,
    },
    /// Kill a headless process.
    ProcKill {
        /// The session.
        session: u64,
    },
}

/// How a command failed.
#[derive(Debug, Clone, Copy, PartialEq, Eq, Structural)]
pub enum ManageErrorKind {
    /// The caller lacks the authority.
    Unauthorised,
    /// The request was malformed, or could not be carried out.
    Failed,
}

/// The reply to a command.
#[derive(Debug, PartialEq, Eq)]
pub enum ManageResult {
    /// The command ran.
    Completed {
        /// What it did.
        summary: String,
    },
    /// A session was opened.
    ExecSpawned {
        /// Its id.
        session: u64,
    },
    /// The command was refused or failed.
    Error {
        /// How.
        kind: ManageErrorKind,
        /// Why.
        message: String,
    },
}

impl ManageResult {
    /// Whether this is an error of this kind with this message.
    pub open spec fn is_error(self, kind: ManageErrorKind, text: Seq<char>) -> bool {
        match self {
            ManageResult::Error { kind: k, message } => k == kind && message@ == text,
            _ => false,
        }
    }
}

/// The call that carries out an authorised command on the node itself.
#[derive(Debug, PartialEq, Eq)]
pub enum ExecutorCall {
    /// Produce a status summary.
    Status,
    /// Pin a path glob.
    Pin {
        /// The glob.
        path_glob: String,
        /// Whether children are pinned too.
        recursive: bool,
    },
    /// Remove a pin rule.
    Unpin {
        /// The glob of the rule.
        path_glob: String,
    },
    /// Run one eviction sweep.
    CacheEvict,
    /// Fetch matching files on the next sync.
    CacheWarm {
        /// The glob.
        path_glob: String,
    },
    /// Merge a config fragment.
    ConfigPush {
        /// The fragment's format.
        format: ManageConfigFormat,
        /// The folder it is rooted at.
        folder: String,
        /// The fragment.
        body: String,
    },
    /// Set a lifecycle policy.
    PolicySet {
        /// The glob.
        path_glob: String,
        /// The age limit in seconds.
        max_age_secs: Option<i64>,
        /// The size limit in bytes.
        max_file_size: Option<i64>,
        /// The priority.
        priority: i32,
    },
    /// Register and mount a backend.
    BackendAdd {
        /// The backend's name.
        name: String,
        /// Its type.
        backend_type: String,
        /// Where it is mounted.
        mount_path: String,
        /// Its config document.
        config_toml: String,
    },
    /// Unmount and deregister a backend.
    BackendRemove {
        /// The backend's name.
        name: String,
        /// Where it is mounted.
        mount_path: String,
    },
    /// Restart the background workers.
    Restart,
    /// Stop the background workers.
    Stop,
    /// Store a delegated grant.
    GrantAdd {
        /// The grant.
        grant: Grant,
    },
    /// Delete a stored grant.
    GrantRevoke {
        /// The row id of the grant.
        grant_id: i64,
    },
    /// Open a terminal session.
    PtySpawn {
        /// The caller, who owns the session.
        owner: DeviceId,
        /// The folder the session is confined to.
        scope: Scope,
        /// The shell, or the default one.
        shell: Option<String>,
        /// Its arguments.
        argv: Vec<String>,
        /// The directory it runs in.
        cwd: Option<String>,
        /// Its environment.
        env: Vec<(String, String)>,
        /// The terminal's width.
        cols: u16,
        /// The terminal's height.
        rows: u16,
    },
    /// Write to a terminal session.
    PtyWrite {
        /// The session.
        session: u64,
        /// What is written.
        bytes: Vec<u8>,
    },
    /// Resize a terminal session.
    PtyResize {
        /// The session.
        session: u64,
        /// The new width.
        cols: u16,
        /// The new height.
        rows: u16,
    },
    /// Signal a terminal session.
    PtyKill {
        /// The session.
        session: u64,
        /// The signal.
        signal: i32,
    },
    /// Start a headless process.
    ProcSpawn {
        /// The caller, who owns the session.
        owner: DeviceId,
        /// The folder the session is confined to.
        scope: Scope,
        /// The program and its arguments.
        argv: Vec<String>,
        /// The directory it runs in.
        cwd: Option<String>,
        /// Its environment.
        env: Vec<(String, String)>,
    },
    /// Signal a headless process.
    ProcSignal {
        /// The session.
        session: u64,
        /// The signal.
        signal: i32,
    },
    /// Kill a headless process.
    ProcKill {
        /// The session.
        session: u64,
    },
}

/// What carrying out a command gave back.
#[derive(Debug, PartialEq, Eq)]
pub enum DispatchOutcome {
    /// A summary of the effect.
    Summary(String),
    /// The id of a session that was opened.
    ExecSpawned(u64),
}

/// How std's `Debug` renders a text: quoted, with escapes.
pub uninterp spec fn debug_quoted(text: Seq<char>) -> Seq<char>;

/// Calls std's `Debug` formatting of a `str`.
///
/// Trusted: the rendering depends on the text alone and is named
/// [`debug_quoted`].
#[verifier::external_body]
pub(crate) fn debug_str(text: &str) -> (r: String)
    ensures
        r@ == debug_quoted(text@),
{
    format!("{text:?}")
}

/// The debug rendering of a scope.
pub open spec fn scope_debug(s: ScopeView) -> Seq<char> {
    match s {
        ScopeView::Node => "Node"@,
        ScopeView::Folder(path) => "Folder { path: "@ + debug_quoted(path) + " }"@,
    }
}

/// The debug rendering of a folder scope with this path.
fn folder_text(path: &str) -> (r: String)
    ensures
        r@ == scope_debug(ScopeView::Folder(path@)),
{
    let mut m: String = "Folder { path: ".to_owned();
    let quoted: String = debug_str(path);
    m.append(quoted.as_str());
    m.append(" }");
    m
}

/// The debug rendering of a scope.
pub fn scope_text(s: &Scope) -> (r: String)
    ensures
        r@ == scope_debug(s@),
{
    match s {
        Scope::Node => "Node".to_owned(),
        Scope::Folder { path } => folder_text(path.as_str()),
    }
}

/// The debug rendering of an advertised scope.
pub fn wire_scope_text(s: &ManageScope) -> (r: String)
    ensures
        r@ == scope_debug(s@),
{
    match s {
        ManageScope::Node => "Node".to_owned(),
        ManageScope::Folder { path } => folder_text(path.as_str()),
    }
}

/// The audit description of a command: its verb and arguments.
pub open spec fn summary(command: ManageCommand) -> Seq<char> {
    match command {
        ManageCommand::StatusRead => "status:read"@,
        ManageCommand::Pin { path_glob, recursive } => "pin "@ + path_glob@ + " (recursive="@
            + text::bool_text(recursive) + ")"@,
        ManageCommand::Unpin { path_glob } => "unpin "@ + path_glob@,
        ManageCommand::CacheEvict => "cache evict"@,
        ManageCommand::CacheWarm { path_glob } => "cache warm "@ + path_glob@,
        ManageCommand::ConfigPush { folder, .. } => "config push into "@ + folder@,
        ManageCommand::PolicySet { path_glob, .. } => "policy set for "@ + path_glob@,
        ManageCommand::BackendAdd { name, backend_type, mount_path, .. } => "backend add "@ + name@
            + " ("@ + backend_type@ + ") at "@ + mount_path@,
        ManageCommand::BackendRemove { name, mount_path } => "backend remove "@ + name@ + " at "@
            + mount_path@,
        ManageCommand::Restart => "lifecycle restart"@,
        ManageCommand::Stop => "lifecycle stop"@,
        ManageCommand::GrantAdd { grant } => "grant add "@ + grant.capability@ + " to "@
            + grant.grantee@ + " over "@ + scope_debug(grant.scope@),
        ManageCommand::GrantRevoke { grant_id, .. } => "grant revoke "@ + text::decimal(
            grant_id as int,
        ),
        ManageCommand::PtySpawn { shell, cwd, .. } => "pty spawn "@ + text::text_or(
            text::opt_text(shell),
            "<default shell>"@,
        ) + " in "@ + text::text_or(text::opt_text(cwd), "<default cwd>"@),
        ManageCommand::PtyWrite { session, bytes } => "pty write "@ + text::decimal(
            bytes@.len() as int,
        ) + " bytes to "@ + text::decimal(session as int),
        ManageCommand::PtyResize { session, cols, rows } => "pty resize "@ + text::decimal(
            session as int,
        ) + " to "@ + text::decimal(cols as int) + "x"@ + text::decimal(rows as int),
        ManageCommand::PtyKill { session, signal } => "pty signal "@ + text::decimal(signal as int)
            + " to "@ + text::decimal(session as int),
        ManageCommand::ProcSpawn { argv, cwd, .. } => "proc spawn "@ + (if argv@.len() == 0 {
            "<empty argv>"@
        } else {
            argv@[0]@
        }) + " in "@ + text::text_or(text::opt_text(cwd), "<default cwd>"@),
        ManageCommand::ProcSignal { session, signal } => "proc signal "@ + text::decimal(
            signal as int,
        ) + " to "@ + text::decimal(session as int),
        ManageCommand::ProcKill { session } => "proc kill "@ + text::decimal(session as int),
    }
}

/// Append the decimal text of `n` to `m`.
fn append_u64(m: &mut String, n: u64)
    ensures
        final(m)@ == old(m)@ + text::decimal(n as int),
{
    let digits: String = text::u64_text(n);
    m.append(digits.as_str());
}

/// Append the decimal text of `n` to `m`.
fn append_i64(m: &mut String, n: i64)
    ensures
        final(m)@ == old(m)@ + text::decimal(n as int),
{
    let digits: String = text::i64_text(n);
    m.append(digits.as_str());
}

/// The text of `value`, or `default`.
fn str_or<'a>(value: &'a Option<String>, default: &'a str) -> (r: &'a str)
    ensures
        r@ == text::text_or(text::opt_text(*value), default@),
{
    match value {
        Some(t) => t.as_str(),
        None => default,
    }
}

/// A short description of a command, for the audit log.
pub fn command_summary(command: &ManageCommand) -> (r: String)
    ensures
        r@ == summary(*command),
{
    match command {
        ManageCommand::StatusRead => "status:read".to_owned(),
        ManageCommand::Pin { path_glob, recursive } => {
            let mut m: String = "pin ".to_owned();
            m.append(path_glob.as_str());
            m.append(" (recursive=");
            m.append(text::bool_str(*recursive));
            m.append(")");
            m
        },
        ManageCommand::Unpin { path_glob } => {
            let mut m: String = "unpin ".to_owned();
            m.append(path_glob.as_str());
            m
        },
        ManageCommand::CacheEvict => "cache evict".to_owned(),
        ManageCommand::CacheWarm { path_glob } => {
            let mut m: String = "cache warm ".to_owned();
            m.append(path_glob.as_str());
            m
        },
        ManageCommand::ConfigPush { folder, .. } => {
            let mut m: String = "config push into ".to_owned();
            m.append(folder.as_str());
            m
        },
        ManageCommand::PolicySet { path_glob, .. } => {
            let mut m: String = "policy set for ".to_owned();
            m.append(path_glob.as_str());
            m
        },
        ManageCommand::BackendAdd { name, backend_type, mount_path, .. } => {
            let mut m: String = "backend add ".to_owned();
            m.append(name.as_str());
            m.append(" (");
            m.append(backend_type.as_str());
            m.append(") at ");
            m.append(mount_path.as_str());
            m
        },
        ManageCommand::BackendRemove { name, mount_path } => {
            let mut m: String = "backend remove ".to_owned();
            m.append(name.as_str());
            m.append(" at ");
            m.append(mount_path.as_str());
            m
        },
        ManageCommand::Restart => "lifecycle restart".to_owned(),
        ManageCommand::Stop => "lifecycle stop".to_owned(),
        ManageCommand::GrantAdd { grant } => {
            let mut m: String = "grant add ".to_owned();
            m.append(grant.capability.as_str());
            m.append(" to ");
            m.append(grant.grantee.as_str());
            m.append(" over ");
            let scope: String = wire_scope_text(&grant.scope);
            m.append(scope.as_str());
            m
        },
        ManageCommand::GrantRevoke { grant_id, .. } => {
            let mut m: String = "grant revoke ".to_owned();
            append_i64(&mut m, *grant_id);
            m
        },
        ManageCommand::PtySpawn { shell, cwd, .. } => {
            let mut m: String = "pty spawn ".to_owned();
            m.append(str_or(shell, "<default shell>"));
            m.append(" in ");
            m.append(str_or(cwd, "<default cwd>"));
            m
        },
        ManageCommand::PtyWrite { session, bytes } => {
            let mut m: String = "pty write ".to_owned();
            append_u64(&mut m, bytes.len() as u64);
            m.append(" bytes to ");
            append_u64(&mut m, *session);
            m
        },
        ManageCommand::PtyResize { session, cols, rows } => {
            let mut m: String = "pty resize ".to_owned();
            append_u64(&mut m, *session);
            m.append(" to ");
            append_u64(&mut m, *cols as u64);
            m.append("x");
            append_u64(&mut m, *rows as u64);
            m
        },
        ManageCommand::PtyKill { session, signal } => {
            let mut m: String = "pty signal ".to_owned();
            append_i64(&mut m, *signal as i64);
            m.append(" to ");
            append_u64(&mut m, *session);
            m
        },
        ManageCommand::ProcSpawn { argv, cwd, .. } => {
            let mut m: String = "proc spawn ".to_owned();
            if argv.len() == 0 {
                m.append("<empty argv>");
            } else {
                m.append(argv[0].as_str());
            }
            m.append(" in ");
            m.append(str_or(cwd, "<default cwd>"));
            m
        },
        ManageCommand::ProcSignal { session, signal } => {
            let mut m: String = "proc signal ".to_owned();
            append_i64(&mut m, *signal as i64);
            m.append(" to ");
            append_u64(&mut m, *session);
            m
        },
        ManageCommand::ProcKill { session } => {
            let mut m: String = "proc kill ".to_owned();
            append_u64(&mut m, *session);
            m
        },
    }
}

/// The audit description of a command begins with its own verb, which tells a pin
/// from its removal and each command from the others, and names what the command
/// acts on.
pub proof fn law_a_description_names_verb_and_object(command: ManageCommand)
    ensures
        command is Pin ==> exists|rest: Seq<char>|
            summary(command) == #[trigger] ("pin "@ + command->Pin_path_glob@ + rest),
        command is Unpin ==> summary(command) == "unpin "@ + command->Unpin_path_glob@,
        command is CacheWarm ==> summary(command) == "cache warm "@
            + command->CacheWarm_path_glob@,
        command is ConfigPush ==> summary(command) == "config push into "@ + command->folder@,
        command is PolicySet ==> summary(command) == "policy set for "@
            + command->PolicySet_path_glob@,
        command is BackendAdd ==> exists|kind: Seq<char>|
            summary(command) == #[trigger] ("backend add "@ + command->BackendAdd_name@ + kind
                + " at "@ + command->BackendAdd_mount_path@),
        command is BackendRemove ==> summary(command) == "backend remove "@
            + command->BackendRemove_name@ + " at "@ + command->BackendRemove_mount_path@,
        command is GrantRevoke ==> summary(command) == "grant revoke "@ + text::decimal(
            command->grant_id as int,
        ),
        command is GrantAdd ==> exists|rest: Seq<char>|
            summary(command) == #[trigger] ("grant add "@ + command->grant.capability@ + " to "@
                + command->grant.grantee@ + rest),
        command is PtyKill ==> summary(command) == "pty signal "@ + text::decimal(
            command->PtyKill_signal as int,
        ) + " to "@ + text::decimal(command->PtyKill_session as int),
        command is ProcSignal ==> summary(command) == "proc signal "@ + text::decimal(
            command->ProcSignal_signal as int,
        ) + " to "@ + text::decimal(command->ProcSignal_session as int),
        command is ProcKill ==> summary(command) == "proc kill "@ + text::decimal(
            command->ProcKill_session as int,
        ),
        command is StatusRead ==> summary(command) == "status:read"@,
        command is CacheEvict ==> summary(command) == "cache evict"@,
        command is Restart ==> summary(command) == "lifecycle restart"@,
        command is Stop ==> summary(command) == "lifecycle stop"@,
{
    if let ManageCommand::Pin { path_glob, recursive } = command {
        let rest = " (recursive="@ + text::bool_text(recursive) + ")"@;
        assert(summary(command) == "pin "@ + path_glob@ + rest);
    }
    if let ManageCommand::BackendAdd { name, backend_type, mount_path, .. } = command {
        let kind = " ("@ + backend_type@ + ")"@;
        reveal_strlit(") at ");
        reveal_strlit(")");
        reveal_strlit(" at ");
        assert(summary(command) == "backend add "@ + name@ + kind + " at "@ + mount_path@);
    }
    if let ManageCommand::GrantAdd { grant } = command {
        let rest = " over "@ + scope_debug(grant.scope@);
        assert(summary(command) == "grant add "@ + grant.capability@ + " to "@ + grant.grantee@
            + rest);
    }
}

/// A scope is shown as the node or as a folder with its path.
pub proof fn law_a_scope_is_shown_with_its_path(path: Seq<char>)
    ensures
        scope_debug(ScopeView::Node) == "Node"@,
        exists|before: Seq<char>, after: Seq<char>|
            scope_debug(ScopeView::Folder(path)) == #[trigger] (before + debug_quoted(path)
                + after),
{
    assert(scope_debug(ScopeView::Folder(path)) == "Folder { path: "@ + debug_quoted(path) + " }"@);
}

/// Only an error is one, of its own kind and with its own message.
pub proof fn law_what_is_an_error(r: ManageResult, kind: ManageErrorKind, said: Seq<char>)
    ensures
        r.is_error(kind, said) <==> (r matches ManageResult::Error { kind: k, message } && k == kind
            && message@ == said),
        r is Completed || r is ExecSpawned ==> !r.is_error(kind, said),
{
}

/// The advertised scope of a request stands for the node or for the folder it names.
pub proof fn law_an_advertised_scope_is_read_as_it_stands(scope: ManageScope)
    ensures
        scope is Node ==> scope@ is Node,
        scope matches ManageScope::Folder { path } ==> scope@ == ScopeView::Folder(path@),
{
}

/// A description of a session command says what is started and where, what is sent to
/// which session, and how large a terminal becomes; defaults stand where nothing is named.
pub proof fn law_a_description_of_a_session_says_where(command: ManageCommand)
    ensures
        command matches ManageCommand::PtySpawn { shell, cwd, .. } ==> {
            let what = match shell {
                Some(s) => s@,
                None => "<default shell>"@,
            };
            let place = match cwd {
                Some(d) => d@,
                None => "<default cwd>"@,
            };
            summary(command) == "pty spawn "@ + what + " in "@ + place
        },
        command matches ManageCommand::ProcSpawn { argv, cwd, .. } ==> {
            let what = if argv@.len() == 0 {
                "<empty argv>"@
            } else {
                argv@.first()@
            };
            let place = match cwd {
                Some(d) => d@,
                None => "<default cwd>"@,
            };
            summary(command) == "proc spawn "@ + what + " in "@ + place
        },
        command matches ManageCommand::PtyWrite { session, bytes } ==> summary(command)
            == "pty write "@ + text::decimal(bytes@.len() as int) + " bytes to "@ + text::decimal(
            session as int,
        ),
        command matches ManageCommand::PtyResize { session, cols, rows } ==> summary(command)
            == "pty resize "@ + text::decimal(session as int) + " to "@ + text::decimal(cols as int)
            + "x"@ + text::decimal(rows as int),
{
}

} // verus!
