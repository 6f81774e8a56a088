//! Running a management command: authorise, audit, execute.

use vstd::prelude::*;

use crate::bytes;
use crate::manage;
use crate::manage::command;
use crate::manage::command::{ManageCommand, ManageErrorKind, ManageResult, ManageScope};
use crate::manage::grant;
use crate::manage::token;
use crate::manage::token::{CapabilityToken, DeviceKeyError, MAX_TOKEN_JSON_BYTES};
use crate::manage::{Capability, DeviceId, Grant, Scope, ScopeView};
use crate::text;
use crate::time::Timestamp;

verus! {

/// The audit outcome of a command that was authorised.
pub const OUTCOME_ALLOWED: &'static str = "allowed";

/// The audit outcome of a command that was refused.
pub const OUTCOME_DENIED: &'static str = "denied";

/// The audit outcome of a command that was authorised but failed while running.
pub const OUTCOME_FAILED: &'static str = "failed";

/// The capability a command requires.
pub open spec fn needed(command: ManageCommand) -> Capability {
    match command {
        ManageCommand::StatusRead => Capability::StatusRead,
        ManageCommand::Pin { .. } => Capability::PinWrite,
        ManageCommand::Unpin { .. } => Capability::PinWrite,
        ManageCommand::CacheEvict => Capability::CacheManage,
        ManageCommand::CacheWarm { .. } => Capability::CacheManage,
        ManageCommand::ConfigPush { .. } => Capability::ConfigPush,
        ManageCommand::PolicySet { .. } => Capability::PolicySet,
        ManageCommand::BackendAdd { .. } => Capability::BackendManage,
        ManageCommand::BackendRemove { .. } => Capability::BackendManage,
        ManageCommand::Restart => Capability::LifecycleControl,
        ManageCommand::Stop => Capability::LifecycleControl,
        ManageCommand::GrantAdd { .. } => Capability::GrantAdmin,
        ManageCommand::GrantRevoke { .. } => Capability::GrantAdmin,
        ManageCommand::PtySpawn { .. } => Capability::ExecPty,
        ManageCommand::PtyWrite { .. } => Capability::ExecPty,
        ManageCommand::PtyResize { .. } => Capability::ExecPty,
        ManageCommand::PtyKill { .. } => Capability::ExecPty,
        ManageCommand::ProcSpawn { .. } => Capability::ExecProc,
        ManageCommand::ProcSignal { .. } => Capability::ExecProc,
        ManageCommand::ProcKill { .. } => Capability::ExecProc,
    }
}

/// The capability a command requires to run.
pub fn required_capability(command: &ManageCommand) -> (r: Capability)
    ensures
        r == needed(*command),
{
    match command {
        ManageCommand::StatusRead => Capability::StatusRead,
        ManageCommand::Pin { .. } | ManageCommand::Unpin { .. } => Capability::PinWrite,
        ManageCommand::CacheEvict | ManageCommand::CacheWarm { .. } => Capability::CacheManage,
        ManageCommand::ConfigPush { .. } => Capability::ConfigPush,
        ManageCommand::PolicySet { .. } => Capability::PolicySet,
        ManageCommand::BackendAdd { .. }
        | ManageCommand::BackendRemove { .. } => Capability::BackendManage,
        ManageCommand::Restart | ManageCommand::Stop => Capability::LifecycleControl,
        ManageCommand::GrantAdd { .. } | ManageCommand::GrantRevoke { .. } => Capability::GrantAdmin,
        ManageCommand::PtySpawn { .. }
        | ManageCommand::PtyWrite { .. }
        | ManageCommand::PtyResize { .. }
        | ManageCommand::PtyKill { .. } => Capability::ExecPty,
        ManageCommand::ProcSpawn { .. }
        | ManageCommand::ProcSignal { .. }
        | ManageCommand::ProcKill { .. } => Capability::ExecProc,
    }
}

/// The scope that an advertised scope stands for.
pub fn scope_from_wire(scope: &ManageScope) -> (r: Scope)
    ensures
        r@ == scope@,
{
    match scope {
        ManageScope::Node => Scope::Node,
        ManageScope::Folder { path } => Scope::folder(path.as_str()),
    }
}

/// Whether a path component holds a glob metacharacter.
pub open spec fn has_meta(component: Seq<char>) -> bool {
    component.contains('*') || component.contains('?') || component.contains('[')
}

/// The leading components that hold no metacharacter.
pub open spec fn plain_components(components: Seq<Seq<char>>) -> Seq<Seq<char>>
    decreases components.len(),
{
    if components.len() == 0 || has_meta(components[0]) {
        Seq::empty()
    } else {
        seq![components[0]] + plain_components(components.skip(1))
    }
}

/// The fixed leading path of a glob: its components before the first one with
/// a metacharacter, or the root where there are none.
pub open spec fn fixed_prefix(path_glob: Seq<char>) -> Seq<char> {
    let plain = text::joined(
        plain_components(text::split_on(path_glob, seq!['/'])),
        seq!['/'],
    );
    if plain.len() == 0 {
        seq!['/']
    } else {
        plain
    }
}

/// Whether a path component holds a glob metacharacter.
fn component_has_meta(component: &[char]) -> (r: bool)
    ensures
        r == has_meta(component@),
{
    let mut i: usize = 0;
    while i < component.len()
        invariant
            i <= component@.len(),
            forall|j: int|
                0 <= j < i ==> component@[j] != '*' && component@[j] != '?' && component@[j] != '[',
        decreases component@.len() - i,
    {
        if component[i] == '*' || component[i] == '?' || component[i] == '[' {
            assert(component@.contains(component@[i as int]));
            return true;
        }
        i += 1;
    }
    false
}

/// The fixed leading path of a glob pattern. A glob can match anything below
/// its first metacharacter, so this is the extent it is authorised over.
pub fn glob_fixed_prefix(path_glob: &str) -> (r: String)
    ensures
        r@ == fixed_prefix(path_glob@),
{
    let chars: Vec<char> = text::chars_of(path_glob);
    let slash: [char; 1] = ['/'];
    assert(slash@ == seq!['/']);
    let components: Vec<Vec<char>> = text::split(chars.as_slice(), slash.as_slice());
    let ghost all = text::seqs(components@);
    let mut plain: Vec<String> = Vec::new();
    let mut i: usize = 0;
    assert(all.skip(0) == all);
    assert(text::texts(plain@) == Seq::<Seq<char>>::empty());
    while i < components.len()
        invariant
            i <= components@.len(),
            all == text::seqs(components@),
            plain_components(all) == text::texts(plain@) + plain_components(all.skip(i as int)),
        ensures
            plain_components(all) == text::texts(plain@),
        decreases components@.len() - i,
    {
        assert(all.skip(i as int)[0] == components@[i as int]@);
        if component_has_meta(components[i].as_slice()) {
            assert(text::texts(plain@) + Seq::<Seq<char>>::empty() == text::texts(plain@));
            break;
        }
        let ghost before = plain@;
        let copy: String = text::string_of(components[i].as_slice());
        plain.push(copy);
        proof {
            assert(all.skip(i as int).skip(1) == all.skip(i + 1));
            assert(text::texts(plain@) == text::texts(before) + seq![components@[i as int]@]);
            assert(text::texts(before) + (seq![components@[i as int]@] + plain_components(
                all.skip(i + 1),
            )) == text::texts(plain@) + plain_components(all.skip(i + 1)));
        }
        i += 1;
        if i == components.len() {
            assert(all.skip(i as int).len() == 0);
            assert(text::texts(plain@) + Seq::<Seq<char>>::empty() == text::texts(plain@));
        }
    }
    proof {
        reveal_strlit("/");
        assert("/"@ == seq!['/']);
    }
    let joined: String = text::join(&plain, "/");
    if joined.as_str().is_empty() {
        "/".to_owned()
    } else {
        joined
    }
}

/// A pattern with no metacharacter is its own fixed prefix.
pub proof fn law_plain_path_is_its_own_prefix(path: Seq<char>)
    requires
        path.len() > 0,
        !has_meta(path),
    ensures
        fixed_prefix(path) == path,
{
    let parts = text::split_on(path, seq!['/']);
    lemma_parts_are_plain(path, 0);
    lemma_all_plain(parts);
    text::lemma_joined_split(path, seq!['/'], 0);
    assert(path.skip(0) == path);
}

/// Pieces of a text without metacharacters have none.
proof fn lemma_parts_are_plain(path: Seq<char>, start: int)
    requires
        0 <= start <= path.len(),
        !has_meta(path),
    ensures
        forall|i: int|
            0 <= i < text::split_from(path, seq!['/'], start).len() ==> !has_meta(
                #[trigger] text::split_from(path, seq!['/'], start)[i],
            ),
    decreases path.len() - start,
{
    let pat = seq!['/'];
    text::lemma_find_from(path, pat, start);
    match text::find_from(path, pat, start) {
        None => {
            lemma_piece_is_plain(path, start, path.len() as int);
            assert(path.skip(start) == path.subrange(start, path.len() as int));
        },
        Some(k) => {
            lemma_parts_are_plain(path, k + 1);
            lemma_piece_is_plain(path, start, k);
            let rest = text::split_from(path, pat, k + 1);
            let all = text::split_from(path, pat, start);
            assert(all == seq![path.subrange(start, k)] + rest);
            assert forall|i: int| 0 <= i < all.len() implies !has_meta(#[trigger] all[i]) by {
                if i > 0 {
                    assert(all[i] == rest[i - 1]);
                }
            }
        },
    }
}

/// A stretch of a text without metacharacters has none.
proof fn lemma_piece_is_plain(path: Seq<char>, start: int, end: int)
    requires
        0 <= start <= end <= path.len(),
        !has_meta(path),
    ensures
        !has_meta(path.subrange(start, end)),
{
    let piece = path.subrange(start, end);
    assert forall|i: int| 0 <= i < piece.len() implies path.contains(#[trigger] piece[i]) by {
        assert(piece[i] == path[start + i]);
    }
}

/// Where no component has a metacharacter, all of them are kept.
proof fn lemma_all_plain(components: Seq<Seq<char>>)
    requires
        forall|i: int| 0 <= i < components.len() ==> !has_meta(#[trigger] components[i]),
    ensures
        plain_components(components) == components,
    decreases components.len(),
{
    if components.len() > 0 {
        assert forall|i: int| 0 <= i < components.skip(1).len() implies !has_meta(
            #[trigger] components.skip(1)[i],
        ) by {
            assert(components.skip(1)[i] == components[i + 1]);
        }
        lemma_all_plain(components.skip(1));
        assert(seq![components[0]] + components.skip(1) == components);
    } else {
        assert(components == Seq::<Seq<char>>::empty());
    }
}

/// The scope a command's own payload targets. Some commands name none: those
/// that act on a stored grant or a running session, and restart and stop.
pub open spec fn payload_scope(command: ManageCommand) -> Option<ScopeView> {
    match command {
        ManageCommand::StatusRead => Some(ScopeView::Node),
        ManageCommand::CacheEvict => Some(ScopeView::Node),
        ManageCommand::Pin { path_glob, .. } => Some(ScopeView::Folder(fixed_prefix(path_glob@))),
        ManageCommand::Unpin { path_glob } => Some(ScopeView::Folder(fixed_prefix(path_glob@))),
        ManageCommand::CacheWarm { path_glob } => Some(ScopeView::Folder(fixed_prefix(path_glob@))),
        ManageCommand::PolicySet { path_glob, .. } => Some(
            ScopeView::Folder(fixed_prefix(path_glob@)),
        ),
        ManageCommand::ConfigPush { folder, .. } => Some(ScopeView::Folder(folder@)),
        ManageCommand::BackendAdd { mount_path, .. } => Some(ScopeView::Folder(mount_path@)),
        ManageCommand::BackendRemove { mount_path, .. } => Some(ScopeView::Folder(mount_path@)),
        ManageCommand::GrantAdd { grant } => Some(grant.scope@),
        ManageCommand::PtySpawn { cwd, .. } => Some(
            ScopeView::Folder(text::text_or(text::opt_text(cwd), "/"@)),
        ),
        ManageCommand::ProcSpawn { cwd, .. } => Some(
            ScopeView::Folder(text::text_or(text::opt_text(cwd), "/"@)),
        ),
        _ => None,
    }
}

/// The folder scope of a working directory; without one, the root.
fn cwd_scope(cwd: &Option<String>) -> (r: Scope)
    ensures
        r@ == ScopeView::Folder(text::text_or(text::opt_text(*cwd), "/"@)),
{
    match cwd {
        Some(path) => Scope::folder(path.as_str()),
        None => Scope::folder("/"),
    }
}

/// The scope a command's own payload targets, whatever the caller advertises.
pub fn command_target_scope(command: &ManageCommand) -> (r: Option<Scope>)
    ensures
        match r {
            Some(s) => payload_scope(*command) == Some(s@),
            None => payload_scope(*command) is None,
        },
{
    match command {
        ManageCommand::StatusRead | ManageCommand::CacheEvict => Some(Scope::Node),
        ManageCommand::Pin { path_glob, .. }
        | ManageCommand::Unpin { path_glob }
        | ManageCommand::CacheWarm { path_glob }
        | ManageCommand::PolicySet { path_glob, .. } => {
            let prefix: String = glob_fixed_prefix(path_glob.as_str());
            Some(Scope::folder(prefix.as_str()))
        },
        ManageCommand::ConfigPush { folder, .. } => Some(Scope::folder(folder.as_str())),
        ManageCommand::BackendAdd { mount_path, .. }
        | ManageCommand::BackendRemove { mount_path, .. } => Some(
            Scope::folder(mount_path.as_str()),
        ),
        ManageCommand::GrantAdd { grant } => Some(scope_from_wire(&grant.scope)),
        ManageCommand::PtySpawn { cwd, .. } | ManageCommand::ProcSpawn { cwd, .. } => Some(
            cwd_scope(cwd),
        ),
        ManageCommand::GrantRevoke { .. }
        | ManageCommand::Restart
        | ManageCommand::Stop
        | ManageCommand::PtyWrite { .. }
        | ManageCommand::PtyResize { .. }
        | ManageCommand::PtyKill { .. }
        | ManageCommand::ProcSignal { .. }
        | ManageCommand::ProcKill { .. } => None,
    }
}

/// What the node reads to judge a presented token.
#[derive(Debug, PartialEq, Eq)]
pub struct TokenReading {
    /// The token its text stands for, or why it stands for none.
    pub parsed: Result<CapabilityToken, String>,
    /// This node's device id, or why it has none.
    pub node: Result<DeviceId, String>,
    /// The ids of revoked tokens, or why they cannot be read.
    pub revoked: Result<Vec<String>, String>,
    /// What each signature check of the token reported, from the presented
    /// token upwards; nothing for one that passed.
    pub verdicts: Vec<Option<DeviceKeyError>>,
}

impl TokenReading {
    /// Whether there is a verdict for every signature that is looked at.
    pub open spec fn complete(self) -> bool {
        self.parsed matches Ok(t) ==> self.verdicts@.len() >= t.spec_view().checked_links()
    }

    /// What presenting the token gives, once everything could be read.
    pub open spec fn outcome(
        self,
        token: CapabilityToken,
        node: DeviceId,
        revoked: Vec<String>,
        caller: Seq<char>,
        now: Timestamp,
    ) -> Result<(), token::TokenFault> {
        token.spec_view().outcome(
            node@,
            caller,
            now,
            text::texts(revoked@),
            token::verdict_views(self.verdicts@),
        )
    }
}

/// The message about a presented token text of `size` bytes, which is too long.
pub open spec fn too_long(size: nat) -> Seq<char> {
    "presented capability token exceeds maximum length ("@ + text::decimal(size as int) + " > "@
        + text::decimal(MAX_TOKEN_JSON_BYTES as int) + " bytes)"@
}

/// The reply to a presented token text of `size` bytes, which is too long.
pub fn oversize_reply(size: usize) -> (r: ManageResult)
    ensures
        r.is_error(ManageErrorKind::Failed, too_long(size as nat)),
{
    let mut m: String = "presented capability token exceeds maximum length (".to_owned();
    let have: String = text::u64_text(size as u64);
    m.append(have.as_str());
    m.append(" > ");
    let limit: String = text::u64_text(MAX_TOKEN_JSON_BYTES as u64);
    m.append(limit.as_str());
    m.append(" bytes)");
    ManageResult::Error { kind: ManageErrorKind::Failed, message: m }
}

/// Whether `r` is what judging a presented token gives: its grant, or the reply
/// that refuses the whole command.
pub open spec fn presented_token_outcome(
    r: Result<Grant, ManageResult>,
    token_json: Seq<char>,
    reading: TokenReading,
    caller: Seq<char>,
    now: Timestamp,
) -> bool {
    let size = bytes::utf8(token_json).len();
    if size > MAX_TOKEN_JSON_BYTES {
        r matches Err(e) && e.is_error(ManageErrorKind::Failed, too_long(size))
    } else {
        match (reading.parsed, reading.node, reading.revoked) {
            (Err(e), _, _) => r matches Err(x) && x.is_error(
                ManageErrorKind::Failed,
                "could not parse presented capability token: "@ + e@,
            ),
            (_, Err(e), _) => r matches Err(x) && x.is_error(
                ManageErrorKind::Failed,
                "could not resolve this node's device identity: "@ + e@,
            ),
            (_, _, Err(e)) => r matches Err(x) && x.is_error(
                ManageErrorKind::Failed,
                "could not read token revocation list: "@ + e@,
            ),
            (Ok(t), Ok(node), Ok(revoked)) => match reading.outcome(t, node, revoked, caller, now) {
                Ok(_) => r matches Ok(g) && g@ == t.claims@.grant(),
                Err(fault) => r matches Err(x) && x.is_error(
                    ManageErrorKind::Unauthorised,
                    "presented capability token rejected: "@ + fault.text(),
                ),
            },
        }
    }
}

/// The error reply with this kind and message.
pub(crate) fn error(kind: ManageErrorKind, prefix: &str, detail: &str) -> (r: ManageResult)
    ensures
        r.is_error(kind, prefix@ + detail@),
{
    let mut message: String = prefix.to_owned();
    message.append(detail);
    ManageResult::Error { kind, message }
}

/// The length of a text in UTF-8 bytes.
pub(crate) fn byte_len(s: &str) -> (n: usize)
    ensures
        n == bytes::utf8(s@).len(),
{
    s.as_bytes().len()
}

/// Judge a presented capability token: the grant it confers, or the reply that
/// refuses the command it came with. A token that cannot be read is a failed
/// request; one that does not verify is an unauthorised one.
pub fn verify_presented_token(
    token_json: &str,
    reading: &TokenReading,
    caller: &DeviceId,
    now: Timestamp,
) -> (r: Result<Grant, ManageResult>)
    requires
        reading.complete(),
    ensures
        presented_token_outcome(r, token_json@, *reading, caller@, now),
{
    let size: usize = byte_len(token_json);
    if size > MAX_TOKEN_JSON_BYTES {
        return Err(oversize_reply(size));
    }
    let token: &CapabilityToken = match &reading.parsed {
        Ok(token) => token,
        Err(e) => {
            return Err(
                error(
                    ManageErrorKind::Failed,
                    "could not parse presented capability token: ",
                    e.as_str(),
                ),
            );
        },
    };
    let node: &DeviceId = match &reading.node {
        Ok(node) => node,
        Err(e) => {
            return Err(
                error(
                    ManageErrorKind::Failed,
                    "could not resolve this node's device identity: ",
                    e.as_str(),
                ),
            );
        },
    };
    let revoked: &Vec<String> = match &reading.revoked {
        Ok(revoked) => revoked,
        Err(e) => {
            return Err(
                error(
                    ManageErrorKind::Failed,
                    "could not read token revocation list: ",
                    e.as_str(),
                ),
            );
        },
    };
    match token.verify(node, caller, now, revoked, &reading.verdicts) {
        Ok(claims) => Ok(claims.to_grant()),
        Err(e) => {
            let why: String = e.message();
            Err(
                error(
                    ManageErrorKind::Unauthorised,
                    "presented capability token rejected: ",
                    why.as_str(),
                ),
            )
        },
    }
}

/// Whether a token presented on the data plane confers its grant: it can be
/// read, it verifies, and it carries a data verb over a scope that is not
/// node-wide.
pub open spec fn data_token_counts(
    token_json: Seq<char>,
    reading: TokenReading,
    peer: Seq<char>,
    now: Timestamp,
) -> bool {
    &&& bytes::utf8(token_json).len() <= MAX_TOKEN_JSON_BYTES
    &&& match (reading.parsed, reading.node, reading.revoked) {
        (Ok(t), Ok(node), Ok(revoked)) => {
            &&& reading.outcome(t, node, revoked, peer, now) is Ok
            &&& t.claims@.capability.data_verb()
            &&& !t.claims@.scope.node_wide()
        },
        _ => false,
    }
}

/// Judge a token presented on the data plane: the data grant it confers, if
/// any. A token that is no use is never an error there; it confers nothing.
pub fn verify_data_token(
    token_json: &str,
    reading: &TokenReading,
    peer: &DeviceId,
    now: Timestamp,
) -> (r: Option<Grant>)
    requires
        reading.complete(),
    ensures
        r is Some <==> data_token_counts(token_json@, *reading, peer@, now),
        r matches Some(g) ==> g@ == reading.parsed->Ok_0.claims@.grant(),
{
    if byte_len(token_json) > MAX_TOKEN_JSON_BYTES {
        return None;
    }
    let token: &CapabilityToken = match &reading.parsed {
        Ok(token) => token,
        Err(_) => {
            return None;
        },
    };
    let node: &DeviceId = match &reading.node {
        Ok(node) => node,
        Err(_) => {
            return None;
        },
    };
    let revoked: &Vec<String> = match &reading.revoked {
        Ok(revoked) => revoked,
        Err(_) => {
            return None;
        },
    };
    match token.verify(node, peer, now, revoked, &reading.verdicts) {
        Ok(claims) => {
            if claims.capability.is_data_verb() && !claims.scope.is_node_wide() {
                Some(claims.to_grant())
            } else {
                None
            }
        },
        Err(_) => None,
    }
}

/// A capability is needed for the commands of its kind and for no others: pins are
/// written under one, the cache managed under another, and so on. Everything that
/// runs programs, hands out grants, manages backends or stops the node needs a
/// dangerous one, and no command needs a data verb.
pub proof fn law_each_kind_of_command_needs_its_capability(command: ManageCommand)
    ensures
        needed(command).wire() == "status:read"@ <==> command is StatusRead,
        needed(command).wire() == "pin:write"@ <==> command is Pin || command is Unpin,
        needed(command).wire() == "cache:manage"@ <==> command is CacheEvict
            || command is CacheWarm,
        needed(command).wire() == "config:push"@ <==> command is ConfigPush,
        needed(command).wire() == "policy:set"@ <==> command is PolicySet,
        needed(command).wire() == "backend:manage"@ <==> command is BackendAdd
            || command is BackendRemove,
        needed(command).wire() == "lifecycle:control"@ <==> command is Restart
            || command is Stop,
        needed(command).wire() == "grant:admin"@ <==> command is GrantAdd
            || command is GrantRevoke,
        needed(command).wire() == "exec:pty"@ <==> command is PtySpawn || command is PtyWrite
            || command is PtyResize || command is PtyKill,
        needed(command).wire() == "exec:proc"@ <==> command is ProcSpawn
            || command is ProcSignal || command is ProcKill,
        needed(command).dangerous() <==> !(command is StatusRead || command is Pin
            || command is Unpin || command is CacheEvict || command is CacheWarm
            || command is ConfigPush || command is PolicySet),
        !needed(command).data_verb(),
{
    let c = needed(command);
    manage::law_wire_form_is_unique(c, Capability::StatusRead);
    manage::law_wire_form_is_unique(c, Capability::PinWrite);
    manage::law_wire_form_is_unique(c, Capability::CacheManage);
    manage::law_wire_form_is_unique(c, Capability::ConfigPush);
    manage::law_wire_form_is_unique(c, Capability::PolicySet);
    manage::law_wire_form_is_unique(c, Capability::BackendManage);
    manage::law_wire_form_is_unique(c, Capability::LifecycleControl);
    manage::law_wire_form_is_unique(c, Capability::GrantAdmin);
    manage::law_wire_form_is_unique(c, Capability::ExecPty);
    manage::law_wire_form_is_unique(c, Capability::ExecProc);
}

/// The fixed prefix of a glob is all of its path before the first component that
/// holds a star, a question mark or an opening bracket; without such a component
/// it is the whole glob. Where nothing is left it is the root.
pub proof fn law_a_fixed_prefix_ends_before_the_first_wildcard(path_glob: Seq<char>, k: int)
    requires
        ({
            let parts = text::split_on(path_glob, seq!['/']);
            &&& 0 <= k <= parts.len()
            &&& forall|i: int|
                0 <= i < k ==> !(#[trigger] parts[i]).contains('*') && !parts[i].contains('?')
                    && !parts[i].contains('[')
            &&& k < parts.len() ==> parts[k].contains('*') || parts[k].contains('?')
                || parts[k].contains('[')
        }),
    ensures
        ({
            let plain = text::joined(
                text::split_on(path_glob, seq!['/']).take(k),
                seq!['/'],
            );
            &&& plain.len() > 0 ==> fixed_prefix(path_glob) == plain
            &&& plain.len() == 0 ==> fixed_prefix(path_glob) == seq!['/']
        }),
{
    lemma_plain_up_to(text::split_on(path_glob, seq!['/']), k);
}

/// The leading plain components are those before the first with a metacharacter.
proof fn lemma_plain_up_to(parts: Seq<Seq<char>>, k: int)
    requires
        0 <= k <= parts.len(),
        forall|i: int|
            0 <= i < k ==> !(#[trigger] parts[i]).contains('*') && !parts[i].contains('?')
                && !parts[i].contains('['),
        k < parts.len() ==> parts[k].contains('*') || parts[k].contains('?')
            || parts[k].contains('['),
    ensures
        plain_components(parts) == parts.take(k),
    decreases k,
{
    if k == 0 {
        assert(parts.take(0) == Seq::<Seq<char>>::empty());
    } else {
        let rest = parts.skip(1);
        assert forall|i: int| 0 <= i < k - 1 implies !(#[trigger] rest[i]).contains('*')
            && !rest[i].contains('?') && !rest[i].contains('[') by {
            assert(rest[i] == parts[i + 1]);
        }
        lemma_plain_up_to(rest, k - 1);
        assert(!parts[0].contains('*'));
        assert(seq![parts[0]] + rest.take(k - 1) == parts.take(k));
    }
}

/// A command touches what its payload names: the fixed prefix of its glob, the
/// folder pushed into, the mount of its backend, the scope of the grant it hands
/// on, or the directory its program runs in, the root where it names none. Status
/// and eviction touch the whole node.
pub proof fn law_a_payload_names_what_is_touched(command: ManageCommand)
    ensures
        command is StatusRead || command is CacheEvict ==> payload_scope(command) == Some(
            ScopeView::Node,
        ),
        command is Pin ==> payload_scope(command) == Some(
            ScopeView::Folder(fixed_prefix(command->Pin_path_glob@)),
        ),
        command is Unpin ==> payload_scope(command) == Some(
            ScopeView::Folder(fixed_prefix(command->Unpin_path_glob@)),
        ),
        command is CacheWarm ==> payload_scope(command) == Some(
            ScopeView::Folder(fixed_prefix(command->CacheWarm_path_glob@)),
        ),
        command is PolicySet ==> payload_scope(command) == Some(
            ScopeView::Folder(fixed_prefix(command->PolicySet_path_glob@)),
        ),
        command is ConfigPush ==> payload_scope(command) == Some(
            ScopeView::Folder(command->folder@),
        ),
        command is BackendAdd ==> payload_scope(command) == Some(
            ScopeView::Folder(command->BackendAdd_mount_path@),
        ),
        command is BackendRemove ==> payload_scope(command) == Some(
            ScopeView::Folder(command->BackendRemove_mount_path@),
        ),
        command is GrantAdd ==> payload_scope(command) == Some(command->grant.scope@),
        command is PtySpawn ==> (command->PtySpawn_cwd matches Some(cwd) ==> payload_scope(command)
            == Some(ScopeView::Folder(cwd@))),
        command is ProcSpawn ==> (command->ProcSpawn_cwd matches Some(cwd) ==> payload_scope(
            command,
        ) == Some(ScopeView::Folder(cwd@))),
        command is PtySpawn && command->PtySpawn_cwd is None ==> payload_scope(command) == Some(
            ScopeView::Folder(seq!['/']),
        ),
        command is ProcSpawn && command->ProcSpawn_cwd is None ==> payload_scope(command) == Some(
            ScopeView::Folder(seq!['/']),
        ),
        payload_scope(command) is None <==> command is GrantRevoke || command is Restart
            || command is Stop || command is PtyWrite || command is PtyResize
            || command is PtyKill || command is ProcSignal || command is ProcKill,
{
    reveal_strlit("/");
    assert("/"@ == seq!['/']);
}

/// A presented token gives a grant exactly where its text is not too long, it and
/// this node's id and revocations could be read, and it verifies; the grant is made
/// out to the token's bearer by its issuer, with the token's capability, scope and
/// expiry. One that does not verify is refused, and one that cannot be judged
/// fails.
pub proof fn law_a_presented_token_gives_its_grant_or_an_error(
    r: Result<Grant, ManageResult>,
    token_json: Seq<char>,
    reading: TokenReading,
    caller: Seq<char>,
    now: Timestamp,
)
    requires
        presented_token_outcome(r, token_json, reading, caller, now),
    ensures
        ({
            let readable = bytes::utf8(token_json).len() <= 65536 && reading.parsed is Ok
                && reading.node is Ok && reading.revoked is Ok;
            let verified = reading.outcome(
                reading.parsed->Ok_0,
                reading.node->Ok_0,
                reading.revoked->Ok_0,
                caller,
                now,
            ) is Ok;
            &&& r is Ok <==> readable && verified
            &&& r matches Ok(g) ==> {
                let claims = reading.parsed->Ok_0.claims;
                &&& g.grantee@ == claims.bearer@
                &&& g.capability == claims.capability
                &&& g.scope@ == claims.scope@
                &&& g.granted_by@ == claims.issuer@
                &&& g.expires == Some(claims.expires)
            }
            &&& r matches Err(reply) ==> (reply matches ManageResult::Error { kind, .. } && (kind
                == ManageErrorKind::Unauthorised <==> readable))
        }),
{
}

/// A token counts on the data plane exactly where presenting it with a command would
/// give its grant, and that grant is `data:read` or `data:write` over a folder that
/// is not the whole node.
pub proof fn law_a_data_token_is_a_presented_one_for_a_folder(
    r: Result<Grant, ManageResult>,
    token_json: Seq<char>,
    reading: TokenReading,
    peer: Seq<char>,
    now: Timestamp,
)
    requires
        presented_token_outcome(r, token_json, reading, peer, now),
    ensures
        data_token_counts(token_json, reading, peer, now) <==> (r matches Ok(g) && (g.capability
            == Capability::DataRead || g.capability == Capability::DataWrite)
            && !g.scope@.node_wide()),
{
}

/// The text about a token that is too long gives its size and the limit.
pub proof fn law_a_long_token_is_measured(size: nat)
    ensures
        exists|before: Seq<char>, between: Seq<char>, after: Seq<char>|
            too_long(size) == #[trigger] (before + text::decimal(size as int) + between
                + text::decimal(65536) + after),
{
    assert(too_long(size) == "presented capability token exceeds maximum length ("@
        + text::decimal(size as int) + " > "@ + text::decimal(65536) + " bytes)"@);
}

/// The reply to a token that gives no grant ends with what is wrong with it.
pub proof fn law_the_reply_to_a_bad_token_says_why(
    reply: ManageResult,
    token_json: Seq<char>,
    reading: TokenReading,
    caller: Seq<char>,
    now: Timestamp,
)
    requires
        presented_token_outcome(
            Err::<Grant, ManageResult>(reply),
            token_json,
            reading,
            caller,
            now,
        ),
        bytes::utf8(token_json).len() <= 65536,
    ensures
        reply is Error,
        reading.parsed matches Err(why) ==> reply->message@
            == "could not parse presented capability token: "@ + why@,
        reading.parsed is Ok ==> (reading.node matches Err(why) ==> reply->message@
            == "could not resolve this node's device identity: "@ + why@),
        reading.parsed is Ok && reading.node is Ok ==> (reading.revoked matches Err(why)
            ==> reply->message@ == "could not read token revocation list: "@ + why@),
        reading.parsed is Ok && reading.node is Ok && reading.revoked is Ok ==> (reading.outcome(
            reading.parsed->Ok_0,
            reading.node->Ok_0,
            reading.revoked->Ok_0,
            caller,
            now,
        ) matches Err(fault) && reply->message@ == "presented capability token rejected: "@
            + fault.text()),
{
}

} // verus!
