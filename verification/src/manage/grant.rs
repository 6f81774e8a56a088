//! Grants, the authorisation decision, and the data-plane access decision.

use vstd::prelude::*;

use crate::manage::{Capability, DeviceId, Scope, ScopeView};
use crate::text;
use crate::time;
use crate::time::Timestamp;

verus! {

/// A single capability grant held on the managed node.
#[derive(Debug, PartialEq, Eq)]
pub struct Grant {
    /// The device authorised by this grant.
    pub grantee: DeviceId,
    /// The capability conferred.
    pub capability: Capability,
    /// The scope over which the capability applies.
    pub scope: Scope,
    /// The device that issued this grant.
    pub granted_by: DeviceId,
    /// When the grant expires, if ever.
    pub expires: Option<Timestamp>,
}

/// What a [`Grant`] stands for.
pub struct GrantView {
    /// The device authorised by this grant.
    pub grantee: Seq<char>,
    /// The capability conferred.
    pub capability: Capability,
    /// The scope over which the capability applies.
    pub scope: ScopeView,
    /// The device that issued this grant.
    pub granted_by: Seq<char>,
    /// When the grant expires, if ever.
    pub expires: Option<Timestamp>,
}

impl GrantView {
    /// Whether the grant has expired at `now`. It has from the instant of its
    /// expiry on.
    pub open spec fn expired(self, now: Timestamp) -> bool {
        match self.expires {
            Some(expiry) => now.at_or_after(expiry),
            None => false,
        }
    }

    /// Whether this grant lets `caller` exercise `needed` over `target`.
    pub open spec fn confers(
        self,
        caller: Seq<char>,
        needed: Capability,
        target: ScopeView,
        now: Timestamp,
    ) -> bool {
        &&& self.grantee == caller
        &&& self.capability == needed
        &&& !self.expired(now)
        &&& self.scope.covers(target)
        &&& !(needed.dangerous() && self.scope.node_wide())
    }

    /// Whether this grant puts `peer` under directional control for `folder`:
    /// a data verb of that peer over a scope that covers the folder and is not
    /// node-wide.
    pub open spec fn controls(self, peer: Seq<char>, folder: Seq<char>) -> bool {
        &&& self.grantee == peer
        &&& self.capability.data_verb()
        &&& self.scope.covers(ScopeView::Folder(folder))
        &&& !self.scope.node_wide()
    }

    /// Whether this grant allows `verb` to `peer` for `folder` at `now`.
    pub open spec fn allows(
        self,
        verb: Capability,
        peer: Seq<char>,
        folder: Seq<char>,
        now: Timestamp,
    ) -> bool {
        self.controls(peer, folder) && self.capability == verb && !self.expired(now)
    }
}

impl View for Grant {
    type V = GrantView;

    open spec fn view(&self) -> GrantView {
        GrantView {
            grantee: self.grantee@,
            capability: self.capability,
            scope: self.scope@,
            granted_by: self.granted_by@,
            expires: self.expires,
        }
    }
}

/// What a sequence of grants stands for.
pub open spec fn grant_views(grants: Seq<Grant>) -> Seq<GrantView> {
    grants.map_values(|g: Grant| g@)
}

/// Whether some grant lets `caller` exercise `needed` over `target`.
pub open spec fn authorised(
    grants: Seq<GrantView>,
    caller: Seq<char>,
    needed: Capability,
    target: ScopeView,
    now: Timestamp,
) -> bool {
    exists|i: int|
        0 <= i < grants.len() && (#[trigger] grants[i]).confers(caller, needed, target, now)
}

/// Whether `expires` is what an optional RFC 3339 text stands for.
pub open spec fn expiry_of(raw: Option<Seq<char>>, expires: Option<Timestamp>) -> bool {
    match (raw, expires) {
        (None, None) => true,
        (Some(t), Some(at)) => time::rfc3339(t) == Ok::<(i64, u32), Seq<char>>(
            (at.spec_secs(), at.spec_nanos()),
        ),
        _ => false,
    }
}

/// A grant as it is declared in the root device config.
#[derive(Debug, PartialEq, Eq)]
pub struct GrantConfig {
    /// The device to authorise.
    pub grantee: String,
    /// The capability identifier.
    pub capability: String,
    /// The declared scope.
    pub scope: ScopeConfig,
    /// The declared RFC 3339 expiry.
    pub expires: Option<String>,
}

/// A scope as it is declared in the root device config.
#[derive(Debug, PartialEq, Eq)]
pub enum ScopeConfig {
    /// The whole node.
    Node,
    /// A folder subtree.
    Folder {
        /// The folder path.
        path: String,
    },
}

impl View for ScopeConfig {
    type V = ScopeView;

    open spec fn view(&self) -> ScopeView {
        match *self {
            ScopeConfig::Node => ScopeView::Node,
            ScopeConfig::Folder { path } => ScopeView::Folder(path@),
        }
    }
}

/// Why a declared grant was refused.
#[derive(Debug, PartialEq, Eq)]
pub enum GrantConfigError {
    /// The capability identifier is not one of the vocabulary.
    UnknownCapability {
        /// The identifier as declared.
        capability: String,
    },
    /// The expiry is not an RFC 3339 timestamp.
    BadExpiry {
        /// The expiry as declared.
        raw: String,
        /// Why it does not parse.
        reason: String,
    },
}

impl GrantConfigError {
    /// The message of the error.
    pub open spec fn text(self) -> Seq<char> {
        match self {
            GrantConfigError::UnknownCapability { capability } =>
                "unknown capability in grant config: "@ + capability@,
            GrantConfigError::BadExpiry { raw, reason } => "parsing grant expiry timestamp: "@
                + raw@,
        }
    }

    /// The message of the error.
    pub fn message(&self) -> (r: String)
        ensures
            r@ == self.text(),
    {
        match self {
            GrantConfigError::UnknownCapability { capability } => {
                let mut m: String = "unknown capability in grant config: ".to_owned();
                m.append(capability.as_str());
                m
            },
            GrantConfigError::BadExpiry { raw, .. } => {
                let mut m: String = "parsing grant expiry timestamp: ".to_owned();
                m.append(raw.as_str());
                m
            },
        }
    }
}

/// Whether `r` is what building a declared grant gives.
pub open spec fn declared_grant_outcome(
    r: Result<Grant, GrantConfigError>,
    config: GrantConfig,
    granted_by: Seq<char>,
) -> bool {
    match r {
        Ok(g) => {
            &&& Capability::named(config.capability@) == Some(g.capability)
            &&& expiry_of(text::opt_text(config.expires), g.expires)
            &&& g.grantee@ == config.grantee@
            &&& g.scope@ == config.scope@
            &&& g.granted_by@ == granted_by
        },
        Err(GrantConfigError::UnknownCapability { capability }) => {
            &&& Capability::named(config.capability@) is None
            &&& capability@ == config.capability@
        },
        Err(GrantConfigError::BadExpiry { raw, reason }) => {
            &&& Capability::named(config.capability@) is Some
            &&& text::opt_text(config.expires) == Some(raw@)
            &&& time::rfc3339(raw@) == Err::<(i64, u32), Seq<char>>(reason@)
        },
    }
}

impl Clone for Grant {
    fn clone(&self) -> (r: Self)
        ensures
            r == *self,
    {
        Grant {
            grantee: self.grantee.clone(),
            capability: self.capability,
            scope: self.scope.clone(),
            granted_by: self.granted_by.clone(),
            expires: self.expires,
        }
    }
}

impl Grant {
    /// Whether this grant has expired as of `now`.
    pub fn is_expired(&self, now: Timestamp) -> (r: bool)
        ensures
            r == self@.expired(now),
    {
        match self.expires {
            Some(expiry) => now.is_at_or_after(&expiry),
            None => false,
        }
    }

    /// Build a grant from its declaration, with the local node owner as the
    /// device that granted it.
    pub fn from_config(config: &GrantConfig, granted_by: &DeviceId) -> (r: Result<
        Grant,
        GrantConfigError,
    >)
        ensures
            declared_grant_outcome(r, *config, granted_by@),
    {
        let capability: Capability = match Capability::from_wire(config.capability.as_str()) {
            Some(c) => c,
            None => {
                return Err(
                    GrantConfigError::UnknownCapability { capability: config.capability.clone() },
                );
            },
        };
        let scope: Scope = match &config.scope {
            ScopeConfig::Node => Scope::Node,
            ScopeConfig::Folder { path } => Scope::folder(path.as_str()),
        };
        let expires: Option<Timestamp> = match &config.expires {
            None => None,
            Some(raw) => match Timestamp::parse(raw.as_str()) {
                Ok(at) => Some(at),
                Err(reason) => {
                    return Err(GrantConfigError::BadExpiry { raw: raw.clone(), reason });
                },
            },
        };
        Ok(
            Grant {
                grantee: DeviceId::new(config.grantee.as_str()),
                capability,
                scope,
                granted_by: granted_by.clone(),
                expires,
            },
        )
    }
}

/// Decide whether `caller` may exercise `needed` over `target`, given the
/// grants held on this node and the current time.
pub fn authorises(
    grants: &[Grant],
    caller: &DeviceId,
    needed: Capability,
    target: &Scope,
    now: Timestamp,
) -> (r: bool)
    ensures
        r == authorised(grant_views(grants@), caller@, needed, target@, now),
{
    let mut i: usize = 0;
    let ghost views = grant_views(grants@);
    while i < grants.len()
        invariant
            i <= grants@.len(),
            views == grant_views(grants@),
            forall|j: int|
                0 <= j < i ==> !(#[trigger] views[j]).confers(caller@, needed, target@, now),
        decreases grants@.len() - i,
    {
        let grant: &Grant = &grants[i];
        assert(views[i as int] == grant@);
        if grant.grantee.same(caller) && grant.capability == needed && !grant.is_expired(now)
            && grant.scope.covers(target) && !(needed.is_dangerous()
            && grant.scope.is_node_wide()) {
            assert(views[i as int].confers(caller@, needed, target@, now));
            return true;
        }
        i += 1;
    }
    false
}

/// The data-plane access decision for one peer and one folder.
#[derive(Debug, Clone, Copy, PartialEq, Eq, Structural)]
pub struct DataAccess {
    /// Whether we serve our index and blocks to this peer for this folder.
    pub read: bool,
    /// Whether we accept this peer's index and blocks for this folder.
    pub write: bool,
}

/// One remembered row of explicit directional control.
#[derive(Debug, PartialEq, Eq)]
pub struct ExplicitControlState {
    /// The peer device under explicit control.
    pub peer: String,
    /// The folder id the control applies to.
    pub folder: String,
    /// Whether a verified token granted `data:read` for this folder.
    pub data_read: bool,
    /// Whether a verified token granted `data:write` for this folder.
    pub data_write: bool,
}

/// The first remembered row for this peer and folder.
pub open spec fn control_row(
    rows: Seq<ExplicitControlState>,
    peer: Seq<char>,
    folder: Seq<char>,
) -> Option<DataAccess>
    decreases rows.len(),
{
    if rows.len() == 0 {
        None
    } else if rows[0].peer@ == peer && rows[0].folder@ == folder {
        Some(DataAccess { read: rows[0].data_read, write: rows[0].data_write })
    } else {
        control_row(rows.skip(1), peer, folder)
    }
}

/// Whether some grant puts `peer` under directional control for `folder`.
pub open spec fn controlled(grants: Seq<GrantView>, peer: Seq<char>, folder: Seq<char>) -> bool {
    exists|i: int| 0 <= i < grants.len() && (#[trigger] grants[i]).controls(peer, folder)
}

/// Whether some grant allows `verb` to `peer` for `folder` at `now`.
pub open spec fn allowed(
    grants: Seq<GrantView>,
    verb: Capability,
    peer: Seq<char>,
    folder: Seq<char>,
    now: Timestamp,
) -> bool {
    exists|i: int| 0 <= i < grants.len() && (#[trigger] grants[i]).allows(verb, peer, folder, now)
}

/// The access `peer` has for `folder`: what its data grants allow where it has
/// any, else what an earlier verified token left behind, else everything.
pub open spec fn access(
    grants: Seq<GrantView>,
    peer: Seq<char>,
    folder: Seq<char>,
    now: Timestamp,
    rows: Seq<ExplicitControlState>,
) -> DataAccess {
    if controlled(grants, peer, folder) {
        DataAccess {
            read: allowed(grants, Capability::DataRead, peer, folder, now),
            write: allowed(grants, Capability::DataWrite, peer, folder, now),
        }
    } else {
        match control_row(rows, peer, folder) {
            Some(state) => state,
            None => DataAccess { read: true, write: true },
        }
    }
}

/// The access `peer` has for `folder` given the grants held on this node.
///
/// The decision is open by default: a peer with no data grant for the folder
/// keeps both directions, and any data grant narrows it to what is granted.
pub fn data_access(grants: &[Grant], peer: &DeviceId, folder: &str, now: Timestamp) -> (r:
    DataAccess)
    ensures
        r == access(grant_views(grants@), peer@, folder@, now, Seq::empty()),
{
    let none: Vec<ExplicitControlState> = Vec::new();
    data_access_with_explicit_control(grants, peer, folder, now, none.as_slice())
}

/// The access `peer` has for `folder`, given the grants held on this node and
/// the rows that earlier verified tokens left behind.
pub fn data_access_with_explicit_control(
    grants: &[Grant],
    peer: &DeviceId,
    folder: &str,
    now: Timestamp,
    explicit_control: &[ExplicitControlState],
) -> (r: DataAccess)
    ensures
        r == access(grant_views(grants@), peer@, folder@, now, explicit_control@),
{
    let folder_scope: Scope = Scope::folder(folder);
    let mut has_any_data_grant: bool = false;
    let mut read_allowed: bool = false;
    let mut write_allowed: bool = false;
    let ghost views = grant_views(grants@);
    let mut i: usize = 0;
    while i < grants.len()
        invariant
            i <= grants@.len(),
            views == grant_views(grants@),
            folder_scope@ == ScopeView::Folder(folder@),
            has_any_data_grant == controlled(views.take(i as int), peer@, folder@),
            read_allowed == allowed(
                views.take(i as int),
                Capability::DataRead,
                peer@,
                folder@,
                now,
            ),
            write_allowed == allowed(
                views.take(i as int),
                Capability::DataWrite,
                peer@,
                folder@,
                now,
            ),
        decreases grants@.len() - i,
    {
        let grant: &Grant = &grants[i];
        let controls: bool = grant.grantee.same(peer) && grant.capability.is_data_verb()
            && grant.scope.covers(&folder_scope) && !grant.scope.is_node_wide();
        proof {
            assert(views[i as int] == grant@);
            assert(controls == views[i as int].controls(peer@, folder@));
            let last = views.take(i + 1);
            assert(last == views.take(i as int).push(views[i as int]));
            lemma_push(views.take(i as int), views[i as int], peer@, folder@, now);
        }
        if controls {
            has_any_data_grant = true;
            if !grant.is_expired(now) {
                match grant.capability {
                    Capability::DataRead => {
                        read_allowed = true;
                    },
                    Capability::DataWrite => {
                        write_allowed = true;
                    },
                    _ => {},
                }
            }
        }
        i += 1;
    }
    assert(views.take(i as int) == views);
    if has_any_data_grant {
        return DataAccess { read: read_allowed, write: write_allowed };
    }
    let mut j: usize = 0;
    assert(explicit_control@.skip(0) == explicit_control@);
    while j < explicit_control.len()
        invariant
            j <= explicit_control@.len(),
            !controlled(views, peer@, folder@),
            views == grant_views(grants@),
            control_row(explicit_control@, peer@, folder@) == control_row(
                explicit_control@.skip(j as int),
                peer@,
                folder@,
            ),
        decreases explicit_control@.len() - j,
    {
        let state: &ExplicitControlState = &explicit_control[j];
        assert(explicit_control@.skip(j as int)[0] == state);
        if text::str_eq(state.peer.as_str(), peer.as_str()) && text::str_eq(
            state.folder.as_str(),
            folder,
        ) {
            return DataAccess { read: state.data_read, write: state.data_write };
        }
        assert(explicit_control@.skip(j as int).skip(1) == explicit_control@.skip(j + 1));
        j += 1;
    }
    DataAccess { read: true, write: true }
}

/// How one more grant changes the three questions asked of a grant set.
proof fn lemma_push(
    grants: Seq<GrantView>,
    g: GrantView,
    peer: Seq<char>,
    folder: Seq<char>,
    now: Timestamp,
)
    ensures
        controlled(grants.push(g), peer, folder) == (controlled(grants, peer, folder) || g.controls(
            peer,
            folder,
        )),
        forall|verb: Capability| #[trigger]
            allowed(grants.push(g), verb, peer, folder, now) == (allowed(
                grants,
                verb,
                peer,
                folder,
                now,
            ) || g.allows(verb, peer, folder, now)),
{
    let more = grants.push(g);
    assert(more[grants.len() as int] == g);
    assert(forall|i: int| 0 <= i < grants.len() ==> more[i] == grants[i]);
    if controlled(grants, peer, folder) {
        let i = choose|i: int| 0 <= i < grants.len() && (#[trigger] grants[i]).controls(peer, folder);
        assert(more[i].controls(peer, folder));
    }
    assert forall|verb: Capability| #[trigger]
        allowed(more, verb, peer, folder, now) == (allowed(grants, verb, peer, folder, now)
            || g.allows(verb, peer, folder, now)) by {
        if allowed(grants, verb, peer, folder, now) {
            let i = choose|i: int|
                0 <= i < grants.len() && (#[trigger] grants[i]).allows(verb, peer, folder, now);
            assert(more[i].allows(verb, peer, folder, now));
        }
    }
}

/// Adding a grant never takes authority away.
pub proof fn law_more_grants_never_deny(
    grants: Seq<GrantView>,
    extra: GrantView,
    caller: Seq<char>,
    needed: Capability,
    target: ScopeView,
    now: Timestamp,
)
    ensures
        authorised(grants.push(extra), caller, needed, target, now) <==> (authorised(
            grants,
            caller,
            needed,
            target,
            now,
        ) || extra.confers(caller, needed, target, now)),
{
    let more = grants.push(extra);
    assert(more[grants.len() as int] == extra);
    assert(forall|i: int| 0 <= i < grants.len() ==> more[i] == grants[i]);
    if authorised(grants, caller, needed, target, now) {
        let i = choose|i: int|
            0 <= i < grants.len() && (#[trigger] grants[i]).confers(caller, needed, target, now);
        assert(more[i].confers(caller, needed, target, now));
    }
}

/// With no grants nothing is authorised, and a grant to one device authorises
/// no other.
pub proof fn law_authority_is_closed_by_default(
    grants: Seq<GrantView>,
    caller: Seq<char>,
    needed: Capability,
    target: ScopeView,
    now: Timestamp,
)
    requires
        forall|i: int|
            0 <= i < grants.len() ==> (#[trigger] grants[i]).grantee != caller
                || grants[i].capability != needed,
    ensures
        !authorised(grants, caller, needed, target, now),
{
}

/// A dangerous capability is only ever authorised by a live grant of the caller
/// whose scope covers the target and is not node-wide. Over the whole node it
/// is never authorised.
pub proof fn law_dangerous_needs_an_explicit_folder(
    grants: Seq<GrantView>,
    caller: Seq<char>,
    needed: Capability,
    target: ScopeView,
    now: Timestamp,
)
    requires
        needed.dangerous(),
    ensures
        authorised(grants, caller, needed, target, now) ==> exists|i: int|
            0 <= i < grants.len() && (#[trigger] grants[i]).grantee == caller
                && grants[i].capability == needed && !grants[i].expired(now)
                && grants[i].scope.covers(target) && !grants[i].scope.node_wide(),
        !authorised(grants, caller, needed, ScopeView::Node, now),
{
    if authorised(grants, caller, needed, target, now) {
        let i = choose|i: int|
            0 <= i < grants.len() && (#[trigger] grants[i]).confers(caller, needed, target, now);
        assert(!grants[i].scope.node_wide());
    }
    if authorised(grants, caller, needed, ScopeView::Node, now) {
        let i = choose|i: int|
            0 <= i < grants.len() && (#[trigger] grants[i]).confers(
                caller,
                needed,
                ScopeView::Node,
                now,
            );
        assert(grants[i].scope is Node);
    }
}

/// Authority over a scope is authority over every scope it covers.
pub proof fn law_authority_reaches_covered_scopes(
    grants: Seq<GrantView>,
    caller: Seq<char>,
    needed: Capability,
    outer: ScopeView,
    inner: ScopeView,
    now: Timestamp,
)
    requires
        authorised(grants, caller, needed, outer, now),
        outer.covers(inner),
    ensures
        authorised(grants, caller, needed, inner, now),
{
    let i = choose|i: int|
        0 <= i < grants.len() && (#[trigger] grants[i]).confers(caller, needed, outer, now);
    crate::manage::scope::law_covers_is_transitive(grants[i].scope, outer, inner);
    assert(grants[i].confers(caller, needed, inner, now));
}

/// A grant lapses at the very instant of its expiry and never comes back.
pub proof fn law_expiry_is_final(g: GrantView, now: Timestamp, later: Timestamp)
    ensures
        g.expires == Some(now) ==> g.expired(now),
        g.expired(now) && later.at_or_after(now) ==> g.expired(later),
        g.expires is None ==> !g.expired(now),
{
}

/// A peer with no data grant for a folder and no remembered control keeps both
/// directions.
pub proof fn law_data_plane_is_open_by_default(
    grants: Seq<GrantView>,
    peer: Seq<char>,
    folder: Seq<char>,
    now: Timestamp,
    rows: Seq<ExplicitControlState>,
)
    requires
        forall|i: int| 0 <= i < grants.len() ==> !(#[trigger] grants[i]).controls(peer, folder),
        forall|i: int|
            0 <= i < rows.len() ==> (#[trigger] rows[i]).peer@ != peer || rows[i].folder@ != folder,
    ensures
        access(grants, peer, folder, now, rows) == (DataAccess { read: true, write: true }),
{
    lemma_no_row(rows, peer, folder);
}

/// Where no row matches, none is found.
proof fn lemma_no_row(rows: Seq<ExplicitControlState>, peer: Seq<char>, folder: Seq<char>)
    requires
        forall|i: int|
            0 <= i < rows.len() ==> (#[trigger] rows[i]).peer@ != peer || rows[i].folder@ != folder,
    ensures
        control_row(rows, peer, folder) is None,
    decreases rows.len(),
{
    if rows.len() > 0 {
        assert(rows[0].peer@ != peer || rows[0].folder@ != folder);
        assert forall|i: int| 0 <= i < rows.skip(1).len() implies (#[trigger] rows.skip(
            1,
        )[i]).peer@ != peer || rows.skip(1)[i].folder@ != folder by {
            assert(rows.skip(1)[i] == rows[i + 1]);
        }
        lemma_no_row(rows.skip(1), peer, folder);
    }
}

/// Any data grant for the folder, live or lapsed, narrows the peer to what its
/// live grants allow, whatever is remembered.
pub proof fn law_a_data_grant_narrows(
    grants: Seq<GrantView>,
    i: int,
    peer: Seq<char>,
    folder: Seq<char>,
    now: Timestamp,
    rows: Seq<ExplicitControlState>,
)
    requires
        0 <= i < grants.len(),
        grants[i].controls(peer, folder),
    ensures
        access(grants, peer, folder, now, rows).read <==> allowed(
            grants,
            Capability::DataRead,
            peer,
            folder,
            now,
        ),
        access(grants, peer, folder, now, rows).write <==> allowed(
            grants,
            Capability::DataWrite,
            peer,
            folder,
            now,
        ),
{
}

/// A grant to another peer, of another verb, over another folder, or over the
/// whole node does not touch the access of a peer to a folder.
pub proof fn law_unrelated_grants_do_not_touch_access(
    grants: Seq<GrantView>,
    extra: GrantView,
    peer: Seq<char>,
    folder: Seq<char>,
    now: Timestamp,
    rows: Seq<ExplicitControlState>,
)
    requires
        extra.grantee != peer || !extra.capability.data_verb() || !extra.scope.covers(
            ScopeView::Folder(folder),
        ) || extra.scope.node_wide(),
    ensures
        access(grants.push(extra), peer, folder, now, rows) == access(
            grants,
            peer,
            folder,
            now,
            rows,
        ),
{
    lemma_push(grants, extra, peer, folder, now);
}

/// What a verified token left behind decides for a peer whose data grants are
/// all gone, at every later time.
pub proof fn law_remembered_control_survives(
    grants: Seq<GrantView>,
    peer: Seq<char>,
    folder: Seq<char>,
    now: Timestamp,
    rows: Seq<ExplicitControlState>,
    state: DataAccess,
)
    requires
        !controlled(grants, peer, folder),
        control_row(rows, peer, folder) == Some(state),
    ensures
        access(grants, peer, folder, now, rows) == state,
{
}

/// A caller is authorised exactly where one of the grants is made out to it, is of
/// the capability it needs, has not reached its expiry, covers the target, and is
/// not a node-wide grant of a dangerous capability.
pub proof fn law_who_is_authorised(
    grants: Seq<GrantView>,
    caller: Seq<char>,
    needed: Capability,
    target: ScopeView,
    now: Timestamp,
)
    ensures
        authorised(grants, caller, needed, target, now) <==> exists|i: int|
            {
                &&& 0 <= i < grants.len()
                &&& (#[trigger] grants[i]).grantee == caller
                &&& grants[i].capability == needed
                &&& grants[i].expires matches Some(expiry) ==> !now.at_or_after(expiry)
                &&& grants[i].scope.covers(target)
                &&& needed.dangerous() ==> !grants[i].scope.node_wide()
            },
{
    if authorised(grants, caller, needed, target, now) {
        let i = choose|i: int|
            0 <= i < grants.len() && (#[trigger] grants[i]).confers(caller, needed, target, now);
        assert(grants[i].grantee == caller);
    }
    if exists|i: int|
        {
            &&& 0 <= i < grants.len()
            &&& (#[trigger] grants[i]).grantee == caller
            &&& grants[i].capability == needed
            &&& grants[i].expires matches Some(expiry) ==> !now.at_or_after(expiry)
            &&& grants[i].scope.covers(target)
            &&& needed.dangerous() ==> !grants[i].scope.node_wide()
        } {
        let i = choose|i: int|
            {
                &&& 0 <= i < grants.len()
                &&& (#[trigger] grants[i]).grantee == caller
                &&& grants[i].capability == needed
                &&& grants[i].expires matches Some(expiry) ==> !now.at_or_after(expiry)
                &&& grants[i].scope.covers(target)
                &&& needed.dangerous() ==> !grants[i].scope.node_wide()
            };
        assert(grants[i].confers(caller, needed, target, now));
    }
}

/// Where no data grant is the peer's for the folder, each direction is the one that
/// the first remembered row for the peer and the folder holds.
pub proof fn law_the_first_remembered_row_decides(
    grants: Seq<GrantView>,
    peer: Seq<char>,
    folder: Seq<char>,
    now: Timestamp,
    rows: Seq<ExplicitControlState>,
    i: int,
)
    requires
        forall|j: int|
            0 <= j < grants.len() ==> (#[trigger] grants[j]).grantee != peer || !(
            grants[j].capability == Capability::DataRead || grants[j].capability
                == Capability::DataWrite) || !grants[j].scope.covers(ScopeView::Folder(folder))
                || grants[j].scope.node_wide(),
        0 <= i < rows.len(),
        rows[i].peer@ == peer && rows[i].folder@ == folder,
        forall|k: int|
            0 <= k < i ==> (#[trigger] rows[k]).peer@ != peer || rows[k].folder@ != folder,
    ensures
        access(grants, peer, folder, now, rows).read == rows[i].data_read,
        access(grants, peer, folder, now, rows).write == rows[i].data_write,
{
    lemma_first_row(rows, peer, folder, i);
}

/// The first row for a peer and a folder is the one that is found.
proof fn lemma_first_row(
    rows: Seq<ExplicitControlState>,
    peer: Seq<char>,
    folder: Seq<char>,
    i: int,
)
    requires
        0 <= i < rows.len(),
        rows[i].peer@ == peer && rows[i].folder@ == folder,
        forall|k: int|
            0 <= k < i ==> (#[trigger] rows[k]).peer@ != peer || rows[k].folder@ != folder,
    ensures
        control_row(rows, peer, folder) matches Some(found) && found.read == rows[i].data_read
            && found.write == rows[i].data_write,
    decreases i,
{
    if i > 0 {
        let rest = rows.skip(1);
        assert(rows[0].peer@ != peer || rows[0].folder@ != folder);
        assert(rest[i - 1] == rows[i]);
        assert forall|k: int| 0 <= k < i - 1 implies (#[trigger] rest[k]).peer@ != peer
            || rest[k].folder@ != folder by {
            assert(rest[k] == rows[k + 1]);
        }
        lemma_first_row(rest, peer, folder, i - 1);
    }
}

/// Where some data grant, live or lapsed, is the peer's for the folder, the peer
/// may read exactly where a live one of them is `data:read`, and write exactly
/// where a live one is `data:write`.
pub proof fn law_access_is_what_live_data_grants_give(
    grants: Seq<GrantView>,
    j: int,
    peer: Seq<char>,
    folder: Seq<char>,
    now: Timestamp,
    rows: Seq<ExplicitControlState>,
)
    requires
        0 <= j < grants.len(),
        grants[j].grantee == peer,
        grants[j].capability == Capability::DataRead || grants[j].capability
            == Capability::DataWrite,
        grants[j].scope.covers(ScopeView::Folder(folder)),
        !grants[j].scope.node_wide(),
    ensures
        access(grants, peer, folder, now, rows).read <==> exists|i: int|
            {
                &&& 0 <= i < grants.len()
                &&& (#[trigger] grants[i]).grantee == peer
                &&& grants[i].capability == Capability::DataRead
                &&& grants[i].scope.covers(ScopeView::Folder(folder))
                &&& !grants[i].scope.node_wide()
                &&& grants[i].expires matches Some(expiry) ==> !now.at_or_after(expiry)
            },
        access(grants, peer, folder, now, rows).write <==> exists|i: int|
            {
                &&& 0 <= i < grants.len()
                &&& (#[trigger] grants[i]).grantee == peer
                &&& grants[i].capability == Capability::DataWrite
                &&& grants[i].scope.covers(ScopeView::Folder(folder))
                &&& !grants[i].scope.node_wide()
                &&& grants[i].expires matches Some(expiry) ==> !now.at_or_after(expiry)
            },
{
    assert(grants[j].controls(peer, folder));
    lemma_allowed_in_full(grants, Capability::DataRead, peer, folder, now);
    lemma_allowed_in_full(grants, Capability::DataWrite, peer, folder, now);
}

/// What it takes for some grant to allow a data verb.
proof fn lemma_allowed_in_full(
    grants: Seq<GrantView>,
    verb: Capability,
    peer: Seq<char>,
    folder: Seq<char>,
    now: Timestamp,
)
    requires
        verb == Capability::DataRead || verb == Capability::DataWrite,
    ensures
        allowed(grants, verb, peer, folder, now) <==> exists|i: int|
            {
                &&& 0 <= i < grants.len()
                &&& (#[trigger] grants[i]).grantee == peer
                &&& grants[i].capability == verb
                &&& grants[i].scope.covers(ScopeView::Folder(folder))
                &&& !grants[i].scope.node_wide()
                &&& grants[i].expires matches Some(expiry) ==> !now.at_or_after(expiry)
            },
{
    assert forall|i: int| 0 <= i < grants.len() implies (#[trigger] grants[i]).allows(
        verb,
        peer,
        folder,
        now,
    ) == {
        &&& grants[i].grantee == peer
        &&& grants[i].capability == verb
        &&& grants[i].scope.covers(ScopeView::Folder(folder))
        &&& !grants[i].scope.node_wide()
        &&& grants[i].expires matches Some(expiry) ==> !now.at_or_after(expiry)
    } by {}
}

/// What a grant, a declared scope and a list of grants stand for leaves nothing
/// out: each field is the one of the grant.
pub proof fn law_a_view_holds_every_field(grants: Seq<Grant>, i: int)
    requires
        0 <= i < grants.len(),
    ensures
        grant_views(grants).len() == grants.len(),
        grant_views(grants)[i].grantee == grants[i].grantee@,
        grant_views(grants)[i].capability == grants[i].capability,
        grant_views(grants)[i].scope == grants[i].scope@,
        grant_views(grants)[i].granted_by == grants[i].granted_by@,
        grant_views(grants)[i].expires == grants[i].expires,
{
}

/// A declared grant is built exactly where its capability is known and its expiry, if
/// it has one, reads as a time. It is then made out as declared, by the owner, and
/// expires where it is declared to and never where it is not.
pub proof fn law_a_declared_grant_is_built_as_declared(
    r: Result<Grant, GrantConfigError>,
    config: GrantConfig,
    granted_by: Seq<char>,
    capability: Capability,
)
    requires
        declared_grant_outcome(r, config, granted_by),
    ensures
        config.capability@ == capability.wire() ==> (r is Ok <==> (config.expires matches Some(raw)
            ==> time::rfc3339(raw@) is Ok)),
        r matches Ok(g) ==> {
            &&& g.grantee@ == config.grantee@
            &&& g.capability.wire() == config.capability@
            &&& g.granted_by@ == granted_by
            &&& config.scope is Node ==> g.scope@ is Node
            &&& config.scope matches ScopeConfig::Folder { path } ==> g.scope@
                == ScopeView::Folder(path@)
            &&& config.expires is None <==> g.expires is None
            &&& config.expires matches Some(raw) ==> (g.expires matches Some(at) && time::rfc3339(
                raw@,
            ) == Ok::<(i64, u32), Seq<char>>((at.spec_secs(), at.spec_nanos())))
        },
        r matches Err(GrantConfigError::UnknownCapability { capability: name }) ==> name@
            == config.capability@ && name@ != capability.wire(),
        r matches Err(GrantConfigError::BadExpiry { raw, .. }) ==> config.expires matches Some(
            declared,
        ) && raw@ == declared@,
{
    crate::manage::law_wire_round_trip(capability);
}

/// The text of a declared grant that cannot be built names the capability or the expiry
/// as it was declared.
pub proof fn law_a_refused_declaration_names_its_fault(declared: String, reason: String)
    ensures
        declared@.is_suffix_of(
            (GrantConfigError::UnknownCapability { capability: declared }).text(),
        ),
        declared@.is_suffix_of((GrantConfigError::BadExpiry { raw: declared, reason }).text()),
        "unknown capability"@.is_prefix_of(
            (GrantConfigError::UnknownCapability { capability: declared }).text(),
        ),
        "parsing grant expiry timestamp"@.is_prefix_of(
            (GrantConfigError::BadExpiry { raw: declared, reason }).text(),
        ),
{
    reveal_strlit("unknown capability");
    reveal_strlit("unknown capability in grant config: ");
    reveal_strlit("parsing grant expiry timestamp");
    reveal_strlit("parsing grant expiry timestamp: ");
    let a = (GrantConfigError::UnknownCapability { capability: declared }).text();
    let b = (GrantConfigError::BadExpiry { raw: declared, reason }).text();
    assert(a.subrange(a.len() - declared@.len(), a.len() as int) =~= declared@);
    assert(b.subrange(b.len() - declared@.len(), b.len() as int) =~= declared@);
    assert(a.subrange(0, 18) =~= "unknown capability"@);
    assert(b.subrange(0, 30) =~= "parsing grant expiry timestamp"@);
}

/// A grant without a declared expiry has none, and one with it expires at the very
/// instant that the text names.
pub proof fn law_an_expiry_is_the_one_declared(raw: Seq<char>, at: Timestamp)
    ensures
        expiry_of(None, None),
        !expiry_of(None, Some(at)),
        !expiry_of(Some(raw), None),
        expiry_of(Some(raw), Some(at)) <==> time::rfc3339(raw) == Ok::<(i64, u32), Seq<char>>(
            (at.spec_secs(), at.spec_nanos()),
        ),
{
}

} // verus!
