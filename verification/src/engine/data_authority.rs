//! Data-plane authority: the access a peer has to a folder.

use vstd::prelude::*;

use crate::db::{ExplicitControlRecord, QuarantineRecord};
use crate::manage::grant;
use crate::manage::{
    data_access_with_explicit_control, Capability, DataAccess, DeviceId, ExplicitControlState,
    Grant, GrantView, Scope, ScopeView,
};
use crate::time::Timestamp;

verus! {

/// The rows of remembered control that the decision reads.
pub open spec fn control_rows(records: Seq<ExplicitControlRecord>) -> Seq<ExplicitControlState> {
    records.map_values(
        |record: ExplicitControlRecord|
            ExplicitControlState {
                peer: record.peer_device,
                folder: record.folder_id,
                data_read: record.data_read,
                data_write: record.data_write,
            },
    )
}

/// The rows of remembered control that the decision reads.
pub fn control_states(records: &Vec<ExplicitControlRecord>) -> (r: Vec<ExplicitControlState>)
    ensures
        r@ == control_rows(records@),
{
    let mut out: Vec<ExplicitControlState> = Vec::new();
    let mut i: usize = 0;
    while i < records.len()
        invariant
            i <= records@.len(),
            out@ == control_rows(records@.take(i as int)),
        decreases records@.len() - i,
    {
        let record: &ExplicitControlRecord = &records[i];
        out.push(
            ExplicitControlState {
                peer: record.peer_device.clone(),
                folder: record.folder_id.clone(),
                data_read: record.data_read,
                data_write: record.data_write,
            },
        );
        assert(out@ =~= control_rows(records@.take(i + 1)));
        i += 1;
    }
    assert(records@.take(i as int) == records@);
    out
}

/// The grants that count: those held on this node, with the one that a presented
/// token confers.
pub open spec fn with_token(grants: Seq<GrantView>, token_grant: Option<GrantView>) -> Seq<
    GrantView,
> {
    match token_grant {
        Some(g) => grants.push(g),
        None => grants,
    }
}

/// The grant that a token confers, if any.
pub open spec fn conferred(token_grant: Option<Grant>) -> Option<GrantView> {
    match token_grant {
        Some(g) => Some(g@),
        None => None,
    }
}

/// The directions that a token's grant puts under explicit control of `folder`; none
/// where the grant is not about that folder.
pub open spec fn control_of(g: GrantView, folder: Seq<char>) -> Option<DataAccess> {
    if g.scope.covers(ScopeView::Folder(folder)) {
        Some(
            DataAccess {
                read: g.capability == Capability::DataRead,
                write: g.capability == Capability::DataWrite,
            },
        )
    } else {
        None
    }
}

/// The directions that a verified token puts under explicit control of `folder`,
/// to be remembered for the peer before the decision is made; none for a folder
/// that the token is not about.
pub fn control_for_folder(token_grant: &Grant, folder: &str) -> (r: Option<DataAccess>)
    ensures
        r == control_of(token_grant@, folder@),
        r is Some <==> token_grant@.scope.covers(ScopeView::Folder(folder@)),
        r matches Some(control) ==> control.read == (token_grant.capability
            == Capability::DataRead) && control.write == (token_grant.capability
            == Capability::DataWrite),
{
    if !token_grant.scope.covers(&Scope::folder(folder)) {
        return None;
    }
    Some(
        DataAccess {
            read: token_grant.capability == Capability::DataRead,
            write: token_grant.capability == Capability::DataWrite,
        },
    )
}

/// The access a peer has to a folder: its data grants, with the one that a
/// presented token confers, judged beside what is remembered of earlier tokens.
pub fn resolve_access(
    grants: Vec<Grant>,
    token_grant: Option<Grant>,
    peer: &DeviceId,
    folder: &str,
    now: Timestamp,
    records: &Vec<ExplicitControlRecord>,
) -> (r: DataAccess)
    ensures
        r == grant::access(
            with_token(grant::grant_views(grants@), conferred(token_grant)),
            peer@,
            folder@,
            now,
            control_rows(records@),
        ),
{
    let ghost held = grants@;
    let mut grants: Vec<Grant> = grants;
    if let Some(g) = token_grant {
        grants.push(g);
        assert(grant::grant_views(grants@) =~= grant::grant_views(held).push(g@));
    }
    let rows: Vec<ExplicitControlState> = control_states(records);
    data_access_with_explicit_control(grants.as_slice(), peer, folder, now, rows.as_slice())
}

/// A presented token never widens access: a direction that is open with it was
/// open without it, or is the one the token was issued for.
pub proof fn law_a_token_never_widens_access(
    grants: Seq<GrantView>,
    token_grant: GrantView,
    peer: Seq<char>,
    folder: Seq<char>,
    now: Timestamp,
    rows: Seq<ExplicitControlState>,
)
    ensures
        ({
            let before = grant::access(grants, peer, folder, now, rows);
            let after = grant::access(grants.push(token_grant), peer, folder, now, rows);
            &&& after.read ==> before.read || token_grant.capability == Capability::DataRead
            &&& after.write ==> before.write || token_grant.capability == Capability::DataWrite
        }),
{
    let more = grants.push(token_grant);
    if grant::controlled(grants, peer, folder) {
        let i = choose|i: int|
            0 <= i < grants.len() && (#[trigger] grants[i]).controls(peer, folder);
        assert(more[i].controls(peer, folder));
        lemma_new_direction(grants, token_grant, Capability::DataRead, peer, folder, now);
        lemma_new_direction(grants, token_grant, Capability::DataWrite, peer, folder, now);
    } else if grant::controlled(more, peer, folder) {
        assert forall|verb: Capability| #[trigger]
            grant::allowed(more, verb, peer, folder, now) implies token_grant.capability == verb by {
            let i = choose|i: int|
                0 <= i < more.len() && (#[trigger] more[i]).allows(verb, peer, folder, now);
            if i < grants.len() {
                assert(grants[i] == more[i]);
                assert(!grants[i].controls(peer, folder));
            }
        }
    }
}

/// A token for one folder leaves every other folder as it was: where its scope
/// does not cover a folder, presenting it changes nothing there.
pub proof fn law_a_token_touches_only_its_folder(
    grants: Seq<GrantView>,
    token_grant: GrantView,
    peer: Seq<char>,
    folder: Seq<char>,
    now: Timestamp,
    rows: Seq<ExplicitControlState>,
)
    requires
        !token_grant.scope.covers(ScopeView::Folder(folder)),
    ensures
        grant::access(grants.push(token_grant), peer, folder, now, rows) == grant::access(
            grants,
            peer,
            folder,
            now,
            rows,
        ),
{
    let more = grants.push(token_grant);
    assert(!token_grant.controls(peer, folder));
    if grant::controlled(more, peer, folder) {
        let i = choose|i: int|
            0 <= i < more.len() && (#[trigger] more[i]).controls(peer, folder);
        assert(grants[i].controls(peer, folder));
    }
    if grant::controlled(grants, peer, folder) {
        let i = choose|i: int|
            0 <= i < grants.len() && (#[trigger] grants[i]).controls(peer, folder);
        assert(more[i].controls(peer, folder));
    }
    assert forall|verb: Capability| #[trigger]
        grant::allowed(more, verb, peer, folder, now) == grant::allowed(
            grants,
            verb,
            peer,
            folder,
            now,
        ) by {
        if grant::allowed(more, verb, peer, folder, now) {
            let i = choose|i: int|
                0 <= i < more.len() && (#[trigger] more[i]).allows(verb, peer, folder, now);
            assert(grants[i].allows(verb, peer, folder, now));
        }
        if grant::allowed(grants, verb, peer, folder, now) {
            let i = choose|i: int|
                0 <= i < grants.len() && (#[trigger] grants[i]).allows(verb, peer, folder, now);
            assert(more[i].allows(verb, peer, folder, now));
        }
    }
}

/// A direction that only the grant of the token opens is the one it was issued
/// for.
proof fn lemma_new_direction(
    grants: Seq<GrantView>,
    token_grant: GrantView,
    verb: Capability,
    peer: Seq<char>,
    folder: Seq<char>,
    now: Timestamp,
)
    ensures
        grant::allowed(grants.push(token_grant), verb, peer, folder, now) ==> grant::allowed(
            grants,
            verb,
            peer,
            folder,
            now,
        ) || token_grant.capability == verb,
{
    let more = grants.push(token_grant);
    if grant::allowed(more, verb, peer, folder, now) {
        let i = choose|i: int|
            0 <= i < more.len() && (#[trigger] more[i]).allows(verb, peer, folder, now);
        if i < grants.len() {
            assert(grants[i].allows(verb, peer, folder, now));
        }
    }
}

/// A proposal that a peer may not make, to be kept for the operator.
pub fn quarantined(
    peer: &DeviceId,
    folder: &str,
    path: &str,
    file_json: &str,
    observed_at: Timestamp,
) -> (r: QuarantineRecord)
    ensures
        r.folder_id@ == folder@,
        r.peer_device@ == peer@,
        r.path@ == path@,
        r.file_json@ == file_json@,
        r.observed_at == observed_at,
{
    QuarantineRecord {
        folder_id: folder.to_owned(),
        peer_device: peer.as_str().to_owned(),
        path: path.to_owned(),
        file_json: file_json.to_owned(),
        observed_at,
    }
}

/// What a data token leaves behind for its folder is what it gave while it was live:
/// reading for `data:read`, writing for `data:write`, and not the other direction.
/// The peer keeps exactly that once the token is gone.
pub proof fn law_a_token_leaves_behind_what_it_gave(
    token_grant: GrantView,
    folder: Seq<char>,
    now: Timestamp,
    later: Timestamp,
    row: ExplicitControlState,
)
    requires
        token_grant.capability == Capability::DataRead || token_grant.capability
            == Capability::DataWrite,
        token_grant.scope.covers(ScopeView::Folder(folder)),
        !token_grant.scope.node_wide(),
        token_grant.expires matches Some(expiry) ==> !now.at_or_after(expiry),
        row.peer@ == token_grant.grantee,
        row.folder@ == folder,
        control_of(token_grant, folder) matches Some(control) && row.data_read == control.read
            && row.data_write == control.write,
    ensures
        ({
            let live = grant::access(
                with_token(Seq::empty(), Some(token_grant)),
                token_grant.grantee,
                folder,
                now,
                Seq::empty(),
            );
            let gone = grant::access(
                with_token(Seq::empty(), None),
                token_grant.grantee,
                folder,
                later,
                seq![row],
            );
            &&& live == gone
            &&& live.read <==> token_grant.capability == Capability::DataRead
            &&& live.write <==> token_grant.capability == Capability::DataWrite
        }),
{
    let none = Seq::<GrantView>::empty();
    let held = none.push(token_grant);
    let rows = seq![row];
    assert(held[0] == token_grant);
    assert(rows[0] == row);
    grant::law_access_is_what_live_data_grants_give(
        held,
        0,
        token_grant.grantee,
        folder,
        now,
        Seq::empty(),
    );
    grant::law_the_first_remembered_row_decides(
        none,
        token_grant.grantee,
        folder,
        later,
        rows,
        0,
    );
}

/// A token adds its own grant, last, to those held on the node, and no token adds
/// none. Each stored row is read as it stands, in order.
pub proof fn law_grants_and_rows_are_read_as_they_stand(
    grants: Seq<GrantView>,
    token: Grant,
    records: Seq<ExplicitControlRecord>,
    i: int,
)
    requires
        0 <= i < records.len(),
    ensures
        with_token(grants, conferred(Some(token))) == grants.push(token@),
        with_token(grants, conferred(None)) == grants,
        control_rows(records).len() == records.len(),
        control_rows(records)[i].peer == records[i].peer_device,
        control_rows(records)[i].folder == records[i].folder_id,
        control_rows(records)[i].data_read == records[i].data_read,
        control_rows(records)[i].data_write == records[i].data_write,
{
}

} // verus!
