//! Delegating grants: what a caller may hand on, and for how long.

use vstd::prelude::*;

use crate::manage::command::ManageGrant;
use crate::manage::dispatch;
use crate::manage::grant;
use crate::manage::{Capability, DeviceId, Grant, GrantView, Scope, ScopeView};
use crate::text;
use crate::time;
use crate::time::Timestamp;

verus! {

/// How long a delegated grant may live.
#[derive(Debug, Clone, Copy, PartialEq, Eq, Structural)]
pub enum ExpiryBound {
    /// As long as is asked for.
    Unbounded,
    /// Until this instant at the latest.
    NoLaterThan(Timestamp),
}

impl ExpiryBound {
    /// The requested expiry, pulled down to the bound.
    pub open spec fn clamped(self, requested: Option<Timestamp>) -> Option<Timestamp> {
        match self {
            ExpiryBound::Unbounded => requested,
            ExpiryBound::NoLaterThan(limit) => match requested {
                None => Some(limit),
                Some(at) => if limit.at_or_after(at) {
                    Some(at)
                } else {
                    Some(limit)
                },
            },
        }
    }

    /// Clamp a requested expiry to this bound.
    pub fn clamp(self, requested: Option<Timestamp>) -> (r: Option<Timestamp>)
        ensures
            r == self.clamped(requested),
    {
        match self {
            ExpiryBound::Unbounded => requested,
            ExpiryBound::NoLaterThan(limit) => match requested {
                None => Some(limit),
                Some(at) => Some(at.earlier(limit)),
            },
        }
    }
}

/// Whether a delegation is permitted.
#[derive(Debug, Clone, Copy, PartialEq, Eq, Structural)]
pub enum Delegation {
    /// It is, with this bound on its expiry.
    Permitted(ExpiryBound),
    /// It is not: it would hand on more than the caller holds.
    Refused,
}

/// Whether the grant at `i` backs handing on `capability` over `delegated`: it
/// is the caller's, of that capability, covers that scope, and the caller may
/// exercise the capability over the grant's own scope.
pub open spec fn backs(
    grants: Seq<GrantView>,
    i: int,
    caller: Seq<char>,
    capability: Capability,
    delegated: ScopeView,
    now: Timestamp,
) -> bool {
    &&& grants[i].grantee == caller
    &&& grants[i].capability == capability
    &&& grants[i].scope.covers(delegated)
    &&& grant::authorised(grants, caller, capability, grants[i].scope, now)
}

/// Whether `d` is the answer to handing on `capability` over `delegated`:
/// refused where no grant backs it, else bounded by the latest expiry of the
/// grants that do, or unbounded where one of them never expires.
pub open spec fn delegation_of(
    d: Delegation,
    grants: Seq<GrantView>,
    caller: Seq<char>,
    capability: Capability,
    delegated: ScopeView,
    now: Timestamp,
) -> bool {
    match d {
        Delegation::Refused => forall|i: int|
            0 <= i < grants.len() ==> !#[trigger] backs(
                grants,
                i,
                caller,
                capability,
                delegated,
                now,
            ),
        Delegation::Permitted(ExpiryBound::Unbounded) => exists|i: int|
            0 <= i < grants.len() && #[trigger] backs(
                grants,
                i,
                caller,
                capability,
                delegated,
                now,
            ) && grants[i].expires is None,
        Delegation::Permitted(ExpiryBound::NoLaterThan(limit)) => {
            &&& exists|i: int|
                0 <= i < grants.len() && #[trigger] backs(
                    grants,
                    i,
                    caller,
                    capability,
                    delegated,
                    now,
                ) && grants[i].expires == Some(limit)
            &&& forall|i: int|
                0 <= i < grants.len() && #[trigger] backs(
                    grants,
                    i,
                    caller,
                    capability,
                    delegated,
                    now,
                ) ==> (grants[i].expires matches Some(e) && limit.at_or_after(e))
        },
    }
}

/// Whether `d` is the answer to a request to delegate: refused for an unknown
/// capability.
pub open spec fn delegation_for(
    d: Delegation,
    grants: Seq<GrantView>,
    caller: Seq<char>,
    delegated: ManageGrant,
    now: Timestamp,
) -> bool {
    match Capability::named(delegated.capability@) {
        None => d is Refused,
        Some(c) => delegation_of(d, grants, caller, c, delegated.scope@, now),
    }
}

/// Whether `caller` may delegate `delegated`: it must be wholly contained in
/// authority the caller can itself exercise.
pub fn caller_can_delegate(
    grants: &[Grant],
    caller: &DeviceId,
    delegated: &ManageGrant,
    now: Timestamp,
) -> (r: Delegation)
    ensures
        delegation_for(r, grant::grant_views(grants@), caller@, *delegated, now),
{
    let capability: Capability = match Capability::from_wire(delegated.capability.as_str()) {
        Some(c) => c,
        None => {
            return Delegation::Refused;
        },
    };
    let scope: Scope = dispatch::scope_from_wire(&delegated.scope);
    let ghost views = grant::grant_views(grants@);
    let mut latest: Option<Timestamp> = None;
    let mut i: usize = 0;
    while i < grants.len()
        invariant
            i <= grants@.len(),
            views == grant::grant_views(grants@),
            scope@ == delegated.scope@,
            Capability::named(delegated.capability@) == Some(capability),
            match latest {
                None => forall|j: int|
                    0 <= j < i ==> !#[trigger] backs(
                        views,
                        j,
                        caller@,
                        capability,
                        scope@,
                        now,
                    ),
                Some(limit) => {
                    &&& exists|j: int|
                        0 <= j < i && #[trigger] backs(
                            views,
                            j,
                            caller@,
                            capability,
                            scope@,
                            now,
                        ) && views[j].expires == Some(limit)
                    &&& forall|j: int|
                        0 <= j < i && #[trigger] backs(
                            views,
                            j,
                            caller@,
                            capability,
                            scope@,
                            now,
                        ) ==> (views[j].expires matches Some(e) && limit.at_or_after(e))
                },
            },
        decreases grants@.len() - i,
    {
        let held: &Grant = &grants[i];
        assert(views[i as int] == held@);
        if held.grantee.same(caller) && held.capability == capability && held.scope.covers(&scope)
            && grant::authorises(grants, caller, capability, &held.scope, now) {
            assert(backs(views, i as int, caller@, capability, scope@, now));
            match held.expires {
                None => {
                    return Delegation::Permitted(ExpiryBound::Unbounded);
                },
                Some(expiry) => {
                    latest = match latest {
                        None => Some(expiry),
                        Some(current) => {
                            proof {
                                time::lemma_order_total(expiry, current);
                            }
                            if current.is_at_or_after(&expiry) {
                                Some(current)
                            } else {
                                Some(expiry)
                            }
                        },
                    };
                },
            }
        }
        i += 1;
    }
    match latest {
        None => Delegation::Refused,
        Some(limit) => Delegation::Permitted(ExpiryBound::NoLaterThan(limit)),
    }
}

/// Why a delegated grant could not be built.
#[derive(Debug, PartialEq, Eq)]
pub enum DelegatedGrantError {
    /// The capability identifier is not one of the vocabulary.
    UnknownCapability {
        /// The identifier as it arrived.
        identifier: String,
    },
    /// A dangerous capability or a data verb over a wildcard scope.
    WildcardScope {
        /// The capability.
        capability: Capability,
    },
    /// The expiry is not an RFC 3339 timestamp.
    BadExpiry {
        /// The expiry as it arrived.
        raw: String,
        /// Why it does not parse.
        reason: String,
    },
}

impl DelegatedGrantError {
    /// The message of the error.
    pub open spec fn text(self) -> Seq<char> {
        match self {
            DelegatedGrantError::UnknownCapability { identifier } =>
                "unknown capability in delegated grant: "@ + identifier@,
            DelegatedGrantError::WildcardScope { capability } => "capability `"@
                + capability.wire()
                + "` cannot be granted over a wildcard scope; name an explicit folder (data verbs are folder-scoped, not node-wide)"@,
            DelegatedGrantError::BadExpiry { raw, reason } => "parsing delegated grant expiry "@
                + raw@ + ": "@ + reason@,
        }
    }

    /// The message of the error.
    pub fn message(&self) -> (r: String)
        ensures
            r@ == self.text(),
    {
        match self {
            DelegatedGrantError::UnknownCapability { identifier } => {
                let mut m: String = "unknown capability in delegated grant: ".to_owned();
                m.append(identifier.as_str());
                m
            },
            DelegatedGrantError::WildcardScope { capability } => {
                let mut m: String = "capability `".to_owned();
                m.append(capability.as_wire());
                m.append(
                    "` cannot be granted over a wildcard scope; name an explicit folder (data verbs are folder-scoped, not node-wide)",
                );
                m
            },
            DelegatedGrantError::BadExpiry { raw, reason } => {
                let mut m: String = "parsing delegated grant expiry ".to_owned();
                m.append(raw.as_str());
                m.append(": ");
                m.append(reason.as_str());
                m
            },
        }
    }
}

/// Whether a capability may not be granted over this scope: a dangerous one or
/// a data verb over a wildcard.
pub open spec fn wildcard_barred(capability: Capability, scope: ScopeView) -> bool {
    scope.node_wide() && (capability.dangerous() || capability.data_verb())
}

/// Whether `r` is what building the grant `wire` asks for gives.
pub open spec fn wire_grant_outcome(
    r: Result<Grant, DelegatedGrantError>,
    wire: ManageGrant,
    granted_by: Seq<char>,
    bound: ExpiryBound,
) -> bool {
    match r {
        Ok(g) => {
            &&& Capability::named(wire.capability@) == Some(g.capability)
            &&& !wildcard_barred(g.capability, wire.scope@)
            &&& g.grantee@ == wire.grantee@
            &&& g.scope@ == wire.scope@
            &&& g.granted_by@ == granted_by
            &&& exists|requested: Option<Timestamp>|
                #![trigger bound.clamped(requested)]
                grant::expiry_of(text::opt_text(wire.expires), requested) && g.expires
                    == bound.clamped(requested)
        },
        Err(DelegatedGrantError::UnknownCapability { identifier }) => {
            &&& Capability::named(wire.capability@) is None
            &&& identifier@ == wire.capability@
        },
        Err(DelegatedGrantError::WildcardScope { capability }) => {
            &&& Capability::named(wire.capability@) == Some(capability)
            &&& wildcard_barred(capability, wire.scope@)
        },
        Err(DelegatedGrantError::BadExpiry { raw, reason }) => {
            &&& Capability::named(wire.capability@) matches Some(c)
            &&& !wildcard_barred(c, wire.scope@)
            &&& text::opt_text(wire.expires) == Some(raw@)
            &&& time::rfc3339(raw@) == Err::<(i64, u32), Seq<char>>(reason@)
        },
    }
}

/// Build the grant that `wire` asks for, granted by the authenticated caller
/// and living no longer than `bound` lets it.
pub fn grant_from_wire(wire: &ManageGrant, granted_by: &DeviceId, bound: ExpiryBound) -> (r: Result<
    Grant,
    DelegatedGrantError,
>)
    ensures
        wire_grant_outcome(r, *wire, granted_by@, bound),
{
    let capability: Capability = match Capability::from_wire(wire.capability.as_str()) {
        Some(c) => c,
        None => {
            return Err(
                DelegatedGrantError::UnknownCapability { identifier: wire.capability.clone() },
            );
        },
    };
    let scope: Scope = dispatch::scope_from_wire(&wire.scope);
    if scope.is_node_wide() && (capability.is_dangerous() || capability.is_data_verb()) {
        return Err(DelegatedGrantError::WildcardScope { capability });
    }
    let requested: Option<Timestamp> = match &wire.expires {
        None => None,
        Some(raw) => match Timestamp::parse(raw.as_str()) {
            Ok(at) => Some(at),
            Err(reason) => {
                return Err(DelegatedGrantError::BadExpiry { raw: raw.clone(), reason });
            },
        },
    };
    assert(grant::expiry_of(text::opt_text(wire.expires), requested));
    let expires: Option<Timestamp> = bound.clamp(requested);
    Ok(
        Grant {
            grantee: DeviceId::new(wire.grantee.as_str()),
            capability,
            scope,
            granted_by: granted_by.clone(),
            expires,
        },
    )
}

/// A permitted delegation hands on no more than the caller can itself exercise:
/// the caller is authorised over every scope the delegated one covers.
pub proof fn law_delegation_never_escalates(
    d: Delegation,
    grants: Seq<GrantView>,
    caller: Seq<char>,
    delegated: ManageGrant,
    target: ScopeView,
    now: Timestamp,
)
    requires
        delegation_for(d, grants, caller, delegated, now),
        d is Permitted,
        delegated.scope@.covers(target),
    ensures
        Capability::named(delegated.capability@) matches Some(c) && grant::authorised(
            grants,
            caller,
            c,
            target,
            now,
        ),
{
    let c = Capability::named(delegated.capability@)->0;
    let i = choose|i: int|
        0 <= i < grants.len() && #[trigger] backs(grants, i, caller, c, delegated.scope@, now);
    assert(0 <= i < grants.len() && backs(grants, i, caller, c, delegated.scope@, now)) by {
        match d {
            Delegation::Permitted(ExpiryBound::Unbounded) => {
                let j = choose|j: int|
                    0 <= j < grants.len() && #[trigger] backs(
                        grants,
                        j,
                        caller,
                        c,
                        delegated.scope@,
                        now,
                    ) && grants[j].expires is None;
                assert(backs(grants, j, caller, c, delegated.scope@, now));
            },
            Delegation::Permitted(ExpiryBound::NoLaterThan(limit)) => {
                let j = choose|j: int|
                    0 <= j < grants.len() && #[trigger] backs(
                        grants,
                        j,
                        caller,
                        c,
                        delegated.scope@,
                        now,
                    ) && grants[j].expires == Some(limit);
                assert(backs(grants, j, caller, c, delegated.scope@, now));
            },
            Delegation::Refused => {},
        }
    }
    crate::manage::scope::law_covers_is_transitive(grants[i].scope, delegated.scope@, target);
    grant::law_authority_reaches_covered_scopes(grants, caller, c, grants[i].scope, target, now);
}

/// A delegated grant never outlives the authority it derives from: some grant
/// that backs it lives at least as long.
pub proof fn law_delegate_never_outlives_its_backing(
    bound: ExpiryBound,
    grants: Seq<GrantView>,
    caller: Seq<char>,
    capability: Capability,
    delegated: ScopeView,
    requested: Option<Timestamp>,
    now: Timestamp,
)
    requires
        delegation_of(
            Delegation::Permitted(bound),
            grants,
            caller,
            capability,
            delegated,
            now,
        ),
    ensures
        exists|i: int|
            0 <= i < grants.len() && #[trigger] backs(
                grants,
                i,
                caller,
                capability,
                delegated,
                now,
            ) && (grants[i].expires matches Some(e) ==> (bound.clamped(requested) matches Some(
                at,
            ) && e.at_or_after(at))),
{
    match bound {
        ExpiryBound::Unbounded => {},
        ExpiryBound::NoLaterThan(limit) => {
            let i = choose|i: int|
                0 <= i < grants.len() && #[trigger] backs(
                    grants,
                    i,
                    caller,
                    capability,
                    delegated,
                    now,
                ) && grants[i].expires == Some(limit);
            assert(backs(grants, i, caller, capability, delegated, now));
        },
    }
}

/// A node-wide grant of a dangerous capability cannot be laundered into a
/// delegation: it never backs one.
pub proof fn law_wildcard_dangerous_grant_backs_nothing(
    grants: Seq<GrantView>,
    i: int,
    caller: Seq<char>,
    capability: Capability,
    delegated: ScopeView,
    now: Timestamp,
)
    requires
        0 <= i < grants.len(),
        capability.dangerous(),
        grants[i].scope.node_wide(),
    ensures
        !backs(grants, i, caller, capability, delegated, now),
{
    if backs(grants, i, caller, capability, delegated, now) {
        let wide = grants[i].scope;
        let j = choose|j: int|
            0 <= j < grants.len() && (#[trigger] grants[j]).confers(caller, capability, wide, now);
        if let ScopeView::Folder(path) = wide {
            if let ScopeView::Folder(other) = grants[j].scope {
                crate::manage::scope::law_node_wide_covers_every_folder(wide, other);
            }
        }
    }
}

/// A clamped expiry is the requested one where that is early enough, and else the
/// limit: it is never after either, and is always one of them. Without a limit
/// nothing is changed.
pub proof fn law_a_clamped_expiry_is_the_earlier_one(
    bound: ExpiryBound,
    requested: Option<Timestamp>,
)
    ensures
        bound is Unbounded ==> bound.clamped(requested) == requested,
        bound matches ExpiryBound::NoLaterThan(limit) ==> {
            &&& bound.clamped(requested) matches Some(at) && limit.at_or_after(at)
            &&& requested matches Some(asked) ==> asked.at_or_after(bound.clamped(requested)->0)
            &&& bound.clamped(requested) == Some(limit) || bound.clamped(requested) == requested
        },
{
    if let ExpiryBound::NoLaterThan(limit) = bound {
        if let Some(asked) = requested {
            time::lemma_order_total(limit, asked);
            time::lemma_order_total(asked, asked);
        }
        time::lemma_order_total(limit, limit);
    }
}

/// A delegation is permitted exactly where some grant of the caller has the
/// capability and covers the scope to be handed on, and the caller can exercise the
/// capability over all of that grant's own scope.
pub proof fn law_a_delegation_needs_a_backing_grant(
    d: Delegation,
    grants: Seq<GrantView>,
    caller: Seq<char>,
    delegated: ManageGrant,
    now: Timestamp,
)
    requires
        delegation_for(d, grants, caller, delegated, now),
    ensures
        d is Permitted <==> exists|i: int|
            {
                &&& 0 <= i < grants.len()
                &&& (#[trigger] grants[i]).grantee == caller
                &&& grants[i].capability.wire() == delegated.capability@
                &&& grants[i].scope.covers(delegated.scope@)
                &&& grant::authorised(grants, caller, grants[i].capability, grants[i].scope, now)
            },
{
    if d is Permitted {
        let c = Capability::named(delegated.capability@)->0;
        assert(exists|i: int|
            0 <= i < grants.len() && #[trigger] backs(
                grants,
                i,
                caller,
                c,
                delegated.scope@,
                now,
            )) by {
            match d {
                Delegation::Permitted(ExpiryBound::Unbounded) => {},
                Delegation::Permitted(ExpiryBound::NoLaterThan(limit)) => {},
                Delegation::Refused => {},
            }
        }
        let i = choose|i: int|
            0 <= i < grants.len() && #[trigger] backs(grants, i, caller, c, delegated.scope@, now);
        assert(grants[i].grantee == caller);
    }
    assert forall|i: int|
        {
            &&& 0 <= i < grants.len()
            &&& (#[trigger] grants[i]).grantee == caller
            &&& grants[i].capability.wire() == delegated.capability@
            &&& grants[i].scope.covers(delegated.scope@)
            &&& grant::authorised(grants, caller, grants[i].capability, grants[i].scope, now)
        } implies d is Permitted by {
        crate::manage::law_wire_round_trip(grants[i].capability);
        assert(backs(grants, i, caller, grants[i].capability, delegated.scope@, now));
    }
}

/// The bound on a permitted delegation is the longest that any backing grant allows:
/// none where one of them never expires, and else the latest of their expiries.
pub proof fn law_a_delegation_lives_as_long_as_its_longest_backing(
    bound: ExpiryBound,
    grants: Seq<GrantView>,
    caller: Seq<char>,
    capability: Capability,
    delegated: ScopeView,
    now: Timestamp,
    i: int,
)
    requires
        delegation_of(
            Delegation::Permitted(bound),
            grants,
            caller,
            capability,
            delegated,
            now,
        ),
        0 <= i < grants.len(),
        grants[i].grantee == caller,
        grants[i].capability == capability,
        grants[i].scope.covers(delegated),
        grant::authorised(grants, caller, capability, grants[i].scope, now),
    ensures
        bound matches ExpiryBound::NoLaterThan(limit) ==> (grants[i].expires matches Some(expiry)
            && limit.at_or_after(expiry)),
        bound is Unbounded ==> exists|j: int|
            0 <= j < grants.len() && (#[trigger] grants[j]).expires is None && grants[j].grantee
                == caller && grants[j].capability == capability,
{
    assert(backs(grants, i, caller, capability, delegated, now));
    if bound is Unbounded {
        let j = choose|j: int|
            0 <= j < grants.len() && #[trigger] backs(
                grants,
                j,
                caller,
                capability,
                delegated,
                now,
            ) && grants[j].expires is None;
        assert(grants[j].expires is None);
    }
}

/// A delegated grant is built exactly where its capability is known, it is not a
/// dangerous one or a data verb over the whole node, and its expiry reads as a time.
/// It is then made out as asked, by the caller.
pub proof fn law_a_delegated_grant_is_built_as_asked(
    r: Result<Grant, DelegatedGrantError>,
    wire: ManageGrant,
    granted_by: Seq<char>,
    bound: ExpiryBound,
    capability: Capability,
)
    requires
        wire_grant_outcome(r, wire, granted_by, bound),
    ensures
        capability.wire() == wire.capability@ ==> (r is Ok <==> {
            &&& wire.scope@.node_wide() ==> !capability.dangerous() && !capability.data_verb()
            &&& wire.expires matches Some(raw) ==> time::rfc3339(raw@) is Ok
        }),
        r matches Ok(g) ==> {
            &&& g.grantee@ == wire.grantee@
            &&& g.capability.wire() == wire.capability@
            &&& g.scope@ == wire.scope@
            &&& g.granted_by@ == granted_by
            &&& wire.expires is None && bound is Unbounded ==> g.expires is None
            &&& bound matches ExpiryBound::NoLaterThan(limit) ==> (g.expires matches Some(at)
                && limit.at_or_after(at))
        },
        r matches Err(DelegatedGrantError::WildcardScope { capability: barred }) ==> barred.wire()
            == wire.capability@,
        r matches Err(DelegatedGrantError::UnknownCapability { identifier }) ==> identifier@
            == wire.capability@ && identifier@ != capability.wire(),
{
    crate::manage::law_wire_round_trip(capability);
    if let Ok(g) = r {
        let requested = choose|requested: Option<Timestamp>|
            #![trigger bound.clamped(requested)]
            grant::expiry_of(text::opt_text(wire.expires), requested) && g.expires
                == bound.clamped(requested);
        law_a_clamped_expiry_is_the_earlier_one(bound, requested);
    }
}

/// The text of a delegated grant that cannot be built names the capability, or the
/// expiry and why it does not read.
pub proof fn law_a_refused_delegation_names_its_fault(
    capability: Capability,
    raw: String,
    reason: String,
)
    ensures
        raw@.is_suffix_of((DelegatedGrantError::UnknownCapability { identifier: raw }).text()),
        reason@.is_suffix_of((DelegatedGrantError::BadExpiry { raw, reason }).text()),
        exists|before: Seq<char>, after: Seq<char>|
            (DelegatedGrantError::BadExpiry { raw, reason }).text() == #[trigger] (before + raw@
                + after),
        exists|before: Seq<char>, after: Seq<char>|
            (DelegatedGrantError::WildcardScope { capability }).text() == #[trigger] (before
                + capability.wire() + after),
{
    let a = (DelegatedGrantError::UnknownCapability { identifier: raw }).text();
    let b = (DelegatedGrantError::BadExpiry { raw, reason }).text();
    assert(a.subrange(a.len() - raw@.len(), a.len() as int) =~= raw@);
    assert(b.subrange(b.len() - reason@.len(), b.len() as int) =~= reason@);
    assert(b =~= "parsing delegated grant expiry "@ + raw@ + (": "@ + reason@));
    assert((DelegatedGrantError::WildcardScope { capability }).text() =~= "capability `"@
        + capability.wire()
        + "` cannot be granted over a wildcard scope; name an explicit folder (data verbs are folder-scoped, not node-wide)"@);
}

} // verus!
