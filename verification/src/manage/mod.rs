//! Node management plane: capability grants and authorisation.
//!
//! A node grants specific capabilities, over specific scopes, to specific peer
//! devices. Authority is a set of capabilities, not a role: each capability is
//! a verb over a scope, and the grants live on the node that is managed.

use vstd::prelude::*;

use crate::text;

pub mod command;
pub mod delegation;
pub mod dispatch;
pub mod grant;
pub mod run;
pub mod scope;
pub mod token;
pub mod wire;

pub use dispatch::{required_capability, scope_from_wire, verify_data_token};
pub use grant::{
    authorises, data_access, data_access_with_explicit_control, DataAccess, ExplicitControlState,
    Grant, GrantConfig, GrantConfigError, GrantView, ScopeConfig,
};
pub use run::run_dispatch;
pub use scope::{Scope, ScopeView, SCOPE_KIND_FOLDER, SCOPE_KIND_NODE};
pub use token::{
    derive_token_id, CapabilityToken, DelegateError, TokenClaims, TokenVerifyError,
    MAX_DELEGATION_DEPTH,
};

verus! {

/// A device identity, the principal of the management plane.
///
/// This is the base32 form of the SHA-256 of a device's certificate. It is a
/// type of its own so that a device id is never confused with any other text.
#[derive(Debug, PartialEq, Eq, Hash, PartialOrd, Ord)]
pub struct DeviceId(pub String);

impl View for DeviceId {
    type V = Seq<char>;

    open spec fn view(&self) -> Seq<char> {
        self.0@
    }
}

impl Clone for DeviceId {
    fn clone(&self) -> (r: Self)
        ensures
            r == *self,
    {
        DeviceId(self.0.clone())
    }
}

impl DeviceId {
    /// The device id with this text.
    pub fn new(id: &str) -> (r: DeviceId)
        ensures
            r@ == id@,
    {
        DeviceId(id.to_owned())
    }

    /// The text of the device id.
    pub fn as_str(&self) -> (r: &str)
        ensures
            r@ == self@,
    {
        self.0.as_str()
    }

    /// Whether two device ids are the same.
    pub fn same(&self, other: &DeviceId) -> (r: bool)
        ensures
            r == (self@ == other@),
    {
        self.0 == other.0
    }
}

/// An administrative capability: a verb the holder may exercise over a scope.
#[derive(Debug, Clone, Copy, PartialEq, Eq, Hash, PartialOrd, Ord, Structural)]
pub enum Capability {
    /// Read mount status, cache usage, backend health, peer list.
    StatusRead,
    /// Pin and unpin paths.
    PinWrite,
    /// Evict and warm cache entries.
    CacheManage,
    /// Merge `.cascade` and device config.
    ConfigPush,
    /// Set lifecycle and pin policies.
    PolicySet,
    /// Add and remove backends. Dangerous.
    BackendManage,
    /// Start, stop and restart the daemon. Dangerous.
    LifecycleControl,
    /// Delegate a subset of held grants. Dangerous.
    GrantAdmin,
    /// Data-plane read: the peer may read this node's data for the folder.
    DataRead,
    /// Data-plane write: the peer may write its data into this node's folder.
    DataWrite,
    /// Broker interactive terminal sessions. Dangerous.
    ExecPty,
    /// Broker headless processes. Dangerous.
    ExecProc,
}

impl Capability {
    /// The colon-delimited identifier of a capability.
    pub open spec fn wire(self) -> Seq<char> {
        match self {
            Capability::StatusRead => "status:read"@,
            Capability::PinWrite => "pin:write"@,
            Capability::CacheManage => "cache:manage"@,
            Capability::ConfigPush => "config:push"@,
            Capability::PolicySet => "policy:set"@,
            Capability::BackendManage => "backend:manage"@,
            Capability::LifecycleControl => "lifecycle:control"@,
            Capability::GrantAdmin => "grant:admin"@,
            Capability::DataRead => "data:read"@,
            Capability::DataWrite => "data:write"@,
            Capability::ExecPty => "exec:pty"@,
            Capability::ExecProc => "exec:proc"@,
        }
    }

    /// The capability with this identifier, if there is one.
    pub open spec fn named(text: Seq<char>) -> Option<Capability> {
        if exists|c: Capability| c.wire() == text {
            Some(choose|c: Capability| c.wire() == text)
        } else {
            None
        }
    }

    /// Whether a wildcard grant never satisfies the capability.
    pub open spec fn dangerous(self) -> bool {
        self == Capability::BackendManage || self == Capability::LifecycleControl || self
            == Capability::GrantAdmin || self == Capability::ExecPty || self
            == Capability::ExecProc
    }

    /// Whether the capability is a data-plane verb.
    pub open spec fn data_verb(self) -> bool {
        self == Capability::DataRead || self == Capability::DataWrite
    }

    /// The stable wire and storage identifier of the capability.
    pub fn as_wire(self) -> (r: &'static str)
        ensures
            r@ == self.wire(),
    {
        match self {
            Capability::StatusRead => "status:read",
            Capability::PinWrite => "pin:write",
            Capability::CacheManage => "cache:manage",
            Capability::ConfigPush => "config:push",
            Capability::PolicySet => "policy:set",
            Capability::BackendManage => "backend:manage",
            Capability::LifecycleControl => "lifecycle:control",
            Capability::GrantAdmin => "grant:admin",
            Capability::DataRead => "data:read",
            Capability::DataWrite => "data:write",
            Capability::ExecPty => "exec:pty",
            Capability::ExecProc => "exec:proc",
        }
    }

    /// The capability with this identifier, if there is one.
    pub fn from_wire(s: &str) -> (r: Option<Capability>)
        ensures
            r == Capability::named(s@),
    {
        let found: Option<Capability> = if text::str_eq(s, "status:read") {
            Some(Capability::StatusRead)
        } else if text::str_eq(s, "pin:write") {
            Some(Capability::PinWrite)
        } else if text::str_eq(s, "cache:manage") {
            Some(Capability::CacheManage)
        } else if text::str_eq(s, "config:push") {
            Some(Capability::ConfigPush)
        } else if text::str_eq(s, "policy:set") {
            Some(Capability::PolicySet)
        } else if text::str_eq(s, "backend:manage") {
            Some(Capability::BackendManage)
        } else if text::str_eq(s, "lifecycle:control") {
            Some(Capability::LifecycleControl)
        } else if text::str_eq(s, "grant:admin") {
            Some(Capability::GrantAdmin)
        } else if text::str_eq(s, "data:read") {
            Some(Capability::DataRead)
        } else if text::str_eq(s, "data:write") {
            Some(Capability::DataWrite)
        } else if text::str_eq(s, "exec:pty") {
            Some(Capability::ExecPty)
        } else if text::str_eq(s, "exec:proc") {
            Some(Capability::ExecProc)
        } else {
            None
        };
        proof {
            if let Some(c) = found {
                law_wire_round_trip(c);
            }
        }
        found
    }

    /// Whether the capability is dangerous: it is never implied by a node-wide
    /// grant, only by one that names the scope it is exercised over.
    pub fn is_dangerous(self) -> (r: bool)
        ensures
            r == self.dangerous(),
    {
        match self {
            Capability::BackendManage
            | Capability::LifecycleControl
            | Capability::GrantAdmin
            | Capability::ExecPty
            | Capability::ExecProc => true,
            _ => false,
        }
    }

    /// Whether the capability is a data-plane verb.
    pub fn is_data_verb(self) -> (r: bool)
        ensures
            r == self.data_verb(),
    {
        match self {
            Capability::DataRead | Capability::DataWrite => true,
            _ => false,
        }
    }
}

/// Parsing the wire form of a capability gives the capability back.
pub proof fn law_wire_round_trip(c: Capability)
    ensures
        Capability::named(c.wire()) == Some(c),
{
    let found = choose|d: Capability| d.wire() == c.wire();
    law_wire_form_is_unique(found, c);
}

/// No two capabilities share an identifier.
pub proof fn law_wire_form_is_unique(a: Capability, b: Capability)
    ensures
        a.wire() == b.wire() ==> a == b,
{
    reveal_strlit("status:read");
    reveal_strlit("pin:write");
    reveal_strlit("cache:manage");
    reveal_strlit("config:push");
    reveal_strlit("policy:set");
    reveal_strlit("backend:manage");
    reveal_strlit("lifecycle:control");
    reveal_strlit("grant:admin");
    reveal_strlit("data:read");
    reveal_strlit("data:write");
    reveal_strlit("exec:pty");
    reveal_strlit("exec:proc");
    if a.wire() == b.wire() {
        assert(a.wire()[0] == b.wire()[0]);
        assert(a.wire()[1] == b.wire()[1]);
        assert(a.wire()[2] == b.wire()[2]);
        assert(a.wire()[3] == b.wire()[3]);
        assert(a.wire()[5] == b.wire()[5]);
        assert(a.wire()[6] == b.wire()[6]);
    }
}

/// What stands before the colon of an identifier says what kind of capability it
/// is: the dangerous ones manage backends, control the node's life, administer
/// grants or run programs, and the data verbs are those on data.
pub proof fn law_the_family_says_what_a_capability_is(c: Capability)
    ensures
        c.dangerous() <==> "backend:"@.is_prefix_of(c.wire()) || "lifecycle:"@.is_prefix_of(
            c.wire(),
        ) || "grant:"@.is_prefix_of(c.wire()) || "exec:"@.is_prefix_of(c.wire()),
        c.data_verb() <==> "data:"@.is_prefix_of(c.wire()),
        !(c.dangerous() && c.data_verb()),
{
    reveal_strlit("backend:");
    reveal_strlit("lifecycle:");
    reveal_strlit("grant:");
    reveal_strlit("exec:");
    reveal_strlit("data:");
    reveal_strlit("status:read");
    reveal_strlit("pin:write");
    reveal_strlit("cache:manage");
    reveal_strlit("config:push");
    reveal_strlit("policy:set");
    reveal_strlit("backend:manage");
    reveal_strlit("lifecycle:control");
    reveal_strlit("grant:admin");
    reveal_strlit("data:read");
    reveal_strlit("data:write");
    reveal_strlit("exec:pty");
    reveal_strlit("exec:proc");
    let w = c.wire();
    lemma_family(w, "backend:"@);
    lemma_family(w, "lifecycle:"@);
    lemma_family(w, "grant:"@);
    lemma_family(w, "exec:"@);
    lemma_family(w, "data:"@);
    match c {
        Capability::BackendManage => {
            assert(w.subrange(0, 8) == "backend:"@);
        },
        Capability::LifecycleControl => {
            assert(w.subrange(0, 10) == "lifecycle:"@);
        },
        Capability::GrantAdmin => {
            assert(w.subrange(0, 6) == "grant:"@);
        },
        Capability::ExecPty | Capability::ExecProc => {
            assert(w.subrange(0, 5) == "exec:"@);
        },
        Capability::DataRead | Capability::DataWrite => {
            assert(w.subrange(0, 5) == "data:"@);
        },
        _ => {},
    }
    assert(w[0] == 's' || w[0] == 'p' || w[0] == 'c' || c.dangerous() || c.data_verb());
}

/// A text that begins with another begins with its first character, and does where
/// its own beginning is the other.
proof fn lemma_family(s: Seq<char>, prefix: Seq<char>)
    requires
        prefix.len() > 0,
    ensures
        prefix.is_prefix_of(s) ==> s[0] == prefix[0],
        prefix.len() <= s.len() && s.subrange(0, prefix.len() as int) == prefix
            ==> prefix.is_prefix_of(s),
{
    if prefix.is_prefix_of(s) {
        assert(s.subrange(0, prefix.len() as int)[0] == s[0]);
    }
}

/// Each identifier names the capability whose family and verb it spells, and every
/// capability has one of these identifiers.
pub proof fn law_identifiers_name_their_capabilities(c: Capability)
    ensures
        c == Capability::StatusRead <==> Capability::named("status:read"@) == Some(c),
        c == Capability::PinWrite <==> Capability::named("pin:write"@) == Some(c),
        c == Capability::CacheManage <==> Capability::named("cache:manage"@) == Some(c),
        c == Capability::ConfigPush <==> Capability::named("config:push"@) == Some(c),
        c == Capability::PolicySet <==> Capability::named("policy:set"@) == Some(c),
        c == Capability::BackendManage <==> Capability::named("backend:manage"@) == Some(c),
        c == Capability::LifecycleControl <==> Capability::named("lifecycle:control"@) == Some(c),
        c == Capability::GrantAdmin <==> Capability::named("grant:admin"@) == Some(c),
        c == Capability::DataRead <==> Capability::named("data:read"@) == Some(c),
        c == Capability::DataWrite <==> Capability::named("data:write"@) == Some(c),
        c == Capability::ExecPty <==> Capability::named("exec:pty"@) == Some(c),
        c == Capability::ExecProc <==> Capability::named("exec:proc"@) == Some(c),
{
    law_wire_round_trip(Capability::StatusRead);
    law_wire_round_trip(Capability::PinWrite);
    law_wire_round_trip(Capability::CacheManage);
    law_wire_round_trip(Capability::ConfigPush);
    law_wire_round_trip(Capability::PolicySet);
    law_wire_round_trip(Capability::BackendManage);
    law_wire_round_trip(Capability::LifecycleControl);
    law_wire_round_trip(Capability::GrantAdmin);
    law_wire_round_trip(Capability::DataRead);
    law_wire_round_trip(Capability::DataWrite);
    law_wire_round_trip(Capability::ExecPty);
    law_wire_round_trip(Capability::ExecProc);
}

} // verus!
