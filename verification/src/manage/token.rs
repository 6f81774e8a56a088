//! Signed capability tokens: portable grants that can be issued offline.
//!
//! A token is a grant that travels. The issuing node's key signs a statement
//! that a bearer may exercise a capability over a scope until an expiry; the
//! node that is asked checks the signature, the expiry, the revocation list and
//! the bearer, and then treats the carried grant as it treats its own. A bearer
//! may delegate a token it holds, but each hop of a chain can only narrow the
//! authority of the one before it.

use vstd::prelude::*;

use crate::bytes;
use crate::manage::{Capability, DeviceId, Grant, GrantView, Scope, ScopeView};
use crate::text;
use crate::time::Timestamp;

verus! {

/// The most hops a verifier follows from a presented token to its root. A token
/// signed by the node itself is one hop deep; every delegation adds one.
pub const MAX_DELEGATION_DEPTH: usize = 8;

/// The longest presented token text that is read at all.
pub const MAX_TOKEN_JSON_BYTES: usize = 65536;

/// The length of a device signature.
pub const DEVICE_SIGNATURE_LENGTH: usize = 64;

/// The tag before every signed payload, so that a signature made here is never
/// taken for one over some other structure, nor for one over another layout.
pub const TOKEN_SIGNING_DOMAIN: &'static str = "cascade-manage-capability-token-v2";

/// The tag mixed into every token id.
pub const TOKEN_ID_DOMAIN: &'static str = "cascade-manage-token-id-v1";

/// The SHA-256 digest of a byte string.
pub uninterp spec fn sha256(data: Seq<u8>) -> Seq<u8>;

/// The unpadded base32 text of a byte string.
pub uninterp spec fn base32_nopad(data: Seq<u8>) -> Seq<char>;

/// Calls `sha2::Sha256::digest`.
///
/// Trusted: the digest depends on the bytes alone, is named [`sha256`], and is
/// 32 bytes long.
#[verifier::external_body]
fn sha256_digest(data: &[u8]) -> (r: Vec<u8>)
    ensures
        r@ == sha256(data@),
        r@.len() == 32,
{
    <sha2::Sha256 as sha2::Digest>::digest(data).to_vec()
}

/// Calls `data_encoding::BASE32_NOPAD.encode`.
///
/// Trusted: the text depends on the bytes alone and is named [`base32_nopad`]. The
/// call may panic on longer inputs.
#[verifier::external_body]
fn base32_encode(data: &[u8]) -> (r: String)
    requires
        data@.len() * 512 <= usize::MAX,
    ensures
        r@ == base32_nopad(data@),
{
    data_encoding::BASE32_NOPAD.encode(data)
}

/// What the device identity layer reports of a key or certificate it could not
/// use, or a signature that did not verify.
#[derive(Debug, PartialEq, Eq)]
pub struct DeviceKeyError(pub String);

impl View for DeviceKeyError {
    type V = Seq<char>;

    open spec fn view(&self) -> Seq<char> {
        self.0@
    }
}

impl Clone for DeviceKeyError {
    fn clone(&self) -> (r: Self)
        ensures
            r == *self,
    {
        DeviceKeyError(self.0.clone())
    }
}

/// What is hashed into a token id.
pub open spec fn token_id_preimage(
    issuer: Seq<char>,
    bearer: Seq<char>,
    capability: Capability,
    scope: ScopeView,
    expires: Timestamp,
    issued_at: Timestamp,
) -> Seq<u8> {
    bytes::utf8(TOKEN_ID_DOMAIN@) + bytes::utf8(issuer) + bytes::utf8(bearer) + bytes::utf8(
        capability.wire(),
    ) + bytes::utf8(scope.kind()) + bytes::utf8(text::text_or(scope.path(), Seq::empty()))
        + bytes::be_i64(expires.spec_millis() as i64) + bytes::be_i64(
        if i64::MIN <= issued_at.spec_total_nanos() <= i64::MAX {
            issued_at.spec_total_nanos() as i64
        } else {
            0
        },
    )
}

/// Derive a token id from the claim fields and the instant of issue: the base32
/// form of the first sixteen bytes of the SHA-256 of them all.
pub fn derive_token_id(
    issuer: &DeviceId,
    bearer: &DeviceId,
    capability: Capability,
    scope: &Scope,
    expires: Timestamp,
    issued_at: Timestamp,
) -> (r: String)
    ensures
        r@ == base32_nopad(
            sha256(
                token_id_preimage(issuer@, bearer@, capability, scope@, expires, issued_at),
            ).take(16),
        ),
{
    let mut data: Vec<u8> = Vec::new();
    bytes::append(&mut data, TOKEN_ID_DOMAIN.as_bytes());
    bytes::append(&mut data, issuer.as_str().as_bytes());
    bytes::append(&mut data, bearer.as_str().as_bytes());
    bytes::append(&mut data, capability.as_wire().as_bytes());
    let columns: (&'static str, Option<&str>) = scope.to_columns();
    bytes::append(&mut data, columns.0.as_bytes());
    let path: &str = match columns.1 {
        Some(path) => path,
        None => "",
    };
    proof {
        reveal_strlit("");
        assert(""@ == Seq::<char>::empty());
    }
    bytes::append(&mut data, path.as_bytes());
    bytes::append_i64(&mut data, expires.millis());
    let stamp: i64 = match issued_at.nanos_opt() {
        Some(n) => n,
        None => 0,
    };
    bytes::append_i64(&mut data, stamp);
    assert(data@ =~= token_id_preimage(issuer@, bearer@, capability, scope@, expires, issued_at));
    let digest: Vec<u8> = sha256_digest(data.as_slice());
    let mut prefix: Vec<u8> = digest;
    prefix.truncate(16);
    assert(prefix@ == digest@.take(16));
    base32_encode(prefix.as_slice())
}

/// Why verifying a [`CapabilityToken`] failed. Every variant is a hard
/// rejection.
#[derive(Debug, PartialEq, Eq)]
pub enum TokenVerifyError {
    /// The signature did not verify under the key of the carried certificate,
    /// or the certificate is not the issuer's.
    BadSignature {
        /// The id of the token whose signature failed.
        token_id: String,
        /// What the device identity layer reported.
        source: DeviceKeyError,
    },
    /// The root of the chain was not issued by the verifying node.
    WrongIssuer {
        /// The id of the presented token.
        token_id: String,
        /// The issuer at the root of the chain.
        root_issuer: String,
        /// The node performing verification.
        verifying_node: String,
    },
    /// The bearer is not the device the connection authenticated.
    BearerMismatch {
        /// The id of the token.
        token_id: String,
        /// The bearer the token names.
        bearer: String,
        /// The device id the connection authenticated.
        connected: String,
    },
    /// The token has expired.
    Expired {
        /// The id of the expired token.
        token_id: String,
        /// The token's expiry.
        expires: Timestamp,
        /// The verifier's clock.
        now: Timestamp,
    },
    /// The token is on the revocation list.
    Revoked {
        /// The id of the revoked token.
        token_id: String,
    },
    /// A hop claims authority its parent does not contain.
    DelegationExceedsParent {
        /// The id of the child token.
        token_id: String,
    },
    /// The parent of a hop does not verify.
    ParentInvalid {
        /// The id of the child token.
        token_id: String,
        /// Why the parent failed.
        reason: Box<TokenVerifyError>,
    },
    /// The chain is deeper than [`MAX_DELEGATION_DEPTH`].
    ChainTooDeep {
        /// The id of the presented token.
        token_id: String,
        /// The limit.
        max: usize,
    },
}

/// What a [`TokenVerifyError`] stands for.
pub enum TokenFault {
    /// The signature check failed.
    BadSignature(Seq<char>, Seq<char>),
    /// The root issuer is not the verifying node.
    WrongIssuer(Seq<char>, Seq<char>, Seq<char>),
    /// The bearer is not the connected device.
    BearerMismatch(Seq<char>, Seq<char>, Seq<char>),
    /// The token has expired.
    Expired(Seq<char>, Timestamp, Timestamp),
    /// The token is revoked.
    Revoked(Seq<char>),
    /// The hop widens authority.
    DelegationExceedsParent(Seq<char>),
    /// The parent does not verify.
    ParentInvalid(Seq<char>, Box<TokenFault>),
    /// The chain is too deep.
    ChainTooDeep(Seq<char>, int),
}

impl TokenVerifyError {
    /// What the error stands for.
    pub open spec fn fault(self) -> TokenFault
        decreases self,
    {
        match self {
            TokenVerifyError::BadSignature { token_id, source } => TokenFault::BadSignature(
                token_id@,
                source@,
            ),
            TokenVerifyError::WrongIssuer { token_id, root_issuer, verifying_node } =>
                TokenFault::WrongIssuer(token_id@, root_issuer@, verifying_node@),
            TokenVerifyError::BearerMismatch { token_id, bearer, connected } =>
                TokenFault::BearerMismatch(token_id@, bearer@, connected@),
            TokenVerifyError::Expired { token_id, expires, now } => TokenFault::Expired(
                token_id@,
                expires,
                now,
            ),
            TokenVerifyError::Revoked { token_id } => TokenFault::Revoked(token_id@),
            TokenVerifyError::DelegationExceedsParent { token_id } =>
                TokenFault::DelegationExceedsParent(token_id@),
            TokenVerifyError::ParentInvalid { token_id, reason } => TokenFault::ParentInvalid(
                token_id@,
                Box::new(reason.fault()),
            ),
            TokenVerifyError::ChainTooDeep { token_id, max } => TokenFault::ChainTooDeep(
                token_id@,
                max as int,
            ),
        }
    }

    /// The message of the error.
    pub fn message(&self) -> (r: String)
        ensures
            r@ == self.fault().text(),
        decreases self,
    {
        let mut m: String = "token ".to_owned();
        match self {
            TokenVerifyError::BadSignature { token_id, source } => {
                m.append(token_id.as_str());
                m.append(": signature verification failed: ");
                m.append(source.0.as_str());
            },
            TokenVerifyError::WrongIssuer { token_id, root_issuer, verifying_node } => {
                m.append(token_id.as_str());
                m.append(": chain root issuer ");
                m.append(root_issuer.as_str());
                m.append(" is not this node ");
                m.append(verifying_node.as_str());
            },
            TokenVerifyError::BearerMismatch { token_id, bearer, connected } => {
                m.append(token_id.as_str());
                m.append(": bearer ");
                m.append(bearer.as_str());
                m.append(" does not match connected device ");
                m.append(connected.as_str());
            },
            TokenVerifyError::Expired { token_id, expires, now } => {
                m.append(token_id.as_str());
                m.append(": expired at ");
                let at: String = expires.text();
                m.append(at.as_str());
                m.append(" (now ");
                let clock: String = now.text();
                m.append(clock.as_str());
                m.append(")");
            },
            TokenVerifyError::Revoked { token_id } => {
                m.append(token_id.as_str());
                m.append(": revoked");
            },
            TokenVerifyError::DelegationExceedsParent { token_id } => {
                m.append(token_id.as_str());
                m.append(": delegation exceeds parent authority");
            },
            TokenVerifyError::ParentInvalid { token_id, reason } => {
                m.append(token_id.as_str());
                m.append(": parent token invalid: ");
                let inner: String = reason.message();
                m.append(inner.as_str());
            },
            TokenVerifyError::ChainTooDeep { token_id, max } => {
                m.append(token_id.as_str());
                m.append(": delegation chain exceeds maximum depth ");
                let limit: String = text::u64_text(*max as u64);
                m.append(limit.as_str());
            },
        }
        m
    }
}

impl TokenFault {
    /// The message of the fault.
    pub open spec fn text(self) -> Seq<char>
        decreases self,
    {
        match self {
            TokenFault::BadSignature(id, source) => "token "@ + id
                + ": signature verification failed: "@ + source,
            TokenFault::WrongIssuer(id, root, node) => "token "@ + id + ": chain root issuer "@
                + root + " is not this node "@ + node,
            TokenFault::BearerMismatch(id, bearer, connected) => "token "@ + id + ": bearer "@
                + bearer + " does not match connected device "@ + connected,
            TokenFault::Expired(id, expires, now) => "token "@ + id + ": expired at "@
                + expires.spec_text() + " (now "@ + now.spec_text() + ")"@,
            TokenFault::Revoked(id) => "token "@ + id + ": revoked"@,
            TokenFault::DelegationExceedsParent(id) => "token "@ + id
                + ": delegation exceeds parent authority"@,
            TokenFault::ParentInvalid(id, reason) => "token "@ + id + ": parent token invalid: "@
                + reason.text(),
            TokenFault::ChainTooDeep(id, max) => "token "@ + id
                + ": delegation chain exceeds maximum depth "@ + text::decimal(max),
        }
    }
}

/// The claims a [`CapabilityToken`] asserts, apart from its signature.
#[derive(Debug, PartialEq, Eq)]
pub struct TokenClaims {
    /// The handle a revocation names.
    pub token_id: String,
    /// The device that issued and signed this token.
    pub issuer: DeviceId,
    /// The only device that may present this token.
    pub bearer: DeviceId,
    /// The capability the token confers.
    pub capability: Capability,
    /// The scope over which the capability applies.
    pub scope: Scope,
    /// When the token expires. A token always does.
    pub expires: Timestamp,
}

/// The signed form of an expiry: its seconds and its nanoseconds at fixed width.
#[verifier::opaque]
pub open spec fn expiry_bytes(expires: Timestamp) -> Seq<u8> {
    bytes::be_i64(expires.spec_secs()) + bytes::be_u64(expires.spec_nanos() as u64)
}

/// What [`TokenClaims`] stand for.
pub struct ClaimsView {
    /// The handle a revocation names.
    pub token_id: Seq<char>,
    /// The device that issued and signed this token.
    pub issuer: Seq<char>,
    /// The only device that may present this token.
    pub bearer: Seq<char>,
    /// The capability the token confers.
    pub capability: Capability,
    /// The scope over which the capability applies.
    pub scope: ScopeView,
    /// When the token expires.
    pub expires: Timestamp,
}

impl ClaimsView {
    /// Whether `child` stays within these claims: the same capability, a
    /// covered scope, and an expiry no later.
    pub open spec fn contains(self, child: ClaimsView) -> bool {
        &&& self.capability == child.capability
        &&& self.scope.covers(child.scope)
        &&& self.expires.at_or_after(child.expires)
    }

    /// The bytes a signature covers.
    pub open spec fn signing_bytes(self) -> Seq<u8> {
        bytes::utf8(TOKEN_SIGNING_DOMAIN@) + bytes::field(bytes::utf8(self.token_id))
            + bytes::field(bytes::utf8(self.issuer)) + bytes::field(bytes::utf8(self.bearer))
            + bytes::field(bytes::utf8(self.capability.wire())) + bytes::field(
            bytes::utf8(self.scope.kind()),
        ) + bytes::field(bytes::utf8(text::text_or(self.scope.path(), Seq::empty())))
            + expiry_bytes(self.expires)
    }

    /// Whether the length of every text of the claims can be written before it.
    pub open spec fn fits(self) -> bool {
        &&& bytes::utf8(self.token_id).len() <= u64::MAX
        &&& bytes::utf8(self.issuer).len() <= u64::MAX
        &&& bytes::utf8(self.bearer).len() <= u64::MAX
        &&& self.scope matches ScopeView::Folder(path) ==> bytes::utf8(path).len() <= u64::MAX
    }

    /// The grant the claims confer.
    pub open spec fn grant(self) -> GrantView {
        GrantView {
            grantee: self.bearer,
            capability: self.capability,
            scope: self.scope,
            granted_by: self.issuer,
            expires: Some(self.expires),
        }
    }
}

impl View for TokenClaims {
    type V = ClaimsView;

    open spec fn view(&self) -> ClaimsView {
        ClaimsView {
            token_id: self.token_id@,
            issuer: self.issuer@,
            bearer: self.bearer@,
            capability: self.capability,
            scope: self.scope@,
            expires: self.expires,
        }
    }
}

impl Clone for TokenClaims {
    fn clone(&self) -> (r: Self)
        ensures
            r == *self,
    {
        TokenClaims {
            token_id: self.token_id.clone(),
            issuer: self.issuer.clone(),
            bearer: self.bearer.clone(),
            capability: self.capability,
            scope: self.scope.clone(),
            expires: self.expires,
        }
    }
}

/// Append a length-prefixed field to the signing bytes.
pub fn push_field(bytes: &mut Vec<u8>, field: &[u8])
    ensures
        final(bytes)@ == old(bytes)@ + bytes::field(field@),
        field@.len() <= u64::MAX,
{
    let len: usize = field.len();
    bytes::append_u64(bytes, len as u64);
    bytes::append(bytes, field);
    proof {
        reveal(bytes::field);
    }
    assert(bytes@ =~= old(bytes)@ + bytes::field(field@));
}

/// Append the signed form of an expiry to the signing bytes.
fn push_expiry(bytes: &mut Vec<u8>, expires: Timestamp)
    ensures
        final(bytes)@ == old(bytes)@ + expiry_bytes(expires),
{
    bytes::append_i64(bytes, expires.secs());
    bytes::append_u64(bytes, expires.nanos() as u64);
    proof {
        reveal(expiry_bytes);
    }
    assert(bytes@ =~= old(bytes)@ + expiry_bytes(expires));
}

impl TokenClaims {
    /// The grant this token confers, granted by its issuer.
    pub fn to_grant(&self) -> (r: Grant)
        ensures
            r@ == self@.grant(),
    {
        Grant {
            grantee: self.bearer.clone(),
            capability: self.capability,
            scope: self.scope.clone(),
            granted_by: self.issuer.clone(),
            expires: Some(self.expires),
        }
    }

    /// Whether `child` stays within these claims.
    pub fn contains(&self, child: &TokenClaims) -> (r: bool)
        ensures
            r == self@.contains(child@),
    {
        self.capability == child.capability && self.scope.covers(&child.scope)
            && self.expires.is_at_or_after(&child.expires)
    }

    /// The canonical bytes the signature covers: the domain tag, each variable
    /// field behind its length, and the expiry at fixed width. No two distinct
    /// claims share them.
    pub fn signing_bytes(&self) -> (r: Vec<u8>)
        ensures
            r@ == self@.signing_bytes(),
            self@.fits(),
    {
        let mut data: Vec<u8> = Vec::new();
        bytes::append(&mut data, TOKEN_SIGNING_DOMAIN.as_bytes());
        push_field(&mut data, self.token_id.as_str().as_bytes());
        push_field(&mut data, self.issuer.as_str().as_bytes());
        push_field(&mut data, self.bearer.as_str().as_bytes());
        push_field(&mut data, self.capability.as_wire().as_bytes());
        let columns: (&'static str, Option<&str>) = self.scope.to_columns();
        push_field(&mut data, columns.0.as_bytes());
        let path: &str = match columns.1 {
            Some(path) => path,
            None => "",
        };
        proof {
            reveal_strlit("");
            assert(""@ == Seq::<char>::empty());
        }
        push_field(&mut data, path.as_bytes());
        push_expiry(&mut data, self.expires);
        assert(data@ =~= self@.signing_bytes());
        data
    }
}

/// A signed capability token: claims, the issuer's signature over them, and the
/// parent token where the claims were delegated.
#[derive(Debug, PartialEq, Eq)]
pub struct CapabilityToken {
    /// The claims this token asserts.
    pub claims: TokenClaims,
    /// The issuer's signature over the claims' signing bytes.
    pub signature: [u8; DEVICE_SIGNATURE_LENGTH],
    /// The issuer's certificate.
    pub issuer_cert_der: Vec<u8>,
    /// The token this one was delegated from; none for a token that the node
    /// itself issued.
    pub parent: Option<Box<CapabilityToken>>,
}

/// What a [`CapabilityToken`] stands for.
pub struct TokenView {
    /// The claims this token asserts.
    pub claims: ClaimsView,
    /// The issuer's signature.
    pub signature: Seq<u8>,
    /// The issuer's certificate.
    pub issuer_cert_der: Seq<u8>,
    /// The token this one was delegated from.
    pub parent: Option<Box<TokenView>>,
}

impl TokenView {
    /// The number of tokens from this one to the root of its chain.
    pub open spec fn links(self) -> nat
        decreases self,
    {
        match self.parent {
            None => 1,
            Some(parent) => 1 + parent.links(),
        }
    }

    /// The token `i` hops up the chain; the root where the chain ends before.
    pub open spec fn link(self, i: nat) -> TokenView
        decreases self,
    {
        match self.parent {
            None => self,
            Some(parent) => if i == 0 {
                self
            } else {
                parent.link((i - 1) as nat)
            },
        }
    }

    /// The root of the chain.
    pub open spec fn root(self) -> TokenView
        decreases self,
    {
        match self.parent {
            None => self,
            Some(parent) => parent.root(),
        }
    }

    /// What checking the chain from this token to its root gives. `leaf` is the
    /// id of the presented token, `depth` the depth of this one, and `verdicts`
    /// what each signature check reported, from the presented token upwards.
    pub open spec fn chain_outcome(
        self,
        leaf: Seq<char>,
        node: Seq<char>,
        now: Timestamp,
        revoked: Seq<Seq<char>>,
        verdicts: Seq<Option<Seq<char>>>,
        depth: int,
    ) -> Result<(), TokenFault>
        decreases self,
    {
        if depth > MAX_DELEGATION_DEPTH {
            Err(TokenFault::ChainTooDeep(leaf, MAX_DELEGATION_DEPTH as int))
        } else if let Some(source) = verdicts[depth - 1] {
            Err(TokenFault::BadSignature(self.claims.token_id, source))
        } else if now.at_or_after(self.claims.expires) {
            Err(TokenFault::Expired(self.claims.token_id, self.claims.expires, now))
        } else if revoked.contains(self.claims.token_id) {
            Err(TokenFault::Revoked(self.claims.token_id))
        } else {
            match self.parent {
                None => if self.claims.issuer != node {
                    Err(TokenFault::WrongIssuer(leaf, self.claims.issuer, node))
                } else {
                    Ok(())
                },
                Some(parent) => match parent.chain_outcome(
                    leaf,
                    node,
                    now,
                    revoked,
                    verdicts,
                    depth + 1,
                ) {
                    Err(reason) => Err(
                        TokenFault::ParentInvalid(self.claims.token_id, Box::new(reason)),
                    ),
                    Ok(_) => if self.claims.issuer != parent.claims.bearer
                        || !parent.claims.contains(self.claims) {
                        Err(TokenFault::DelegationExceedsParent(self.claims.token_id))
                    } else {
                        Ok(())
                    },
                },
            }
        }
    }

    /// What presenting this token by `connected` to `node` gives.
    pub open spec fn outcome(
        self,
        node: Seq<char>,
        connected: Seq<char>,
        now: Timestamp,
        revoked: Seq<Seq<char>>,
        verdicts: Seq<Option<Seq<char>>>,
    ) -> Result<(), TokenFault> {
        if self.claims.bearer != connected {
            Err(
                TokenFault::BearerMismatch(self.claims.token_id, self.claims.bearer, connected),
            )
        } else {
            self.chain_outcome(self.claims.token_id, node, now, revoked, verdicts, 1)
        }
    }

    /// The number of signatures a verifier looks at.
    pub open spec fn checked_links(self) -> nat {
        if self.links() < MAX_DELEGATION_DEPTH {
            self.links()
        } else {
            MAX_DELEGATION_DEPTH as nat
        }
    }
}

/// What is handed to the device identity layer to check one signature.
#[derive(Debug, PartialEq, Eq)]
pub struct SignatureCheck {
    /// The certificate the token carries.
    pub issuer_cert_der: Vec<u8>,
    /// The issuer the certificate must belong to.
    pub issuer: DeviceId,
    /// The signed bytes.
    pub signed: Vec<u8>,
    /// The signature over them.
    pub signature: [u8; DEVICE_SIGNATURE_LENGTH],
}

impl SignatureCheck {
    /// Whether this is the check that `token` calls for.
    pub open spec fn is_for(self, token: TokenView) -> bool {
        &&& self.issuer_cert_der@ == token.issuer_cert_der
        &&& self.issuer@ == token.claims.issuer
        &&& self.signed@ == token.claims.signing_bytes()
        &&& self.signature@ == token.signature
    }
}

/// What the signature checks reported: nothing for one that passed.
pub open spec fn verdict_views(verdicts: Seq<Option<DeviceKeyError>>) -> Seq<Option<Seq<char>>> {
    verdicts.map_values(
        |v: Option<DeviceKeyError>|
            match v {
                Some(e) => Some(e@),
                None => None,
            },
    )
}

/// Why minting a delegated token failed.
#[derive(Debug, PartialEq, Eq)]
pub enum DelegateError {
    /// The delegating device is not the bearer of the parent token.
    NotDelegator,
    /// The requested claims are not contained in the parent's.
    Exceeds,
    /// The delegating device's key or certificate is malformed.
    Key(DeviceKeyError),
}

impl DelegateError {
    /// The message of the error.
    pub open spec fn text(self) -> Seq<char> {
        match self {
            DelegateError::NotDelegator => "delegator is not the bearer of the parent token"@,
            DelegateError::Exceeds => "delegated grant exceeds the parent token's authority"@,
            DelegateError::Key(e) => "delegator device key error: "@ + e@,
        }
    }

    /// The message of the error.
    pub fn message(&self) -> (r: String)
        ensures
            r@ == self.text(),
    {
        match self {
            DelegateError::NotDelegator =>
                "delegator is not the bearer of the parent token".to_owned(),
            DelegateError::Exceeds =>
                "delegated grant exceeds the parent token's authority".to_owned(),
            DelegateError::Key(e) => {
                let mut m: String = "delegator device key error: ".to_owned();
                m.append(e.0.as_str());
                m
            },
        }
    }
}

/// Whether `ids` holds `id`.
fn holds(ids: &Vec<String>, id: &str) -> (r: bool)
    ensures
        r == text::texts(ids@).contains(id@),
{
    let mut i: usize = 0;
    while i < ids.len()
        invariant
            i <= ids@.len(),
            forall|j: int| 0 <= j < i ==> (#[trigger] text::texts(ids@)[j]) != id@,
        decreases ids@.len() - i,
    {
        if text::str_eq(ids[i].as_str(), id) {
            assert(text::texts(ids@)[i as int] == id@);
            return true;
        }
        i += 1;
    }
    false
}

impl CapabilityToken {
    /// What the token stands for.
    pub open spec fn spec_view(self) -> TokenView
        decreases self,
    {
        TokenView {
            claims: self.claims@,
            signature: self.signature@,
            issuer_cert_der: self.issuer_cert_der@,
            parent: match self.parent {
                None => None,
                Some(parent) => Some(Box::new(parent.spec_view())),
            },
        }
    }

    /// A copy of the token and its whole chain.
    pub fn duplicate(&self) -> (r: CapabilityToken)
        ensures
            r.spec_view() == self.spec_view(),
        decreases self,
    {
        let parent: Option<Box<CapabilityToken>> = match &self.parent {
            None => None,
            Some(parent) => Some(Box::new(parent.duplicate())),
        };
        CapabilityToken {
            claims: self.claims.clone(),
            signature: self.signature,
            issuer_cert_der: self.issuer_cert_der.clone(),
            parent,
        }
    }

    /// Build the token that a node issues for `claims`, from the signature over
    /// their signing bytes and the node's certificate. It is a chain root.
    pub fn issue(
        claims: TokenClaims,
        signature: Result<[u8; DEVICE_SIGNATURE_LENGTH], DeviceKeyError>,
        issuer_cert_der: Result<Vec<u8>, DeviceKeyError>,
    ) -> (r: Result<CapabilityToken, DeviceKeyError>)
        ensures
            match r {
                Ok(t) => {
                    &&& signature == Ok::<[u8; DEVICE_SIGNATURE_LENGTH], DeviceKeyError>(
                        t.signature,
                    )
                    &&& issuer_cert_der == Ok::<Vec<u8>, DeviceKeyError>(t.issuer_cert_der)
                    &&& t.claims == claims
                    &&& t.parent is None
                },
                Err(e) => match signature {
                    Err(first) => e == first,
                    Ok(_) => issuer_cert_der == Err::<Vec<u8>, DeviceKeyError>(e),
                },
            },
    {
        match signature {
            Err(e) => Err(e),
            Ok(signature) => match issuer_cert_der {
                Err(e) => Err(e),
                Ok(issuer_cert_der) => Ok(
                    CapabilityToken { claims, signature, issuer_cert_der, parent: None },
                ),
            },
        }
    }

    /// The claims of a token delegated from `self` by `delegator`, or why there
    /// can be none: only the bearer of a token may delegate it, and only within
    /// its claims.
    pub fn delegated_claims(
        &self,
        token_id: &str,
        delegator: &DeviceId,
        bearer: &DeviceId,
        capability: Capability,
        scope: Scope,
        expires: Timestamp,
    ) -> (r: Result<TokenClaims, DelegateError>)
        ensures
            r == Err::<TokenClaims, DelegateError>(DelegateError::NotDelegator) <==> delegator@
                != self.claims@.bearer,
            r == Err::<TokenClaims, DelegateError>(DelegateError::Exceeds) <==> delegator@
                == self.claims@.bearer && !self.claims@.contains(
                child_claims(self.claims@, token_id@, bearer@, capability, scope@, expires),
            ),
            match r {
                Ok(c) => c@ == child_claims(
                    self.claims@,
                    token_id@,
                    bearer@,
                    capability,
                    scope@,
                    expires,
                ),
                Err(e) => !(e is Key),
            },
    {
        if !delegator.same(&self.claims.bearer) {
            return Err(DelegateError::NotDelegator);
        }
        let claims: TokenClaims = TokenClaims {
            token_id: token_id.to_owned(),
            issuer: self.claims.bearer.clone(),
            bearer: bearer.clone(),
            capability,
            scope,
            expires,
        };
        if !self.claims.contains(&claims) {
            return Err(DelegateError::Exceeds);
        }
        Ok(claims)
    }

    /// Mint a token delegated from `self`, from the delegator's signature over
    /// the signing bytes of its claims and the delegator's certificate.
    pub fn delegate(
        &self,
        token_id: &str,
        delegator: &DeviceId,
        bearer: &DeviceId,
        capability: Capability,
        scope: Scope,
        expires: Timestamp,
        signature: Result<[u8; DEVICE_SIGNATURE_LENGTH], DeviceKeyError>,
        issuer_cert_der: Result<Vec<u8>, DeviceKeyError>,
    ) -> (r: Result<CapabilityToken, DelegateError>)
        ensures
            r == Err::<CapabilityToken, DelegateError>(DelegateError::NotDelegator) <==> delegator@
                != self.claims@.bearer,
            r == Err::<CapabilityToken, DelegateError>(DelegateError::Exceeds) <==> delegator@
                == self.claims@.bearer && !self.claims@.contains(
                child_claims(self.claims@, token_id@, bearer@, capability, scope@, expires),
            ),
            match r {
                Ok(t) => {
                    &&& t.spec_view().claims == child_claims(
                        self.claims@,
                        token_id@,
                        bearer@,
                        capability,
                        scope@,
                        expires,
                    )
                    &&& t.spec_view().parent == Some(Box::new(self.spec_view()))
                    &&& signature == Ok::<[u8; DEVICE_SIGNATURE_LENGTH], DeviceKeyError>(
                        t.signature,
                    )
                    &&& issuer_cert_der == Ok::<Vec<u8>, DeviceKeyError>(t.issuer_cert_der)
                },
                Err(DelegateError::Key(e)) => match signature {
                    Err(first) => e == first,
                    Ok(_) => issuer_cert_der == Err::<Vec<u8>, DeviceKeyError>(e),
                },
                Err(_) => true,
            },
    {
        let claims: TokenClaims = match self.delegated_claims(
            token_id,
            delegator,
            bearer,
            capability,
            scope,
            expires,
        ) {
            Ok(claims) => claims,
            Err(e) => {
                return Err(e);
            },
        };
        let signature: [u8; DEVICE_SIGNATURE_LENGTH] = match signature {
            Ok(signature) => signature,
            Err(e) => {
                return Err(DelegateError::Key(e));
            },
        };
        let issuer_cert_der: Vec<u8> = match issuer_cert_der {
            Ok(der) => der,
            Err(e) => {
                return Err(DelegateError::Key(e));
            },
        };
        Ok(
            CapabilityToken {
                claims,
                signature,
                issuer_cert_der,
                parent: Some(Box::new(self.duplicate())),
            },
        )
    }

    /// What is to be handed to the device identity layer for this token alone.
    fn signature_check(&self) -> (r: SignatureCheck)
        ensures
            r.is_for(self.spec_view()),
    {
        SignatureCheck {
            issuer_cert_der: self.issuer_cert_der.clone(),
            issuer: self.claims.issuer.clone(),
            signed: self.claims.signing_bytes(),
            signature: self.signature,
        }
    }

    /// What is to be handed to the device identity layer for each signature of
    /// the chain, from this token upwards, as far as a verifier looks.
    pub fn signature_checks(&self) -> (r: Vec<SignatureCheck>)
        ensures
            r@.len() == self.spec_view().checked_links(),
            forall|i: int|
                0 <= i < r@.len() ==> (#[trigger] r@[i]).is_for(self.spec_view().link(i as nat)),
    {
        self.checks_within(MAX_DELEGATION_DEPTH)
    }

    /// The signature checks of the chain from this token upwards, `room` of
    /// them at most.
    fn checks_within(&self, room: usize) -> (r: Vec<SignatureCheck>)
        ensures
            r@.len() == (if self.spec_view().links() < room {
                self.spec_view().links()
            } else {
                room as nat
            }),
            forall|i: int|
                0 <= i < r@.len() ==> (#[trigger] r@[i]).is_for(self.spec_view().link(i as nat)),
        decreases self,
    {
        if room == 0 {
            return Vec::new();
        }
        let ghost whole = self.spec_view();
        let mut checks: Vec<SignatureCheck> = match &self.parent {
            None => Vec::new(),
            Some(parent) => parent.checks_within(room - 1),
        };
        let ghost above = checks@;
        let check: SignatureCheck = self.signature_check();
        checks.insert(0, check);
        assert forall|i: int| 0 <= i < checks@.len() implies (#[trigger] checks@[i]).is_for(
            whole.link(i as nat),
        ) by {
            if i == 0 {
                assert(whole.link(0) == whole);
                assert(checks@[0] == check);
            } else {
                assert(checks@[i] == above[i - 1]);
                assert(whole.link(i as nat) == whole.parent->0.link((i - 1) as nat));
            }
        }
        checks
    }

    /// Verify this token for presentation by `connected_device` to
    /// `verifying_node` at `now`. `verdicts` is what each check of
    /// [`signature_checks`](Self::signature_checks) reported, in that order.
    pub fn verify(
        &self,
        verifying_node: &DeviceId,
        connected_device: &DeviceId,
        now: Timestamp,
        revoked: &Vec<String>,
        verdicts: &Vec<Option<DeviceKeyError>>,
    ) -> (r: Result<&TokenClaims, TokenVerifyError>)
        requires
            verdicts@.len() >= self.spec_view().checked_links(),
        ensures
            match r {
                Ok(claims) => claims@ == self.claims@ && self.spec_view().outcome(
                    verifying_node@,
                    connected_device@,
                    now,
                    text::texts(revoked@),
                    verdict_views(verdicts@),
                ) is Ok,
                Err(e) => self.spec_view().outcome(
                    verifying_node@,
                    connected_device@,
                    now,
                    text::texts(revoked@),
                    verdict_views(verdicts@),
                ) == Err::<(), TokenFault>(e.fault()),
            },
    {
        if !self.claims.bearer.same(connected_device) {
            return Err(
                TokenVerifyError::BearerMismatch {
                    token_id: self.claims.token_id.clone(),
                    bearer: self.claims.bearer.0.clone(),
                    connected: connected_device.0.clone(),
                },
            );
        }
        match self.verify_chain(
            self.claims.token_id.as_str(),
            verifying_node,
            now,
            revoked,
            verdicts,
            1,
        ) {
            Ok(_) => Ok(&self.claims),
            Err(e) => Err(e),
        }
    }

    /// Check the chain from this token, at `depth`, to its root.
    fn verify_chain(
        &self,
        leaf: &str,
        verifying_node: &DeviceId,
        now: Timestamp,
        revoked: &Vec<String>,
        verdicts: &Vec<Option<DeviceKeyError>>,
        depth: usize,
    ) -> (r: Result<(), TokenVerifyError>)
        requires
            1 <= depth <= MAX_DELEGATION_DEPTH + 1,
            depth <= MAX_DELEGATION_DEPTH ==> verdicts@.len() >= depth,
            verdicts@.len() >= MAX_DELEGATION_DEPTH || verdicts@.len() >= depth - 1
                + self.spec_view().links(),
        ensures
            match r {
                Ok(_) => self.spec_view().chain_outcome(
                    leaf@,
                    verifying_node@,
                    now,
                    text::texts(revoked@),
                    verdict_views(verdicts@),
                    depth as int,
                ) is Ok,
                Err(e) => self.spec_view().chain_outcome(
                    leaf@,
                    verifying_node@,
                    now,
                    text::texts(revoked@),
                    verdict_views(verdicts@),
                    depth as int,
                ) == Err::<(), TokenFault>(e.fault()),
            },
        decreases self,
    {
        if depth > MAX_DELEGATION_DEPTH {
            return Err(
                TokenVerifyError::ChainTooDeep {
                    token_id: leaf.to_owned(),
                    max: MAX_DELEGATION_DEPTH,
                },
            );
        }
        match &verdicts[depth - 1] {
            Some(source) => {
                return Err(
                    TokenVerifyError::BadSignature {
                        token_id: self.claims.token_id.clone(),
                        source: source.clone(),
                    },
                );
            },
            None => {},
        }
        if now.is_at_or_after(&self.claims.expires) {
            return Err(
                TokenVerifyError::Expired {
                    token_id: self.claims.token_id.clone(),
                    expires: self.claims.expires,
                    now,
                },
            );
        }
        if holds(revoked, self.claims.token_id.as_str()) {
            return Err(TokenVerifyError::Revoked { token_id: self.claims.token_id.clone() });
        }
        match &self.parent {
            None => {
                if !self.claims.issuer.same(verifying_node) {
                    return Err(
                        TokenVerifyError::WrongIssuer {
                            token_id: leaf.to_owned(),
                            root_issuer: self.claims.issuer.0.clone(),
                            verifying_node: verifying_node.0.clone(),
                        },
                    );
                }
                Ok(())
            },
            Some(parent) => {
                assert(self.spec_view().links() == 1 + parent.spec_view().links());
                assert(parent.spec_view().links() >= 1);
                match parent.verify_chain(leaf, verifying_node, now, revoked, verdicts, depth + 1) {
                    Err(reason) => Err(
                        TokenVerifyError::ParentInvalid {
                            token_id: self.claims.token_id.clone(),
                            reason: Box::new(reason),
                        },
                    ),
                    Ok(_) => {
                        if !self.claims.issuer.same(&parent.claims.bearer)
                            || !parent.claims.contains(&self.claims) {
                            return Err(
                                TokenVerifyError::DelegationExceedsParent {
                                    token_id: self.claims.token_id.clone(),
                                },
                            );
                        }
                        Ok(())
                    },
                }
            },
        }
    }
}

/// The claims of a token that the bearer of `parent` delegates.
pub open spec fn child_claims(
    parent: ClaimsView,
    token_id: Seq<char>,
    bearer: Seq<char>,
    capability: Capability,
    scope: ScopeView,
    expires: Timestamp,
) -> ClaimsView {
    ClaimsView { token_id, issuer: parent.bearer, bearer, capability, scope, expires }
}

/// A chain that verifies is no deeper than the limit, roots in the verifying
/// node, and keeps the presented token within the root's capability, scope and
/// expiry.
pub proof fn law_verified_chain_only_narrows(
    t: TokenView,
    leaf: Seq<char>,
    node: Seq<char>,
    now: Timestamp,
    revoked: Seq<Seq<char>>,
    verdicts: Seq<Option<Seq<char>>>,
    depth: int,
)
    requires
        1 <= depth,
        t.chain_outcome(leaf, node, now, revoked, verdicts, depth) is Ok,
    ensures
        depth - 1 + t.links() <= MAX_DELEGATION_DEPTH,
        t.root().claims.issuer == node,
        t.root().parent is None,
        t.parent is Some ==> t.root().claims.contains(t.claims),
    decreases t,
{
    if let Some(parent) = t.parent {
        law_verified_chain_only_narrows(*parent, leaf, node, now, revoked, verdicts, depth + 1);
        if parent.parent is Some {
            lemma_contains_transitive(parent.root().claims, parent.claims, t.claims);
        }
    }
}

/// In a chain that verifies every token carries a good signature, is live and
/// is not revoked.
pub proof fn law_verified_chain_is_live_throughout(
    t: TokenView,
    i: nat,
    leaf: Seq<char>,
    node: Seq<char>,
    now: Timestamp,
    revoked: Seq<Seq<char>>,
    verdicts: Seq<Option<Seq<char>>>,
    depth: int,
)
    requires
        1 <= depth,
        i < t.links(),
        t.chain_outcome(leaf, node, now, revoked, verdicts, depth) is Ok,
    ensures
        verdicts[depth - 1 + i] is None,
        !now.at_or_after(t.link(i).claims.expires),
        !revoked.contains(t.link(i).claims.token_id),
    decreases t,
{
    if let Some(parent) = t.parent {
        if i > 0 {
            law_verified_chain_is_live_throughout(
                *parent,
                (i - 1) as nat,
                leaf,
                node,
                now,
                revoked,
                verdicts,
                depth + 1,
            );
        }
    }
}

/// In a chain that verifies every hop was made by the bearer of the token above
/// it, within that token's claims.
pub proof fn law_verified_hops_stay_within_their_parent(
    t: TokenView,
    i: nat,
    leaf: Seq<char>,
    node: Seq<char>,
    now: Timestamp,
    revoked: Seq<Seq<char>>,
    verdicts: Seq<Option<Seq<char>>>,
    depth: int,
)
    requires
        1 <= depth,
        i + 1 < t.links(),
        t.chain_outcome(leaf, node, now, revoked, verdicts, depth) is Ok,
    ensures
        t.link(i).claims.issuer == t.link(i + 1).claims.bearer,
        t.link(i + 1).claims.contains(t.link(i).claims),
    decreases t,
{
    if let Some(parent) = t.parent {
        assert(t.link(i + 1) == parent.link(i));
        if i > 0 {
            assert(t.link(i) == parent.link((i - 1) as nat));
            law_verified_hops_stay_within_their_parent(
                *parent,
                (i - 1) as nat,
                leaf,
                node,
                now,
                revoked,
                verdicts,
                depth + 1,
            );
        } else {
            assert(parent.link(0) == *parent);
        }
    }
}

/// Containment composes along a chain.
proof fn lemma_contains_transitive(a: ClaimsView, b: ClaimsView, c: ClaimsView)
    requires
        a.contains(b),
        b.contains(c),
    ensures
        a.contains(c),
{
    crate::manage::scope::law_covers_is_transitive(a.scope, b.scope, c.scope);
}

/// One token of a chain that is revoked, expired or badly signed is enough to
/// refuse the whole chain.
pub proof fn law_one_bad_link_refuses_the_chain(
    t: TokenView,
    i: nat,
    node: Seq<char>,
    connected: Seq<char>,
    now: Timestamp,
    revoked: Seq<Seq<char>>,
    verdicts: Seq<Option<Seq<char>>>,
)
    requires
        i < t.links(),
        revoked.contains(t.link(i).claims.token_id) || now.at_or_after(t.link(i).claims.expires)
            || verdicts[i as int] is Some,
    ensures
        t.outcome(node, connected, now, revoked, verdicts) is Err,
{
    if t.outcome(node, connected, now, revoked, verdicts) is Ok {
        law_verified_chain_is_live_throughout(
            t,
            i,
            t.claims.token_id,
            node,
            now,
            revoked,
            verdicts,
            1,
        );
    }
}

/// A token that the node issued verifies for its bearer while it is live,
/// unrevoked and carries a good signature.
pub proof fn law_issued_token_verifies(
    t: TokenView,
    now: Timestamp,
    revoked: Seq<Seq<char>>,
    verdicts: Seq<Option<Seq<char>>>,
)
    requires
        t.parent is None,
        verdicts.len() >= 1,
        verdicts[0] is None,
        !now.at_or_after(t.claims.expires),
        !revoked.contains(t.claims.token_id),
    ensures
        t.outcome(t.claims.issuer, t.claims.bearer, now, revoked, verdicts) is Ok,
{
}

/// A token delegated within a verifying parent verifies in turn for its bearer,
/// as long as the chain has room for one more hop.
pub proof fn law_delegated_token_verifies(
    parent: TokenView,
    child: TokenView,
    node: Seq<char>,
    now: Timestamp,
    revoked: Seq<Seq<char>>,
    verdicts: Seq<Option<Seq<char>>>,
)
    requires
        child.parent == Some(Box::new(parent)),
        child.claims.issuer == parent.claims.bearer,
        parent.claims.contains(child.claims),
        verdicts.len() >= child.checked_links(),
        verdicts[0] is None,
        !now.at_or_after(child.claims.expires),
        !revoked.contains(child.claims.token_id),
        parent.chain_outcome(child.claims.token_id, node, now, revoked, verdicts, 2) is Ok,
    ensures
        child.outcome(node, child.claims.bearer, now, revoked, verdicts) is Ok,
{
}

/// A verified token confers no more than a live grant of its own capability
/// and scope to its bearer.
pub proof fn law_token_confers_its_claims(
    c: ClaimsView,
    caller: Seq<char>,
    needed: Capability,
    target: ScopeView,
    now: Timestamp,
)
    ensures
        c.grant().confers(caller, needed, target, now) <==> {
            &&& c.bearer == caller
            &&& c.capability == needed
            &&& !now.at_or_after(c.expires)
            &&& c.scope.covers(target)
            &&& !(needed.dangerous() && c.scope.node_wide())
        },
{
}

/// No two distinct claims share their signing bytes: no signature over one can
/// be read as one over the other.
pub proof fn law_signing_bytes_identify_the_claims(a: ClaimsView, b: ClaimsView)
    requires
        a.fits(),
        b.fits(),
    ensures
        a != b ==> a.signing_bytes() != b.signing_bytes(),
{
    if a.signing_bytes() == b.signing_bytes() {
        lemma_claims_identified(a, b);
    }
}

/// Claims with the same signing bytes are the same.
proof fn lemma_claims_identified(a: ClaimsView, b: ClaimsView)
    requires
        a.fits(),
        b.fits(),
        a.signing_bytes() == b.signing_bytes(),
    ensures
        a == b,
{
    let (pa, pb) = (
        bytes::utf8(text::text_or(a.scope.path(), Seq::empty())),
        bytes::utf8(text::text_or(b.scope.path(), Seq::empty())),
    );
    lemma_short_texts(a);
    lemma_short_texts(b);
    lemma_fields_identified(
        bytes::utf8(TOKEN_SIGNING_DOMAIN@),
        bytes::utf8(a.token_id),
        bytes::utf8(a.issuer),
        bytes::utf8(a.bearer),
        bytes::utf8(a.capability.wire()),
        bytes::utf8(a.scope.kind()),
        pa,
        expiry_bytes(a.expires),
        bytes::utf8(b.token_id),
        bytes::utf8(b.issuer),
        bytes::utf8(b.bearer),
        bytes::utf8(b.capability.wire()),
        bytes::utf8(b.scope.kind()),
        pb,
        expiry_bytes(b.expires),
    );
    lemma_expiry_identified(a.expires, b.expires);
    bytes::lemma_utf8_injective(a.token_id, b.token_id);
    bytes::lemma_utf8_injective(a.issuer, b.issuer);
    bytes::lemma_utf8_injective(a.bearer, b.bearer);
    bytes::lemma_utf8_injective(a.capability.wire(), b.capability.wire());
    crate::manage::law_wire_form_is_unique(a.capability, b.capability);
    bytes::lemma_utf8_injective(a.scope.kind(), b.scope.kind());
    crate::manage::scope::lemma_kinds_differ();
    bytes::lemma_utf8_injective(
        text::text_or(a.scope.path(), Seq::empty()),
        text::text_or(b.scope.path(), Seq::empty()),
    );
}

/// Instants with the same signed form are the same.
proof fn lemma_expiry_identified(a: Timestamp, b: Timestamp)
    requires
        expiry_bytes(a) == expiry_bytes(b),
    ensures
        a == b,
{
    reveal(expiry_bytes);
    assert(expiry_bytes(a).take(8) == bytes::be_i64(a.spec_secs()));
    assert(expiry_bytes(b).take(8) == bytes::be_i64(b.spec_secs()));
    assert(expiry_bytes(a).skip(8) == bytes::be_u64(a.spec_nanos() as u64));
    assert(expiry_bytes(b).skip(8) == bytes::be_u64(b.spec_nanos() as u64));
    bytes::lemma_be_i64_injective(a.spec_secs(), b.spec_secs());
    bytes::lemma_be_u64_injective(a.spec_nanos() as u64, b.spec_nanos() as u64);
    crate::time::lemma_order_total(a, b);
}

/// A tag, six fields and a tail can be told apart in the bytes they make up.
proof fn lemma_fields_identified(
    d: Seq<u8>,
    x1: Seq<u8>,
    x2: Seq<u8>,
    x3: Seq<u8>,
    x4: Seq<u8>,
    x5: Seq<u8>,
    x6: Seq<u8>,
    x7: Seq<u8>,
    y1: Seq<u8>,
    y2: Seq<u8>,
    y3: Seq<u8>,
    y4: Seq<u8>,
    y5: Seq<u8>,
    y6: Seq<u8>,
    y7: Seq<u8>,
)
    requires
        d + bytes::field(x1) + bytes::field(x2) + bytes::field(x3) + bytes::field(x4)
            + bytes::field(x5) + bytes::field(x6) + x7 == d + bytes::field(y1) + bytes::field(y2)
            + bytes::field(y3) + bytes::field(y4) + bytes::field(y5) + bytes::field(y6) + y7,
        x1.len() <= u64::MAX,
        x2.len() <= u64::MAX,
        x3.len() <= u64::MAX,
        x4.len() <= u64::MAX,
        x5.len() <= u64::MAX,
        x6.len() <= u64::MAX,
        y1.len() <= u64::MAX,
        y2.len() <= u64::MAX,
        y3.len() <= u64::MAX,
        y4.len() <= u64::MAX,
        y5.len() <= u64::MAX,
        y6.len() <= u64::MAX,
    ensures
        x1 == y1,
        x2 == y2,
        x3 == y3,
        x4 == y4,
        x5 == y5,
        x6 == y6,
        x7 == y7,
{
    let (a6, b6) = (bytes::field(x6) + x7, bytes::field(y6) + y7);
    let (a5, b5) = (bytes::field(x5) + a6, bytes::field(y5) + b6);
    let (a4, b4) = (bytes::field(x4) + a5, bytes::field(y4) + b5);
    let (a3, b3) = (bytes::field(x3) + a4, bytes::field(y3) + b4);
    let (a2, b2) = (bytes::field(x2) + a3, bytes::field(y2) + b3);
    let (a1, b1) = (bytes::field(x1) + a2, bytes::field(y1) + b2);
    assert(d + bytes::field(x1) + bytes::field(x2) + bytes::field(x3) + bytes::field(x4)
        + bytes::field(x5) + bytes::field(x6) + x7 =~= d + a1);
    assert(d + bytes::field(y1) + bytes::field(y2) + bytes::field(y3) + bytes::field(y4)
        + bytes::field(y5) + bytes::field(y6) + y7 =~= d + b1);
    assert((d + a1).skip(d.len() as int) =~= a1);
    assert((d + b1).skip(d.len() as int) =~= b1);
    bytes::lemma_field_prefix(x1, a2, y1, b2);
    bytes::lemma_field_prefix(x2, a3, y2, b3);
    bytes::lemma_field_prefix(x3, a4, y3, b4);
    bytes::lemma_field_prefix(x4, a5, y4, b5);
    bytes::lemma_field_prefix(x5, a6, y5, b6);
    bytes::lemma_field_prefix(x6, x7, y6, y7);
}

/// The fixed texts of a claim are short.
proof fn lemma_short_texts(c: ClaimsView)
    ensures
        bytes::utf8(c.capability.wire()).len() <= u64::MAX,
        bytes::utf8(c.scope.kind()).len() <= u64::MAX,
        c.scope is Node ==> bytes::utf8(text::text_or(c.scope.path(), Seq::empty())).len()
            <= u64::MAX,
{
    reveal_strlit("status:read");
    reveal_strlit("pin:write");
    reveal_strlit("cache:manage");
    reveal_strlit("config:push");
    reveal_strlit("policy:set");
    reveal_strlit("backend:manage");
    reveal_strlit("lifecycle:control");
    reveal_strlit("grant:admin");
    reveal_strlit("data:read");
    reveal_strlit("data:write");
    reveal_strlit("exec:pty");
    reveal_strlit("exec:proc");
    reveal_strlit("node");
    reveal_strlit("folder");
    bytes::lemma_utf8_len(c.capability.wire());
    bytes::lemma_utf8_len(c.scope.kind());
    bytes::lemma_utf8_len(Seq::empty());
}

/// A token verifies for a device exactly where it was made out to that device, its
/// chain has at most eight links, every link is soundly signed, live and not
/// revoked, the chain ends in a token that the node itself issued, and every link
/// was issued by the bearer of the one above it, for the same capability, over a
/// scope that one covers, and to expire no later.
pub proof fn law_a_chain_verifies_exactly_where_every_link_does(
    t: TokenView,
    node: Seq<char>,
    connected: Seq<char>,
    now: Timestamp,
    revoked: Seq<Seq<char>>,
    verdicts: Seq<Option<Seq<char>>>,
)
    ensures
        t.outcome(node, connected, now, revoked, verdicts) is Ok <==> {
            &&& t.claims.bearer == connected
            &&& t.links() <= 8
            &&& forall|i: nat|
                i < t.links() ==> verdicts[i as int] is None && !now.at_or_after(
                    (#[trigger] t.link(i)).claims.expires,
                ) && !revoked.contains(t.link(i).claims.token_id)
            &&& t.root().claims.issuer == node
            &&& forall|i: nat, j: nat|
                #![trigger t.link(i), t.link(j)]
                j == i + 1 && j < t.links() ==> {
                    let child = t.link(i).claims;
                    let parent = t.link(j).claims;
                    &&& child.issuer == parent.bearer
                    &&& child.capability == parent.capability
                    &&& parent.scope.covers(child.scope)
                    &&& parent.expires.at_or_after(child.expires)
                }
        },
{
    let leaf = t.claims.token_id;
    if t.outcome(node, connected, now, revoked, verdicts) is Ok {
        law_verified_chain_only_narrows(t, leaf, node, now, revoked, verdicts, 1);
        assert forall|i: nat| i < t.links() implies verdicts[i as int] is None
            && !now.at_or_after((#[trigger] t.link(i)).claims.expires) && !revoked.contains(
            t.link(i).claims.token_id,
        ) by {
            law_verified_chain_is_live_throughout(t, i, leaf, node, now, revoked, verdicts, 1);
        }
        assert forall|i: nat, j: nat|
            #![trigger t.link(i), t.link(j)]
            j == i + 1 && j < t.links() implies ({
            let child = t.link(i).claims;
            let parent = t.link(j).claims;
            &&& child.issuer == parent.bearer
            &&& child.capability == parent.capability
            &&& parent.scope.covers(child.scope)
            &&& parent.expires.at_or_after(child.expires)
        }) by {
            law_verified_hops_stay_within_their_parent(
                t,
                i,
                leaf,
                node,
                now,
                revoked,
                verdicts,
                1,
            );
        }
    }
    if t.claims.bearer == connected && t.links() <= 8 && (forall|i: nat|
        i < t.links() ==> verdicts[i as int] is None && !now.at_or_after(
            (#[trigger] t.link(i)).claims.expires,
        ) && !revoked.contains(t.link(i).claims.token_id)) && t.root().claims.issuer == node && (
    forall|i: nat, j: nat|
        #![trigger t.link(i), t.link(j)]
        j == i + 1 && j < t.links() ==> {
            let child = t.link(i).claims;
            let parent = t.link(j).claims;
            &&& child.issuer == parent.bearer
            &&& child.capability == parent.capability
            &&& parent.scope.covers(child.scope)
            &&& parent.expires.at_or_after(child.expires)
        }) {
        lemma_sound_chain(t, leaf, node, now, revoked, verdicts, 1);
    }
}

/// A chain of sound links that ends in the node verifies.
proof fn lemma_sound_chain(
    t: TokenView,
    leaf: Seq<char>,
    node: Seq<char>,
    now: Timestamp,
    revoked: Seq<Seq<char>>,
    verdicts: Seq<Option<Seq<char>>>,
    depth: int,
)
    requires
        1 <= depth,
        depth - 1 + t.links() <= 8,
        forall|i: nat|
            i < t.links() ==> verdicts[depth - 1 + i] is None && !now.at_or_after(
                (#[trigger] t.link(i)).claims.expires,
            ) && !revoked.contains(t.link(i).claims.token_id),
        t.root().claims.issuer == node,
        forall|i: nat, j: nat|
            #![trigger t.link(i), t.link(j)]
            j == i + 1 && j < t.links() ==> {
                let child = t.link(i).claims;
                let parent = t.link(j).claims;
                &&& child.issuer == parent.bearer
                &&& child.capability == parent.capability
                &&& parent.scope.covers(child.scope)
                &&& parent.expires.at_or_after(child.expires)
            },
    ensures
        t.chain_outcome(leaf, node, now, revoked, verdicts, depth) is Ok,
    decreases t,
{
    assert(t.link(0) == t);
    if let Some(boxed) = t.parent {
        let parent = *boxed;
        assert forall|i: nat| i < parent.links() implies verdicts[depth + 1 - 1 + i] is None
            && !now.at_or_after((#[trigger] parent.link(i)).claims.expires) && !revoked.contains(
            parent.link(i).claims.token_id,
        ) by {
            assert(t.link(i + 1) == parent.link(i));
        }
        assert forall|i: nat, j: nat|
            #![trigger parent.link(i), parent.link(j)]
            j == i + 1 && j < parent.links() implies ({
            let child = parent.link(i).claims;
            let above = parent.link(j).claims;
            &&& child.issuer == above.bearer
            &&& child.capability == above.capability
            &&& above.scope.covers(child.scope)
            &&& above.expires.at_or_after(child.expires)
        }) by {
            assert(t.link(i + 1) == parent.link(i));
            assert(t.link(j + 1) == parent.link(j));
        }
        lemma_sound_chain(parent, leaf, node, now, revoked, verdicts, depth + 1);
        assert(t.link(1) == parent.link(0));
        assert(parent.link(0) == parent);
        assert(t.links() > 1) by {
            lemma_has_links(parent);
        }
    }
}

/// A chain has at least one link.
proof fn lemma_has_links(t: TokenView)
    ensures
        t.links() >= 1,
{
}

/// Why a token that no other backs is refused: first for another bearer, then for its
/// signature, its expiry, its revocation, and at last for an issuer that is not the
/// node.
pub proof fn law_why_a_token_is_refused(
    t: TokenView,
    node: Seq<char>,
    connected: Seq<char>,
    now: Timestamp,
    revoked: Seq<Seq<char>>,
    verdicts: Seq<Option<Seq<char>>>,
)
    requires
        t.parent is None,
    ensures
        ({
            let c = t.claims;
            let r = t.outcome(node, connected, now, revoked, verdicts);
            let ours = c.bearer == connected;
            let signed = verdicts[0] is None;
            let live = !now.at_or_after(c.expires);
            let standing = !revoked.contains(c.token_id);
            &&& !ours ==> r == Err::<(), TokenFault>(
                TokenFault::BearerMismatch(c.token_id, c.bearer, connected),
            )
            &&& ours && !signed ==> r == Err::<(), TokenFault>(
                TokenFault::BadSignature(c.token_id, verdicts[0]->0),
            )
            &&& ours && signed && !live ==> r == Err::<(), TokenFault>(
                TokenFault::Expired(c.token_id, c.expires, now),
            )
            &&& ours && signed && live && !standing ==> r == Err::<(), TokenFault>(
                TokenFault::Revoked(c.token_id),
            )
            &&& ours && signed && live && standing && c.issuer != node ==> r == Err::<
                (),
                TokenFault,
            >(TokenFault::WrongIssuer(c.token_id, c.issuer, node))
            &&& r is Ok <==> ours && signed && live && standing && c.issuer == node
        }),
{
}

/// The message of a refusal begins with the id of the token it is about, and that of
/// an invalid parent ends with what is wrong with the parent.
pub proof fn law_a_refusal_names_its_token(id: Seq<char>, inner: TokenFault, fault: TokenFault)
    requires
        match fault {
            TokenFault::BadSignature(of, _) => of == id,
            TokenFault::WrongIssuer(of, _, _) => of == id,
            TokenFault::BearerMismatch(of, _, _) => of == id,
            TokenFault::Expired(of, _, _) => of == id,
            TokenFault::Revoked(of) => of == id,
            TokenFault::DelegationExceedsParent(of) => of == id,
            TokenFault::ParentInvalid(of, reason) => of == id && *reason == inner,
            TokenFault::ChainTooDeep(of, _) => of == id,
        },
    ensures
        ("token "@ + id + seq![':']).is_prefix_of(fault.text()),
        fault is ParentInvalid ==> inner.text().is_suffix_of(fault.text()),
{
    let start = "token "@ + id;
    reveal_strlit(": signature verification failed: ");
    reveal_strlit(": chain root issuer ");
    reveal_strlit(": bearer ");
    reveal_strlit(": expired at ");
    reveal_strlit(": revoked");
    reveal_strlit(": delegation exceeds parent authority");
    reveal_strlit(": parent token invalid: ");
    reveal_strlit(": delegation chain exceeds maximum depth ");
    let text = fault.text();
    let n = start.len() as int;
    assert(text.subrange(0, n + 1) =~= start + seq![':']);
    if fault is ParentInvalid {
        assert(text.subrange(text.len() - inner.text().len(), text.len() as int) =~= inner.text());
    }
}

/// Bytes between the same two ends differ where the whole does.
proof fn lemma_between(before: Seq<u8>, a: Seq<u8>, b: Seq<u8>, after: Seq<u8>)
    requires
        before + a + after == before + b + after,
    ensures
        a == b,
{
    let whole = before + a + after;
    let n = before.len() as int;
    assert(whole.len() == (before + b + after).len());
    assert(a.len() == b.len());
    assert(whole.subrange(n, n + a.len()) == a);
    assert((before + b + after).subrange(n, n + b.len()) == b);
}

/// Every part of a token goes into its id: what is hashed changes with the issuer,
/// the bearer, the capability, the folder, the millisecond of the expiry and, as
/// long as its nanoseconds fit, the instant of issue.
pub proof fn law_every_claim_goes_into_the_id(
    issuer: Seq<char>,
    bearer: Seq<char>,
    capability: Capability,
    folder: Seq<char>,
    expires: Timestamp,
    issued_at: Timestamp,
    other_text: Seq<char>,
    other_capability: Capability,
    other_time: Timestamp,
)
    requires
        i64::MIN <= expires.spec_millis() <= i64::MAX,
        i64::MIN <= other_time.spec_millis() <= i64::MAX,
        i64::MIN <= issued_at.spec_total_nanos() <= i64::MAX,
        i64::MIN <= other_time.spec_total_nanos() <= i64::MAX,
    ensures
        ({
            let scope = ScopeView::Folder(folder);
            let it = token_id_preimage(issuer, bearer, capability, scope, expires, issued_at);
            &&& other_text != issuer ==> it != token_id_preimage(
                other_text,
                bearer,
                capability,
                scope,
                expires,
                issued_at,
            )
            &&& other_text != bearer ==> it != token_id_preimage(
                issuer,
                other_text,
                capability,
                scope,
                expires,
                issued_at,
            )
            &&& other_capability != capability ==> it != token_id_preimage(
                issuer,
                bearer,
                other_capability,
                scope,
                expires,
                issued_at,
            )
            &&& other_text != folder ==> it != token_id_preimage(
                issuer,
                bearer,
                capability,
                ScopeView::Folder(other_text),
                expires,
                issued_at,
            )
            &&& other_time.spec_millis() != expires.spec_millis() ==> it != token_id_preimage(
                issuer,
                bearer,
                capability,
                scope,
                other_time,
                issued_at,
            )
            &&& other_time.spec_total_nanos() != issued_at.spec_total_nanos() ==> it
                != token_id_preimage(issuer, bearer, capability, scope, expires, other_time)
        }),
{
    let scope = ScopeView::Folder(folder);
    let (d, i, b) = (bytes::utf8(TOKEN_ID_DOMAIN@), bytes::utf8(issuer), bytes::utf8(bearer));
    let c = bytes::utf8(capability.wire());
    let (k, f) = (bytes::utf8(scope.kind()), bytes::utf8(folder));
    let e = bytes::be_i64(expires.spec_millis() as i64);
    let n = bytes::be_i64(issued_at.spec_total_nanos() as i64);
    let u = bytes::utf8(other_text);
    let w = bytes::utf8(other_capability.wire());
    let m = bytes::be_i64(other_time.spec_millis() as i64);
    let t = bytes::be_i64(other_time.spec_total_nanos() as i64);
    lemma_one_part_told(d, i, b, c, k, f, e, n, u);
    lemma_one_part_told(d, i, b, c, k, f, e, n, w);
    lemma_one_part_told(d, i, b, c, k, f, e, n, m);
    lemma_one_part_told(d, i, b, c, k, f, e, n, t);
    if u == i {
        bytes::lemma_utf8_injective(issuer, other_text);
    }
    if u == b {
        bytes::lemma_utf8_injective(bearer, other_text);
    }
    if u == f {
        bytes::lemma_utf8_injective(folder, other_text);
    }
    if w == c {
        bytes::lemma_utf8_injective(capability.wire(), other_capability.wire());
        crate::manage::law_wire_form_is_unique(capability, other_capability);
    }
    if m == e {
        bytes::lemma_be_i64_injective(
            expires.spec_millis() as i64,
            other_time.spec_millis() as i64,
        );
    }
    if t == n {
        bytes::lemma_be_i64_injective(
            issued_at.spec_total_nanos() as i64,
            other_time.spec_total_nanos() as i64,
        );
    }
}

/// Changing one of the parts that bytes are put together of changes the bytes.
proof fn lemma_one_part_told(
    d: Seq<u8>,
    i: Seq<u8>,
    b: Seq<u8>,
    c: Seq<u8>,
    k: Seq<u8>,
    f: Seq<u8>,
    e: Seq<u8>,
    n: Seq<u8>,
    x: Seq<u8>,
)
    ensures
        d + i + b + c + k + f + e + n == d + x + b + c + k + f + e + n ==> x == i,
        d + i + b + c + k + f + e + n == d + i + x + c + k + f + e + n ==> x == b,
        d + i + b + c + k + f + e + n == d + i + b + x + k + f + e + n ==> x == c,
        d + i + b + c + k + f + e + n == d + i + b + c + k + x + e + n ==> x == f,
        d + i + b + c + k + f + e + n == d + i + b + c + k + f + x + n ==> x == e,
        d + i + b + c + k + f + e + n == d + i + b + c + k + f + e + x ==> x == n,
{
    lemma_part_told(d, i, x, b, c + k + f + e + n);
    lemma_part_told(d + i, b, x, c, k + f + e + n);
    lemma_part_told(d + i + b, c, x, k, f + e + n);
    lemma_part_told(d + i + b + c + k, f, x, e, n);
    lemma_part_told(d + i + b + c + k + f, e, x, n, Seq::empty());
    lemma_part_told(d + i + b + c + k + f + e, n, x, Seq::empty(), Seq::empty());
    lemma_regrouped(d, i, b, c, k, f, e, n);
    lemma_regrouped(d, x, b, c, k, f, e, n);
    lemma_regrouped(d, i, x, c, k, f, e, n);
    lemma_regrouped(d, i, b, x, k, f, e, n);
    lemma_regrouped(d, i, b, c, k, x, e, n);
    lemma_regrouped(d, i, b, c, k, f, x, n);
    lemma_regrouped(d, i, b, c, k, f, e, x);
}

/// Bytes put together can be grouped at any place.
proof fn lemma_regrouped(
    d: Seq<u8>,
    i: Seq<u8>,
    b: Seq<u8>,
    c: Seq<u8>,
    k: Seq<u8>,
    f: Seq<u8>,
    e: Seq<u8>,
    n: Seq<u8>,
)
    ensures
        d + i + b + c + k + f + e + n == d + i + (b + (c + k + f + e + n)),
        d + i + b + c + k + f + e + n == d + i + b + (c + (k + f + e + n)),
        d + i + b + c + k + f + e + n == d + i + b + c + (k + (f + e + n)),
        d + i + b + c + k + f + e + n == d + i + b + c + k + f + (e + n),
        d + i + b + c + k + f + e + n == d + i + b + c + k + f + e + (n + Seq::empty()),
        d + i + b + c + k + f + e + n == d + i + b + c + k + f + e + n + (Seq::<u8>::empty()
            + Seq::empty()),
{
    let whole = d + i + b + c + k + f + e + n;
    assert(whole =~= d + i + (b + (c + k + f + e + n)));
    assert(whole =~= d + i + b + (c + (k + f + e + n)));
    assert(whole =~= d + i + b + c + (k + (f + e + n)));
    assert(whole =~= d + i + b + c + k + f + (e + n));
    assert(whole =~= d + i + b + c + k + f + e + (n + Seq::empty()));
    assert(whole =~= whole + (Seq::<u8>::empty() + Seq::empty()));
}

/// A part between the same two ends is told by the whole.
proof fn lemma_part_told(
    before: Seq<u8>,
    a: Seq<u8>,
    x: Seq<u8>,
    next: Seq<u8>,
    rest: Seq<u8>,
)
    ensures
        before + a + (next + rest) == before + x + (next + rest) ==> x == a,
{
    if before + a + (next + rest) == before + x + (next + rest) {
        lemma_between(before, a, x, next + rest);
    }
}

/// What a token's claims stand for leaves nothing out, the grant they confer is made
/// out to the bearer by the issuer, and delegated claims are issued by the bearer of
/// the token above.
pub proof fn law_claims_are_carried_over(
    claims: TokenClaims,
    parent: ClaimsView,
    token_id: Seq<char>,
    bearer: Seq<char>,
    capability: Capability,
    scope: ScopeView,
    expires: Timestamp,
)
    ensures
        claims@.token_id == claims.token_id@,
        claims@.issuer == claims.issuer@,
        claims@.bearer == claims.bearer@,
        claims@.capability == claims.capability,
        claims@.scope == claims.scope@,
        claims@.expires == claims.expires,
        claims@.grant().grantee == claims.bearer@,
        claims@.grant().granted_by == claims.issuer@,
        claims@.grant().capability == claims.capability,
        claims@.grant().scope == claims.scope@,
        claims@.grant().expires == Some(claims.expires),
        ({
            let child = child_claims(parent, token_id, bearer, capability, scope, expires);
            &&& child.token_id == token_id
            &&& child.issuer == parent.bearer
            &&& child.bearer == bearer
            &&& child.capability == capability
            &&& child.scope == scope
            &&& child.expires == expires
        }),
{
}

/// There is one verdict for each signature check, in order, and none is a fault
/// exactly where the check passed.
pub proof fn law_verdicts_are_those_of_the_checks(verdicts: Seq<Option<DeviceKeyError>>, i: int)
    requires
        0 <= i < verdicts.len(),
    ensures
        verdict_views(verdicts).len() == verdicts.len(),
        verdict_views(verdicts)[i] is None <==> verdicts[i] is None,
        verdicts[i] matches Some(e) ==> verdict_views(verdicts)[i] == Some(e@),
{
}

/// A signature check is about the very bytes, signature, certificate and issuer of
/// its token, and there is one for each link up to the eighth.
pub proof fn law_a_check_is_about_its_token(check: SignatureCheck, token: TokenView)
    requires
        check.is_for(token),
    ensures
        check.issuer_cert_der@ == token.issuer_cert_der,
        check.issuer@ == token.claims.issuer,
        check.signed@ == token.claims.signing_bytes(),
        check.signature@ == token.signature,
        token.checked_links() <= 8,
        token.links() <= 8 ==> token.checked_links() == token.links(),
        token.links() > 8 ==> token.checked_links() == 8,
{
}

/// An error stands for the fault of its kind, about the same token and with the same
/// particulars.
pub proof fn law_an_error_stands_for_its_fault(error: TokenVerifyError)
    ensures
        error matches TokenVerifyError::BadSignature { token_id, source } ==> error.fault()
            == TokenFault::BadSignature(token_id@, source@),
        error matches TokenVerifyError::WrongIssuer { token_id, root_issuer, verifying_node }
            ==> error.fault() == TokenFault::WrongIssuer(
            token_id@,
            root_issuer@,
            verifying_node@,
        ),
        error matches TokenVerifyError::BearerMismatch { token_id, bearer, connected }
            ==> error.fault() == TokenFault::BearerMismatch(token_id@, bearer@, connected@),
        error matches TokenVerifyError::Expired { token_id, expires, now } ==> error.fault()
            == TokenFault::Expired(token_id@, expires, now),
        error matches TokenVerifyError::Revoked { token_id } ==> error.fault()
            == TokenFault::Revoked(token_id@),
        error matches TokenVerifyError::DelegationExceedsParent { token_id } ==> error.fault()
            == TokenFault::DelegationExceedsParent(token_id@),
        error matches TokenVerifyError::ParentInvalid { token_id, reason } ==> error.fault()
            == TokenFault::ParentInvalid(token_id@, Box::new(reason.fault())),
        error matches TokenVerifyError::ChainTooDeep { token_id, max } ==> error.fault()
            == TokenFault::ChainTooDeep(token_id@, max as int),
{
}

/// What is wrong along a chain: one that is too deep is refused as such, a link whose
/// parent does not verify for that reason, and a link that claims more than its
/// parent, or was not issued by the parent's bearer, for exceeding it.
pub proof fn law_why_a_delegated_token_is_refused(
    t: TokenView,
    parent: TokenView,
    leaf: Seq<char>,
    node: Seq<char>,
    now: Timestamp,
    revoked: Seq<Seq<char>>,
    verdicts: Seq<Option<Seq<char>>>,
    depth: int,
)
    requires
        t.parent == Some(Box::new(parent)),
        1 <= depth,
    ensures
        ({
            let c = t.claims;
            let above = parent.chain_outcome(leaf, node, now, revoked, verdicts, depth + 1);
            let r = t.chain_outcome(leaf, node, now, revoked, verdicts, depth);
            let sound = verdicts[depth - 1] is None && !now.at_or_after(c.expires)
                && !revoked.contains(c.token_id);
            let narrows = c.issuer == parent.claims.bearer && c.capability
                == parent.claims.capability && parent.claims.scope.covers(c.scope)
                && parent.claims.expires.at_or_after(c.expires);
            &&& depth > 8 ==> r == Err::<(), TokenFault>(TokenFault::ChainTooDeep(leaf, 8))
            &&& depth <= 8 && sound && above is Err ==> r == Err::<(), TokenFault>(
                TokenFault::ParentInvalid(c.token_id, Box::new(above->Err_0)),
            )
            &&& depth <= 8 && sound && above is Ok && !narrows ==> r == Err::<(), TokenFault>(
                TokenFault::DelegationExceedsParent(c.token_id),
            )
            &&& r is Ok <==> depth <= 8 && sound && above is Ok && narrows
        }),
{
}

/// The text of a failed delegation says which of the three things went wrong.
pub proof fn law_a_failed_delegation_says_why(key: DeviceKeyError)
    ensures
        key@.is_suffix_of(DelegateError::Key(key).text()),
        DelegateError::NotDelegator.text() != DelegateError::Exceeds.text(),
        DelegateError::NotDelegator.text() == "delegator is not the bearer of the parent token"@,
{
    let said = DelegateError::Key(key).text();
    assert(said.subrange(said.len() - key@.len(), said.len() as int) =~= key@);
    reveal_strlit("delegator is not the bearer of the parent token");
    reveal_strlit("delegated grant exceeds the parent token's authority");
    assert(DelegateError::NotDelegator.text().len() != DelegateError::Exceeds.text().len());
}

/// A token stands for its claims, its signature and its certificate, and for the token
/// it was delegated from where it was.
pub proof fn law_a_token_stands_for_its_whole_chain(token: CapabilityToken)
    ensures
        token.spec_view().claims == token.claims@,
        token.spec_view().signature == token.signature@,
        token.spec_view().issuer_cert_der == token.issuer_cert_der@,
        token.parent is None <==> token.spec_view().parent is None,
        token.parent matches Some(parent) ==> (token.spec_view().parent matches Some(seen) && *seen
            == parent.spec_view()),
{
}

} // verus!
