//! Capability tokens: issuing, delegating and verifying.

use std::sync::atomic::{AtomicU64, Ordering};

use cascade_engine::manage::token::{DeviceKeyError, SignatureCheck};
use cascade_engine::manage::{
    derive_token_id, Capability, CapabilityToken, DelegateError, DeviceId, Scope, TokenClaims,
    TokenVerifyError, MAX_DELEGATION_DEPTH,
};
use cascade_engine::manage::wire::{
    cert_from_text, cert_text, signature_from_text, signature_text, SignatureTextError,
};
use cascade_engine::time::Timestamp;
use chrono::{TimeZone, Utc};
use sha2::{Digest, Sha256};

fn at(year: i32, month: u32, day: u32) -> Timestamp {
    let date = Utc
        .with_ymd_and_hms(year, month, day, 0, 0, 0)
        .single()
    .expect("valid date");
    Timestamp::new(date.timestamp(), 0).expect("in range")
}

/// A device identity of the tests: its certificate is its id, and it signs by
/// hashing.
struct DeviceIdentity {
    device_id: String,
}

impl DeviceIdentity {
    fn generate() -> DeviceIdentity {
        let n = NEXT_DEVICE.fetch_add(1, Ordering::SeqCst);
        DeviceIdentity {
            device_id: format!("DEVICE-{n}"),
        }
    }

    fn cert_der(&self) -> Vec<u8> {
        self.device_id.as_bytes().to_vec()
    }

    fn sign_capability(&self, message: &[u8]) -> [u8; 64] {
        let mut salted = self.device_id.as_bytes().to_vec();
        salted.extend_from_slice(message);
        let first = Sha256::digest(&salted);
        salted.push(0);
        let second = Sha256::digest(&salted);
        let mut signature = [0u8; 64];
        signature[..32].copy_from_slice(&first);
        signature[32..].copy_from_slice(&second);
        signature
    }
}

static NEXT_DEVICE: AtomicU64 = AtomicU64::new(1);

/// What checking one signature reports.
fn check(check: &SignatureCheck) -> Option<DeviceKeyError> {
    let issuer = DeviceIdentity {
        device_id: check.issuer.as_str().to_owned(),
    };
    if issuer.cert_der() != check.issuer_cert_der {
        return Some(DeviceKeyError("certificate is not the issuer's".to_owned()));
    }
    if issuer.sign_capability(&check.signed) != check.signature {
        return Some(DeviceKeyError("signature does not match".to_owned()));
    }
    None
}

/// The verdicts on every signature of a token.
fn verdicts(token: &CapabilityToken) -> Vec<Option<DeviceKeyError>> {
    token.signature_checks().iter().map(check).collect()
}

/// Issues a token signed by `issuer`.
fn issue(
    token_id: &str,
    issuer: &DeviceIdentity,
    bearer: &DeviceId,
    capability: Capability,
    scope: Scope,
    expires: Timestamp,
) -> Result<CapabilityToken, DeviceKeyError> {
    let claims = TokenClaims {
        token_id: token_id.to_owned(),
        issuer: DeviceId::new(&issuer.device_id),
        bearer: bearer.clone(),
        capability,
        scope,
        expires,
    };
    let signature = issuer.sign_capability(&claims.signing_bytes());
    CapabilityToken::issue(claims, Ok(signature), Ok(issuer.cert_der()))
}

/// Delegates from `parent`, signed by `delegator`.
fn delegate(
    parent: &CapabilityToken,
    token_id: &str,
    delegator: &DeviceIdentity,
    bearer: &DeviceId,
    capability: Capability,
    scope: Scope,
    expires: Timestamp,
) -> Result<CapabilityToken, DelegateError> {
    let id = DeviceId::new(&delegator.device_id);
    let claims =
        parent.delegated_claims(token_id, &id, bearer, capability, scope.clone(), expires)?;
    let signature = delegator.sign_capability(&claims.signing_bytes());
    parent.delegate(
        token_id,
        &id,
        bearer,
        capability,
        scope,
        expires,
        Ok(signature),
        Ok(delegator.cert_der()),
    )
}

fn id_of(identity: &DeviceIdentity) -> DeviceId {
    DeviceId::new(&identity.device_id)
}

/// Verifies a token with every signature checked.
fn verify<'a>(
    token: &'a CapabilityToken,
    node: &DeviceId,
    connected: &DeviceId,
    now: Timestamp,
    revoked: &[&str],
) -> Result<&'a TokenClaims, TokenVerifyError> {
    let revoked: Vec<String> = revoked.iter().map(|id| (*id).to_owned()).collect();
    token.verify(node, connected, now, &revoked, &verdicts(token))
}

/// Issue a `pin:write` over `/work` token from `node` to `bearer`.
fn issued_by(node: &DeviceIdentity, bearer: &DeviceId) -> CapabilityToken {
    issue(
        "tok-1",
        node,
        bearer,
        Capability::PinWrite,
        Scope::folder("/work"),
        at(2026, 12, 31),
    )
    .expect("issue a token with a fresh identity")
}

#[test]
fn issue_then_verify_round_trips() {
    let node = DeviceIdentity::generate();
    let bearer = DeviceIdentity::generate();
    let token = issued_by(&node, &id_of(&bearer));
    let claims = verify(&token, &id_of(&node), &id_of(&bearer), at(2026, 1, 1), &[])
        .expect("a freshly issued token must verify");
    assert_eq!(claims.capability, Capability::PinWrite);
    assert_eq!(claims.scope, Scope::folder("/work"));
    assert_eq!(claims.bearer, id_of(&bearer));
}

#[test]
fn verified_token_projects_to_a_grant() {
    let node = DeviceIdentity::generate();
    let bearer = DeviceIdentity::generate();
    let token = issued_by(&node, &id_of(&bearer));
    let grant = token.claims.to_grant();
    assert_eq!(grant.grantee, id_of(&bearer));
    assert_eq!(grant.granted_by, id_of(&node));
    assert_eq!(grant.capability, Capability::PinWrite);
    assert_eq!(grant.scope, Scope::folder("/work"));
    assert_eq!(grant.expires, Some(at(2026, 12, 31)));
}

// ── Hard rejections ──

#[test]
fn token_signed_by_a_different_node_is_rejected() {
    // A token whose root issuer is not the verifying node must be rejected:
    // it was signed by another node's key and carries that node's cert.
    let node = DeviceIdentity::generate();
    let other = DeviceIdentity::generate();
    let bearer = DeviceIdentity::generate();
    let token = issued_by(&other, &id_of(&bearer));
    let err = verify(&token, &id_of(&node), &id_of(&bearer), at(2026, 1, 1), &[])
        .expect_err("a token from another issuer must be rejected");
    assert!(matches!(err, TokenVerifyError::WrongIssuer { .. }));
}

#[test]
fn a_token_carrying_a_substituted_certificate_is_rejected() {
    // An attacker keeps the victim node's issuer id in the claims but swaps in
    // its own certificate and re-signs with its own key. The cert no longer
    // hashes to the claimed issuer, so the binding check rejects it before the
    // signature is even trusted.
    let node = DeviceIdentity::generate();
    let attacker = DeviceIdentity::generate();
    let bearer = DeviceIdentity::generate();
    let mut token = issued_by(&node, &id_of(&bearer));
    token.issuer_cert_der = attacker.cert_der();
    token.signature = attacker.sign_capability(&token.claims.signing_bytes());
    let err = verify(&token, &id_of(&node), &id_of(&bearer), at(2026, 1, 1), &[])
        .expect_err("a substituted certificate must be rejected");
    assert!(matches!(err, TokenVerifyError::BadSignature { .. }));
}

#[test]
fn tampered_claims_break_the_signature() {
    let node = DeviceIdentity::generate();
    let bearer = DeviceIdentity::generate();
    let mut token = issued_by(&node, &id_of(&bearer));
    // Widen the scope after signing: the signature no longer matches.
    token.claims.scope = Scope::Node;
    let err = verify(&token, &id_of(&node), &id_of(&bearer), at(2026, 1, 1), &[])
        .expect_err("tampered claims must fail the signature check");
    assert!(matches!(err, TokenVerifyError::BadSignature { .. }));
}

#[test]
fn tampered_signature_byte_is_rejected() {
    let node = DeviceIdentity::generate();
    let bearer = DeviceIdentity::generate();
    let mut token = issued_by(&node, &id_of(&bearer));
    token.signature[0] ^= 0x01;
    let err = verify(&token, &id_of(&node), &id_of(&bearer), at(2026, 1, 1), &[])
        .expect_err("a flipped signature byte must be rejected");
    assert!(matches!(err, TokenVerifyError::BadSignature { .. }));
}

#[test]
fn expired_token_is_rejected() {
    let node = DeviceIdentity::generate();
    let bearer = DeviceIdentity::generate();
    let token = issued_by(&node, &id_of(&bearer));
    // now == expiry is inclusive-past, and after expiry is stale.
    let err = verify(&token, &id_of(&node), &id_of(&bearer), at(2026, 12, 31), &[])
        .expect_err("an expired token must be rejected");
    assert!(matches!(err, TokenVerifyError::Expired { .. }));
    assert!(matches!(
        verify(&token, &id_of(&node), &id_of(&bearer), at(2027, 1, 1), &[]),
        Err(TokenVerifyError::Expired { .. })
    ));
}

#[test]
fn revoked_token_is_rejected() {
    let node = DeviceIdentity::generate();
    let bearer = DeviceIdentity::generate();
    let token = issued_by(&node, &id_of(&bearer));
    let revoked = &["tok-1"];
    let err = verify(&token, &id_of(&node), &id_of(&bearer), at(2026, 1, 1), revoked)
        .expect_err("a revoked token must be rejected");
    assert!(matches!(err, TokenVerifyError::Revoked { .. }));
}

#[test]
fn bearer_mismatch_is_rejected() {
    let node = DeviceIdentity::generate();
    let bearer = DeviceIdentity::generate();
    let stranger = DeviceId::new("STRANGER-DEVICE");
    let token = issued_by(&node, &id_of(&bearer));
    let err = verify(&token, &id_of(&node), &stranger, at(2026, 1, 1), &[])
        .expect_err("a token presented by the wrong bearer must be rejected");
    assert!(matches!(err, TokenVerifyError::BearerMismatch { .. }));
}

// ── Bounded delegation ──

#[test]
fn delegate_subset_round_trips_and_verifies() {
    // Bearer holds pin:write over /work and delegates a narrower /work/sub
    // to a sub-bearer with an earlier expiry. The chain must verify against
    // the original issuing node.
    let node = DeviceIdentity::generate();
    let bearer = DeviceIdentity::generate();
    let sub = DeviceIdentity::generate();
    let token = issued_by(&node, &id_of(&bearer));
    let delegated = delegate(
        &token,
        "tok-1-a",
        &bearer,
        &id_of(&sub),
        Capability::PinWrite,
        Scope::folder("/work/sub"),
        at(2026, 6, 1),
    )
    .expect("a subset delegation must mint");
    let claims = verify(&delegated, &id_of(&node), &id_of(&sub), at(2026, 1, 1), &[])
        .expect("a valid delegated chain must verify");
    assert_eq!(claims.scope, Scope::folder("/work/sub"));
    assert_eq!(claims.bearer, id_of(&sub));
}

#[test]
fn delegate_by_a_non_bearer_is_refused() {
    // Only the bearer of the parent token may delegate from it; a different
    // identity attempting to mint a child is refused.
    let node = DeviceIdentity::generate();
    let bearer = DeviceIdentity::generate();
    let imposter = DeviceIdentity::generate();
    let sub = DeviceIdentity::generate();
    let token = issued_by(&node, &id_of(&bearer));
    assert_eq!(
        delegate(
            &token,
            "tok-1-x",
            &imposter,
            &id_of(&sub),
            Capability::PinWrite,
            Scope::folder("/work/sub"),
            at(2026, 6, 1),
        ),
        Err(DelegateError::NotDelegator)
    );
}

#[test]
fn delegate_widening_scope_is_refused_at_mint() {
    let node = DeviceIdentity::generate();
    let bearer = DeviceIdentity::generate();
    let sub = DeviceIdentity::generate();
    let token = issued_by(&node, &id_of(&bearer));
    // /work cannot delegate /personal — a sibling outside the subtree.
    assert_eq!(
        delegate(
            &token,
            "tok-1-b",
            &bearer,
            &id_of(&sub),
            Capability::PinWrite,
            Scope::folder("/personal"),
            at(2026, 6, 1),
        ),
        Err(DelegateError::Exceeds)
    );
    // /work cannot delegate the node-wide scope.
    assert_eq!(
        delegate(
            &token,
            "tok-1-c",
            &bearer,
            &id_of(&sub),
            Capability::PinWrite,
            Scope::Node,
            at(2026, 6, 1),
        ),
        Err(DelegateError::Exceeds)
    );
}

#[test]
fn delegate_different_capability_is_refused_at_mint() {
    let node = DeviceIdentity::generate();
    let bearer = DeviceIdentity::generate();
    let sub = DeviceIdentity::generate();
    let token = issued_by(&node, &id_of(&bearer));
    assert_eq!(
        delegate(
            &token,
            "tok-1-d",
            &bearer,
            &id_of(&sub),
            Capability::CacheManage,
            Scope::folder("/work"),
            at(2026, 6, 1),
        ),
        Err(DelegateError::Exceeds)
    );
}

#[test]
fn delegate_expiry_beyond_parent_is_refused_at_mint() {
    let node = DeviceIdentity::generate();
    let bearer = DeviceIdentity::generate();
    let sub = DeviceIdentity::generate();
    let token = issued_by(&node, &id_of(&bearer));
    // Parent expires 2026-12-31; a child expiring later over-reaches.
    assert_eq!(
        delegate(
            &token,
            "tok-1-e",
            &bearer,
            &id_of(&sub),
            Capability::PinWrite,
            Scope::folder("/work"),
            at(2027, 1, 1),
        ),
        Err(DelegateError::Exceeds)
    );
}

#[test]
fn forged_widening_delegation_is_rejected_at_verify() {
    // A hostile bearer mints a legitimate subset child, then rewrites the
    // child's claims to widen scope and re-signs with its own (the child
    // issuer's) key. The leaf signature itself is valid, but the containment
    // check at verify time must reject the chain.
    let node = DeviceIdentity::generate();
    let bearer = DeviceIdentity::generate();
    let sub = DeviceIdentity::generate();
    let token = issued_by(&node, &id_of(&bearer));
    let mut forged = delegate(
        &token,
        "tok-1-f",
        &bearer,
        &id_of(&sub),
        Capability::PinWrite,
        Scope::folder("/work/sub"),
        at(2026, 6, 1),
    )
    .expect("subset child mints");
    // Widen the child's scope past the parent and re-sign with the child's
    // own issuer key (the delegating bearer) so the leaf signature itself is
    // valid. The containment check, not the signature, must catch it.
    forged.claims.scope = Scope::Node;
    forged.signature = bearer.sign_capability(&forged.claims.signing_bytes());
    let err = verify(&forged, &id_of(&node), &id_of(&sub), at(2026, 1, 1), &[])
        .expect_err("a widened delegation must be rejected at verify");
    assert!(matches!(
        err,
        TokenVerifyError::DelegationExceedsParent { .. }
    ));
}

#[test]
fn revoked_ancestor_invalidates_the_chain() {
    let node = DeviceIdentity::generate();
    let bearer = DeviceIdentity::generate();
    let sub = DeviceIdentity::generate();
    let token = issued_by(&node, &id_of(&bearer));
    let delegated = delegate(
        &token,
        "tok-1-g",
        &bearer,
        &id_of(&sub),
        Capability::PinWrite,
        Scope::folder("/work/sub"),
        at(2026, 6, 1),
    )
    .expect("subset child mints");
    // Revoking the root token must invalidate the delegated leaf.
    let revoked = &["tok-1"];
    let err = verify(&delegated, &id_of(&node), &id_of(&sub), at(2026, 1, 1), revoked)
        .expect_err("a revoked ancestor must invalidate the chain");
    assert!(matches!(err, TokenVerifyError::ParentInvalid { .. }));
}

#[test]
fn token_ids_are_derived_from_the_claims() {
    let issuer = DeviceId::new("NODE");
    let bearer = DeviceId::new("BEARER");
    let expires = at(2026, 12, 31);
    let issued_at = Timestamp::new(1_700_000_000, 123).unwrap();
    let id = derive_token_id(
        &issuer,
        &bearer,
        Capability::PinWrite,
        &Scope::folder("/work"),
        expires,
        issued_at,
    );
    let mut data = b"cascade-manage-token-id-v1NODEBEARERpin:writefolder/work".to_vec();
    data.extend_from_slice(&(expires.secs() * 1000).to_be_bytes());
    data.extend_from_slice(&1_700_000_000_000_000_123i64.to_be_bytes());
    let digest = Sha256::digest(&data);
    assert_eq!(id, data_encoding::BASE32_NOPAD.encode(&digest[..16]));
    // Another instant of issue, another id.
    let later = Timestamp::new(1_700_000_000, 124).unwrap();
    let other = derive_token_id(
        &issuer,
        &bearer,
        Capability::PinWrite,
        &Scope::folder("/work"),
        expires,
        later,
    );
    assert_ne!(id, other);
}

#[test]
fn signing_bytes_tell_claims_apart() {
    let claims = |token_id: &str, issuer: &str, scope: Scope| TokenClaims {
        token_id: token_id.to_owned(),
        issuer: DeviceId::new(issuer),
        bearer: DeviceId::new("B"),
        capability: Capability::PinWrite,
        scope,
        expires: at(2026, 12, 31),
    };
    let a = claims("ab", "c", Scope::Node).signing_bytes();
    let b = claims("a", "bc", Scope::Node).signing_bytes();
    let c = claims("ab", "c", Scope::folder("")).signing_bytes();
    assert_ne!(a, b);
    assert_ne!(a, c);
    assert!(a.starts_with(b"cascade-manage-capability-token-v2"));
}

#[test]
fn signing_bytes_tell_the_last_nanosecond_apart() {
    let claims = |secs: i64, nanos: u32| TokenClaims {
        token_id: "t".to_owned(),
        issuer: DeviceId::new("I"),
        bearer: DeviceId::new("B"),
        capability: Capability::PinWrite,
        scope: Scope::Node,
        expires: Timestamp::new(secs, nanos).expect("in range"),
    };
    let a = claims(1, 0).signing_bytes();
    assert_eq!(a, claims(1, 0).signing_bytes());
    assert_ne!(a, claims(1, 1).signing_bytes());
    assert_ne!(a, claims(1, 1000).signing_bytes());
    assert_ne!(claims(1, 999_999_999).signing_bytes(), claims(2, 0).signing_bytes());
    assert_ne!(claims(-1, 0).signing_bytes(), a);
}

#[test]
fn refusals_say_why() {
    let node = DeviceIdentity::generate();
    let bearer = DeviceIdentity::generate();
    let token = issued_by(&node, &id_of(&bearer));
    let refused = |now: Timestamp, revoked: &[&str]| {
        verify(&token, &id_of(&node), &id_of(&bearer), now, revoked)
            .unwrap_err()
            .message()
    };
    assert_eq!(
        refused(at(2027, 1, 1), &[]),
        "token tok-1: expired at 2026-12-31 00:00:00 UTC (now 2027-01-01 00:00:00 UTC)"
    );
    assert_eq!(refused(at(2026, 1, 1), &["tok-1"]), "token tok-1: revoked");
}

#[test]
fn a_chain_that_is_too_deep_is_rejected() {
    let node = DeviceIdentity::generate();
    let mut bearer = DeviceIdentity::generate();
    let mut token = issued_by(&node, &id_of(&bearer));
    for hop in 0..MAX_DELEGATION_DEPTH {
        let next = DeviceIdentity::generate();
        let verified = verify(&token, &id_of(&node), &id_of(&bearer), at(2026, 1, 1), &[]);
        assert!(verified.is_ok(), "hop {hop}");
        token = delegate(
            &token,
            &format!("hop-{hop}"),
            &bearer,
            &id_of(&next),
            Capability::PinWrite,
            Scope::folder("/work"),
            at(2026, 12, 31),
        )
        .expect("a faithful delegation must mint");
        bearer = next;
    }
    let mut err = verify(&token, &id_of(&node), &id_of(&bearer), at(2026, 1, 1), &[])
        .expect_err("a chain past the limit must be rejected");
    while let TokenVerifyError::ParentInvalid { reason, .. } = err {
        err = *reason;
    }
    assert_eq!(
        err.message(),
        "token hop-7: delegation chain exceeds maximum depth 8"
    );
}

#[test]
fn keys_that_cannot_sign_issue_nothing() {
    let claims = || issued_by(&DeviceIdentity::generate(), &DeviceId::new("B")).claims;
    let broken = || DeviceKeyError("no key".to_owned());
    assert_eq!(
        CapabilityToken::issue(claims(), Err(broken()), Ok(Vec::new())),
        Err(broken())
    );
    assert_eq!(
        CapabilityToken::issue(claims(), Ok([0; 64]), Err(broken())),
        Err(broken())
    );
    assert_eq!(
        DelegateError::Key(broken()).message(),
        "delegator device key error: no key"
    );
    assert_eq!(
        DelegateError::NotDelegator.message(),
        "delegator is not the bearer of the parent token"
    );
    assert_eq!(
        DelegateError::Exceeds.message(),
        "delegated grant exceeds the parent token's authority"
    );
}

#[test]
fn a_signature_travels_as_base64() {
    let zeros: [u8; 64] = [0u8; 64];
    let text: String = signature_text(&zeros);
    assert_eq!(text, format!("{}==", "A".repeat(86)));
    assert_eq!(signature_from_text(&text), Ok(zeros));

    let mut counted: [u8; 64] = [0u8; 64];
    for (i, byte) in counted.iter_mut().enumerate() {
        *byte = i as u8;
    }
    let text: String = signature_text(&counted);
    assert!(text.starts_with("AAECAwQFBgcICQoLDA0ODxAREhMUFRYXGBkaGxwdHh8g"));
    assert_eq!(signature_from_text(&text), Ok(counted));
}

#[test]
fn a_text_that_is_no_signature_is_refused() {
    assert_eq!(signature_from_text("TWFu"), Err(SignatureTextError::Length { found: 3 }));
    assert_eq!(signature_from_text(""), Err(SignatureTextError::Length { found: 0 }));
    assert_eq!(
        signature_from_text("TWF"),
        Err(SignatureTextError::Encoding { reason: "invalid length at 0".to_string() })
    );
    assert_eq!(
        signature_from_text("T$Fu"),
        Err(SignatureTextError::Encoding { reason: "invalid symbol at 1".to_string() })
    );
}

#[test]
fn a_certificate_travels_as_base64() {
    assert_eq!(cert_text(b"Man"), "TWFu");
    assert_eq!(cert_text(b"Ma"), "TWE=");
    assert_eq!(cert_text(b""), "");
    assert_eq!(cert_from_text("TWE="), Ok(b"Ma".to_vec()));
    assert_eq!(cert_from_text("TWF"), Err("invalid length at 0".to_string()));
}
