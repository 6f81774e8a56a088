//! Rows of the state database, and the rules for reading and merging them.

use vstd::prelude::*;

use crate::manage::scope;
use crate::manage::token::CapabilityToken;
use crate::manage::{Capability, DeviceId, Grant, GrantView, Scope, ScopeView};
use crate::text;
use crate::time;
use crate::time::Timestamp;
use crate::types::{FileEntry, ItemId};

pub mod schema;

verus! {

/// A size as the database stores it: the size itself, or the largest storable
/// one where it does not fit.
pub open spec fn stored_size(size: u64) -> int {
    if size <= i64::MAX {
        size as int
    } else {
        i64::MAX as int
    }
}

/// A stored size read back. A negative one is never written and reads as zero.
pub open spec fn read_size(stored: int) -> int {
    if stored < 0 {
        0
    } else {
        stored
    }
}

/// A size that the database can store reads back as it was, a larger one as the
/// largest that it can, and sizes keep their order.
pub proof fn law_a_stored_size_reads_back(a: u64, b: u64, stored: i64)
    ensures
        a <= i64::MAX ==> read_size(stored_size(a)) == a,
        a > i64::MAX ==> read_size(stored_size(a)) == i64::MAX,
        a <= b ==> stored_size(a) <= stored_size(b),
        0 <= stored_size(a) <= i64::MAX,
        stored >= 0 ==> read_size(stored as int) == stored,
        stored < 0 ==> read_size(stored as int) == 0,
{
}

/// A size as the database stores it: the size itself, or the largest storable
/// one where it does not fit.
pub fn size_to_sql(size: u64) -> (r: i64)
    ensures
        r == (if size <= i64::MAX {
            size as int
        } else {
            i64::MAX as int
        }),
        r == stored_size(size),
{
    if size <= 9223372036854775807u64 {
        size as i64
    } else {
        i64::MAX
    }
}

/// A stored size read back. A negative one is never written and reads as zero.
pub fn size_from_sql(stored: Option<i64>) -> (r: Option<u64>)
    ensures
        match stored {
            None => r is None,
            Some(s) => r == Some(
                if s < 0 {
                    0u64
                } else {
                    s as u64
                },
            ) && r->0 == read_size(s as int),
        },
{
    match stored {
        None => None,
        Some(s) => if s < 0 {
            Some(0)
        } else {
            Some(s as u64)
        },
    }
}

/// The path a file is stored under: its full path, or its name where the path
/// is not resolved yet.
pub open spec fn path_to_store(entry: FileEntry) -> Seq<char> {
    if entry.path@.len() == 0 {
        entry.name@
    } else {
        entry.path@
    }
}

/// A file that has a path is stored under it, whatever its name is, and any other under
/// its name.
pub proof fn law_a_file_is_stored_under_its_path(entry: FileEntry)
    ensures
        entry.path@.len() > 0 ==> path_to_store(entry) == entry.path@,
        entry.path@.len() == 0 ==> path_to_store(entry) == entry.name@,
{
}

/// The path a file is stored under: its full path, or its name where the path
/// is not resolved yet.
pub fn stored_path(entry: &FileEntry) -> (r: &str)
    ensures
        r@ == path_to_store(*entry),
        r@ == (if entry.path@.len() == 0 {
            entry.name@
        } else {
            entry.path@
        }),
{
    if entry.path.as_str().is_empty() {
        entry.name.as_str()
    } else {
        entry.path.as_str()
    }
}

/// A registered backend.
#[derive(Debug)]
pub struct BackendRecord {
    /// The backend's id.
    pub id: String,
    /// Its type.
    pub backend_type: String,
    /// Its display name.
    pub display_name: String,
    /// Where it is mounted.
    pub mount_path: Option<String>,
    /// Its config document.
    pub config: Option<String>,
}

impl Clone for BackendRecord {
    fn clone(&self) -> (r: Self)
        ensures
            r == *self,
    {
        BackendRecord {
            id: self.id.clone(),
            backend_type: self.backend_type.clone(),
            display_name: self.display_name.clone(),
            mount_path: self.mount_path.clone(),
            config: self.config.clone(),
        }
    }
}

/// A pin rule.
#[derive(Debug)]
pub struct PinRuleRecord {
    /// The row id.
    pub id: i64,
    /// The path glob.
    pub path_glob: String,
    /// Whether children are pinned too.
    pub recursive: bool,
    /// An optional conditional expression.
    pub conditions: Option<String>,
}

impl Clone for PinRuleRecord {
    fn clone(&self) -> (r: Self)
        ensures
            r == *self,
    {
        PinRuleRecord {
            id: self.id,
            path_glob: self.path_glob.clone(),
            recursive: self.recursive,
            conditions: self.conditions.clone(),
        }
    }
}

/// A lifecycle policy.
#[derive(Debug)]
pub struct LifecyclePolicyRecord {
    /// The row id.
    pub id: i64,
    /// The path glob.
    pub path_glob: String,
    /// The age limit in seconds.
    pub max_age: Option<i64>,
    /// The size limit in bytes.
    pub max_file_size: Option<i64>,
    /// Higher-priority policies take precedence.
    pub priority: i32,
    /// An optional conditional expression.
    pub conditions: Option<String>,
}

impl Clone for LifecyclePolicyRecord {
    fn clone(&self) -> (r: Self)
        ensures
            r == *self,
    {
        LifecyclePolicyRecord {
            id: self.id,
            path_glob: self.path_glob.clone(),
            max_age: self.max_age,
            max_file_size: self.max_file_size,
            priority: self.priority,
            conditions: self.conditions.clone(),
        }
    }
}

/// A locally modified file that waits to be uploaded.
#[derive(Debug)]
pub struct DirtyFileRecord {
    /// The item's identity.
    pub id: ItemId,
    /// The backend it lives in.
    pub backend_id: String,
    /// Its full path.
    pub path: String,
    /// Its parent.
    pub parent_id: ItemId,
    /// Its name.
    pub name: String,
    /// Whether it is a directory.
    pub is_dir: bool,
    /// Its size.
    pub size: Option<u64>,
    /// Its media type.
    pub mime_type: Option<String>,
    /// When it was last modified.
    pub mod_time: Option<Timestamp>,
    /// The hash of the remote content.
    pub remote_hash: Option<String>,
    /// Where the local content lies.
    pub local_path: Option<String>,
}

/// A known peer.
#[derive(Debug)]
pub struct PeerRecord {
    /// The peer's device id.
    pub device_id: String,
    /// Its name.
    pub name: Option<String>,
    /// Its addresses.
    pub addresses: Option<String>,
    /// When it was last seen.
    pub last_seen: Option<Timestamp>,
    /// Whether it is online.
    pub online: bool,
}

/// A file a peer proposed without the right to write.
#[derive(Debug)]
pub struct QuarantineRecord {
    /// The folder the proposal belongs to.
    pub folder_id: String,
    /// The peer that sent it.
    pub peer_device: String,
    /// The path the file would occupy.
    pub path: String,
    /// The proposed file as it was sent.
    pub file_json: String,
    /// When the proposal was observed.
    pub observed_at: Timestamp,
}

/// An authorisation code.
#[derive(Debug)]
pub struct AuthCodeRecord {
    /// The short code.
    pub code: String,
    /// Either `pairing` or `device`.
    pub kind: String,
    /// `pending`, `authorised`, or `consumed`.
    pub status: String,
    /// The token id, once authorised.
    pub token_id: Option<String>,
    /// The token, once authorised.
    pub token_json: Option<String>,
    /// When the code was created.
    pub created_at: String,
    /// When the code expires.
    pub expires_at: String,
}

impl Clone for AuthCodeRecord {
    fn clone(&self) -> (r: Self)
        ensures
            r == *self,
    {
        AuthCodeRecord {
            code: self.code.clone(),
            kind: self.kind.clone(),
            status: self.status.clone(),
            token_id: self.token_id.clone(),
            token_json: self.token_json.clone(),
            created_at: self.created_at.clone(),
            expires_at: self.expires_at.clone(),
        }
    }
}

/// A limit on the size of files that are synced.
#[derive(Debug)]
pub struct MaxFileLengthRecord {
    /// The row id.
    pub id: i64,
    /// The path glob.
    pub path_glob: String,
    /// The largest size allowed, in bytes.
    pub max_bytes: u64,
    /// Higher-priority rules take precedence.
    pub priority: i32,
    /// An optional conditional expression.
    pub conditions: Option<String>,
}

impl Clone for MaxFileLengthRecord {
    fn clone(&self) -> (r: Self)
        ensures
            r == *self,
    {
        MaxFileLengthRecord {
            id: self.id,
            path_glob: self.path_glob.clone(),
            max_bytes: self.max_bytes,
            priority: self.priority,
            conditions: self.conditions.clone(),
        }
    }
}

/// The remembered control of a peer over a folder.
#[derive(Debug, PartialEq, Eq)]
pub struct ExplicitControlRecord {
    /// The peer under explicit control.
    pub peer_device: String,
    /// The folder the control applies to.
    pub folder_id: String,
    /// Whether a verified token granted reading.
    pub data_read: bool,
    /// Whether a verified token granted writing.
    pub data_write: bool,
    /// When the control was last refreshed.
    pub observed_at: Timestamp,
}

/// Whether a direction is remembered once a token has verified: the token grants it,
/// or an earlier row already held it.
pub open spec fn remembered(earlier: Option<bool>, granted: bool) -> bool {
    granted || earlier == Some(true)
}

/// Remembering never forgets a direction and never makes one up: after any number of
/// tokens it is remembered exactly where one of them granted it, in whatever order
/// they came.
pub proof fn law_remembering_only_adds_directions(
    earlier: Option<bool>,
    first: bool,
    second: bool,
)
    ensures
        earlier == Some(true) ==> remembered(earlier, first),
        first ==> remembered(earlier, first),
        remembered(None, first) == first,
        remembered(Some(false), first) == first,
        remembered(Some(remembered(earlier, first)), second) == remembered(
            Some(remembered(earlier, second)),
            first,
        ),
{
}

/// The row to keep for a peer and a folder once a token has verified: what the
/// token grants, together with everything an earlier row already held.
pub fn record_data_explicit_control(
    existing: Option<ExplicitControlRecord>,
    peer_device: &str,
    folder_id: &str,
    data_read: bool,
    data_write: bool,
    observed_at: Timestamp,
) -> (r: ExplicitControlRecord)
    ensures
        r.peer_device@ == peer_device@,
        r.folder_id@ == folder_id@,
        r.data_read == (data_read || (existing matches Some(row) && row.data_read)),
        r.data_write == (data_write || (existing matches Some(row) && row.data_write)),
        r.data_read == remembered(
            match existing {
                Some(row) => Some(row.data_read),
                None => None,
            },
            data_read,
        ),
        r.data_write == remembered(
            match existing {
                Some(row) => Some(row.data_write),
                None => None,
            },
            data_write,
        ),
        r.observed_at.at_or_after(observed_at),
        existing matches Some(row) ==> r.observed_at.at_or_after(row.observed_at),
        r.observed_at == match existing {
            Some(row) => if row.observed_at.at_or_after(observed_at) {
                row.observed_at
            } else {
                observed_at
            },
            None => observed_at,
        },
{
    match existing {
        None => ExplicitControlRecord {
            peer_device: peer_device.to_owned(),
            folder_id: folder_id.to_owned(),
            data_read,
            data_write,
            observed_at,
        },
        Some(row) => ExplicitControlRecord {
            peer_device: peer_device.to_owned(),
            folder_id: folder_id.to_owned(),
            data_read: data_read || row.data_read,
            data_write: data_write || row.data_write,
            observed_at: if row.observed_at.is_at_or_after(&observed_at) {
                row.observed_at
            } else {
                observed_at
            },
        },
    }
}

/// Why a stored row is not a valid one.
#[derive(Debug, PartialEq, Eq)]
pub enum RowError {
    /// The stored capability is not one of the vocabulary.
    UnknownCapability {
        /// The row id.
        id: i64,
        /// The stored capability.
        capability: String,
    },
    /// The stored scope columns stand for no scope.
    BadScope {
        /// The row id.
        id: i64,
        /// The stored scope kind.
        scope_kind: String,
    },
}

impl RowError {
    /// The error's text, `row` naming the kind of row.
    pub open spec fn text(self, row: Seq<char>) -> Seq<char> {
        match self {
            RowError::UnknownCapability { id, capability } => "unknown capability in "@ + row
                + text::decimal(id as int) + ": "@ + capability@,
            RowError::BadScope { id, scope_kind } => "invalid scope kind in "@ + row
                + text::decimal(id as int) + ": "@ + scope_kind@,
        }
    }

    /// The error's text, `row` naming the kind of row.
    fn message_in(&self, row: &str) -> (r: String)
        ensures
            r@ == self.text(row@),
    {
        let (what, id, value): (&str, i64, &String) = match self {
            RowError::UnknownCapability { id, capability } => (
                "unknown capability in ",
                *id,
                capability,
            ),
            RowError::BadScope { id, scope_kind } => ("invalid scope kind in ", *id, scope_kind),
        };
        let mut m: String = what.to_owned();
        m.append(row);
        m.append(text::i64_text(id).as_str());
        m.append(": ");
        m.append(value.as_str());
        m
    }

    /// The text of the error in a stored grant.
    pub fn message(&self) -> (r: String)
        ensures
            r@ == self.text("grant "@),
    {
        self.message_in("grant ")
    }
}

/// Why a stored audit entry is not a valid one.
#[derive(Debug, PartialEq, Eq)]
pub enum AuditRowError {
    /// The stored timestamp is no instant.
    BadTimestamp {
        /// The row id.
        id: i64,
    },
    /// The capability or the scope cannot be read.
    Row(RowError),
}

impl AuditRowError {
    /// The error's text.
    pub open spec fn text(self) -> Seq<char> {
        match self {
            AuditRowError::BadTimestamp { id } => "invalid audit timestamp in row "@
                + text::decimal(id as int),
            AuditRowError::Row(error) => error.text("audit row "@),
        }
    }

    /// The error's text.
    pub fn message(&self) -> (r: String)
        ensures
            r@ == self.text(),
    {
        match self {
            AuditRowError::BadTimestamp { id } => {
                let mut m: String = "invalid audit timestamp in row ".to_owned();
                m.append(text::i64_text(*id).as_str());
                m
            },
            AuditRowError::Row(error) => error.message_in("audit row "),
        }
    }
}

/// The instant that a stored second stands for, where it is one.
pub open spec fn instant(secs: i64, t: Option<Timestamp>) -> bool {
    match t {
        Some(t) => time::valid_instant(secs, 0) && t.spec_secs() == secs && t.spec_nanos() == 0,
        None => !time::valid_instant(secs, 0),
    }
}

/// A stored second read back, where there is one and it is an instant.
pub fn instant_from_sql(stored: Option<i64>) -> (r: Option<Timestamp>)
    ensures
        match stored {
            Some(secs) => instant(secs, r),
            None => r is None,
        },
{
    match stored {
        Some(secs) => Timestamp::new(secs, 0),
        None => None,
    }
}

/// A stored modification time read back. One that is no instant reads as the
/// epoch.
pub fn mod_time_from_sql(stored: Option<i64>) -> (r: Option<Timestamp>)
    ensures
        match stored {
            Some(secs) => r matches Some(t) && t.spec_nanos() == 0 && t.spec_secs() == (
            if time::valid_instant(secs, 0) {
                secs
            } else {
                0
            }),
            None => r is None,
        },
{
    match stored {
        Some(secs) => match Timestamp::new(secs, 0) {
            Some(t) => Some(t),
            None => Timestamp::new(0, 0),
        },
        None => None,
    }
}

/// The scope of a stored grant, from its columns.
pub fn grant_scope(id: i64, scope_kind: String, scope_path: Option<String>) -> (r: Result<
    Scope,
    RowError,
>)
    ensures
        match r {
            Ok(s) => scope::scope_of_columns(scope_kind@, text::opt_text(scope_path)) == Some(s@),
            Err(error) => scope::scope_of_columns(scope_kind@, text::opt_text(scope_path)) is None
                && (error matches RowError::BadScope { id: row, scope_kind: kind } && row == id
                && kind@ == scope_kind@),
        },
{
    match Scope::from_columns(scope_kind.as_str(), scope_path) {
        Some(s) => Ok(s),
        None => Err(RowError::BadScope { id, scope_kind }),
    }
}

/// A stored block hash read back. One of another length is never written and reads
/// as zeros.
pub fn block_hash_from_sql(stored: Vec<u8>) -> (r: Vec<u8>)
    ensures
        r@.len() == 32,
        stored@.len() == 32 ==> r@ == stored@,
        stored@.len() != 32 ==> r@ == Seq::new(32, |i: int| 0u8),
{
    if stored.len() == 32 {
        return stored;
    }
    let mut zeros: Vec<u8> = Vec::new();
    while zeros.len() < 32
        invariant
            zeros@.len() <= 32,
            forall|i: int| 0 <= i < zeros@.len() ==> zeros@[i] == 0,
        decreases 32 - zeros@.len(),
    {
        zeros.push(0);
    }
    zeros
}

/// A stored row whose time of observation is no instant: which row it is.
#[derive(Debug, PartialEq, Eq)]
pub enum ObservedAtError {
    /// A quarantined proposal.
    Quarantine {
        /// The path it is for.
        path: String,
    },
    /// A row of remembered control.
    ExplicitControl {
        /// The peer.
        peer_device: String,
        /// The folder.
        folder_id: String,
    },
}

impl ObservedAtError {
    /// The error's text.
    pub open spec fn text(self) -> Seq<char> {
        match self {
            ObservedAtError::Quarantine { path } => {
                "invalid observed_at timestamp in quarantine row for "@ + path@
            },
            ObservedAtError::ExplicitControl { peer_device, folder_id } => {
                "invalid observed_at timestamp in data_explicit_control row for "@ + peer_device@
                    + "/"@ + folder_id@
            },
        }
    }

    /// The error's text.
    pub fn message(&self) -> (r: String)
        ensures
            r@ == self.text(),
    {
        match self {
            ObservedAtError::Quarantine { path } => {
                let mut m: String = "invalid observed_at timestamp in quarantine row for ".to_owned();
                m.append(path.as_str());
                m
            },
            ObservedAtError::ExplicitControl { peer_device, folder_id } => {
                let mut m: String =
                    "invalid observed_at timestamp in data_explicit_control row for ".to_owned();
                m.append(peer_device.as_str());
                m.append("/");
                m.append(folder_id.as_str());
                m
            },
        }
    }
}

impl QuarantineRecord {
    /// Validate a stored proposal. One whose time cannot be read is an error.
    pub fn from_columns(
        folder_id: String,
        peer_device: String,
        path: String,
        file_json: String,
        observed_at: i64,
    ) -> (r: Result<QuarantineRecord, ObservedAtError>)
        ensures
            match r {
                Ok(record) => {
                    &&& instant(observed_at, Some(record.observed_at))
                    &&& record.folder_id == folder_id
                    &&& record.peer_device == peer_device
                    &&& record.path == path
                    &&& record.file_json == file_json
                },
                Err(error) => !time::valid_instant(observed_at, 0) && error == (
                ObservedAtError::Quarantine { path }),
            },
    {
        match Timestamp::new(observed_at, 0) {
            Some(observed_at) => Ok(
                QuarantineRecord { folder_id, peer_device, path, file_json, observed_at },
            ),
            None => Err(ObservedAtError::Quarantine { path }),
        }
    }
}

impl ExplicitControlRecord {
    /// Validate a stored row of remembered control. One whose time cannot be read
    /// is an error.
    pub fn from_columns(
        peer_device: String,
        folder_id: String,
        data_read: bool,
        data_write: bool,
        observed_at: i64,
    ) -> (r: Result<ExplicitControlRecord, ObservedAtError>)
        ensures
            match r {
                Ok(record) => {
                    &&& instant(observed_at, Some(record.observed_at))
                    &&& record.peer_device == peer_device
                    &&& record.folder_id == folder_id
                    &&& record.data_read == data_read
                    &&& record.data_write == data_write
                },
                Err(error) => !time::valid_instant(observed_at, 0) && error == (
                ObservedAtError::ExplicitControl { peer_device, folder_id }),
            },
    {
        match Timestamp::new(observed_at, 0) {
            Some(observed_at) => Ok(
                ExplicitControlRecord {
                    peer_device,
                    folder_id,
                    data_read,
                    data_write,
                    observed_at,
                },
            ),
            None => Err(ObservedAtError::ExplicitControl { peer_device, folder_id }),
        }
    }
}

/// A token this node issued.
#[derive(Debug)]
pub struct TokenRecord {
    /// When the token was issued.
    pub issued_at: Timestamp,
    /// The token.
    pub token: CapabilityToken,
}

/// Why a stored token is not a valid one.
#[derive(Debug)]
pub enum StoredTokenError {
    /// The time of issue is no instant.
    IssuedAt {
        /// The token's id.
        token_id: String,
    },
    /// The token cannot be parsed.
    Unreadable {
        /// The token's id.
        token_id: String,
        /// What is wrong with it.
        reason: String,
    },
}

impl StoredTokenError {
    /// The error's text.
    pub open spec fn text(self) -> Seq<char> {
        match self {
            StoredTokenError::IssuedAt { token_id } => {
                "invalid issued_at timestamp for token "@ + token_id@
            },
            StoredTokenError::Unreadable { token_id, reason } => "invalid stored token "@
                + token_id@ + ": "@ + reason@,
        }
    }

    /// The error's text.
    pub fn message(&self) -> (r: String)
        ensures
            r@ == self.text(),
    {
        match self {
            StoredTokenError::IssuedAt { token_id } => {
                let mut m: String = "invalid issued_at timestamp for token ".to_owned();
                m.append(token_id.as_str());
                m
            },
            StoredTokenError::Unreadable { token_id, reason } => {
                let mut m: String = "invalid stored token ".to_owned();
                m.append(token_id.as_str());
                m.append(": ");
                m.append(reason.as_str());
                m
            },
        }
    }
}

impl TokenRecord {
    /// Validate a stored token, `parsed` being what its text parses to. The time
    /// of issue is looked at first.
    pub fn from_columns(
        token_id: String,
        issued_at: i64,
        parsed: Result<CapabilityToken, String>,
    ) -> (r: Result<TokenRecord, StoredTokenError>)
        ensures
            match r {
                Ok(record) => instant(issued_at, Some(record.issued_at)) && parsed == Ok::<
                    CapabilityToken,
                    String,
                >(record.token),
                Err(error) => if !time::valid_instant(issued_at, 0) {
                    error == (StoredTokenError::IssuedAt { token_id })
                } else {
                    parsed matches Err(reason) && error == (StoredTokenError::Unreadable {
                        token_id,
                        reason,
                    })
                },
            },
    {
        let issued_at: Timestamp = match Timestamp::new(issued_at, 0) {
            Some(t) => t,
            None => {
                return Err(StoredTokenError::IssuedAt { token_id });
            },
        };
        match parsed {
            Ok(token) => Ok(TokenRecord { issued_at, token }),
            Err(reason) => Err(StoredTokenError::Unreadable { token_id, reason }),
        }
    }
}

/// The stored columns of a grant.
#[derive(Debug, PartialEq, Eq)]
pub struct RawGrantRow {
    /// The row id.
    pub id: i64,
    /// The grantee.
    pub grantee: String,
    /// The capability identifier.
    pub capability: String,
    /// The scope kind.
    pub scope_kind: String,
    /// The scope path.
    pub scope_path: Option<String>,
    /// Who granted it.
    pub granted_by: String,
    /// When it expires.
    pub expires: Option<Timestamp>,
}

/// A stored grant with its row id.
#[derive(Debug, PartialEq, Eq)]
pub struct GrantRecord {
    /// The row id, by which the grant is revoked.
    pub id: i64,
    /// The grant.
    pub grant: Grant,
}

/// Whether `r` is what a stored grant reads as.
pub open spec fn grant_row_outcome(
    r: Result<GrantRecord, RowError>,
    raw: RawGrantRow,
) -> bool {
    match r {
        Ok(record) => {
            &&& Capability::named(raw.capability@) == Some(record.grant.capability)
            &&& scope::scope_of_columns(raw.scope_kind@, text::opt_text(raw.scope_path))
                == Some(record.grant.scope@)
            &&& record.id == raw.id
            &&& record.grant.grantee@ == raw.grantee@
            &&& record.grant.granted_by@ == raw.granted_by@
            &&& record.grant.expires == raw.expires
        },
        Err(RowError::UnknownCapability { id, capability }) => {
            &&& Capability::named(raw.capability@) is None
            &&& id == raw.id
            &&& capability@ == raw.capability@
        },
        Err(RowError::BadScope { id, scope_kind }) => {
            &&& Capability::named(raw.capability@) is Some
            &&& scope::scope_of_columns(raw.scope_kind@, text::opt_text(raw.scope_path)) is None
            &&& id == raw.id
            &&& scope_kind@ == raw.scope_kind@
        },
    }
}

impl GrantRecord {
    /// Validate a stored grant. One whose capability or scope cannot be read is
    /// an error, never dropped.
    pub fn try_from_raw(raw: RawGrantRow) -> (r: Result<GrantRecord, RowError>)
        ensures
            grant_row_outcome(r, raw),
    {
        let capability: Capability = match Capability::from_wire(raw.capability.as_str()) {
            Some(c) => c,
            None => {
                return Err(
                    RowError::UnknownCapability { id: raw.id, capability: raw.capability },
                );
            },
        };
        let scope: Scope = match Scope::from_columns(raw.scope_kind.as_str(), raw.scope_path) {
            Some(s) => s,
            None => {
                return Err(RowError::BadScope { id: raw.id, scope_kind: raw.scope_kind });
            },
        };
        Ok(
            GrantRecord {
                id: raw.id,
                grant: Grant {
                    grantee: DeviceId(raw.grantee),
                    capability,
                    scope,
                    granted_by: DeviceId(raw.granted_by),
                    expires: raw.expires,
                },
            },
        )
    }
}

/// An entry of the append-only audit log.
#[derive(Debug, PartialEq, Eq)]
pub struct AuditEntry {
    /// When the command was processed.
    pub timestamp: Timestamp,
    /// The device that issued the command.
    pub actor_device: DeviceId,
    /// The capability the command exercised.
    pub capability: Capability,
    /// The scope the command targeted.
    pub scope: Scope,
    /// A short summary of the command.
    pub command: String,
    /// The outcome.
    pub outcome: String,
}

/// What an [`AuditEntry`] stands for.
pub struct AuditView {
    /// When the command was processed.
    pub timestamp: Timestamp,
    /// The device that issued the command.
    pub actor_device: Seq<char>,
    /// The capability the command exercised.
    pub capability: Capability,
    /// The scope the command targeted.
    pub scope: ScopeView,
    /// A short summary of the command.
    pub command: Seq<char>,
    /// The outcome.
    pub outcome: Seq<char>,
}

impl View for AuditEntry {
    type V = AuditView;

    open spec fn view(&self) -> AuditView {
        AuditView {
            timestamp: self.timestamp,
            actor_device: self.actor_device@,
            capability: self.capability,
            scope: self.scope@,
            command: self.command@,
            outcome: self.outcome@,
        }
    }
}

/// The stored columns of an audit entry.
#[derive(Debug, PartialEq, Eq)]
pub struct RawAuditRow {
    /// The row id.
    pub id: i64,
    /// The stored second.
    pub timestamp: i64,
    /// The actor.
    pub actor_device: String,
    /// The capability identifier.
    pub capability: String,
    /// The scope kind.
    pub scope_kind: String,
    /// The scope path.
    pub scope_path: Option<String>,
    /// The command summary.
    pub command: String,
    /// The outcome.
    pub outcome: String,
}

/// A stored audit entry with its row id.
#[derive(Debug, PartialEq, Eq)]
pub struct AuditRecord {
    /// The row id, in append order.
    pub id: i64,
    /// The entry.
    pub entry: AuditEntry,
}

/// Whether `r` is what a stored audit entry reads as.
pub open spec fn audit_row_outcome(
    r: Result<AuditRecord, AuditRowError>,
    raw: RawAuditRow,
) -> bool {
    match r {
        Ok(record) => {
            &&& record.id == raw.id
            &&& time::valid_instant(raw.timestamp, 0)
            &&& record.entry.timestamp.spec_secs() == raw.timestamp
            &&& record.entry.timestamp.spec_nanos() == 0
            &&& Capability::named(raw.capability@) == Some(record.entry.capability)
            &&& scope::scope_of_columns(raw.scope_kind@, text::opt_text(raw.scope_path))
                == Some(record.entry.scope@)
            &&& record.entry.actor_device@ == raw.actor_device@
            &&& record.entry.command@ == raw.command@
            &&& record.entry.outcome@ == raw.outcome@
        },
        Err(AuditRowError::BadTimestamp { id }) => {
            &&& !time::valid_instant(raw.timestamp, 0)
            &&& id == raw.id
        },
        Err(AuditRowError::Row(RowError::UnknownCapability { id, capability })) => {
            &&& time::valid_instant(raw.timestamp, 0)
            &&& Capability::named(raw.capability@) is None
            &&& id == raw.id
            &&& capability@ == raw.capability@
        },
        Err(AuditRowError::Row(RowError::BadScope { id, scope_kind })) => {
            &&& time::valid_instant(raw.timestamp, 0)
            &&& Capability::named(raw.capability@) is Some
            &&& scope::scope_of_columns(raw.scope_kind@, text::opt_text(raw.scope_path)) is None
            &&& id == raw.id
            &&& scope_kind@ == raw.scope_kind@
        },
    }
}

impl AuditRecord {
    /// Validate a stored audit entry. One whose timestamp, capability or scope
    /// cannot be read is an error, never dropped.
    pub fn try_from_raw(raw: RawAuditRow) -> (r: Result<AuditRecord, AuditRowError>)
        ensures
            audit_row_outcome(r, raw),
    {
        let timestamp: Timestamp = match Timestamp::new(raw.timestamp, 0) {
            Some(t) => t,
            None => {
                return Err(AuditRowError::BadTimestamp { id: raw.id });
            },
        };
        let capability: Capability = match Capability::from_wire(raw.capability.as_str()) {
            Some(c) => c,
            None => {
                return Err(
                    AuditRowError::Row(
                        RowError::UnknownCapability { id: raw.id, capability: raw.capability },
                    ),
                );
            },
        };
        let scope: Scope = match Scope::from_columns(raw.scope_kind.as_str(), raw.scope_path) {
            Some(s) => s,
            None => {
                return Err(
                    AuditRowError::Row(
                        RowError::BadScope { id: raw.id, scope_kind: raw.scope_kind },
                    ),
                );
            },
        };
        Ok(
            AuditRecord {
                id: raw.id,
                entry: AuditEntry {
                    timestamp,
                    actor_device: DeviceId(raw.actor_device),
                    capability,
                    scope,
                    command: raw.command,
                    outcome: raw.outcome,
                },
            },
        )
    }
}

/// What an audit entry stands for leaves nothing out, and an instant read from a
/// stored second is that very second.
pub proof fn law_stored_rows_stand_for_what_they_hold(
    entry: AuditEntry,
    secs: i64,
    read: Option<Timestamp>,
)
    requires
        instant(secs, read),
    ensures
        entry@.timestamp == entry.timestamp,
        entry@.actor_device == entry.actor_device@,
        entry@.capability == entry.capability,
        entry@.scope == entry.scope@,
        entry@.command == entry.command@,
        entry@.outcome == entry.outcome@,
        read matches Some(t) ==> t.spec_total_nanos() == secs * 1000000000,
        read is None <==> !time::valid_instant(secs, 0),
{
}

/// A stored grant is read exactly where its capability is known and its columns name
/// a scope; it then holds what was stored, and else the error names the row.
pub proof fn law_a_stored_grant_reads_as_it_was_stored(
    r: Result<GrantRecord, RowError>,
    raw: RawGrantRow,
    g: GrantView,
)
    requires
        grant_row_outcome(r, raw),
    ensures
        raw.capability@ == g.capability.wire() && raw.scope_kind@ == g.scope.kind()
            && text::opt_text(raw.scope_path) == g.scope.path() && raw.grantee@ == g.grantee
            && raw.granted_by@ == g.granted_by && raw.expires == g.expires ==> (r matches Ok(
            record,
        ) && record.grant@ == g && record.id == raw.id),
        r matches Ok(record) ==> {
            &&& record.id == raw.id
            &&& record.grant.grantee@ == raw.grantee@
            &&& record.grant.granted_by@ == raw.granted_by@
            &&& record.grant.capability.wire() == raw.capability@
            &&& record.grant.scope@.kind() == raw.scope_kind@
            &&& record.grant.expires == raw.expires
        },
        r matches Err(RowError::UnknownCapability { id, capability }) ==> id == raw.id && capability@
            == raw.capability@,
        r matches Err(RowError::BadScope { id, scope_kind }) ==> id == raw.id && scope_kind@
            == raw.scope_kind@,
{
    crate::manage::law_wire_round_trip(g.capability);
    scope::law_columns_round_trip(g.scope);
}

/// A stored audit entry is read exactly where its second is an instant, its capability
/// is known and its columns name a scope; it then holds what was stored.
pub proof fn law_a_stored_audit_entry_reads_as_it_was_stored(
    r: Result<AuditRecord, AuditRowError>,
    raw: RawAuditRow,
    entry: AuditView,
)
    requires
        audit_row_outcome(r, raw),
    ensures
        raw.capability@ == entry.capability.wire() && raw.scope_kind@ == entry.scope.kind()
            && text::opt_text(raw.scope_path) == entry.scope.path() && time::valid_instant(
            raw.timestamp,
            0,
        ) ==> (r matches Ok(record) && record.entry@.capability == entry.capability
            && record.entry@.scope == entry.scope),
        r matches Ok(record) ==> {
            &&& record.id == raw.id
            &&& record.entry@.timestamp.spec_secs() == raw.timestamp
            &&& record.entry@.timestamp.spec_nanos() == 0
            &&& record.entry@.actor_device == raw.actor_device@
            &&& record.entry@.capability.wire() == raw.capability@
            &&& record.entry@.scope.kind() == raw.scope_kind@
            &&& record.entry@.command == raw.command@
            &&& record.entry@.outcome == raw.outcome@
        },
        !time::valid_instant(raw.timestamp, 0) ==> r == Err::<AuditRecord, AuditRowError>(
            AuditRowError::BadTimestamp { id: raw.id },
        ),
        r matches Err(AuditRowError::BadTimestamp { id }) ==> id == raw.id && !time::valid_instant(
            raw.timestamp,
            0,
        ),
        r matches Err(AuditRowError::Row(RowError::UnknownCapability { id, capability })) ==> id
            == raw.id && capability@ == raw.capability@ && capability@ != entry.capability.wire(),
        r matches Err(AuditRowError::Row(RowError::BadScope { id, scope_kind })) ==> id == raw.id
            && scope_kind@ == raw.scope_kind@,
{
    crate::manage::law_wire_round_trip(entry.capability);
    scope::law_columns_round_trip(entry.scope);
}

/// The text of an error about a row names the row and what is wrong with it.
pub proof fn law_a_row_error_names_its_row(id: i64, detail: String, row: Seq<char>)
    ensures
        ({
            let text = (RowError::UnknownCapability { id, capability: detail }).text(row);
            &&& detail@.is_suffix_of(text)
            &&& exists|before: Seq<char>, after: Seq<char>|
                text == #[trigger] (before + row + text::decimal(id as int) + after)
        }),
        ({
            let text = (RowError::BadScope { id, scope_kind: detail }).text(row);
            &&& detail@.is_suffix_of(text)
            &&& exists|before: Seq<char>, after: Seq<char>|
                text == #[trigger] (before + row + text::decimal(id as int) + after)
        }),
        (RowError::UnknownCapability { id, capability: detail }).text(row) != (RowError::BadScope {
            id,
            scope_kind: detail,
        }).text(row),
{
    let a = (RowError::UnknownCapability { id, capability: detail }).text(row);
    let b = (RowError::BadScope { id, scope_kind: detail }).text(row);
    let after = ": "@ + detail@;
    assert(a =~= "unknown capability in "@ + row + text::decimal(id as int) + after);
    assert(b =~= "invalid scope kind in "@ + row + text::decimal(id as int) + after);
    assert(a.subrange(a.len() - detail@.len(), a.len() as int) =~= detail@);
    assert(b.subrange(b.len() - detail@.len(), b.len() as int) =~= detail@);
    reveal_strlit("unknown capability in ");
    reveal_strlit("invalid scope kind in ");
    assert(a[0] == 'u' && b[0] == 'i');
}

/// The text of an error about a stored row names the row: the path, the peer and the
/// folder, the token, or the row's id.
pub proof fn law_an_unreadable_row_is_named(a: String, b: String, id: i64)
    ensures
        a@.is_suffix_of((ObservedAtError::Quarantine { path: a }).text()),
        (a@ + seq!['/'] + b@).is_suffix_of(
            (ObservedAtError::ExplicitControl { peer_device: a, folder_id: b }).text(),
        ),
        a@.is_suffix_of((StoredTokenError::IssuedAt { token_id: a }).text()),
        (a@ + seq![':', ' '] + b@).is_suffix_of(
            (StoredTokenError::Unreadable { token_id: a, reason: b }).text(),
        ),
        text::decimal(id as int).is_suffix_of((AuditRowError::BadTimestamp { id }).text()),
{
    reveal_strlit("/");
    reveal_strlit(": ");
    let s1 = (ObservedAtError::Quarantine { path: a }).text();
    let s2 = (ObservedAtError::ExplicitControl { peer_device: a, folder_id: b }).text();
    let s3 = (StoredTokenError::IssuedAt { token_id: a }).text();
    let s4 = (StoredTokenError::Unreadable { token_id: a, reason: b }).text();
    let s5 = (AuditRowError::BadTimestamp { id }).text();
    let e2 = a@ + seq!['/'] + b@;
    let e4 = a@ + seq![':', ' '] + b@;
    let e5 = text::decimal(id as int);
    assert(s1.subrange(s1.len() - a@.len(), s1.len() as int) =~= a@);
    assert(s2.subrange(s2.len() - e2.len(), s2.len() as int) =~= e2);
    assert(s3.subrange(s3.len() - a@.len(), s3.len() as int) =~= a@);
    assert(s4.subrange(s4.len() - e4.len(), s4.len() as int) =~= e4);
    assert(s5.subrange(s5.len() - e5.len(), s5.len() as int) =~= e5);
}

} // verus!
