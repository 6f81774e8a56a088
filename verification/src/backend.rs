//! Backends: their errors, their mounts, and the backend of folders that no
//! cloud stores.

use vstd::prelude::*;

use crate::text;
use crate::types::Change;

verus! {

/// The native id of a backend's root container, unless it declares another.
pub const ROOT_NATIVE_ID: &'static str = "root";

/// The native id of the root of a local filesystem, and the mount path that
/// stands for the neutral root.
pub const ROOT_PATH: &'static str = "/";

/// A category of backend failure.
#[derive(Debug)]
pub enum BackendError {
    /// The caller lacks permission.
    Forbidden(String),
    /// The target does not exist.
    NotFound(String),
    /// The destination is a read-only view.
    ReadOnly(String),
    /// The operation conflicts with the current state.
    Conflict(String),
}

impl BackendError {
    /// The error's text.
    pub open spec fn text(self) -> Seq<char> {
        match self {
            BackendError::Forbidden(detail) => "permission denied: "@ + detail@,
            BackendError::NotFound(detail) => "not found: "@ + detail@,
            BackendError::ReadOnly(detail) => "read-only: "@ + detail@,
            BackendError::Conflict(detail) => "conflict: "@ + detail@,
        }
    }

    /// The error's text.
    pub fn message(&self) -> (r: String)
        ensures
            r@ == self.text(),
    {
        let (kind, detail): (&str, &String) = match self {
            BackendError::Forbidden(detail) => ("permission denied: ", detail),
            BackendError::NotFound(detail) => ("not found: ", detail),
            BackendError::ReadOnly(detail) => ("read-only: ", detail),
            BackendError::Conflict(detail) => ("conflict: ", detail),
        };
        let mut message: String = kind.to_owned();
        message.append(detail.as_str());
        message
    }
}

/// The end of a range of `length` bytes from `start`, cut at `total`.
pub open spec fn cut(start: int, length: int, total: int) -> int {
    if start + length < total {
        start + length
    } else {
        total
    }
}

/// At most `length` bytes of `content` from `offset` on. Past the end there are
/// none.
pub open spec fn range_of(content: Seq<u8>, offset: int, length: int) -> Seq<u8> {
    if offset < content.len() {
        content.subrange(offset, cut(offset, length, content.len() as int))
    } else {
        Seq::empty()
    }
}

/// Each byte of a range is the one at its place in the content, and the range holds
/// all that were asked for as far as the content goes.
pub proof fn law_a_range_holds_the_bytes_asked_for(
    content: Seq<u8>,
    offset: int,
    length: int,
    i: int,
)
    requires
        0 <= offset,
        0 <= i < length,
    ensures
        offset + i < content.len() ==> i < range_of(content, offset, length).len() && range_of(
            content,
            offset,
            length,
        )[i] == content[offset + i],
        offset + i >= content.len() ==> range_of(content, offset, length).len() <= i,
        range_of(content, offset, length).len() <= length,
{
}

/// At most `length` bytes of `content` from `offset` on. Past the end there are
/// none.
pub fn read_range(content: &[u8], offset: u64, length: u32) -> (r: Vec<u8>)
    ensures
        r@ == range_of(content@, offset as int, length as int),
        r@ == (if offset < content@.len() {
            content@.subrange(offset as int, cut(offset as int, length as int, content@.len() as int))
        } else {
            Seq::<u8>::empty()
        }),
{
    let mut out: Vec<u8> = Vec::new();
    let total: usize = content.len();
    if offset >= total as u64 {
        return out;
    }
    let start: usize = offset as usize;
    let left: usize = total - start;
    let count: usize = if (length as u64) < left as u64 {
        length as usize
    } else {
        left
    };
    let mut i: usize = 0;
    while i < count
        invariant
            i <= count,
            start + count <= total == content@.len(),
            out@ == content@.subrange(start as int, start + i),
        decreases count - i,
    {
        out.push(content[start + i]);
        i += 1;
    }
    out
}

/// Whether a native id names a root container, unless a backend declares others.
pub fn is_root_native_id(native_id: &str) -> (r: bool)
    ensures
        r == (native_id@ == ROOT_NATIVE_ID@ || native_id@ == ROOT_PATH@),
{
    text::str_eq(native_id, ROOT_NATIVE_ID) || text::str_eq(native_id, ROOT_PATH)
}

/// The native id of a backend's primary root container.
pub fn root_native_id() -> (r: &'static str)
    ensures
        r@ == ROOT_NATIVE_ID@,
{
    ROOT_NATIVE_ID
}

/// The prefix that a mount path binds to: the root path binds to the empty one,
/// any other to itself.
pub open spec fn prefix_of(mount: Seq<char>) -> Seq<char> {
    if mount == ROOT_PATH@ {
        Seq::empty()
    } else {
        mount
    }
}

/// The prefix that a mount path binds to.
pub fn mount_prefix_from_str(mount: &str) -> (r: String)
    ensures
        r@ == prefix_of(mount@),
{
    if text::str_eq(mount, ROOT_PATH) {
        String::new()
    } else {
        mount.to_owned()
    }
}

/// A backend and the path it is configured to be mounted at.
#[derive(Debug)]
pub struct MountedBackend {
    /// The mount path, or the backend's id where there is none.
    pub mount: Option<String>,
    /// The backend's id.
    pub backend_id: String,
}

impl MountedBackend {
    /// The prefix the backend binds to.
    pub open spec fn prefix(self) -> Seq<char> {
        match self.mount {
            Some(mount) => prefix_of(mount@),
            None => self.backend_id@,
        }
    }

    /// A backend at this mount path.
    pub fn new(mount: Option<String>, backend_id: String) -> (r: MountedBackend)
        ensures
            r == (MountedBackend { mount, backend_id }),
    {
        MountedBackend { mount, backend_id }
    }

    /// A backend mounted under its id.
    pub fn at_default(backend_id: String) -> (r: MountedBackend)
        ensures
            r == (MountedBackend { mount: None, backend_id }),
    {
        MountedBackend { mount: None, backend_id }
    }

    /// Backends each mounted under its id, in order.
    pub fn all_at_default(backend_ids: Vec<String>) -> (r: Vec<MountedBackend>)
        ensures
            r@.len() == backend_ids@.len(),
            forall|i: int|
                0 <= i < r@.len() ==> #[trigger] r@[i] == (MountedBackend {
                    mount: None,
                    backend_id: backend_ids@[i],
                }),
    {
        let mut mounted: Vec<MountedBackend> = Vec::new();
        let mut i: usize = 0;
        while i < backend_ids.len()
            invariant
                i <= backend_ids@.len(),
                mounted@.len() == i,
                forall|k: int|
                    0 <= k < i ==> #[trigger] mounted@[k] == (MountedBackend {
                        mount: None,
                        backend_id: backend_ids@[k],
                    }),
            decreases backend_ids@.len() - i,
        {
            mounted.push(MountedBackend::at_default(backend_ids[i].clone()));
            i += 1;
        }
        mounted
    }

    /// The prefix the backend binds to.
    pub fn resolve_prefix(&self) -> (r: String)
        ensures
            r@ == self.prefix(),
    {
        match &self.mount {
            Some(mount) => mount_prefix_from_str(mount.as_str()),
            None => self.backend_id.clone(),
        }
    }
}

/// What a backend without files is asked for in vain.
#[derive(Debug, Clone, Copy, PartialEq, Eq, Structural)]
pub enum NullOperation {
    /// The metadata of an entry.
    Metadata,
    /// The content of a file.
    Download,
    /// Storing a new file.
    Upload,
    /// Overwriting a file.
    Update,
    /// Creating a directory, by path or by parent.
    CreateDir,
    /// Deleting an entry.
    Delete,
    /// Moving an entry, by path or by id.
    Move,
}

impl NullOperation {
    /// Why it is refused.
    pub open spec fn refusal_text(self) -> Seq<char> {
        match self {
            NullOperation::Metadata => "null backend has no files"@,
            NullOperation::Download => "null backend has no files"@,
            NullOperation::Upload => "null backend cannot upload"@,
            NullOperation::Update => "null backend cannot update"@,
            NullOperation::CreateDir => "null backend cannot create directories"@,
            NullOperation::Delete => "null backend cannot delete"@,
            NullOperation::Move => "null backend cannot move"@,
        }
    }
}

/// The backend of folders that no cloud stores. It has no files and takes none.
#[derive(Debug)]
pub struct NullBackend {
    id: String,
}

impl View for NullBackend {
    type V = Seq<char>;

    closed spec fn view(&self) -> Seq<char> {
        self.id@
    }
}

impl NullBackend {
    /// A null backend with this id.
    pub fn new(id: String) -> (r: NullBackend)
        ensures
            r@ == id@,
    {
        NullBackend { id }
    }

    /// The backend's id.
    pub fn id(&self) -> (r: &str)
        ensures
            r@ == self@,
    {
        self.id.as_str()
    }

    /// The backend's display name.
    pub fn display_name(&self) -> (r: &'static str)
        ensures
            r@ == "P2P Only"@,
    {
        "P2P Only"
    }

    /// The changes since any cursor, and the next cursor: there are never any.
    pub fn changes(&self) -> (r: (Vec<Change>, String))
        ensures
            r.0@ == Seq::<Change>::empty(),
            r.1@ == "null"@,
    {
        (Vec::new(), "null".to_owned())
    }

    /// Why an operation on files is refused.
    pub fn refusal(&self, operation: NullOperation) -> (r: &'static str)
        ensures
            r@ == operation.refusal_text(),
    {
        match operation {
            NullOperation::Metadata | NullOperation::Download => "null backend has no files",
            NullOperation::Upload => "null backend cannot upload",
            NullOperation::Update => "null backend cannot update",
            NullOperation::CreateDir => "null backend cannot create directories",
            NullOperation::Delete => "null backend cannot delete",
            NullOperation::Move => "null backend cannot move",
        }
    }
}

/// Reading a content range by range, each from where the last one ended, reads
/// the content.
pub proof fn law_adjacent_ranges_join(content: Seq<u8>, offset: int, a: int, b: int)
    requires
        0 <= offset <= content.len(),
        0 <= a,
        0 <= b,
    ensures
        content.subrange(offset, cut(offset, a, content.len() as int)) + content.subrange(
            cut(offset, a, content.len() as int),
            cut(cut(offset, a, content.len() as int), b, content.len() as int),
        ) == content.subrange(offset, cut(offset, a + b, content.len() as int)),
{
}

/// A range holds as many bytes as were asked for, or all that are left where there
/// are fewer.
pub proof fn law_a_range_is_as_long_as_asked(start: int, length: int, total: int)
    requires
        0 <= start <= total,
        0 <= length,
    ensures
        start <= cut(start, length, total) <= total,
        length <= total - start ==> cut(start, length, total) - start == length,
        length > total - start ==> cut(start, length, total) == total,
{
}

/// A backend binds to its mount path, only that of the root binds to the empty
/// prefix, and a backend without a mount path binds to its own id.
pub proof fn law_a_backend_binds_to_its_mount(mount: Option<String>, backend_id: String)
    ensures
        mount matches Some(path) ==> {
            let bound = (MountedBackend { mount, backend_id }).prefix();
            &&& path@ == seq!['/'] ==> bound.len() == 0
            &&& path@ != seq!['/'] ==> bound == path@
        },
        mount is None ==> (MountedBackend { mount, backend_id }).prefix() == backend_id@,
{
    reveal_strlit("/");
    assert("/"@ == seq!['/']);
}

/// The text of a backend's error ends with its detail, and says which kind it is.
pub proof fn law_a_backend_error_says_its_kind(detail: String)
    ensures
        BackendError::Forbidden(detail).text() == "permission denied: "@ + detail@,
        BackendError::NotFound(detail).text() == "not found: "@ + detail@,
        BackendError::ReadOnly(detail).text() == "read-only: "@ + detail@,
        BackendError::Conflict(detail).text() == "conflict: "@ + detail@,
{
}

/// Each operation on a backend without files is refused in its own words; only reading
/// an entry's metadata and its content are refused alike.
pub proof fn law_null_operations_are_refused_in_their_own_words(
    a: NullOperation,
    b: NullOperation,
)
    ensures
        a.refusal_text() == b.refusal_text() ==> a == b || ((a is Metadata || a is Download) && (
        b is Metadata || b is Download)),
        a is Upload ==> a.refusal_text() == "null backend cannot upload"@,
        a is Delete ==> a.refusal_text() == "null backend cannot delete"@,
{
    reveal_strlit("null backend has no files");
    reveal_strlit("null backend cannot upload");
    reveal_strlit("null backend cannot update");
    reveal_strlit("null backend cannot create directories");
    reveal_strlit("null backend cannot delete");
    reveal_strlit("null backend cannot move");
    if a.refusal_text() == b.refusal_text() {
        assert(a.refusal_text().len() == b.refusal_text().len());
        assert(a.refusal_text()[13] == b.refusal_text()[13]);
        assert(a.refusal_text()[20] == b.refusal_text()[20]);
        assert(a.refusal_text()[22] == b.refusal_text()[22]);
    }
}

} // verus!
