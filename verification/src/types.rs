//! Items, file entries and changes.

use vstd::prelude::*;

use crate::text;
use crate::time::Timestamp;

verus! {

/// The identity of an item: the backend it lives in and its native id there.
#[derive(Debug, PartialEq, Eq, Hash)]
pub struct ItemId(pub String);

impl View for ItemId {
    type V = Seq<char>;

    open spec fn view(&self) -> Seq<char> {
        self.0@
    }
}

impl Clone for ItemId {
    fn clone(&self) -> (r: Self)
        ensures
            r == *self,
    {
        ItemId(self.0.clone())
    }
}

/// The backend in an item's identity: what stands before the first colon, or all
/// of it.
pub open spec fn backend_part(id: Seq<char>) -> Seq<char> {
    match text::find_from(id, seq![':'], 0) {
        Some(k) => id.take(k),
        None => id,
    }
}

/// The native id in an item's identity: what stands after the first colon, or all
/// of it.
pub open spec fn native_part(id: Seq<char>) -> Seq<char> {
    match text::find_from(id, seq![':'], 0) {
        Some(k) => id.skip(k + 1),
        None => id,
    }
}

/// An identity gives back the backend and the native id that it was made of, where
/// the backend's name holds no colon.
pub proof fn law_an_identity_has_its_parts(backend_id: Seq<char>, native_id: Seq<char>)
    requires
        !backend_id.contains(':'),
    ensures
        backend_part(backend_id + ":"@ + native_id) == backend_id,
        native_part(backend_id + ":"@ + native_id) == native_id,
{
    reveal_strlit(":");
    let id = backend_id + ":"@ + native_id;
    let n = backend_id.len() as int;
    text::lemma_find_from(id, seq![':'], 0);
    assert(id.subrange(n, n + 1) == seq![':']);
    assert(text::occurs_at(id, seq![':'], n));
    let k = text::find_from(id, seq![':'], 0)->0;
    if k < n {
        assert(id.subrange(k, k + 1)[0] == id[k]);
        assert(backend_id[k] == ':');
    }
    assert(id.take(n) == backend_id);
    assert(id.skip(n + 1) == native_id);
}

impl ItemId {
    /// The backend that the item lives in.
    pub fn backend_id(&self) -> (r: String)
        ensures
            r@ == backend_part(self@),
    {
        let chars: Vec<char> = text::chars_of(self.0.as_str());
        let colon: [char; 1] = [':'];
        proof {
            text::lemma_find_from(chars@, colon@, 0);
        }
        assert(colon@ == seq![':']);
        match text::find(chars.as_slice(), colon.as_slice(), 0) {
            Some(k) => text::string_of(text::copy_range(chars.as_slice(), 0, k).as_slice()),
            None => self.0.clone(),
        }
    }

    /// The id that the item has in its backend.
    pub fn native_id(&self) -> (r: String)
        ensures
            r@ == native_part(self@),
    {
        let chars: Vec<char> = text::chars_of(self.0.as_str());
        let colon: [char; 1] = [':'];
        proof {
            text::lemma_find_from(chars@, colon@, 0);
        }
        assert(colon@ == seq![':']);
        match text::find(chars.as_slice(), colon.as_slice(), 0) {
            Some(k) => {
                let total: usize = chars.len();
                assert(k + 1 <= total);
                let native: Vec<char> = text::copy_range(chars.as_slice(), k + 1, total);
                assert(native@ == self@.skip(k + 1));
                text::string_of(native.as_slice())
            },
            None => self.0.clone(),
        }
    }

    /// The identity of the item `native_id` of a backend.
    pub fn new(backend_id: &str, native_id: &str) -> (r: ItemId)
        ensures
            r@ == backend_id@ + ":"@ + native_id@,
    {
        let mut id: String = backend_id.to_owned();
        id.append(":");
        id.append(native_id);
        ItemId(id)
    }
}

/// A file or directory as the engine knows it.
#[derive(Debug, PartialEq, Eq)]
pub struct FileEntry {
    /// The item's identity.
    pub id: ItemId,
    /// The identity of the directory it lies in.
    pub parent_id: ItemId,
    /// Its name.
    pub name: String,
    /// Its full path below the mount root.
    pub path: String,
    /// Whether it is a directory.
    pub is_dir: bool,
    /// Its size in bytes, where known.
    pub size: Option<u64>,
    /// When it was last modified, where known.
    pub mod_time: Option<Timestamp>,
    /// Its media type, where known.
    pub mime_type: Option<String>,
    /// Its content hash, where known.
    pub hash: Option<String>,
}

impl Clone for FileEntry {
    fn clone(&self) -> (r: Self)
        ensures
            r == *self,
    {
        FileEntry {
            id: self.id.clone(),
            parent_id: self.parent_id.clone(),
            name: self.name.clone(),
            path: self.path.clone(),
            is_dir: self.is_dir,
            size: self.size,
            mod_time: self.mod_time,
            mime_type: self.mime_type.clone(),
            hash: self.hash.clone(),
        }
    }
}

impl FileEntry {
    /// A file of which only the identity, the parent and the name are known. Its
    /// path is its name until a path is set.
    pub fn file(id: ItemId, parent_id: ItemId, name: String) -> (r: FileEntry)
        ensures
            r.id == id,
            r.parent_id == parent_id,
            r.name == name,
            r.path == name,
            !r.is_dir,
            r.size is None,
            r.mod_time is None,
            r.mime_type is None,
            r.hash is None,
    {
        FileEntry {
            id,
            parent_id,
            path: name.clone(),
            name,
            is_dir: false,
            size: None,
            mod_time: None,
            mime_type: None,
            hash: None,
        }
    }

    /// The same entry with this path.
    pub fn with_path(self, path: String) -> (r: FileEntry)
        ensures
            r == (FileEntry { path, ..self }),
    {
        FileEntry {
            id: self.id,
            parent_id: self.parent_id,
            name: self.name,
            path,
            is_dir: self.is_dir,
            size: self.size,
            mod_time: self.mod_time,
            mime_type: self.mime_type,
            hash: self.hash,
        }
    }

    /// The same entry with this size.
    pub fn with_size(self, size: Option<u64>) -> (r: FileEntry)
        ensures
            r == (FileEntry { size, ..self }),
    {
        FileEntry {
            id: self.id,
            parent_id: self.parent_id,
            name: self.name,
            path: self.path,
            is_dir: self.is_dir,
            size,
            mod_time: self.mod_time,
            mime_type: self.mime_type,
            hash: self.hash,
        }
    }
}

/// A change a backend reports.
#[derive(Debug, PartialEq, Eq)]
pub enum Change {
    /// The item is new.
    Created(FileEntry),
    /// The item changed in place.
    Updated {
        /// The item before.
        old: FileEntry,
        /// The item after.
        new: FileEntry,
    },
    /// The item is gone.
    Deleted(FileEntry),
    /// The item has another parent or name.
    Moved {
        /// The item before.
        from: FileEntry,
        /// The item after.
        to: FileEntry,
    },
}

impl Clone for Change {
    fn clone(&self) -> (r: Self)
        ensures
            r == *self,
    {
        match self {
            Change::Created(entry) => Change::Created(entry.clone()),
            Change::Updated { old, new } => Change::Updated { old: old.clone(), new: new.clone() },
            Change::Deleted(entry) => Change::Deleted(entry.clone()),
            Change::Moved { from, to } => Change::Moved { from: from.clone(), to: to.clone() },
        }
    }
}

} // verus!
