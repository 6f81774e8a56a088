//! The engine: mounting backends, its status, and the operations behind the
//! management plane.

use vstd::prelude::*;

use crate::backend;
use crate::backend::MountedBackend;
use crate::cache::manager;
use crate::db::BackendRecord;
use crate::path;
use crate::text;

pub mod data_authority;
pub mod manage_dispatch;
pub mod operations;

verus! {

/// Why the backends cannot be mounted.
#[derive(Debug)]
pub enum MountError {
    /// There is no backend.
    NoBackends,
    /// Two backends bind to the same prefix.
    Duplicate {
        /// The prefix.
        prefix: String,
        /// The later of the two backends.
        backend_id: String,
    },
}

impl MountError {
    /// The error's text. The empty prefix is shown as the root.
    pub open spec fn text(self) -> Seq<char> {
        match self {
            MountError::NoBackends => "at least one backend is required"@,
            MountError::Duplicate { prefix, backend_id } => "duplicate mount path "@ + (
            if prefix@.len() == 0 {
                "/ (root)"@
            } else {
                prefix@
            }) + ": backend "@ + backend_id@ + " collides with another mount"@,
        }
    }

    /// The error's text.
    pub fn message(&self) -> (r: String)
        ensures
            r@ == self.text(),
    {
        match self {
            MountError::NoBackends => "at least one backend is required".to_owned(),
            MountError::Duplicate { prefix, backend_id } => {
                let mut m: String = "duplicate mount path ".to_owned();
                if prefix.as_str().is_empty() {
                    m.append("/ (root)");
                } else {
                    m.append(prefix.as_str());
                }
                m.append(": backend ");
                m.append(backend_id.as_str());
                m.append(" collides with another mount");
                m
            },
        }
    }
}

/// The mount path that holds for a backend: the one stored for it, which may be
/// that there is none, else the configured one.
pub open spec fn effective_mount(
    persisted: Option<Option<String>>,
    configured: Option<String>,
) -> Option<String> {
    match persisted {
        Some(stored) => stored,
        None => configured,
    }
}

/// A backend with the mount path that holds for it.
pub open spec fn resolved(
    mounted: MountedBackend,
    persisted: Option<Option<String>>,
) -> MountedBackend {
    MountedBackend {
        mount: effective_mount(persisted, mounted.mount),
        backend_id: mounted.backend_id,
    }
}

/// A backend is placed where the store says, and where the store says nothing as it
/// is configured: at the stored or configured path, the root being the empty prefix,
/// or under its own id where there is no path.
pub proof fn law_where_a_backend_is_placed(
    mounted: MountedBackend,
    persisted: Option<Option<String>>,
)
    ensures
        persisted matches Some(Some(path)) ==> {
            &&& path@ == seq!['/'] ==> resolved(mounted, persisted).prefix().len() == 0
            &&& path@ != seq!['/'] ==> resolved(mounted, persisted).prefix() == path@
            &&& resolved(mounted, persisted).mount == Some(path)
        },
        persisted == Some(None::<String>) ==> resolved(mounted, persisted).prefix()
            == mounted.backend_id@,
        persisted is None ==> resolved(mounted, persisted).prefix() == mounted.prefix()
            && resolved(mounted, persisted).mount == mounted.mount,
{
    reveal_strlit("/");
    assert("/"@ == seq!['/']);
}

/// A backend as it is to be registered and mounted.
#[derive(Debug)]
pub struct Placement {
    /// The mount path to store, if there is one.
    pub mount: Option<String>,
    /// The prefix to bind to.
    pub prefix: String,
}

/// The mounts claimed so far. No two bind to the same prefix.
#[derive(Debug)]
pub struct MountPlan {
    claimed: Vec<Vec<Vec<char>>>,
}

impl View for MountPlan {
    type V = Seq<Seq<Seq<char>>>;

    closed spec fn view(&self) -> Seq<Seq<Seq<char>>> {
        self.claimed@.map_values(|parts: Vec<Vec<char>>| text::seqs(parts@))
    }
}

impl MountPlan {
    /// A plan for this many backends, of which there must be one.
    pub fn new(backends: usize) -> (r: Result<MountPlan, MountError>)
        ensures
            match r {
                Ok(plan) => backends > 0 && plan@ == Seq::<Seq<Seq<char>>>::empty(),
                Err(error) => backends == 0 && error is NoBackends,
            },
    {
        if backends == 0 {
            return Err(MountError::NoBackends);
        }
        let plan = MountPlan { claimed: Vec::new() };
        assert(plan@ =~= Seq::<Seq<Seq<char>>>::empty());
        Ok(plan)
    }

    /// Claims a prefix for a backend. One that is claimed already, however it is
    /// spelled, is refused.
    pub fn claim_prefix(&mut self, prefix: &str, backend_id: &str) -> (r: Result<(), MountError>)
        ensures
            match r {
                Ok(_) => !old(self)@.contains(path::components(prefix@)) && final(self)@ == old(
                    self,
                )@.push(path::components(prefix@)),
                Err(error) => old(self)@.contains(path::components(prefix@)) && final(self)@ == old(
                    self,
                )@ && (error matches MountError::Duplicate { prefix: p, backend_id: id } && p@
                    == prefix@ && id@ == backend_id@),
            },
    {
        let parts: Vec<Vec<char>> = path::parse(prefix);
        let mut i: usize = 0;
        while i < self.claimed.len()
            invariant
                i <= self.claimed@.len(),
                *self == *old(self),
                text::seqs(parts@) == path::components(prefix@),
                forall|k: int| 0 <= k < i ==> self@[k] != path::components(prefix@),
            decreases self.claimed@.len() - i,
        {
            if path::same(&self.claimed[i], &parts) {
                assert(self@[i as int] == path::components(prefix@));
                return Err(
                    MountError::Duplicate {
                        prefix: prefix.to_owned(),
                        backend_id: backend_id.to_owned(),
                    },
                );
            }
            i += 1;
        }
        let ghost before = self@;
        self.claimed.push(parts);
        assert(self@ =~= before.push(path::components(prefix@)));
        Ok(())
    }

    /// Places a backend: under the mount path stored for it, else under the
    /// configured one, at a prefix that no other has claimed.
    pub fn place(&mut self, mounted: &MountedBackend, persisted: Option<Option<String>>) -> (r:
        Result<Placement, MountError>)
        ensures
            ({
                let resolved = resolved(*mounted, persisted);
                let parts = path::components(resolved.prefix());
                match r {
                    Ok(placement) => !old(self)@.contains(parts) && final(self)@ == old(self)@.push(
                        parts,
                    ) && placement.mount == resolved.mount && placement.prefix@
                        == resolved.prefix(),
                    Err(error) => old(self)@.contains(parts) && final(self)@ == old(self)@ && (
                    error matches MountError::Duplicate { prefix, backend_id } && prefix@
                        == resolved.prefix() && backend_id@ == mounted.backend_id@),
                }
            }),
    {
        let mount: Option<String> = match persisted {
            Some(stored) => stored,
            None => mounted.mount.clone(),
        };
        let resolved: MountedBackend = MountedBackend::new(mount, mounted.backend_id.clone());
        let prefix: String = resolved.resolve_prefix();
        match self.claim_prefix(prefix.as_str(), mounted.backend_id.as_str()) {
            Ok(_) => Ok(Placement { mount: resolved.mount, prefix }),
            Err(error) => Err(error),
        }
    }
}

/// Whether no prefix is claimed twice.
pub open spec fn distinct(claimed: Seq<Seq<Seq<char>>>) -> bool {
    forall|i: int, j: int| 0 <= i < j < claimed.len() ==> claimed[i] != claimed[j]
}

/// Claiming one prefix after another, each only where it is free, claims none
/// twice.
pub proof fn law_no_prefix_is_claimed_twice(
    claimed: Seq<Seq<Seq<char>>>,
    prefix: Seq<Seq<char>>,
)
    requires
        distinct(claimed),
        !claimed.contains(prefix),
    ensures
        distinct(claimed.push(prefix)),
{
}

/// A mount path that is stored overrides the configured one; the root path binds
/// to the empty prefix, and without a mount path the backend's id is the prefix.
pub proof fn law_a_stored_mount_comes_first(
    stored: Option<String>,
    configured: Option<String>,
    id: String,
)
    ensures
        effective_mount(Some(stored), configured) == stored,
        effective_mount(None, configured) == configured,
        (MountedBackend { mount: None, backend_id: id }).prefix() == id@,
        backend::prefix_of(backend::ROOT_PATH@) == Seq::<char>::empty(),
{
}

/// The cache as the status reports it.
#[derive(Debug, Clone, Copy, PartialEq, Eq, Structural)]
pub struct CacheStatsSnapshot {
    /// Files known but not held locally.
    pub online_count: usize,
    /// Files held locally until evicted.
    pub cached_count: usize,
    /// Files held locally for good.
    pub pinned_count: usize,
    /// The bytes held locally.
    pub total_bytes: u64,
}

impl Default for CacheStatsSnapshot {
    fn default() -> (r: Self)
        ensures
            r == (CacheStatsSnapshot {
                online_count: 0,
                cached_count: 0,
                pinned_count: 0,
                total_bytes: 0,
            }),
    {
        CacheStatsSnapshot { online_count: 0, cached_count: 0, pinned_count: 0, total_bytes: 0 }
    }
}

/// The engine's status.
#[derive(Debug)]
pub struct EngineStatus {
    /// Whether the background workers run.
    pub running: bool,
    /// How each mounted backend is shown.
    pub backends: Vec<String>,
    /// The cache.
    pub cache_stats: CacheStatsSnapshot,
    /// Whether blocks are shared with peers.
    pub p2p_enabled: bool,
    /// This device's id among peers, where they are.
    pub p2p_device_id: Option<String>,
}

/// What the store said of the cache, as far as it could be read.
#[derive(Debug, Clone, Copy)]
pub struct CacheReading {
    /// How many files are known but not held locally.
    pub online: Option<usize>,
    /// How many files are held locally until evicted.
    pub cached: Option<usize>,
    /// How many files are held locally for good.
    pub pinned: Option<usize>,
    /// The total size held locally.
    pub total_size: Option<i64>,
}

/// How a backend is shown.
pub open spec fn shown(record: BackendRecord) -> Seq<char> {
    record.display_name@ + " ("@ + record.backend_type@ + ")"@
}

/// How the backends are shown. None are where they could not be read.
pub open spec fn all_shown(backends: Option<Vec<BackendRecord>>) -> Seq<Seq<char>> {
    match backends {
        Some(records) => records@.map_values(|record: BackendRecord| shown(record)),
        None => Seq::empty(),
    }
}

/// The cache as the status reports it. Where any part could not be read, nothing
/// is reported.
pub open spec fn snapshot(reading: CacheReading) -> CacheStatsSnapshot {
    match (reading.online, reading.cached, reading.pinned, reading.total_size) {
        (Some(online), Some(cached), Some(pinned), Some(size)) => CacheStatsSnapshot {
            online_count: online,
            cached_count: cached,
            pinned_count: pinned,
            total_bytes: manager::total(size) as u64,
        },
        _ => CacheStatsSnapshot {
            online_count: 0,
            cached_count: 0,
            pinned_count: 0,
            total_bytes: 0,
        },
    }
}

/// The engine's status, from what the store said.
pub fn status(
    cancelled: bool,
    backends: Option<Vec<BackendRecord>>,
    reading: CacheReading,
    p2p_device_id: Option<String>,
) -> (r: EngineStatus)
    ensures
        r.running == !cancelled,
        text::texts(r.backends@) == all_shown(backends),
        r.cache_stats == snapshot(reading),
        r.p2p_enabled == (p2p_device_id is Some),
        r.p2p_device_id == p2p_device_id,
{
    let mut names: Vec<String> = Vec::new();
    assert(text::texts(names@) =~= Seq::<Seq<char>>::empty());
    if let Some(records) = &backends {
        let mut i: usize = 0;
        while i < records.len()
            invariant
                i <= records@.len(),
                text::texts(names@) == records@.take(i as int).map_values(
                    |record: BackendRecord| shown(record),
                ),
            decreases records@.len() - i,
        {
            let record: &BackendRecord = &records[i];
            let mut name: String = record.display_name.clone();
            name.append(" (");
            name.append(record.backend_type.as_str());
            name.append(")");
            let ghost before = names@;
            names.push(name);
            assert(text::texts(names@) =~= text::texts(before).push(shown(*record)));
            assert(text::texts(names@) =~= records@.take(i + 1).map_values(
                |record: BackendRecord| shown(record),
            ));
            i += 1;
        }
        assert(records@.take(i as int) == records@);
    }
    let cache_stats: CacheStatsSnapshot = match (
        reading.online,
        reading.cached,
        reading.pinned,
        reading.total_size,
    ) {
        (Some(online), Some(cached), Some(pinned), Some(size)) => CacheStatsSnapshot {
            online_count: online,
            cached_count: cached,
            pinned_count: pinned,
            total_bytes: manager::byte_total(size),
        },
        _ => CacheStatsSnapshot::default(),
    };
    EngineStatus {
        running: !cancelled,
        backends: names,
        cache_stats,
        p2p_enabled: p2p_device_id.is_some(),
        p2p_device_id,
    }
}

/// The status reports each number as it was read, and a cache of nothing where any of
/// them could not be; each backend is shown by its name and its type, in order.
pub proof fn law_the_status_reports_what_was_read(
    reading: CacheReading,
    records: Vec<BackendRecord>,
    i: int,
)
    requires
        0 <= i < records@.len(),
    ensures
        reading.online is Some && reading.cached is Some && reading.pinned is Some
            && reading.total_size is Some ==> {
            &&& snapshot(reading).online_count == reading.online->0
            &&& snapshot(reading).cached_count == reading.cached->0
            &&& snapshot(reading).pinned_count == reading.pinned->0
            &&& reading.total_size->0 >= 0 ==> snapshot(reading).total_bytes
                == reading.total_size->0
            &&& reading.total_size->0 < 0 ==> snapshot(reading).total_bytes == 0
        },
        reading.online is None || reading.cached is None || reading.pinned is None
            || reading.total_size is None ==> {
            &&& snapshot(reading).online_count == 0
            &&& snapshot(reading).cached_count == 0
            &&& snapshot(reading).pinned_count == 0
            &&& snapshot(reading).total_bytes == 0
        },
        all_shown(Some(records)).len() == records@.len(),
        records@[i].display_name@.is_prefix_of(all_shown(Some(records))[i]),
        (seq!['('] + records@[i].backend_type@ + seq![')']).is_suffix_of(
            all_shown(Some(records))[i],
        ),
        all_shown(None).len() == 0,
{
    let record = records@[i];
    let name = shown(record);
    let tail = seq!['('] + record.backend_type@ + seq![')'];
    reveal_strlit(" (");
    reveal_strlit(")");
    assert(name.subrange(0, record.display_name@.len() as int) == record.display_name@);
    assert(name.subrange(name.len() - tail.len(), name.len() as int) =~= tail);
}

/// A refused mount names the prefix and the backend that asked for it, and shows the
/// empty prefix as the root.
pub proof fn law_a_refused_mount_says_where(prefix: String, backend_id: String)
    ensures
        ({
            let text = (MountError::Duplicate { prefix, backend_id }).text();
            &&& prefix@.len() > 0 ==> exists|rest: Seq<char>|
                text == #[trigger] ("duplicate mount path "@ + prefix@ + ": backend "@
                    + backend_id@ + rest)
            &&& prefix@.len() == 0 ==> exists|rest: Seq<char>|
                text == #[trigger] ("duplicate mount path "@ + "/ (root)"@ + ": backend "@
                    + backend_id@ + rest)
        }),
{
    let text = (MountError::Duplicate { prefix, backend_id }).text();
    let rest = " collides with another mount"@;
    if prefix@.len() > 0 {
        assert(text == "duplicate mount path "@ + prefix@ + ": backend "@ + backend_id@ + rest);
    } else {
        assert(text == "duplicate mount path "@ + "/ (root)"@ + ": backend "@ + backend_id@
            + rest);
    }
}

} // verus!
