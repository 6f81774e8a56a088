//! The cache manager: which files an eviction sweep takes, and the cache's
//! statistics.

use vstd::prelude::*;

use crate::cache::lifecycle;
use crate::cache::lifecycle::{EvictionDecision, LifecycleEvaluator};
use crate::cache::pin;
use crate::cache::pin::PinMatcher;
use crate::db::{LifecyclePolicyRecord, PinRuleRecord};
use crate::types::FileEntry;

verus! {

/// How many candidates that no rule pins one sweep considers when it evicts for
/// size.
pub const CANDIDATE_LIMIT: usize = 100;

/// How the cache manager works.
#[derive(Debug, Clone, Copy)]
pub struct CacheManagerConfig {
    /// The largest total size of the cache in bytes, or no limit.
    pub max_size: Option<u64>,
    /// The largest age of cached files in seconds, or no limit.
    pub max_age: Option<u64>,
    /// The seconds between eviction sweeps.
    pub sweep_interval_secs: u64,
}

impl Default for CacheManagerConfig {
    fn default() -> (r: Self)
        ensures
            r.max_size is None,
            r.max_age is None,
            r.sweep_interval_secs == 300,
    {
        CacheManagerConfig { max_size: None, max_age: None, sweep_interval_secs: 300 }
    }
}

/// The state of the cache.
#[derive(Debug, Clone, Copy)]
pub struct CacheStats {
    /// Files known but not held locally.
    pub online_count: usize,
    /// Files held locally until evicted.
    pub cached_count: usize,
    /// Files held locally for good.
    pub pinned_count: usize,
    /// The bytes held locally.
    pub total_bytes: u64,
    /// The limit on them, if any.
    pub max_bytes: Option<u64>,
}

/// What an eviction sweep did.
#[derive(Debug, Clone, Copy)]
pub struct EvictionReport {
    /// Files evicted by lifecycle policies.
    pub lifecycle_evicted: usize,
    /// Files evicted because they exceeded the age limit of the cache.
    pub age_evicted: usize,
    /// Files evicted because the cache was too large.
    pub size_evicted: usize,
    /// Bytes freed by the latter.
    pub bytes_freed: u64,
}

impl Default for EvictionReport {
    fn default() -> (r: Self)
        ensures
            r.lifecycle_evicted == 0,
            r.age_evicted == 0,
            r.size_evicted == 0,
            r.bytes_freed == 0,
    {
        EvictionReport { lifecycle_evicted: 0, age_evicted: 0, size_evicted: 0, bytes_freed: 0 }
    }
}

impl EvictionReport {
    /// How many files were evicted in all.
    pub open spec fn total(self) -> int {
        self.lifecycle_evicted + self.age_evicted + self.size_evicted
    }

    /// How many files were evicted in all.
    pub fn total_evicted(&self) -> (r: usize)
        requires
            self.total() <= usize::MAX,
        ensures
            r == self.total(),
    {
        self.lifecycle_evicted + self.age_evicted + self.size_evicted
    }
}

/// A stored total as a byte count: a negative total counts as nothing.
pub open spec fn total(stored: i64) -> int {
    if stored < 0 {
        0
    } else {
        stored as int
    }
}

/// A stored total as a byte count.
pub(crate) fn byte_total(stored: i64) -> (r: u64)
    ensures
        r == total(stored),
{
    if stored < 0 {
        0
    } else {
        stored as u64
    }
}

/// The state of the cache from what the store holds in each cache state and the
/// total size that it reports.
pub open spec fn stats_of(
    config: CacheManagerConfig,
    online: usize,
    cached: usize,
    pinned: usize,
    cache_size: i64,
) -> CacheStats {
    CacheStats {
        online_count: online,
        cached_count: cached,
        pinned_count: pinned,
        total_bytes: total(cache_size) as u64,
        max_bytes: config.max_size,
    }
}

/// The statistics give each count under its own name, the bytes held and the limit on
/// them.
pub proof fn law_statistics_keep_the_counts_apart(
    config: CacheManagerConfig,
    online: usize,
    cached: usize,
    pinned: usize,
    cache_size: i64,
)
    ensures
        ({
            let stats = stats_of(config, online, cached, pinned, cache_size);
            &&& stats.online_count == online
            &&& stats.cached_count == cached
            &&& stats.pinned_count == pinned
            &&& cache_size >= 0 ==> stats.total_bytes == cache_size
            &&& cache_size < 0 ==> stats.total_bytes == 0
            &&& stats.max_bytes == config.max_size
        }),
{
}

/// The state of the cache from what the store holds in each cache state and the
/// total size that it reports.
pub fn stats(
    config: &CacheManagerConfig,
    online: usize,
    cached: usize,
    pinned: usize,
    cache_size: i64,
) -> (r: CacheStats)
    ensures
        r == stats_of(*config, online, cached, pinned, cache_size),
        r.online_count == online,
        r.cached_count == cached,
        r.pinned_count == pinned,
        r.total_bytes == total(cache_size),
        r.max_bytes == config.max_size,
{
    CacheStats {
        online_count: online,
        cached_count: cached,
        pinned_count: pinned,
        total_bytes: byte_total(cache_size),
        max_bytes: config.max_size,
    }
}

/// The positions below `n` that are chosen, in order.
pub open spec fn chosen(n: int, choice: spec_fn(int) -> bool) -> Seq<int>
    decreases n,
{
    if n <= 0 {
        Seq::empty()
    } else if choice(n - 1) {
        chosen(n - 1, choice).push(n - 1)
    } else {
        chosen(n - 1, choice)
    }
}

/// Exactly the chosen positions are taken, each once and in order.
pub proof fn law_exactly_the_chosen_are_taken(n: int, choice: spec_fn(int) -> bool)
    ensures
        forall|i: int| #[trigger]
            chosen(n, choice).contains(i) <==> 0 <= i < n && choice(i),
        forall|a: int|
            0 <= a < chosen(n, choice).len() ==> 0 <= #[trigger] chosen(n, choice)[a] < n,
        forall|a: int, b: int|
            0 <= a < b < chosen(n, choice).len() ==> chosen(n, choice)[a] < chosen(n, choice)[b],
    decreases n,
{
    if n > 0 {
        law_exactly_the_chosen_are_taken(n - 1, choice);
        let before = chosen(n - 1, choice);
        let after = chosen(n, choice);
        assert forall|i: int| #[trigger] after.contains(i) <==> 0 <= i < n && choice(i) by {
            if choice(n - 1) {
                assert(after == before.push(n - 1));
                if i == n - 1 {
                    assert(after[before.len() as int] == i);
                }
                if before.contains(i) {
                    let a = choose|a: int| 0 <= a < before.len() && before[a] == i;
                    assert(after[a] == i);
                }
                if after.contains(i) && i != n - 1 {
                    let a = choose|a: int| 0 <= a < after.len() && after[a] == i;
                    assert(before[a] == i);
                }
            }
            assert(before.contains(i) <==> 0 <= i < n - 1 && choice(i));
        }
    }
}

/// The positions held by a sequence of machine integers.
pub open spec fn positions(v: Seq<usize>) -> Seq<int> {
    v.map_values(|i: usize| i as int)
}

/// Whether a pin rule covers a file, matched by its full path.
pub open spec fn spared(pins: Seq<PinRuleRecord>, file: FileEntry) -> bool {
    pin::pinned(pins, file.path@)
}

/// Whether no file at these positions is one that a pin rule covers.
pub open spec fn spares(pins: Seq<PinRuleRecord>, files: Seq<FileEntry>, at: Seq<int>) -> bool {
    forall|k: int| 0 <= k < at.len() ==> !spared(pins, files[#[trigger] at[k]])
}

/// Which files the lifecycle policies evict: those that some policy gives up and
/// no pin rule covers.
pub open spec fn doomed(
    policies: Seq<LifecyclePolicyRecord>,
    pins: Seq<PinRuleRecord>,
    files: Seq<FileEntry>,
    last_access: Seq<i64>,
    now: i64,
) -> spec_fn(int) -> bool {
    |i: int|
        !spared(pins, files[i]) && lifecycle::decision(
            policies,
            files[i].size,
            files[i].path@,
            now - last_access[i],
        ) != EvictionDecision::Keep
}

/// The positions of the cached files that a sweep evicts by lifecycle policy. A
/// file that a pin rule covers stays.
pub fn lifecycle_sweep(
    lifecycle: &LifecycleEvaluator,
    pins: &PinMatcher,
    cached: &Vec<FileEntry>,
    last_access: &Vec<i64>,
    now: i64,
) -> (r: Vec<usize>)
    requires
        last_access@.len() == cached@.len(),
    ensures
        positions(r@) == chosen(
            cached@.len() as int,
            doomed(lifecycle@, pins@, cached@, last_access@, now),
        ),
        spares(pins@, cached@, positions(r@)),
{
    let ghost choice = doomed(lifecycle@, pins@, cached@, last_access@, now);
    let mut evicted: Vec<usize> = Vec::new();
    let mut i: usize = 0;
    assert(positions(evicted@) == Seq::<int>::empty());
    while i < cached.len()
        invariant
            i <= cached@.len() == last_access@.len(),
            choice == doomed(lifecycle@, pins@, cached@, last_access@, now),
            positions(evicted@) == chosen(i as int, choice),
        decreases cached@.len() - i,
    {
        let ghost before = evicted@;
        let file: &FileEntry = &cached[i];
        let path: &str = file.path.as_str();
        let goes: bool = !pins.is_pinned(path) && lifecycle.should_evict(
            file,
            path,
            last_access[i],
            now,
        ) != EvictionDecision::Keep;
        assert(goes == choice(i as int));
        if goes {
            evicted.push(i);
            assert(positions(evicted@) == positions(before).push(i as int));
        }
        i += 1;
    }
    proof {
        lemma_chosen_are_spared(pins@, cached@, choice);
    }
    evicted
}

/// A choice that leaves out what pin rules cover spares it.
proof fn lemma_chosen_are_spared(
    pins: Seq<PinRuleRecord>,
    files: Seq<FileEntry>,
    choice: spec_fn(int) -> bool,
)
    requires
        forall|i: int| 0 <= i < files.len() && #[trigger] choice(i) ==> !spared(pins, files[i]),
    ensures
        forall|n: int| 0 <= n <= files.len() ==> spares(pins, files, #[trigger] chosen(n, choice)),
{
    assert forall|n: int| 0 <= n <= files.len() implies spares(
        pins,
        files,
        #[trigger] chosen(n, choice),
    ) by {
        law_exactly_the_chosen_are_taken(n, choice);
        let at = chosen(n, choice);
        assert forall|k: int| 0 <= k < at.len() implies !spared(pins, files[#[trigger] at[k]]) by {
            assert(at.contains(at[k]));
            assert(choice(at[k]));
        }
    }
}

/// Which files exceed the age limit: those that were last used longer ago.
pub open spec fn over_age(max_age: Option<u64>, last_access: Seq<i64>, now: i64) -> spec_fn(
    int,
) -> bool {
    |i: int| max_age matches Some(limit) && now - last_access[i] > limit
}

/// The positions of the cached files that exceed the age limit, if there is one.
pub fn age_sweep(
    max_age: Option<u64>,
    cached: &Vec<FileEntry>,
    last_access: &Vec<i64>,
    now: i64,
) -> (r: Vec<usize>)
    requires
        last_access@.len() == cached@.len(),
    ensures
        positions(r@) == chosen(cached@.len() as int, over_age(max_age, last_access@, now)),
{
    let ghost choice = over_age(max_age, last_access@, now);
    let mut aged: Vec<usize> = Vec::new();
    let mut i: usize = 0;
    assert(positions(aged@) == Seq::<int>::empty());
    while i < cached.len()
        invariant
            i <= cached@.len() == last_access@.len(),
            choice == over_age(max_age, last_access@, now),
            positions(aged@) == chosen(i as int, choice),
        decreases cached@.len() - i,
    {
        let ghost before = aged@;
        let goes: bool = match max_age {
            Some(limit) => now as i128 - last_access[i] as i128 > limit as i128,
            None => false,
        };
        assert(goes == choice(i as int));
        if goes {
            aged.push(i);
            assert(positions(aged@) == positions(before).push(i as int));
        }
        i += 1;
    }
    aged
}

/// What a sweep evicts for its age or by lifecycle policy.
#[derive(Debug, PartialEq, Eq)]
pub struct TimedSweep {
    /// The positions of the files that go by lifecycle policy.
    pub lifecycle: Vec<usize>,
    /// The positions of the others that exceed the age limit of the cache.
    pub aged: Vec<usize>,
}

/// Which files go for the age limit of the cache: those that exceed it, that no
/// pin rule covers and that no lifecycle policy gave up before.
pub open spec fn outlived(
    max_age: Option<u64>,
    policies: Seq<LifecyclePolicyRecord>,
    pins: Seq<PinRuleRecord>,
    files: Seq<FileEntry>,
    last_access: Seq<i64>,
    now: i64,
) -> spec_fn(int) -> bool {
    |i: int|
        over_age(max_age, last_access, now)(i) && !spared(pins, files[i]) && !doomed(
            policies,
            pins,
            files,
            last_access,
            now,
        )(i)
}

/// The cached files that a sweep evicts by lifecycle policy, and those that it
/// evicts for the age limit of the cache. A file that a pin rule covers stays.
pub fn timed_sweep(
    config: &CacheManagerConfig,
    lifecycle: &LifecycleEvaluator,
    pins: &PinMatcher,
    cached: &Vec<FileEntry>,
    last_access: &Vec<i64>,
    now: i64,
) -> (r: TimedSweep)
    requires
        last_access@.len() == cached@.len(),
    ensures
        positions(r.lifecycle@) == chosen(
            cached@.len() as int,
            doomed(lifecycle@, pins@, cached@, last_access@, now),
        ),
        positions(r.aged@) == chosen(
            cached@.len() as int,
            outlived(config.max_age, lifecycle@, pins@, cached@, last_access@, now),
        ),
        spares(pins@, cached@, positions(r.lifecycle@)),
        spares(pins@, cached@, positions(r.aged@)),
{
    let evicted: Vec<usize> = lifecycle_sweep(lifecycle, pins, cached, last_access, now);
    let over: Vec<usize> = age_sweep(config.max_age, cached, last_access, now);
    let ghost first = over_age(config.max_age, last_access@, now);
    let ghost choice = outlived(config.max_age, lifecycle@, pins@, cached@, last_access@, now);
    let ghost n = cached@.len() as int;
    proof {
        law_exactly_the_chosen_are_taken(n, first);
        lemma_chosen_again(n, first, choice);
        lemma_chosen_are_spared(pins@, cached@, choice);
    }
    let mut aged: Vec<usize> = Vec::new();
    let mut k: usize = 0;
    assert(positions(over@).take(0).filter(choice) =~= Seq::<int>::empty()) by {
        reveal(Seq::filter);
    }
    while k < over.len()
        invariant
            k <= over@.len(),
            n == cached@.len() == last_access@.len(),
            first == over_age(config.max_age, last_access@, now),
            choice == outlived(config.max_age, lifecycle@, pins@, cached@, last_access@, now),
            positions(over@) == chosen(n, first),
            forall|i: int| #[trigger] chosen(n, first).contains(i) <==> 0 <= i < n && first(i),
            positions(aged@) == positions(over@).take(k as int).filter(choice),
        decreases over@.len() - k,
    {
        let ghost before = aged@;
        let i: usize = over[k];
        proof {
            assert(positions(over@)[k as int] == i);
            assert(chosen(n, first).contains(i as int));
            let more = positions(over@).take(k + 1);
            assert(more.drop_last() == positions(over@).take(k as int));
            assert(more.last() == i);
            reveal(Seq::filter);
        }
        let file: &FileEntry = &cached[i];
        let path: &str = file.path.as_str();
        let goes: bool = !pins.is_pinned(path) && lifecycle.should_evict(
            file,
            path,
            last_access[i],
            now,
        ) == EvictionDecision::Keep;
        assert(goes == choice(i as int));
        if goes {
            aged.push(i);
            assert(positions(aged@) == positions(before).push(i as int));
        }
        k += 1;
    }
    assert(positions(over@).take(k as int) == positions(over@));
    TimedSweep { lifecycle: evicted, aged }
}

/// Choosing among what was chosen is choosing what both choices take.
proof fn lemma_chosen_again(n: int, first: spec_fn(int) -> bool, both: spec_fn(int) -> bool)
    requires
        forall|i: int| #[trigger] both(i) ==> first(i),
    ensures
        chosen(n, first).filter(both) == chosen(n, both),
    decreases n,
{
    reveal(Seq::filter);
    if n > 0 {
        lemma_chosen_again(n - 1, first, both);
        if first(n - 1) {
            assert(chosen(n, first).drop_last() == chosen(n - 1, first));
        }
    }
}

/// A sweep evicts a file once, by lifecycle policy or for the age limit of the
/// cache: exactly where no pin rule covers it and a policy gives it up or it
/// exceeds the limit.
pub proof fn law_a_timed_sweep_evicts_a_file_once(
    max_age: Option<u64>,
    policies: Seq<LifecyclePolicyRecord>,
    pins: Seq<PinRuleRecord>,
    files: Seq<FileEntry>,
    last_access: Seq<i64>,
    now: i64,
    i: int,
)
    requires
        0 <= i < files.len(),
    ensures
        ({
            let n = files.len() as int;
            let age = now - last_access[i];
            let by_policy = chosen(n, doomed(policies, pins, files, last_access, now));
            let by_age = chosen(n, outlived(max_age, policies, pins, files, last_access, now));
            &&& !(by_policy.contains(i) && by_age.contains(i))
            &&& by_policy.contains(i) || by_age.contains(i) <==> !spared(pins, files[i]) && (
            lifecycle::decision(policies, files[i].size, files[i].path@, age)
                != EvictionDecision::Keep || (max_age matches Some(limit) && age > limit))
        }),
{
    let n = files.len() as int;
    law_exactly_the_chosen_are_taken(n, doomed(policies, pins, files, last_access, now));
    law_exactly_the_chosen_are_taken(n, outlived(max_age, policies, pins, files, last_access, now));
}

/// No sweep evicts a file that a pin rule covers, whatever policies and limits
/// there are.
pub proof fn law_no_sweep_evicts_a_pinned_file(
    max_age: Option<u64>,
    policies: Seq<LifecyclePolicyRecord>,
    pins: Seq<PinRuleRecord>,
    files: Seq<FileEntry>,
    last_access: Seq<i64>,
    now: i64,
    current_size: int,
    max_size: int,
)
    ensures
        spares(
            pins,
            files,
            chosen(files.len() as int, doomed(policies, pins, files, last_access, now)),
        ),
        spares(
            pins,
            files,
            chosen(files.len() as int, outlived(max_age, policies, pins, files, last_access, now)),
        ),
        spares(pins, files, evicted(pins, files, current_size, max_size)),
{
    lemma_chosen_are_spared(pins, files, doomed(policies, pins, files, last_access, now));
    lemma_chosen_are_spared(
        pins,
        files,
        outlived(max_age, policies, pins, files, last_access, now),
    );
    lemma_chosen_are_spared(pins, files, evictable(pins, files));
    lemma_evicted_bounds(pins, files, current_size, max_size, 0);
}

/// The size of a file as far as it is known.
pub open spec fn known_size(file: FileEntry) -> int {
    match file.size {
        Some(size) => size as int,
        None => 0,
    }
}

/// Which candidates may be evicted for size: those that no pin rule covers.
pub open spec fn evictable(pins: Seq<PinRuleRecord>, candidates: Seq<FileEntry>) -> spec_fn(
    int,
) -> bool {
    |i: int| !spared(pins, candidates[i])
}

/// The bytes that evicting the first `n` candidates frees, but for those that pin
/// rules cover.
pub open spec fn freed(pins: Seq<PinRuleRecord>, candidates: Seq<FileEntry>, n: int) -> int
    decreases n,
{
    if n <= 0 {
        0
    } else if evictable(pins, candidates)(n - 1) {
        freed(pins, candidates, n - 1) + known_size(candidates[n - 1])
    } else {
        freed(pins, candidates, n - 1)
    }
}

/// How many of the candidates are gone through, the first `n` being so already:
/// one after the other, until the cache is within its limit or as many are
/// evicted as one sweep considers.
pub open spec fn passed_from(
    pins: Seq<PinRuleRecord>,
    candidates: Seq<FileEntry>,
    current_size: int,
    max_size: int,
    n: int,
) -> int
    decreases candidates.len() - n,
{
    if n < candidates.len() && current_size - freed(pins, candidates, n) > max_size && chosen(
        n,
        evictable(pins, candidates),
    ).len() < CANDIDATE_LIMIT {
        passed_from(pins, candidates, current_size, max_size, n + 1)
    } else {
        n
    }
}

/// How many of the candidates a sweep goes through.
pub open spec fn passed(
    pins: Seq<PinRuleRecord>,
    candidates: Seq<FileEntry>,
    current_size: int,
    max_size: int,
) -> int {
    passed_from(pins, candidates, current_size, max_size, 0)
}

/// The positions of the candidates that a sweep evicts.
pub open spec fn evicted(
    pins: Seq<PinRuleRecord>,
    candidates: Seq<FileEntry>,
    current_size: int,
    max_size: int,
) -> Seq<int> {
    chosen(passed(pins, candidates, current_size, max_size), evictable(pins, candidates))
}

/// Whether the sizes of the candidates add up: those evicted fit a byte count,
/// and do not exceed the size of the whole cache while candidates are left to
/// consider.
pub open spec fn consistent(
    pins: Seq<PinRuleRecord>,
    candidates: Seq<FileEntry>,
    current_size: int,
    max_size: int,
) -> bool {
    let n = passed(pins, candidates, current_size, max_size);
    freed(pins, candidates, n) <= u64::MAX && (n == candidates.len() || evicted(
        pins,
        candidates,
        current_size,
        max_size,
    ).len() == CANDIDATE_LIMIT || freed(pins, candidates, n) <= current_size)
}

/// How many candidates to read: as many as are considered, and room for those that
/// pin rules cover.
pub open spec fn wanted(pins: Seq<PinRuleRecord>, cached: Seq<FileEntry>) -> int {
    let n = CANDIDATE_LIMIT + chosen(cached.len() as int, |i: int| spared(pins, cached[i])).len();
    if n <= usize::MAX {
        n
    } else {
        usize::MAX as int
    }
}

/// How many candidates a size sweep is to be given, the files in the cache being
/// `cached`: pinned files take up no candidate's place.
pub fn candidate_limit(pins: &PinMatcher, cached: &Vec<FileEntry>) -> (r: usize)
    ensures
        r == wanted(pins@, cached@),
{
    let ghost choice = |i: int| spared(pins@, cached@[i]);
    let mut count: usize = 0;
    let mut i: usize = 0;
    while i < cached.len()
        invariant
            count <= i <= cached@.len(),
            choice == (|i: int| spared(pins@, cached@[i])),
            count == chosen(i as int, choice).len(),
        decreases cached@.len() - i,
    {
        let covered: bool = pins.is_pinned(cached[i].path.as_str());
        assert(covered == choice(i as int));
        if covered {
            count += 1;
        }
        i += 1;
    }
    match CANDIDATE_LIMIT.checked_add(count) {
        Some(n) => n,
        None => usize::MAX,
    }
}

/// Whether the cache is too large.
#[derive(Debug, Clone, Copy, PartialEq, Eq, Structural)]
pub enum SizeCheck {
    /// There is no limit, or the cache is within it.
    Within,
    /// The cache exceeds its limit.
    Over {
        /// The size of the cache.
        current_size: u64,
        /// The limit.
        max_size: u64,
    },
}

/// How the size of the cache compares with its limit.
pub open spec fn checked(max_size: Option<u64>, cache_size: i64) -> SizeCheck {
    match max_size {
        Some(limit) if total(cache_size) > limit => SizeCheck::Over {
            current_size: total(cache_size) as u64,
            max_size: limit,
        },
        _ => SizeCheck::Within,
    }
}

/// The cache is too large exactly where there is a limit and the stored total is more;
/// what is then reported is that total and that limit.
pub proof fn law_when_the_cache_is_too_large(max_size: Option<u64>, cache_size: i64)
    ensures
        checked(max_size, cache_size) is Over <==> max_size is Some && cache_size > max_size->0,
        checked(max_size, cache_size) matches SizeCheck::Over { current_size, max_size: limit } ==> {
            &&& current_size == cache_size
            &&& Some(limit) == max_size
        },
{
}

/// Whether the cache, of the total size that the store reports, is too large.
pub fn size_check(config: &CacheManagerConfig, cache_size: i64) -> (r: SizeCheck)
    ensures
        r == checked(config.max_size, cache_size),
        match config.max_size {
            Some(max_size) => if total(cache_size) > max_size {
                r matches SizeCheck::Over { current_size, max_size: limit } && current_size
                    == total(cache_size) && limit == max_size
            } else {
                r == SizeCheck::Within
            },
            None => r == SizeCheck::Within,
        },
{
    let current_size: u64 = byte_total(cache_size);
    match config.max_size {
        Some(max_size) if current_size > max_size => SizeCheck::Over { current_size, max_size },
        _ => SizeCheck::Within,
    }
}

/// What a sweep evicts to bring the cache within its limit.
#[derive(Debug, PartialEq, Eq)]
pub struct SizeSweep {
    /// The positions of the candidates that are evicted.
    pub evicted: Vec<usize>,
    /// The bytes that frees.
    pub bytes_freed: u64,
}

/// The candidates a sweep evicts to bring a cache within its limit, taken least
/// recently used first, as they are given, and no more than one sweep considers;
/// one that a pin rule covers is passed over. There is no answer where the sizes
/// do not add up.
pub fn size_sweep(
    pins: &PinMatcher,
    candidates: &Vec<FileEntry>,
    current_size: u64,
    max_size: u64,
) -> (r: Option<SizeSweep>)
    ensures
        r is Some == consistent(pins@, candidates@, current_size as int, max_size as int),
        r matches Some(sweep) ==> {
            &&& positions(sweep.evicted@) == evicted(
                pins@,
                candidates@,
                current_size as int,
                max_size as int,
            )
            &&& sweep.bytes_freed == freed(
                pins@,
                candidates@,
                passed(pins@, candidates@, current_size as int, max_size as int),
            )
            &&& spares(pins@, candidates@, positions(sweep.evicted@))
            &&& sweep.evicted@.len() <= CANDIDATE_LIMIT
        },
{
    let ghost choice = evictable(pins@, candidates@);
    let ghost end = passed(pins@, candidates@, current_size as int, max_size as int);
    let mut evicted: Vec<usize> = Vec::new();
    let mut bytes_freed: u64 = 0;
    let mut i: usize = 0;
    proof {
        lemma_chosen_are_spared(pins@, candidates@, choice);
        lemma_evicted_bounds(pins@, candidates@, current_size as int, max_size as int, 0);
    }
    assert(positions(evicted@) == Seq::<int>::empty());
    while i < candidates.len()
        invariant
            i <= candidates@.len(),
            choice == evictable(pins@, candidates@),
            end == passed(pins@, candidates@, current_size as int, max_size as int),
            end == passed_from(
                pins@,
                candidates@,
                current_size as int,
                max_size as int,
                i as int,
            ),
            0 <= end <= candidates@.len(),
            positions(evicted@) == chosen(i as int, choice),
            evicted@.len() <= CANDIDATE_LIMIT,
            bytes_freed == freed(pins@, candidates@, i as int),
            forall|n: int|
                0 <= n <= candidates@.len() ==> spares(
                    pins@,
                    candidates@,
                    #[trigger] chosen(n, choice),
                ),
        decreases candidates@.len() - i,
    {
        assert(positions(evicted@).len() == evicted@.len());
        if evicted.len() >= CANDIDATE_LIMIT {
            return Some(SizeSweep { evicted, bytes_freed });
        }
        if bytes_freed > current_size {
            return None;
        }
        if current_size - bytes_freed <= max_size {
            return Some(SizeSweep { evicted, bytes_freed });
        }
        proof {
            lemma_freed_grows(pins@, candidates@, i + 1, end);
            lemma_evicted_bounds(
                pins@,
                candidates@,
                current_size as int,
                max_size as int,
                i + 1,
            );
        }
        let ghost before = evicted@;
        let goes: bool = !pins.is_pinned(candidates[i].path.as_str());
        assert(goes == choice(i as int));
        if goes {
            let size: u64 = candidates[i].size.unwrap_or(0);
            match bytes_freed.checked_add(size) {
                None => {
                    return None;
                },
                Some(sum) => {
                    bytes_freed = sum;
                },
            }
            evicted.push(i);
            assert(positions(evicted@) == positions(before).push(i as int));
        }
        i += 1;
    }
    Some(SizeSweep { evicted, bytes_freed })
}

/// Going through more candidates frees no less.
proof fn lemma_freed_grows(
    pins: Seq<PinRuleRecord>,
    candidates: Seq<FileEntry>,
    m: int,
    n: int,
)
    ensures
        m <= n ==> freed(pins, candidates, m) <= freed(pins, candidates, n),
    decreases n - m,
{
    if m < n {
        lemma_freed_grows(pins, candidates, m, n - 1);
    }
}

/// How far the eviction can go, and why it stops where it does.
proof fn lemma_evicted_bounds(
    pins: Seq<PinRuleRecord>,
    candidates: Seq<FileEntry>,
    current_size: int,
    max_size: int,
    n: int,
)
    requires
        0 <= n <= candidates.len(),
    ensures
        ({
            let m = passed_from(pins, candidates, current_size, max_size, n);
            &&& n <= m <= candidates.len()
            &&& m < candidates.len() ==> current_size - freed(pins, candidates, m) <= max_size
                || chosen(m, evictable(pins, candidates)).len() >= CANDIDATE_LIMIT
            &&& m > n ==> chosen(m, evictable(pins, candidates)).len() <= CANDIDATE_LIMIT
            &&& m > n ==> current_size - freed(pins, candidates, m - 1) > max_size
        }),
    decreases candidates.len() - n,
{
    if n < candidates.len() && current_size - freed(pins, candidates, n) > max_size && chosen(
        n,
        evictable(pins, candidates),
    ).len() < CANDIDATE_LIMIT {
        lemma_evicted_bounds(pins, candidates, current_size, max_size, n + 1);
    }
}

/// A sweep evicts at most as many files as it considers. One that leaves a
/// candidate evicted that many or leaves the cache within its limit, and before
/// each of its evictions the cache was still too large.
pub proof fn law_a_size_sweep_evicts_no_more_than_needed(
    pins: Seq<PinRuleRecord>,
    candidates: Seq<FileEntry>,
    current_size: int,
    max_size: int,
)
    ensures
        ({
            let n = passed(pins, candidates, current_size, max_size);
            &&& 0 <= n <= candidates.len()
            &&& evicted(pins, candidates, current_size, max_size).len() <= CANDIDATE_LIMIT
            &&& n < candidates.len() ==> current_size - freed(pins, candidates, n) <= max_size
                || evicted(pins, candidates, current_size, max_size).len() == CANDIDATE_LIMIT
            &&& forall|i: int| #[trigger]
                evicted(pins, candidates, current_size, max_size).contains(i) ==> current_size
                    - freed(pins, candidates, i) > max_size
        }),
{
    let n = passed(pins, candidates, current_size, max_size);
    lemma_evicted_bounds(pins, candidates, current_size, max_size, 0);
    law_exactly_the_chosen_are_taken(n, evictable(pins, candidates));
    assert forall|i: int| #[trigger]
        evicted(pins, candidates, current_size, max_size).contains(i) implies current_size - freed(
        pins,
        candidates,
        i,
    ) > max_size by {
        lemma_freed_grows(pins, candidates, i, n - 1);
    }
}

/// The report of a sweep that evicted these files for their age or by lifecycle
/// policy, and these candidates for size where the cache was too large.
pub open spec fn report_of(timed: TimedSweep, size: Option<SizeSweep>) -> EvictionReport {
    EvictionReport {
        lifecycle_evicted: timed.lifecycle@.len() as usize,
        age_evicted: timed.aged@.len() as usize,
        size_evicted: match size {
            Some(sweep) => sweep.evicted@.len() as usize,
            None => 0,
        },
        bytes_freed: match size {
            Some(sweep) => sweep.bytes_freed,
            None => 0,
        },
    }
}

/// A report counts every file that a sweep evicted, each under the reason for which it
/// went, and the bytes that evicting for size freed.
pub proof fn law_a_report_counts_what_was_evicted(timed: TimedSweep, size: Option<SizeSweep>)
    requires
        timed.lifecycle@.len() <= usize::MAX,
        timed.aged@.len() <= usize::MAX,
        size matches Some(sweep) ==> sweep.evicted@.len() <= usize::MAX,
    ensures
        ({
            let report = report_of(timed, size);
            &&& report.lifecycle_evicted == timed.lifecycle@.len()
            &&& report.age_evicted == timed.aged@.len()
            &&& size matches Some(sweep) ==> report.size_evicted == sweep.evicted@.len()
                && report.bytes_freed == sweep.bytes_freed && report.total()
                == timed.lifecycle@.len() + timed.aged@.len() + sweep.evicted@.len()
            &&& size is None ==> report.bytes_freed == 0 && report.total()
                == timed.lifecycle@.len() + timed.aged@.len()
        }),
{
}

/// The report of a sweep that evicted these files for their age or by lifecycle
/// policy, and these candidates for size where the cache was too large.
pub fn sweep_report(timed: &TimedSweep, size: &Option<SizeSweep>) -> (r: EvictionReport)
    ensures
        r == report_of(*timed, *size),
        r.lifecycle_evicted == timed.lifecycle@.len(),
        r.age_evicted == timed.aged@.len(),
        match size {
            Some(sweep) => r.size_evicted == sweep.evicted@.len() && r.bytes_freed
                == sweep.bytes_freed,
            None => r.size_evicted == 0 && r.bytes_freed == 0,
        },
{
    let (size_evicted, bytes_freed): (usize, u64) = match size {
        Some(sweep) => (sweep.evicted.len(), sweep.bytes_freed),
        None => (0, 0),
    };
    EvictionReport {
        lifecycle_evicted: timed.lifecycle.len(),
        age_evicted: timed.aged.len(),
        size_evicted,
        bytes_freed,
    }
}

/// A file exceeds the age limit exactly where there is one and the file was last used
/// more than that many seconds before.
pub proof fn law_which_files_exceed_the_age_limit(
    max_age: Option<u64>,
    last_access: Seq<i64>,
    now: i64,
    n: int,
    i: int,
)
    requires
        0 <= i < n,
    ensures
        chosen(n, over_age(max_age, last_access, now)).contains(i) <==> max_age is Some && now
            > last_access[i] + max_age->0,
        max_age is None ==> chosen(n, over_age(max_age, last_access, now)).len() == 0,
{
    let aged = chosen(n, over_age(max_age, last_access, now));
    law_exactly_the_chosen_are_taken(n, over_age(max_age, last_access, now));
    if max_age is None && aged.len() > 0 {
        assert(aged.contains(aged[0]));
    }
}

/// A lifecycle sweep takes exactly the files that no pin rule covers and that the
/// policies do not keep.
pub proof fn law_which_files_a_lifecycle_sweep_takes(
    policies: Seq<LifecyclePolicyRecord>,
    pins: Seq<PinRuleRecord>,
    files: Seq<FileEntry>,
    last_access: Seq<i64>,
    now: i64,
    i: int,
)
    requires
        0 <= i < files.len(),
    ensures
        chosen(files.len() as int, doomed(policies, pins, files, last_access, now)).contains(i)
            <==> !pin::pinned(pins, files[i].path@) && !(lifecycle::decision(
            policies,
            files[i].size,
            files[i].path@,
            now - last_access[i],
        ) is Keep),
{
    law_exactly_the_chosen_are_taken(
        files.len() as int,
        doomed(policies, pins, files, last_access, now),
    );
}

/// Going through one more candidate frees its size, nothing where that is unknown, and
/// nothing where a pin rule covers it.
pub proof fn law_each_eviction_frees_its_size(
    pins: Seq<PinRuleRecord>,
    candidates: Seq<FileEntry>,
    n: int,
)
    requires
        0 <= n < candidates.len(),
    ensures
        ({
            let more = freed(pins, candidates, n + 1) - freed(pins, candidates, n);
            &&& pin::pinned(pins, candidates[n].path@) ==> more == 0
            &&& !pin::pinned(pins, candidates[n].path@) ==> match candidates[n].size {
                Some(size) => more == size,
                None => more == 0,
            }
        }),
        freed(pins, candidates, 0) == 0,
{
}

/// A size sweep takes every candidate that no pin rule covers, from the least recently
/// used one on, up to where it stops, and it stops at the first place where the cache
/// is within its limit or a hundred files are taken.
pub proof fn law_a_size_sweep_takes_the_first_candidates(
    pins: Seq<PinRuleRecord>,
    candidates: Seq<FileEntry>,
    current_size: int,
    max_size: int,
    i: int,
)
    requires
        0 <= i < candidates.len(),
    ensures
        ({
            let taken = evicted(pins, candidates, current_size, max_size);
            &&& taken.contains(i) <==> !pin::pinned(pins, candidates[i].path@) && forall|n: int|
                0 <= n <= i ==> current_size - #[trigger] freed(pins, candidates, n) > max_size
                    && chosen(n, evictable(pins, candidates)).len() < 100
        }),
{
    let end = passed(pins, candidates, current_size, max_size);
    let choice = evictable(pins, candidates);
    law_exactly_the_chosen_are_taken(end, choice);
    lemma_passed_while(pins, candidates, current_size, max_size, 0);
    lemma_evicted_bounds(pins, candidates, current_size, max_size, 0);
    if i < end {
        assert forall|n: int| 0 <= n <= i implies current_size - #[trigger] freed(
            pins,
            candidates,
            n,
        ) > max_size && chosen(n, choice).len() < 100 by {}
    } else {
        assert(current_size - freed(pins, candidates, end) <= max_size || chosen(end, choice).len()
            >= 100);
    }
}

/// Candidates are gone through only while the cache is too large and there is room.
proof fn lemma_passed_while(
    pins: Seq<PinRuleRecord>,
    candidates: Seq<FileEntry>,
    current_size: int,
    max_size: int,
    n: int,
)
    requires
        0 <= n <= candidates.len(),
    ensures
        forall|k: int|
            n <= k < passed_from(pins, candidates, current_size, max_size, n) ==> current_size
                - #[trigger] freed(pins, candidates, k) > max_size && chosen(
                k,
                evictable(pins, candidates),
            ).len() < 100,
    decreases candidates.len() - n,
{
    if n < candidates.len() && current_size - freed(pins, candidates, n) > max_size && chosen(
        n,
        evictable(pins, candidates),
    ).len() < CANDIDATE_LIMIT {
        lemma_passed_while(pins, candidates, current_size, max_size, n + 1);
    }
}

/// Reading candidates makes room for the pinned files of the cache: a hundred where
/// none is pinned, and one more for each that is, as far as that can be counted.
pub proof fn law_pinned_files_take_no_candidates_place(
    pins: Seq<PinRuleRecord>,
    cached: Seq<FileEntry>,
    file: FileEntry,
)
    requires
        wanted(pins, cached) < usize::MAX,
    ensures
        wanted(pins, Seq::empty()) == 100,
        pin::pinned(pins, file.path@) ==> wanted(pins, cached.push(file)) == wanted(pins, cached)
            + 1,
        !pin::pinned(pins, file.path@) ==> wanted(pins, cached.push(file)) == wanted(
            pins,
            cached,
        ),
{
    let more = cached.push(file);
    let n = cached.len() as int;
    let before = |i: int| spared(pins, cached[i]);
    let after = |i: int| spared(pins, more[i]);
    lemma_same_choice(n, before, after);
    assert(after(n) == spared(pins, file));
}

/// Choices that agree below a place choose the same below it.
proof fn lemma_same_choice(n: int, a: spec_fn(int) -> bool, b: spec_fn(int) -> bool)
    requires
        forall|i: int| 0 <= i < n ==> #[trigger] a(i) == b(i),
    ensures
        chosen(n, a) == chosen(n, b),
    decreases n,
{
    if n > 0 {
        lemma_same_choice(n - 1, a, b);
        assert(a(n - 1) == b(n - 1));
    }
}

/// A stored total counts as it is, and as nothing where it is negative.
pub proof fn law_a_negative_total_counts_as_nothing(stored: i64)
    ensures
        stored >= 0 ==> total(stored) == stored,
        stored < 0 ==> total(stored) == 0,
{
}

/// The total of a report counts each kind of eviction once.
pub proof fn law_a_report_counts_every_eviction(
    lifecycle: usize,
    age: usize,
    size: usize,
    bytes: u64,
)
    ensures
        (EvictionReport {
            lifecycle_evicted: lifecycle,
            age_evicted: age,
            size_evicted: size,
            bytes_freed: bytes,
        }).total() == lifecycle + age + size,
{
}

/// Where no more is cached than the cache is said to hold, a size sweep always has an
/// answer.
pub proof fn law_an_honest_cache_is_swept(
    pins: Seq<PinRuleRecord>,
    candidates: Seq<FileEntry>,
    current_size: u64,
    max_size: u64,
)
    requires
        freed(pins, candidates, candidates.len() as int) <= current_size,
    ensures
        consistent(pins, candidates, current_size as int, max_size as int),
{
    let n = passed(pins, candidates, current_size as int, max_size as int);
    lemma_evicted_bounds(pins, candidates, current_size as int, max_size as int, 0);
    lemma_freed_grows(pins, candidates, n, candidates.len() as int);
}

/// A size sweep has no answer exactly where what it frees cannot be counted, or where it
/// stops short of the last candidate and of a hundred files with more freed than the
/// cache was said to hold.
pub proof fn law_when_sizes_do_not_add_up(
    pins: Seq<PinRuleRecord>,
    candidates: Seq<FileEntry>,
    current_size: int,
    max_size: int,
)
    ensures
        ({
            let n = passed(pins, candidates, current_size, max_size);
            let more = freed(pins, candidates, n);
            let full = evicted(pins, candidates, current_size, max_size).len() == 100;
            !consistent(pins, candidates, current_size, max_size) <==> more > u64::MAX || (n
                != candidates.len() && !full && more > current_size)
        }),
{
}

} // verus!
