//! Lifecycle policies: whether a cached file is to be evicted.

use vstd::prelude::*;

use crate::db::LifecyclePolicyRecord;
use crate::text;
use crate::types::FileEntry;

verus! {

/// Why a file is evicted.
#[derive(Debug, Clone, Copy, PartialEq, Eq, Structural)]
pub enum EvictionReason {
    /// The file was last used longer ago than a policy allows.
    MaxAge {
        /// The policy's age limit in seconds.
        max_age_secs: i64,
        /// The policy.
        policy_id: i64,
    },
    /// The file is larger than a policy allows.
    MaxSize {
        /// The policy's size limit in bytes.
        max_size: i64,
        /// The file's size in bytes.
        actual_size: u64,
        /// The policy.
        policy_id: i64,
    },
}

/// Whether a file is to be evicted.
#[derive(Debug, Clone, Copy, PartialEq, Eq, Structural)]
pub enum EvictionDecision {
    /// The file is to be evicted.
    Evict {
        /// Why.
        reason: EvictionReason,
    },
    /// The file stays.
    Keep,
}

/// Whether a pattern with single stars matches: what stands before the first
/// star begins the path, and what stands after the last one ends it.
pub open spec fn star_matches(pattern: Seq<char>, path: Seq<char>) -> bool {
    let parts = text::split_on(pattern, "*"@);
    if parts.len() == 1 {
        pattern == path
    } else {
        parts.first().is_prefix_of(path) && parts.last().is_suffix_of(path)
    }
}

/// Whether a policy pattern covers `path`. A pattern without a star covers the
/// path it names and everything below it; one `**` stands for anything between
/// its two sides.
pub open spec fn policy_covers(pattern: Seq<char>, path: Seq<char>) -> bool {
    let sides = text::split_on(pattern, "**"@);
    if sides.len() == 2 {
        sides[0].is_prefix_of(path) && sides[1].is_suffix_of(path)
    } else if text::contains(pattern, "*"@) {
        star_matches(pattern, path)
    } else {
        path == pattern || (pattern + seq!['/']).is_prefix_of(path)
    }
}

/// What a policy that covers a file says of it. A file that was last used longer
/// ago than the age limit goes for its age, else one that is larger than the size
/// limit for its size; a negative size limit never evicts.
pub open spec fn verdict(
    policy: LifecyclePolicyRecord,
    size: Option<u64>,
    age: int,
) -> EvictionDecision {
    match (policy.max_age, policy.max_file_size, size) {
        (Some(max_age_secs), _, _) if age > max_age_secs => EvictionDecision::Evict {
            reason: EvictionReason::MaxAge { max_age_secs, policy_id: policy.id },
        },
        (_, Some(max_size), Some(actual_size)) if 0 <= max_size < actual_size => {
            EvictionDecision::Evict {
                reason: EvictionReason::MaxSize { max_size, actual_size, policy_id: policy.id },
            }
        },
        _ => EvictionDecision::Keep,
    }
}

/// Whether policy `i` is the one that decides for `path`: it covers the path,
/// and every other one that does has a lower priority, or the same one and a
/// later place.
pub open spec fn decides(policies: Seq<LifecyclePolicyRecord>, path: Seq<char>, i: int) -> bool {
    &&& 0 <= i < policies.len()
    &&& policy_covers(policies[i].path_glob@, path)
    &&& forall|k: int|
        0 <= k < policies.len() && k != i && #[trigger] policy_covers(policies[k].path_glob@, path)
            ==> policies[k].priority < policies[i].priority || (policies[k].priority
            == policies[i].priority && k > i)
}

/// Whether no policy covers `path`.
pub open spec fn undecided(policies: Seq<LifecyclePolicyRecord>, path: Seq<char>) -> bool {
    forall|k: int|
        0 <= k < policies.len() ==> !#[trigger] policy_covers(policies[k].path_glob@, path)
}

/// The decision for a file of the given size at `path` that was last used `age`
/// seconds ago.
pub open spec fn decision(
    policies: Seq<LifecyclePolicyRecord>,
    size: Option<u64>,
    path: Seq<char>,
    age: int,
) -> EvictionDecision {
    if undecided(policies, path) {
        EvictionDecision::Keep
    } else {
        verdict(policies[choose|i: int| decides(policies, path, i)], size, age)
    }
}

/// At most one policy decides for a path.
pub proof fn law_one_policy_decides(
    policies: Seq<LifecyclePolicyRecord>,
    path: Seq<char>,
    i: int,
    j: int,
)
    requires
        decides(policies, path, i),
        decides(policies, path, j),
    ensures
        i == j,
{
}

/// Where some policy covers a path, one decides for it.
pub proof fn law_some_policy_decides(policies: Seq<LifecyclePolicyRecord>, path: Seq<char>)
    requires
        !undecided(policies, path),
    ensures
        exists|i: int| decides(policies, path, i),
    decreases policies.len(),
{
    let n = policies.len() - 1;
    let fewer = policies.drop_last();
    let last = policy_covers(policies[n].path_glob@, path);
    assert(forall|k: int| 0 <= k < n ==> fewer[k] == policies[k]);
    if undecided(fewer, path) {
        assert forall|k: int| 0 <= k < n implies !#[trigger] policy_covers(
            policies[k].path_glob@,
            path,
        ) by {
            assert(!policy_covers(fewer[k].path_glob@, path));
        }
        assert(decides(policies, path, n));
    } else {
        law_some_policy_decides(fewer, path);
        let i = choose|i: int| decides(fewer, path, i);
        assert forall|k: int|
            0 <= k < n && k != i && #[trigger] policy_covers(
                policies[k].path_glob@,
                path,
            ) implies policies[k].priority < policies[i].priority || (policies[k].priority
            == policies[i].priority && k > i) by {
            assert(policy_covers(fewer[k].path_glob@, path));
        }
        if last && policies[n].priority > policies[i].priority {
            assert(decides(policies, path, n));
        } else {
            assert(decides(policies, path, i));
        }
    }
}

/// The policy that decides for a path has the last word on every file there.
pub proof fn law_the_deciding_policy_has_the_last_word(
    policies: Seq<LifecyclePolicyRecord>,
    size: Option<u64>,
    path: Seq<char>,
    age: int,
    i: int,
)
    requires
        decides(policies, path, i),
    ensures
        decision(policies, size, path, age) == verdict(policies[i], size, age),
{
    assert(!undecided(policies, path));
    let chosen = choose|k: int| decides(policies, path, k);
    law_one_policy_decides(policies, path, i, chosen);
}

/// A path that no policy covers is kept.
pub proof fn law_uncovered_files_are_kept(
    policies: Seq<LifecyclePolicyRecord>,
    size: Option<u64>,
    path: Seq<char>,
    age: int,
)
    requires
        undecided(policies, path),
    ensures
        decision(policies, size, path, age) == EvictionDecision::Keep,
{
}

/// A file goes for its age only where it was last used longer ago than the limit
/// of a policy that covers it.
pub proof fn law_a_recently_used_file_does_not_go_for_its_age(
    policies: Seq<LifecyclePolicyRecord>,
    size: Option<u64>,
    path: Seq<char>,
    age: int,
)
    ensures
        decision(policies, size, path, age) matches EvictionDecision::Evict {
            reason: EvictionReason::MaxAge { max_age_secs, policy_id },
        } ==> age > max_age_secs && exists|i: int| #[trigger]
            decides(policies, path, i) && policies[i].id == policy_id && policies[i].max_age
                == Some(max_age_secs),
{
    if !undecided(policies, path) {
        law_some_policy_decides(policies, path);
        let i = choose|i: int| decides(policies, path, i);
        assert(decides(policies, path, i));
    }
}

/// A snapshot of the lifecycle policies, by which files are judged.
#[derive(Debug)]
pub struct LifecycleEvaluator {
    policies: Vec<LifecyclePolicyRecord>,
}

impl View for LifecycleEvaluator {
    type V = Seq<LifecyclePolicyRecord>;

    closed spec fn view(&self) -> Seq<LifecyclePolicyRecord> {
        self.policies@
    }
}

impl LifecycleEvaluator {
    /// An evaluator over these policies.
    pub fn from_policies(policies: Vec<LifecyclePolicyRecord>) -> (r: LifecycleEvaluator)
        ensures
            r@ == policies@,
    {
        LifecycleEvaluator { policies }
    }

    /// The policies.
    pub fn policies(&self) -> (r: &Vec<LifecyclePolicyRecord>)
        ensures
            r@ == self@,
    {
        &self.policies
    }

    /// Whether a file at `path`, last used at the second `last_access`, is to be
    /// evicted at the second `now`. Of the policies that cover the path the one
    /// with the highest priority decides; without one the file stays.
    pub fn should_evict(&self, file: &FileEntry, path: &str, last_access: i64, now: i64) -> (r:
        EvictionDecision)
        ensures
            r == decision(self@, file.size, path@, now - last_access),
    {
        let mut best: Option<usize> = None;
        let mut i: usize = 0;
        while i < self.policies.len()
            invariant
                i <= self.policies@.len(),
                match best {
                    None => undecided(self.policies@.take(i as int), path@),
                    Some(b) => decides(self.policies@.take(i as int), path@, b as int),
                },
            decreases self.policies@.len() - i,
        {
            let ghost seen = self.policies@.take(i as int);
            let ghost more = self.policies@.take(i + 1);
            assert(forall|k: int| 0 <= k < i ==> more[k] == seen[k]);
            assert(more[i as int] == self.policies@[i as int]);
            if path_matches_policy(self.policies[i].path_glob.as_str(), path) {
                best = match best {
                    Some(b) if self.policies[b].priority >= self.policies[i].priority => Some(b),
                    _ => Some(i),
                };
            }
            i += 1;
        }
        assert(self.policies@.take(i as int) == self.policies@);
        match best {
            None => EvictionDecision::Keep,
            Some(b) => {
                proof {
                    law_the_deciding_policy_has_the_last_word(
                        self@,
                        file.size,
                        path@,
                        now - last_access,
                        b as int,
                    );
                }
                let policy: &LifecyclePolicyRecord = &self.policies[b];
                if let Some(max_age_secs) = policy.max_age {
                    if now as i128 - last_access as i128 > max_age_secs as i128 {
                        return EvictionDecision::Evict {
                            reason: EvictionReason::MaxAge { max_age_secs, policy_id: policy.id },
                        };
                    }
                }
                if let Some(max_size) = policy.max_file_size {
                    if let Some(actual_size) = file.size {
                        if max_size >= 0 && actual_size > max_size as u64 {
                            return EvictionDecision::Evict {
                                reason: EvictionReason::MaxSize {
                                    max_size,
                                    actual_size,
                                    policy_id: policy.id,
                                },
                            };
                        }
                    }
                }
                EvictionDecision::Keep
            },
        }
    }
}

/// Whether a policy pattern covers `path`.
pub fn path_matches_policy(pattern: &str, path: &str) -> (r: bool)
    ensures
        r == policy_covers(pattern@, path@),
{
    proof {
        reveal_strlit("*");
        reveal_strlit("**");
    }
    let p: Vec<char> = text::chars_of(pattern);
    let s: Vec<char> = text::chars_of(path);
    let double: Vec<char> = text::chars_of("**");
    let single: Vec<char> = text::chars_of("*");
    let sides: Vec<Vec<char>> = text::split(p.as_slice(), double.as_slice());
    if sides.len() == 2 {
        return text::starts_with(s.as_slice(), sides[0].as_slice()) && text::ends_with(
            s.as_slice(),
            sides[1].as_slice(),
        );
    }
    if text::find(p.as_slice(), single.as_slice(), 0).is_some() {
        return simple_star_match(pattern, path);
    }
    if text::str_eq(path, pattern) {
        return true;
    }
    let mut base: Vec<char> = p;
    base.push('/');
    assert(base@ == pattern@ + seq!['/']);
    text::starts_with(s.as_slice(), base.as_slice())
}

/// Whether a pattern with single stars matches: what stands before the first
/// star begins the path, and what stands after the last one ends it.
pub fn simple_star_match(pattern: &str, path: &str) -> (r: bool)
    ensures
        r == star_matches(pattern@, path@),
{
    proof {
        reveal_strlit("*");
    }
    let p: Vec<char> = text::chars_of(pattern);
    let s: Vec<char> = text::chars_of(path);
    let single: Vec<char> = text::chars_of("*");
    let parts: Vec<Vec<char>> = text::split(p.as_slice(), single.as_slice());
    if parts.len() == 1 {
        return text::str_eq(pattern, path);
    }
    text::starts_with(s.as_slice(), parts[0].as_slice()) && text::ends_with(
        s.as_slice(),
        parts[parts.len() - 1].as_slice(),
    )
}

/// The text from one place on up to the first `*` is the first piece of a pattern,
/// and what follows its last `*` is the last.
proof fn lemma_pieces_at_the_ends(pattern: Seq<char>, start: int, last: int)
    requires
        0 <= start <= last < pattern.len(),
        pattern[last] == '*',
        forall|i: int| last < i < pattern.len() ==> pattern[i] != '*',
    ensures
        ({
            let pieces = text::split_from(pattern, seq!['*'], start);
            &&& pieces.len() >= 2
            &&& pieces.last() == pattern.skip(last + 1)
            &&& forall|first: int|
                start <= first <= last && pattern[first] == '*' && (forall|i: int|
                    start <= i < first ==> pattern[i] != '*') ==> pieces[0]
                    == #[trigger] pattern.subrange(start, first)
        }),
    decreases pattern.len() - start,
{
    let pat = seq!['*'];
    text::lemma_find_from(pattern, pat, start);
    assert forall|j: int|
        0 <= j < pattern.len() && pattern[j] == '*' implies #[trigger] text::occurs_at(
        pattern,
        pat,
        j,
    ) by {
        assert(pattern.subrange(j, j + 1) == pat);
    }
    assert(text::occurs_at(pattern, pat, last));
    let k = text::find_from(pattern, pat, start)->0;
    assert(pattern.subrange(k, k + 1)[0] == '*');
    assert(pattern[k] == '*');
    let rest = text::split_from(pattern, pat, k + 1);
    let pieces = text::split_from(pattern, pat, start);
    assert(pieces == seq![pattern.subrange(start, k)] + rest);
    if k < last {
        lemma_pieces_at_the_ends(pattern, k + 1, last);
    } else {
        text::lemma_find_from(pattern, pat, k + 1);
        if let Some(j) = text::find_from(pattern, pat, k + 1) {
            assert(pattern.subrange(j, j + 1)[0] == '*');
        }
        assert(rest == seq![pattern.skip(k + 1)]);
    }
    assert(pieces.last() == rest.last());
    assert forall|first: int|
        start <= first <= last && pattern[first] == '*' && (forall|i: int|
            start <= i < first ==> pattern[i] != '*') implies pieces[0]
        == #[trigger] pattern.subrange(start, first) by {
        assert(text::occurs_at(pattern, pat, first));
        if k < first {
            assert(pattern[k] != '*');
        }
    }
}

/// A pattern with single stars matches exactly the paths that begin with what
/// stands before its first star and end with what stands after its last one.
pub proof fn law_stars_leave_the_ends_of_a_pattern(
    pattern: Seq<char>,
    first: int,
    last: int,
    path: Seq<char>,
)
    requires
        0 <= first <= last < pattern.len(),
        pattern[first] == '*' && pattern[last] == '*',
        forall|i: int| 0 <= i < first || last < i < pattern.len() ==> pattern[i] != '*',
    ensures
        star_matches(pattern, path) <==> pattern.take(first).is_prefix_of(path) && pattern.skip(
            last + 1,
        ).is_suffix_of(path),
{
    reveal_strlit("*");
    assert("*"@ == seq!['*']);
    lemma_pieces_at_the_ends(pattern, 0, last);
    assert(pattern.subrange(0, first) == pattern.take(first));
}

/// A policy on `a*b`, where neither side holds a star, covers exactly the paths
/// that begin with `a` and end with `b`.
pub proof fn law_a_star_policy_covers_between_its_sides(
    a: Seq<char>,
    b: Seq<char>,
    path: Seq<char>,
)
    requires
        !a.contains('*'),
        !b.contains('*'),
    ensures
        policy_covers(a + seq!['*'] + b, path) <==> a.is_prefix_of(path) && b.is_suffix_of(path),
{
    let pattern = a + seq!['*'] + b;
    let n = a.len() as int;
    reveal_strlit("*");
    reveal_strlit("**");
    assert("*"@ == seq!['*']);
    assert("**"@ == seq!['*', '*']);
    assert forall|i: int| 0 <= i < pattern.len() && i != n implies pattern[i] != '*' by {
        if i < n {
            assert(a[i] == pattern[i]);
        } else {
            assert(b[i - n - 1] == pattern[i]);
        }
    }
    assert(pattern[n] == '*');
    text::lemma_find_from(pattern, "**"@, 0);
    if let Some(k) = text::find_from(pattern, "**"@, 0) {
        assert(pattern.subrange(k, k + 2)[0] == pattern[k]);
        assert(pattern.subrange(k, k + 2)[1] == pattern[k + 1]);
    }
    assert(text::split_on(pattern, "**"@).len() == 1);
    text::lemma_find_from(pattern, "*"@, 0);
    assert(pattern.subrange(n, n + 1) == seq!['*']);
    assert(text::occurs_at(pattern, "*"@, n));
    law_stars_leave_the_ends_of_a_pattern(pattern, n, n, path);
    assert(pattern.take(n) == a);
    assert(pattern.skip(n + 1) == b);
}

/// A policy on `a**b`, where neither side holds a star, covers exactly the paths
/// that begin with `a` and end with `b`.
pub proof fn law_a_double_star_policy_covers_between_its_sides(
    a: Seq<char>,
    b: Seq<char>,
    path: Seq<char>,
)
    requires
        !a.contains('*'),
        !b.contains('*'),
    ensures
        policy_covers(a + seq!['*', '*'] + b, path) <==> a.is_prefix_of(path) && b.is_suffix_of(
            path,
        ),
{
    let pattern = a + seq!['*', '*'] + b;
    let n = a.len() as int;
    reveal_strlit("**");
    let pat = "**"@;
    assert(pat == seq!['*', '*']);
    assert forall|i: int| 0 <= i < pattern.len() && i != n && i != n + 1 implies pattern[i]
        != '*' by {
        if i < n {
            assert(a[i] == pattern[i]);
        } else {
            assert(b[i - n - 2] == pattern[i]);
        }
    }
    assert(pattern.subrange(n, n + 2) == pat);
    assert(text::occurs_at(pattern, pat, n));
    text::lemma_find_from(pattern, pat, 0);
    let k = text::find_from(pattern, pat, 0)->0;
    assert(pattern.subrange(k, k + 2)[0] == pattern[k]);
    assert(pattern.subrange(k, k + 2)[1] == pattern[k + 1]);
    assert(k == n);
    text::lemma_find_from(pattern, pat, n + 2);
    if let Some(j) = text::find_from(pattern, pat, n + 2) {
        assert(pattern.subrange(j, j + 2)[0] == pattern[j]);
    }
    let sides = text::split_on(pattern, pat);
    assert(text::split_from(pattern, pat, n + 2) == seq![pattern.skip(n + 2)]);
    assert(sides == seq![pattern.subrange(0, n)] + seq![pattern.skip(n + 2)]);
    assert(sides[0] == a);
    assert(sides[1] == b);
}

/// A policy on a path without a star covers that path and everything below it, and
/// nothing else.
pub proof fn law_a_plain_policy_covers_a_directory(pattern: Seq<char>, path: Seq<char>)
    requires
        !pattern.contains('*'),
    ensures
        policy_covers(pattern, path) <==> path == pattern || exists|rest: Seq<char>|
            path == #[trigger] (pattern + seq!['/'] + rest),
{
    reveal_strlit("*");
    reveal_strlit("**");
    text::lemma_find_from(pattern, "**"@, 0);
    if let Some(k) = text::find_from(pattern, "**"@, 0) {
        assert(pattern.subrange(k, k + 2)[0] == pattern[k]);
    }
    assert(text::split_on(pattern, "**"@).len() == 1);
    text::lemma_find_from(pattern, "*"@, 0);
    if let Some(k) = text::find_from(pattern, "*"@, 0) {
        assert(pattern.subrange(k, k + 1)[0] == pattern[k]);
    }
    let base = pattern + seq!['/'];
    if base.is_prefix_of(path) {
        assert(path == base + path.skip(base.len() as int));
    }
    assert forall|rest: Seq<char>| path == #[trigger] (base + rest) implies base.is_prefix_of(
        path,
    ) by {
        assert(path.subrange(0, base.len() as int) == base);
    }
}

/// A file goes exactly where it exceeds a limit of the policy that decides for it,
/// the covering one of the highest priority and of those the first: for its age
/// where it was last used longer ago than the age limit, and else for its size
/// where it is larger than a size limit that is not negative.
pub proof fn law_a_file_goes_exactly_where_a_limit_is_exceeded(
    policies: Seq<LifecyclePolicyRecord>,
    size: Option<u64>,
    path: Seq<char>,
    age: int,
    i: int,
)
    requires
        0 <= i < policies.len(),
        policy_covers(policies[i].path_glob@, path),
        forall|k: int|
            0 <= k < policies.len() && #[trigger] policy_covers(policies[k].path_glob@, path)
                ==> policies[k].priority <= policies[i].priority,
        forall|k: int|
            0 <= k < i && #[trigger] policy_covers(policies[k].path_glob@, path)
                ==> policies[k].priority < policies[i].priority,
    ensures
        ({
            let old = policies[i].max_age matches Some(limit) && age > limit;
            let large = policies[i].max_file_size matches Some(limit) && limit >= 0 && (
            size matches Some(actual) && actual > limit);
            let outcome = decision(policies, size, path, age);
            &&& outcome is Keep <==> !old && !large
            &&& old ==> outcome == (EvictionDecision::Evict {
                reason: EvictionReason::MaxAge {
                    max_age_secs: policies[i].max_age->0,
                    policy_id: policies[i].id,
                },
            })
            &&& large && !old ==> outcome == (EvictionDecision::Evict {
                reason: EvictionReason::MaxSize {
                    max_size: policies[i].max_file_size->0,
                    actual_size: size->0,
                    policy_id: policies[i].id,
                },
            })
        }),
{
    assert(decides(policies, path, i));
    law_the_deciding_policy_has_the_last_word(policies, size, path, age, i);
}

} // verus!
