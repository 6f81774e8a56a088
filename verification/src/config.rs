//! Ignore rules: the resolved config of each directory, and whether a file is
//! filtered out by it.

use vstd::prelude::*;

use crate::glob;
use crate::glob::DoubleStar;
use crate::path;
use crate::text;

verus! {

/// One ignore rule of a resolved config.
#[derive(Debug)]
pub struct IgnoreRule {
    /// The glob that names match.
    pub pattern: String,
    /// Whether the rule takes a name back in.
    pub negated: bool,
    /// Whether the rule is marked as one on directories.
    pub dir_only: bool,
    /// The expressions that must all hold for the rule to apply.
    pub conditions: Vec<String>,
}

/// The config that holds in a directory.
#[derive(Debug)]
pub struct ResolvedConfig {
    /// The ignore rules, outermost first.
    pub ignores: Vec<IgnoreRule>,
}

/// What the evaluation of one condition came to.
#[derive(Debug, Clone, Copy, PartialEq, Eq, Structural)]
pub enum Condition {
    /// The expression holds.
    Holds,
    /// The expression does not hold.
    Fails,
    /// The expression could not be parsed.
    Malformed,
}

/// Whether a rule's conditions let it apply. Without conditions they do; one that
/// could not be parsed does not hold.
pub open spec fn met(conditions: Seq<Condition>) -> bool {
    forall|i: int| 0 <= i < conditions.len() ==> #[trigger] conditions[i] == Condition::Holds
}

/// Whether a name matches an ignore pattern. A pattern without a star also
/// matches a path that ends in it.
pub open spec fn name_matches(pattern: Seq<char>, path: Seq<char>) -> bool {
    if pattern.contains('*') {
        glob::matches(DoubleStar::Run, pattern, path)
    } else {
        pattern == path || (seq!['/'] + pattern).is_suffix_of(path)
    }
}

/// Whether a rule speaks of an entry.
pub open spec fn applies(
    rule: IgnoreRule,
    conditions: Seq<Condition>,
    name: Seq<char>,
    is_dir: bool,
) -> bool {
    &&& met(conditions)
    &&& !is_dir || !rule.dir_only
    &&& name_matches(rule.pattern@, name)
}

/// Whether an entry is ignored: the last rule that speaks of it says so.
pub open spec fn ignored(
    rules: Seq<IgnoreRule>,
    conditions: Seq<Vec<Condition>>,
    name: Seq<char>,
    is_dir: bool,
) -> bool
    decreases rules.len(),
{
    if rules.len() == 0 {
        false
    } else {
        let n = rules.len() - 1;
        if applies(rules[n], conditions[n]@, name, is_dir) {
            !rules[n].negated
        } else {
            ignored(rules.drop_last(), conditions, name, is_dir)
        }
    }
}

/// The config cached for a directory: that of the first entry for it.
pub open spec fn entry_for(
    cache: Seq<(Seq<Seq<char>>, ResolvedConfig)>,
    dir: Seq<Seq<char>>,
) -> Option<ResolvedConfig>
    decreases cache.len(),
{
    if cache.len() == 0 {
        None
    } else if cache[0].0 == dir {
        Some(cache[0].1)
    } else {
        entry_for(cache.skip(1), dir)
    }
}

/// The directory whose config holds for a file.
pub open spec fn dir_of(file_path: Seq<char>) -> Seq<Seq<char>> {
    path::directory(path::components(file_path))
}

/// The name by which a file is held against ignore rules.
pub open spec fn name_of(file_path: Seq<char>) -> Seq<char> {
    path::name(path::components(file_path))
}

/// The config that holds for an entry is that of the directory it lies in, and its name
/// is what is held against the rules there.
pub proof fn law_an_entry_is_judged_in_its_directory(dir: Seq<char>, name: Seq<char>)
    requires
        dir.len() > 0,
        name.len() > 0,
        !name.contains('/'),
        name != seq!['.'],
        name != seq!['.', '.'],
    ensures
        dir_of(dir + seq!['/'] + name) == path::components(dir),
        name_of(dir + seq!['/'] + name) == name,
{
    path::law_a_further_segment_is_a_component(dir, name);
    if name == seq!['/'] {
        assert(name[0] == '/');
    }
    path::law_an_entry_lies_in_its_directory(path::components(dir), name, Seq::empty());
}

/// A cached config.
#[derive(Debug)]
struct CachedConfig {
    dir: Vec<Vec<char>>,
    config: ResolvedConfig,
}

/// The entries of a cache.
spec fn entries(cache: Seq<CachedConfig>) -> Seq<(Seq<Seq<char>>, ResolvedConfig)> {
    cache.map_values(|c: CachedConfig| (text::seqs(c.dir@), c.config))
}

/// The resolved configs of the directories below a mount root. Each is kept from
/// the first time it is needed until it is invalidated.
#[derive(Debug)]
pub struct ConfigResolver {
    mount_root: String,
    cache: Vec<CachedConfig>,
}

impl ConfigResolver {
    /// Where the directory walk begins.
    pub closed spec fn spec_mount_root(self) -> Seq<char> {
        self.mount_root@
    }

    /// The cached configs, each with the components of its directory.
    pub closed spec fn cached(self) -> Seq<(Seq<Seq<char>>, ResolvedConfig)> {
        entries(self.cache@)
    }

    /// A resolver that has resolved nothing yet.
    pub fn new(mount_root: String) -> (r: ConfigResolver)
        ensures
            r.spec_mount_root() == mount_root@,
            r.cached() == Seq::<(Seq<Seq<char>>, ResolvedConfig)>::empty(),
    {
        let r = ConfigResolver { mount_root, cache: Vec::new() };
        assert(r.cached() =~= Seq::<(Seq<Seq<char>>, ResolvedConfig)>::empty());
        r
    }

    /// Where the directory walk begins.
    pub fn mount_root(&self) -> (r: &str)
        ensures
            r@ == self.spec_mount_root(),
    {
        self.mount_root.as_str()
    }

    /// How many configs are cached.
    pub fn cached_len(&self) -> (r: usize)
        ensures
            r == self.cached().len(),
    {
        self.cache.len()
    }

    /// The config cached for a directory.
    fn lookup(&self, dir: &Vec<Vec<char>>) -> (r: Option<&ResolvedConfig>)
        ensures
            match r {
                Some(config) => entry_for(self.cached(), text::seqs(dir@)) == Some(*config),
                None => entry_for(self.cached(), text::seqs(dir@)) is None,
            },
    {
        let ghost all = self.cached();
        let mut i: usize = 0;
        assert(all.skip(0) == all);
        while i < self.cache.len()
            invariant
                i <= self.cache@.len(),
                all == entries(self.cache@),
                entry_for(all, text::seqs(dir@)) == entry_for(
                    all.skip(i as int),
                    text::seqs(dir@),
                ),
            decreases self.cache@.len() - i,
        {
            assert(all.skip(i as int)[0] == all[i as int]);
            assert(all.skip(i as int).skip(1) == all.skip(i + 1));
            if path::same(&self.cache[i].dir, dir) {
                return Some(&self.cache[i].config);
            }
            i += 1;
        }
        assert(all.skip(i as int).len() == 0);
        None
    }

    /// The config of the directory that the entry at `file_path` lies in, where
    /// it is cached.
    pub fn config_for(&self, file_path: &str) -> (r: Option<&ResolvedConfig>)
        ensures
            match r {
                Some(config) => entry_for(
                    self.cached(),
                    dir_of(file_path@),
                ) == Some(*config),
                None => entry_for(
                    self.cached(),
                    dir_of(file_path@),
                ) is None,
            },
    {
        let parts: Vec<Vec<char>> = path::parse(file_path);
        let dir: Vec<Vec<char>> = path::parent_dir(&parts);
        self.lookup(&dir)
    }

    /// Settles the config of the directory that the entry at `file_path` lies in:
    /// one that is cached stays, else `walked`, what the directory walk found, is
    /// cached.
    pub fn resolve_for_dir(&mut self, file_path: &str, walked: ResolvedConfig)
        ensures
            final(self).spec_mount_root() == old(self).spec_mount_root(),
            ({
                let dir = dir_of(file_path@);
                final(self).cached() == (if entry_for(old(self).cached(), dir) is Some {
                    old(self).cached()
                } else {
                    old(self).cached().push((dir, walked))
                })
            }),
    {
        let parts: Vec<Vec<char>> = path::parse(file_path);
        let dir: Vec<Vec<char>> = path::parent_dir(&parts);
        if self.lookup(&dir).is_some() {
            return;
        }
        let ghost before = self.cache@;
        self.cache.push(CachedConfig { dir, config: walked });
        assert(entries(self.cache@) =~= entries(before).push((text::seqs(dir@), walked)));
    }

    /// Whether the entry at `file_path` is ignored, given what the conditions of
    /// each rule came to. There is no answer while the config of its directory is
    /// not cached.
    pub fn is_ignored_with_context(
        &self,
        file_path: &str,
        is_dir: bool,
        conditions: &Vec<Vec<Condition>>,
    ) -> (r: Option<bool>)
        requires
            entry_for(self.cached(), dir_of(file_path@)) matches Some(
                config,
            ) ==> conditions@.len() == config.ignores@.len(),
        ensures
            match entry_for(self.cached(), dir_of(file_path@)) {
                Some(config) => r == Some(
                    ignored(
                        config.ignores@,
                        conditions@,
                        name_of(file_path@),
                        is_dir,
                    ),
                ),
                None => r is None,
            },
    {
        let parts: Vec<Vec<char>> = path::parse(file_path);
        let dir: Vec<Vec<char>> = path::parent_dir(&parts);
        let config: &ResolvedConfig = match self.lookup(&dir) {
            Some(config) => config,
            None => {
                return None;
            },
        };
        let name: String = path::file_name(&parts);
        let mut answer: bool = false;
        let mut i: usize = 0;
        assert(config.ignores@.take(0) == Seq::<IgnoreRule>::empty());
        while i < config.ignores.len()
            invariant
                i <= config.ignores@.len() == conditions@.len(),
                answer == ignored(config.ignores@.take(i as int), conditions@, name@, is_dir),
            decreases config.ignores@.len() - i,
        {
            let rule: &IgnoreRule = &config.ignores[i];
            proof {
                let seen = config.ignores@.take(i + 1);
                assert(seen.drop_last() == config.ignores@.take(i as int));
                assert(seen[i as int] == *rule);
            }
            if all_hold(&conditions[i]) && (!is_dir || !rule.dir_only) && glob_match(
                rule.pattern.as_str(),
                name.as_str(),
            ) {
                answer = !rule.negated;
            }
            i += 1;
        }
        assert(config.ignores@.take(i as int) == config.ignores@);
        Some(answer)
    }

    /// Drops the cached configs of a directory and of everything below it.
    pub fn invalidate(&mut self, dir: &str)
        ensures
            final(self).spec_mount_root() == old(self).spec_mount_root(),
            final(self).cached() == kept(old(self).cached(), path::components(dir@)),
    {
        let base: Vec<Vec<char>> = path::parse(dir);
        let ghost all = self.cached();
        let mut left: Vec<CachedConfig> = Vec::new();
        let mut rest: Vec<CachedConfig> = Vec::new();
        std::mem::swap(&mut rest, &mut self.cache);
        assert(all == entries(rest@));
        assert(entries(left@) =~= Seq::<(Seq<Seq<char>>, ResolvedConfig)>::empty());
        assert(kept(all, text::seqs(base@)) =~= kept(all, text::seqs(base@)) + entries(left@));
        // Entries are taken from the end; `left` holds those kept, last first.
        while rest.len() > 0
            invariant
                text::seqs(base@) == path::components(dir@),
                kept(all, path::components(dir@)) == kept(
                    entries(rest@),
                    path::components(dir@),
                ) + entries(left@).reverse(),
            decreases rest@.len(),
        {
            let ghost before = rest@;
            let ghost held = left@;
            let last: Option<CachedConfig> = rest.pop();
            assert(entries(before).drop_last() =~= entries(rest@));
            if let Some(entry) = last {
                assert(entries(before).last() == (text::seqs(entry.dir@), entry.config));
                if !path::lies_within(&base, &entry.dir) {
                    left.push(entry);
                    assert(entries(left@) =~= entries(held).push(
                        (text::seqs(entry.dir@), entry.config),
                    ));
                    assert(kept(entries(before), path::components(dir@)) + entries(held).reverse()
                        =~= kept(entries(rest@), path::components(dir@)) + entries(
                        left@,
                    ).reverse());
                }
            }
        }
        assert(kept(entries(rest@), path::components(dir@)) =~= Seq::<
            (Seq<Seq<char>>, ResolvedConfig),
        >::empty());
        assert(kept(all, path::components(dir@)) =~= entries(left@).reverse());
        while left.len() > 0
            invariant
                kept(all, path::components(dir@)) == entries(self.cache@) + entries(
                    left@,
                ).reverse(),
                self.spec_mount_root() == old(self).spec_mount_root(),
            decreases left@.len(),
        {
            let ghost before = left@;
            let ghost held = self.cache@;
            let last: Option<CachedConfig> = left.pop();
            if let Some(entry) = last {
                let ghost pair = (text::seqs(entry.dir@), entry.config);
                assert(entries(before) =~= entries(left@).push(pair));
                self.cache.push(entry);
                assert(entries(self.cache@) =~= entries(held).push(pair));
                assert(entries(held) + entries(before).reverse() =~= entries(self.cache@) + entries(
                    left@,
                ).reverse());
            }
        }
        assert(entries(self.cache@) =~= kept(all, path::components(dir@)));
    }
}

/// The cached configs that stay when those of `dir` and below are dropped.
pub open spec fn kept(
    cache: Seq<(Seq<Seq<char>>, ResolvedConfig)>,
    dir: Seq<Seq<char>>,
) -> Seq<(Seq<Seq<char>>, ResolvedConfig)>
    decreases cache.len(),
{
    if cache.len() == 0 {
        Seq::empty()
    } else {
        let before = kept(cache.drop_last(), dir);
        if path::within(dir, cache.last().0) {
            before
        } else {
            before.push(cache.last())
        }
    }
}

/// Whether every condition holds.
fn all_hold(conditions: &Vec<Condition>) -> (r: bool)
    ensures
        r == met(conditions@),
{
    let mut i: usize = 0;
    while i < conditions.len()
        invariant
            i <= conditions@.len(),
            forall|k: int| 0 <= k < i ==> #[trigger] conditions@[k] == Condition::Holds,
        decreases conditions@.len() - i,
    {
        if conditions[i] != Condition::Holds {
            return false;
        }
        i += 1;
    }
    true
}

/// Whether a name matches an ignore pattern.
pub fn glob_match(pattern: &str, path: &str) -> (r: bool)
    ensures
        r == name_matches(pattern@, path@),
{
    if text::has_char(pattern, '*') {
        return star_match(pattern, path);
    }
    if text::str_eq(pattern, path) {
        return true;
    }
    let mut ending: Vec<char> = vec!['/'];
    let mut tail: Vec<char> = text::chars_of(pattern);
    ending.append(&mut tail);
    assert(ending@ =~= seq!['/'] + pattern@);
    let chars: Vec<char> = text::chars_of(path);
    text::ends_with(chars.as_slice(), ending.as_slice())
}

/// Whether a pattern with wildcards matches all of `path`.
pub fn star_match(pattern: &str, path: &str) -> (r: bool)
    ensures
        r == glob::matches(DoubleStar::Run, pattern@, path@),
{
    glob::glob(DoubleStar::Run, pattern, path)
}

/// What is looked up after a directory is settled: the config that was cached, or
/// the one just walked.
pub proof fn law_a_settled_config_is_found(
    cache: Seq<(Seq<Seq<char>>, ResolvedConfig)>,
    dir: Seq<Seq<char>>,
    walked: ResolvedConfig,
)
    requires
        entry_for(cache, dir) is None,
    ensures
        entry_for(cache.push((dir, walked)), dir) == Some(walked),
        forall|other: Seq<Seq<char>>|
            other != dir ==> entry_for(cache.push((dir, walked)), other) == #[trigger] entry_for(
                cache,
                other,
            ),
{
    lemma_entry_of_pushed(cache, (dir, walked), dir);
    assert forall|other: Seq<Seq<char>>| other != dir implies entry_for(
        cache.push((dir, walked)),
        other,
    ) == #[trigger] entry_for(cache, other) by {
        lemma_entry_of_pushed(cache, (dir, walked), other);
    }
}

/// Invalidating a directory forgets its config and those of everything below it,
/// and no other.
pub proof fn law_invalidating_forgets_a_directory_and_what_lies_below(
    cache: Seq<(Seq<Seq<char>>, ResolvedConfig)>,
    dir: Seq<Seq<char>>,
    other: Seq<Seq<char>>,
)
    ensures
        path::within(dir, other) ==> entry_for(kept(cache, dir), other) is None,
        !path::within(dir, other) ==> entry_for(kept(cache, dir), other) == entry_for(cache, other),
    decreases cache.len(),
{
    if cache.len() > 0 {
        let fewer = cache.drop_last();
        law_invalidating_forgets_a_directory_and_what_lies_below(fewer, dir, other);
        lemma_entry_of_pushed(fewer, cache.last(), other);
        assert(fewer.push(cache.last()) == cache);
        lemma_entry_of_pushed(kept(fewer, dir), cache.last(), other);
    }
}

/// The last entry of a cache counts only where no other is for the directory.
proof fn lemma_entry_of_pushed(
    cache: Seq<(Seq<Seq<char>>, ResolvedConfig)>,
    entry: (Seq<Seq<char>>, ResolvedConfig),
    dir: Seq<Seq<char>>,
)
    ensures
        entry_for(cache.push(entry), dir) == (match entry_for(cache, dir) {
            Some(config) => Some(config),
            None => if entry.0 == dir {
                Some(entry.1)
            } else {
                None
            },
        }),
    decreases cache.len(),
{
    let more = cache.push(entry);
    if cache.len() > 0 {
        lemma_entry_of_pushed(cache.skip(1), entry, dir);
        assert(more.skip(1) == cache.skip(1).push(entry));
        assert(more[0] == cache[0]);
    } else {
        assert(more.skip(1) == cache);
        assert(entry_for(more.skip(1), dir) is None);
    }
}

/// The last rule that speaks of an entry has the last word: a later rule that does
/// not apply changes nothing, one that does decides.
pub proof fn law_the_last_rule_wins(
    rules: Seq<IgnoreRule>,
    rule: IgnoreRule,
    conditions: Seq<Vec<Condition>>,
    name: Seq<char>,
    is_dir: bool,
)
    ensures
        ignored(rules.push(rule), conditions, name, is_dir) == (if applies(
            rule,
            conditions[rules.len() as int]@,
            name,
            is_dir,
        ) {
            !rule.negated
        } else {
            ignored(rules, conditions, name, is_dir)
        }),
{
    assert(rules.push(rule).drop_last() == rules);
}

/// A rule speaks of an entry exactly where all of its conditions hold, it is not a
/// directory rule asked of a directory, and its pattern matches the name.
pub proof fn law_when_a_rule_speaks_of_an_entry(
    rule: IgnoreRule,
    conditions: Seq<Condition>,
    name: Seq<char>,
    is_dir: bool,
    i: int,
)
    requires
        0 <= i < conditions.len(),
    ensures
        applies(rule, conditions, name, is_dir) ==> conditions[i] is Holds,
        applies(rule, conditions, name, is_dir) ==> name_matches(rule.pattern@, name),
        applies(rule, conditions, name, is_dir) ==> !(is_dir && rule.dir_only),
        applies(rule, Seq::empty(), name, is_dir) <==> name_matches(rule.pattern@, name) && !(is_dir
            && rule.dir_only),
        applies(rule, conditions, name, is_dir) <==> applies(rule, Seq::empty(), name, is_dir)
            && met(conditions),
{
    assert(met(Seq::<Condition>::empty()));
}

/// One condition that fails or could not be parsed keeps a rule from applying.
pub proof fn law_every_condition_must_hold(conditions: Seq<Condition>, extra: Condition)
    ensures
        met(conditions.push(extra)) <==> met(conditions) && extra is Holds,
        met(Seq::<Condition>::empty()),
{
    let more = conditions.push(extra);
    if met(conditions) && extra is Holds {
        assert forall|i: int| 0 <= i < more.len() implies #[trigger] more[i]
            == Condition::Holds by {
            if i < conditions.len() {
                assert(more[i] == conditions[i]);
            }
        }
    }
    if met(more) {
        assert(more[conditions.len() as int] == extra);
        assert forall|i: int| 0 <= i < conditions.len() implies #[trigger] conditions[i]
            == Condition::Holds by {
            assert(more[i] == conditions[i]);
        }
    }
}

/// A pattern without a star matches its own name, and every path that ends in it
/// behind a slash; no other.
pub proof fn law_a_plain_pattern_names_the_end_of_a_path(pattern: Seq<char>, path: Seq<char>)
    requires
        !pattern.contains('*'),
    ensures
        name_matches(pattern, path) <==> path == pattern || exists|dir: Seq<char>|
            path == #[trigger] (dir + seq!['/'] + pattern),
{
    let ending = seq!['/'] + pattern;
    if ending.is_suffix_of(path) {
        let n = path.len() - ending.len();
        assert(path.subrange(n, path.len() as int) == ending);
        assert(path.take(n) + ending == path) by {
            assert forall|i: int| n <= i < path.len() implies path[i] == ending[i - n] by {
                assert(path.subrange(n, path.len() as int)[i - n] == path[i]);
            }
        }
        assert(path == path.take(n) + seq!['/'] + pattern);
    }
    assert forall|dir: Seq<char>| path == #[trigger] (dir + seq!['/'] + pattern) implies
        ending.is_suffix_of(path) by {
        let n = dir.len() as int;
        assert(path.subrange(n, path.len() as int) == ending);
    }
}

/// A pattern with a star is a glob whose single stars stay within a segment.
pub proof fn law_a_starred_pattern_is_a_glob(pattern: Seq<char>, path: Seq<char>)
    requires
        pattern.contains('*'),
    ensures
        name_matches(pattern, path) <==> glob::matches(DoubleStar::Run, pattern, path),
{
}

/// An entry is ignored exactly where some rule speaks of it and the last one that
/// does is not negated.
pub proof fn law_an_entry_is_ignored_by_its_last_rule(
    rules: Seq<IgnoreRule>,
    conditions: Seq<Vec<Condition>>,
    name: Seq<char>,
    is_dir: bool,
)
    ensures
        ignored(rules, conditions, name, is_dir) <==> exists|i: int|
            {
                &&& 0 <= i < rules.len()
                &&& !(#[trigger] rules[i]).negated
                &&& applies(rules[i], conditions[i]@, name, is_dir)
                &&& forall|k: int|
                    i < k < rules.len() ==> !applies(
                        #[trigger] rules[k],
                        conditions[k]@,
                        name,
                        is_dir,
                    )
            },
    decreases rules.len(),
{
    if rules.len() > 0 {
        let n = rules.len() - 1;
        let fewer = rules.drop_last();
        law_an_entry_is_ignored_by_its_last_rule(fewer, conditions, name, is_dir);
        assert forall|i: int| 0 <= i < n implies fewer[i] == #[trigger] rules[i] by {}
        if applies(rules[n], conditions[n]@, name, is_dir) {
            assert(rules[n].negated || ignored(rules, conditions, name, is_dir));
        } else if ignored(fewer, conditions, name, is_dir) {
            let i = choose|i: int|
                {
                    &&& 0 <= i < fewer.len()
                    &&& !(#[trigger] fewer[i]).negated
                    &&& applies(fewer[i], conditions[i]@, name, is_dir)
                    &&& forall|k: int|
                        i < k < fewer.len() ==> !applies(
                            #[trigger] fewer[k],
                            conditions[k]@,
                            name,
                            is_dir,
                        )
                };
            assert(!rules[i].negated);
            assert forall|k: int| i < k < rules.len() implies !applies(
                #[trigger] rules[k],
                conditions[k]@,
                name,
                is_dir,
            ) by {
                if k < n {
                    assert(fewer[k] == rules[k]);
                }
            }
        } else {
            assert forall|i: int|
                {
                    &&& 0 <= i < rules.len()
                    &&& !(#[trigger] rules[i]).negated
                    &&& applies(rules[i], conditions[i]@, name, is_dir)
                } implies exists|k: int|
                i < k < rules.len() && applies(#[trigger] rules[k], conditions[k]@, name, is_dir) by {
                if i < n {
                    assert(!fewer[i].negated);
                    let k = choose|k: int|
                        i < k < fewer.len() && applies(
                            #[trigger] fewer[k],
                            conditions[k]@,
                            name,
                            is_dir,
                        );
                    assert(applies(rules[k], conditions[k]@, name, is_dir));
                }
            }
        }
    }
}

/// The config found for a directory is that of the first entry for it, and none is
/// found where there is no entry.
pub proof fn law_the_first_entry_is_found(
    cache: Seq<(Seq<Seq<char>>, ResolvedConfig)>,
    dir: Seq<Seq<char>>,
    i: int,
)
    requires
        0 <= i <= cache.len(),
        forall|k: int| 0 <= k < i ==> (#[trigger] cache[k]).0 != dir,
        i < cache.len() ==> cache[i].0 == dir,
    ensures
        i < cache.len() ==> entry_for(cache, dir) == Some(cache[i].1),
        i == cache.len() ==> entry_for(cache, dir) is None,
    decreases cache.len(),
{
    if i > 0 {
        let rest = cache.skip(1);
        assert(cache[0].0 != dir);
        assert forall|k: int| 0 <= k < i - 1 implies (#[trigger] rest[k]).0 != dir by {
            assert(rest[k] == cache[k + 1]);
        }
        law_the_first_entry_is_found(rest, dir, i - 1);
    }
}

} // verus!
