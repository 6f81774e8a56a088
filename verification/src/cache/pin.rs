//! Pin matching: whether a path is covered by some pin rule.

use vstd::prelude::*;

use crate::db::PinRuleRecord;
use crate::glob;
use crate::glob::DoubleStar;
use crate::text;

verus! {

/// Whether `path` lies below `base`, whole segments apart.
pub open spec fn lies_below(base: Seq<char>, path: Seq<char>) -> bool {
    (base + seq!['/']).is_prefix_of(path)
}

/// Whether a pin rule covers `path`: the rule names the path itself, or its glob
/// matches, or the rule is recursive and the path lies below what it names.
pub open spec fn pins(rule: PinRuleRecord, path: Seq<char>) -> bool {
    ||| path == rule.path_glob@
    ||| glob::matches(DoubleStar::Segments, rule.path_glob@, path)
    ||| rule.recursive && lies_below(rule.path_glob@, path)
}

/// Whether some rule covers `path`.
pub open spec fn pinned(rules: Seq<PinRuleRecord>, path: Seq<char>) -> bool {
    exists|i: int| 0 <= i < rules.len() && #[trigger] pins(rules[i], path)
}

/// A snapshot of the pin rules, against which paths are matched.
#[derive(Debug)]
pub struct PinMatcher {
    rules: Vec<PinRuleRecord>,
}

impl View for PinMatcher {
    type V = Seq<PinRuleRecord>;

    closed spec fn view(&self) -> Seq<PinRuleRecord> {
        self.rules@
    }
}

impl PinMatcher {
    /// A matcher over these rules.
    pub fn from_rules(rules: Vec<PinRuleRecord>) -> (r: PinMatcher)
        ensures
            r@ == rules@,
    {
        PinMatcher { rules }
    }

    /// The rules.
    pub fn rules(&self) -> (r: &Vec<PinRuleRecord>)
        ensures
            r@ == self@,
    {
        &self.rules
    }

    /// Whether some rule covers `path`.
    pub fn is_pinned(&self, path: &str) -> (r: bool)
        ensures
            r == pinned(self@, path@),
    {
        let mut i: usize = 0;
        while i < self.rules.len()
            invariant
                i <= self.rules@.len(),
                forall|k: int| 0 <= k < i ==> !#[trigger] pins(self.rules@[k], path@),
            decreases self.rules@.len() - i,
        {
            if rule_pins(&self.rules[i], path) {
                return true;
            }
            i += 1;
        }
        false
    }
}

/// Whether one rule covers `path`.
fn rule_pins(rule: &PinRuleRecord, path: &str) -> (r: bool)
    ensures
        r == pins(*rule, path@),
{
    let glob: &str = rule.path_glob.as_str();
    if text::str_eq(path, glob) || glob_match_exact(glob, path) {
        return true;
    }
    if !rule.recursive {
        return false;
    }
    let mut base: Vec<char> = text::chars_of(glob);
    base.push('/');
    assert(base@ == rule.path_glob@ + seq!['/']);
    let chars: Vec<char> = text::chars_of(path);
    text::starts_with(chars.as_slice(), base.as_slice())
}

/// Whether the glob `pattern` matches all of `path`. The `/` behind a `**` is
/// implicit: `**/` stands for zero or more whole segments.
pub fn glob_match_exact(pattern: &str, path: &str) -> (r: bool)
    ensures
        r == glob::matches(DoubleStar::Segments, pattern@, path@),
{
    if text::has_char(pattern, '*') {
        star_match_path(pattern, path)
    } else {
        proof {
            glob::law_plain_pattern_matches_itself(DoubleStar::Segments, pattern@, path@);
        }
        text::str_eq(pattern, path)
    }
}

/// Whether a pattern with wildcards matches all of `path`.
pub fn star_match_path(pattern: &str, path: &str) -> (r: bool)
    ensures
        r == glob::matches(DoubleStar::Segments, pattern@, path@),
{
    glob::glob(DoubleStar::Segments, pattern, path)
}

/// A rule pins the path it names, and a recursive one everything below it.
pub proof fn law_a_rule_pins_what_it_names(rules: Seq<PinRuleRecord>, i: int, path: Seq<char>)
    requires
        0 <= i < rules.len(),
        path == rules[i].path_glob@ || (rules[i].recursive && lies_below(rules[i].path_glob@, path)),
    ensures
        pinned(rules, path),
{
    assert(pins(rules[i], path));
}

/// A rule that names a plain path without recursion pins that path alone.
pub proof fn law_a_plain_rule_pins_one_path(rule: PinRuleRecord, path: Seq<char>)
    requires
        !rule.recursive,
        !rule.path_glob@.contains('*'),
    ensures
        pinned(seq![rule], path) == (path == rule.path_glob@),
{
    glob::law_plain_pattern_matches_itself(DoubleStar::Segments, rule.path_glob@, path);
    let rules = seq![rule];
    assert(rules[0] == rule);
    if path == rule.path_glob@ {
        assert(pins(rules[0], path));
    }
}

/// Adding a rule never unpins a path, and removing one never pins a path.
pub proof fn law_more_rules_pin_more(
    rules: Seq<PinRuleRecord>,
    rule: PinRuleRecord,
    path: Seq<char>,
)
    requires
        pinned(rules, path),
    ensures
        pinned(rules.push(rule), path),
{
    let i = choose|i: int| 0 <= i < rules.len() && #[trigger] pins(rules[i], path);
    assert(rules.push(rule)[i] == rules[i]);
    assert(pins(rules.push(rule)[i], path));
}

/// Without rules nothing is pinned.
pub proof fn law_no_rules_pin_nothing(path: Seq<char>)
    ensures
        !pinned(Seq::empty(), path),
{
}

/// A path is pinned exactly where some rule names it, has a glob that matches it, or
/// is recursive and names a directory above it.
pub proof fn law_what_is_pinned(rules: Seq<PinRuleRecord>, path: Seq<char>)
    ensures
        pinned(rules, path) <==> exists|i: int|
            0 <= i < rules.len() && {
                ||| path == (#[trigger] rules[i]).path_glob@
                ||| glob::matches(DoubleStar::Segments, rules[i].path_glob@, path)
                ||| rules[i].recursive && exists|rest: Seq<char>|
                    path == #[trigger] (rules[i].path_glob@ + seq!['/'] + rest)
            },
{
    assert forall|i: int| 0 <= i < rules.len() implies lies_below(
        #[trigger] rules[i].path_glob@,
        path,
    ) == (exists|rest: Seq<char>| path == #[trigger] (rules[i].path_glob@ + seq!['/'] + rest)) by {
        let base = rules[i].path_glob@ + seq!['/'];
        if base.is_prefix_of(path) {
            assert(path == base + path.skip(base.len() as int));
        }
        assert forall|rest: Seq<char>| path == #[trigger] (base + rest) implies base.is_prefix_of(
            path,
        ) by {
            assert(path.subrange(0, base.len() as int) == base);
        }
    }
    if pinned(rules, path) {
        let i = choose|i: int| 0 <= i < rules.len() && #[trigger] pins(rules[i], path);
        assert(rules[i].path_glob@ == rules[i].path_glob@);
    }
    assert forall|i: int|
        0 <= i < rules.len() && ({
            ||| path == (#[trigger] rules[i]).path_glob@
            ||| glob::matches(DoubleStar::Segments, rules[i].path_glob@, path)
            ||| rules[i].recursive && exists|rest: Seq<char>|
                path == #[trigger] (rules[i].path_glob@ + seq!['/'] + rest)
        }) implies pinned(rules, path) by {
        assert(pins(rules[i], path));
    }
}

} // verus!
