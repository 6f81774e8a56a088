//! Path globs: `*` stands for any run of characters other than `/`, and `**` for
//! any run at all.

use vstd::prelude::*;

use crate::text;

verus! {

/// How a `**` with a `/` behind it is read.
#[derive(Debug, Clone, Copy, PartialEq, Eq, Structural)]
pub enum DoubleStar {
    /// As any run of characters and a `/`.
    Run,
    /// As zero or more whole path segments.
    Segments,
}

/// Whether the pattern from `i` on matches the path from `j` on. A wildcard
/// stands for nothing, or takes one more character of the path.
pub open spec fn matches_at(stars: DoubleStar, p: Seq<char>, i: int, s: Seq<char>, j: int) -> bool
    decreases p.len() - i, s.len() - j,
{
    if i >= p.len() {
        j == s.len()
    } else if p[i] == '*' && i + 1 < p.len() && p[i + 1] == '*' {
        if stars == DoubleStar::Segments && i + 2 < p.len() && p[i + 2] == '/' {
            matches_at(stars, p, i + 3, s, j) || matches_below(stars, p, i + 3, s, j)
        } else {
            matches_at(stars, p, i + 2, s, j) || (j < s.len() && matches_at(stars, p, i, s, j + 1))
        }
    } else if p[i] == '*' {
        matches_at(stars, p, i + 1, s, j) || (j < s.len() && s[j] != '/' && matches_at(
            stars,
            p,
            i,
            s,
            j + 1,
        ))
    } else {
        j < s.len() && s[j] == p[i] && matches_at(stars, p, i + 1, s, j + 1)
    }
}

/// Whether the pattern from `i` on matches the path from the start of some
/// segment that begins after `j`.
pub open spec fn matches_below(
    stars: DoubleStar,
    p: Seq<char>,
    i: int,
    s: Seq<char>,
    j: int,
) -> bool
    decreases p.len() - i, s.len() - j,
{
    j < s.len() && ((s[j] == '/' && matches_at(stars, p, i, s, j + 1)) || matches_below(
        stars,
        p,
        i,
        s,
        j + 1,
    ))
}

/// Whether the glob `pattern` matches all of `path`.
pub open spec fn matches(stars: DoubleStar, pattern: Seq<char>, path: Seq<char>) -> bool {
    matches_at(stars, pattern, 0, path, 0)
}

/// For each position of a path, whether some pattern matches from there on; the
/// position past its end stands apart.
struct Row {
    cells: Vec<bool>,
    end: bool,
}

impl Row {
    /// What the row says of position `j`.
    spec fn at(self, j: int) -> bool {
        if j < self.cells@.len() {
            self.cells@[j]
        } else {
            self.end
        }
    }

    /// Whether the row is that of the pattern from `i` on.
    spec fn is(self, stars: DoubleStar, p: Seq<char>, i: int, s: Seq<char>) -> bool {
        &&& self.cells@.len() == s.len()
        &&& forall|j: int|
            0 <= j <= s.len() ==> #[trigger] self.at(j) == matches_at(stars, p, i, s, j)
    }

    /// A row of `n` blank cells.
    fn blank(n: usize, end: bool) -> (row: Row)
        ensures
            row.cells@.len() == n,
            row.end == end,
            forall|j: int| 0 <= j < n ==> !#[trigger] row.cells@[j],
    {
        let mut cells: Vec<bool> = Vec::new();
        let mut j: usize = 0;
        while j < n
            invariant
                j <= n,
                cells@.len() == j,
                forall|x: int| 0 <= x < j ==> !#[trigger] cells@[x],
            decreases n - j,
        {
            cells.push(false);
            j += 1;
        }
        Row { cells, end }
    }

    /// What the row says of position `j`.
    fn get(&self, j: usize) -> (r: bool)
        ensures
            r == self.at(j as int),
    {
        if j < self.cells.len() {
            self.cells[j]
        } else {
            self.end
        }
    }
}

/// The length of the pattern token at `i`.
spec fn token_len(stars: DoubleStar, p: Seq<char>, i: int) -> int {
    if p[i] == '*' && i + 1 < p.len() && p[i + 1] == '*' {
        if stars == DoubleStar::Segments && i + 2 < p.len() && p[i + 2] == '/' {
            3
        } else {
            2
        }
    } else {
        1
    }
}

/// The row for the pattern from `i` on, given `next`, the row for what follows
/// the token at `i`.
fn token_row(stars: DoubleStar, p: &[char], i: usize, s: &[char], next: &Row) -> (row: Row)
    requires
        i < p@.len(),
        next.is(stars, p@, i + token_len(stars, p@, i as int), s@),
    ensures
        row.is(stars, p@, i as int, s@),
{
    let n: usize = s.len();
    let left: usize = p.len() - i;
    let star: bool = p[i] == '*';
    let double: bool = star && left > 1 && p[i + 1] == '*';
    let segments: bool = double && stars == DoubleStar::Segments && left > 2 && p[i + 2] == '/';
    let ghost q = i + token_len(stars, p@, i as int);
    // Whether what follows matches from the start of a segment below.
    let mut below: bool = false;
    let mut row: Row = Row::blank(n, star && next.end);
    assert(next.at(n as int) == matches_at(stars, p@, q, s@, n as int));
    assert(!matches_below(stars, p@, q, s@, n as int));
    assert(row.at(n as int) == matches_at(stars, p@, i as int, s@, n as int));
    let mut j: usize = n;
    while j > 0
        invariant
            i < p@.len(),
            j <= n == s@.len(),
            row.cells@.len() == n,
            q == i + token_len(stars, p@, i as int),
            next.is(stars, p@, q, s@),
            star == (p@[i as int] == '*'),
            double == (star && i + 1 < p@.len() && p@[i + 1] == '*'),
            segments == (double && stars == DoubleStar::Segments && i + 2 < p@.len() && p@[i + 2]
                == '/'),
            below == matches_below(stars, p@, q, s@, j as int),
            forall|x: int|
                j <= x <= n ==> #[trigger] row.at(x) == matches_at(stars, p@, i as int, s@, x),
        decreases j,
    {
        j -= 1;
        let ghost before = row;
        assert(next.at(j as int) == matches_at(stars, p@, q, s@, j as int));
        assert(next.at(j + 1) == matches_at(stars, p@, q, s@, j + 1));
        assert(row.at(j + 1) == matches_at(stars, p@, i as int, s@, j + 1));
        below = (s[j] == '/' && next.get(j + 1)) || below;
        assert(below == matches_below(stars, p@, q, s@, j as int));
        let value: bool = if !star {
            s[j] == p[i] && next.get(j + 1)
        } else if segments {
            next.get(j) || below
        } else if double {
            next.get(j) || row.get(j + 1)
        } else {
            next.get(j) || (s[j] != '/' && row.get(j + 1))
        };
        proof {
            let here = matches_at(stars, p@, i as int, s@, j as int);
            if segments {
                assert(here == (matches_at(stars, p@, i + 3, s@, j as int) || matches_below(
                    stars,
                    p@,
                    i + 3,
                    s@,
                    j as int,
                )));
            } else if double {
                assert(here == (matches_at(stars, p@, i + 2, s@, j as int) || matches_at(
                    stars,
                    p@,
                    i as int,
                    s@,
                    j + 1,
                )));
            }
            assert(value == here);
        }
        row.cells.set(j, value);
        assert forall|x: int| j <= x <= n implies #[trigger] row.at(x) == matches_at(
            stars,
            p@,
            i as int,
            s@,
            x,
        ) by {
            if x > j {
                assert(row.at(x) == before.at(x));
            }
        }
    }
    row
}

/// Whether the glob `pattern` matches all of `path`.
pub fn glob(stars: DoubleStar, pattern: &str, path: &str) -> (r: bool)
    ensures
        r == matches(stars, pattern@, path@),
{
    let p: Vec<char> = text::chars_of(pattern);
    let s: Vec<char> = text::chars_of(path);
    let m: usize = p.len();
    let n: usize = s.len();
    let last: Row = Row::blank(n, true);
    assert(last.is(stars, p@, m as int, s@));
    // rows[t] is the row for the pattern from m - 1 - t on.
    let mut rows: Vec<Row> = Vec::new();
    let mut i: usize = m;
    while i > 0
        invariant
            i <= m == p@.len(),
            rows@.len() == m - i,
            last.is(stars, p@, m as int, s@),
            forall|t: int|
                0 <= t < rows@.len() ==> (#[trigger] rows@[t]).is(stars, p@, m - 1 - t, s@),
        decreases i,
    {
        i -= 1;
        let left: usize = m - i;
        let width: usize = if p[i] == '*' && left > 1 && p[i + 1] == '*' {
            if stars == DoubleStar::Segments && left > 2 && p[i + 2] == '/' {
                3
            } else {
                2
            }
        } else {
            1
        };
        let row: Row = if left == width {
            token_row(stars, p.as_slice(), i, s.as_slice(), &last)
        } else {
            let t: usize = left - width - 1;
            assert(rows@[t as int].is(stars, p@, m - 1 - t, s@));
            token_row(stars, p.as_slice(), i, s.as_slice(), &rows[t])
        };
        let ghost before = rows@;
        rows.push(row);
        assert forall|t: int| 0 <= t < rows@.len() implies (#[trigger] rows@[t]).is(
            stars,
            p@,
            m - 1 - t,
            s@,
        ) by {
            if t < before.len() {
                assert(rows@[t] == before[t]);
            } else {
                assert(rows@[t] == row);
            }
        }
    }
    if m == 0 {
        assert(last.at(0) == matches_at(stars, p@, 0, s@, 0));
        last.get(0)
    } else {
        assert(rows@[m - 1].is(stars, p@, m - 1 - (m - 1), s@));
        assert(rows@[m - 1].at(0) == matches_at(stars, p@, 0, s@, 0));
        rows[m - 1].get(0)
    }
}

/// A run of pattern characters that holds no wildcard matches itself.
proof fn lemma_plain_run(stars: DoubleStar, p: Seq<char>, n: int, i: int, s: Seq<char>, j: int)
    requires
        0 <= i <= n <= p.len(),
        0 <= j <= s.len(),
        !p.take(n).contains('*'),
    ensures
        matches_at(stars, p, i, s, j) == (j + n - i <= s.len() && s.subrange(j, j + n - i)
            == p.subrange(i, n) && matches_at(stars, p, n, s, j + n - i)),
    decreases n - i,
{
    if i < n {
        assert(p.take(n)[i] == p[i]);
        assert(p[i] != '*');
        if j < s.len() && s[j] == p[i] {
            lemma_plain_run(stars, p, n, i + 1, s, j + 1);
            if j + n - i <= s.len() {
                let inner = s.subrange(j + 1, j + n - i);
                assert(s.subrange(j, j + n - i) == seq![s[j]] + inner);
                assert(p.subrange(i, n) == seq![p[i]] + p.subrange(i + 1, n));
                assert(s.subrange(j, j + n - i).skip(1) == inner);
                assert(p.subrange(i, n).skip(1) == p.subrange(i + 1, n));
            }
        } else if j + n - i <= s.len() {
            assert(s.subrange(j, j + n - i)[0] == s[j]);
            assert(p.subrange(i, n)[0] == p[i]);
        }
    } else {
        assert(s.subrange(j, j) == p.subrange(n, n));
    }
}

/// A pattern without a wildcard matches the path it spells and no other.
pub proof fn law_plain_pattern_matches_itself(
    stars: DoubleStar,
    pattern: Seq<char>,
    path: Seq<char>,
)
    requires
        !pattern.contains('*'),
    ensures
        matches(stars, pattern, path) == (pattern == path),
{
    let n = pattern.len() as int;
    assert(pattern.take(n) == pattern);
    lemma_plain_run(stars, pattern, n, 0, path, 0);
    assert(pattern.subrange(0, n) == pattern);
    if n <= path.len() {
        assert(path.subrange(0, path.len() as int) == path);
    }
}

/// A final `**` matches any rest at all.
proof fn lemma_any_rest(stars: DoubleStar, p: Seq<char>, s: Seq<char>, j: int)
    requires
        p.len() >= 2,
        p[p.len() - 2] == '*',
        p[p.len() - 1] == '*',
        0 <= j <= s.len(),
    ensures
        matches_at(stars, p, p.len() - 2, s, j),
    decreases s.len() - j,
{
    if j < s.len() {
        lemma_any_rest(stars, p, s, j + 1);
    } else {
        assert(matches_at(stars, p, p.len() as int, s, j));
    }
}

/// A final `*` matches any rest without a `/`.
proof fn lemma_rest_of_segment(stars: DoubleStar, p: Seq<char>, s: Seq<char>, j: int)
    requires
        p.len() >= 1,
        p[p.len() - 1] == '*',
        0 <= j <= s.len(),
    ensures
        matches_at(stars, p, p.len() - 1, s, j) == !s.skip(j).contains('/'),
    decreases s.len() - j,
{
    let rest = s.skip(j);
    if j < s.len() {
        lemma_rest_of_segment(stars, p, s, j + 1);
        assert(!matches_at(stars, p, p.len() as int, s, j));
        let next = s.skip(j + 1);
        assert(rest[0] == s[j]);
        assert forall|k: int| 0 <= k < next.len() implies next[k] == #[trigger] rest[k + 1] by {}
        if next.contains('/') {
            let k = choose|k: int| 0 <= k < next.len() && next[k] == '/';
            assert(rest[k + 1] == '/');
        }
        if rest.contains('/') && s[j] != '/' {
            let k = choose|k: int| 0 <= k < rest.len() && rest[k] == '/';
            assert(next[k - 1] == rest[k]);
        }
    } else {
        assert(rest.len() == 0);
        assert(matches_at(stars, p, p.len() as int, s, j));
    }
}

/// A prefix followed by `**` matches every path that begins with the prefix, at
/// any depth.
pub proof fn law_trailing_double_star_matches_any_depth(
    stars: DoubleStar,
    prefix: Seq<char>,
    path: Seq<char>,
)
    requires
        !prefix.contains('*'),
    ensures
        matches(stars, prefix + seq!['*', '*'], path) == prefix.is_prefix_of(path),
{
    let p = prefix + seq!['*', '*'];
    let n = prefix.len() as int;
    assert(p.take(n) == prefix);
    lemma_plain_run(stars, p, n, 0, path, 0);
    assert(p.subrange(0, n) == prefix);
    if n <= path.len() {
        lemma_any_rest(stars, p, path, n);
    }
}

/// A prefix followed by `*` matches exactly the paths that begin with the prefix
/// and hold no `/` after it.
pub proof fn law_trailing_star_stays_in_its_segment(
    stars: DoubleStar,
    prefix: Seq<char>,
    path: Seq<char>,
)
    requires
        !prefix.contains('*'),
    ensures
        matches(stars, prefix + seq!['*'], path) == (prefix.is_prefix_of(path) && !path.skip(
            prefix.len() as int,
        ).contains('/')),
{
    let p = prefix + seq!['*'];
    let n = prefix.len() as int;
    assert(p.take(n) == prefix);
    lemma_plain_run(stars, p, n, 0, path, 0);
    assert(p.subrange(0, n) == prefix);
    if n <= path.len() {
        lemma_rest_of_segment(stars, p, path, n);
    }
}

/// Matching goes by what is left of the pattern and of the path alone.
proof fn lemma_what_is_left(
    stars: DoubleStar,
    p: Seq<char>,
    a: int,
    i: int,
    s: Seq<char>,
    b: int,
    j: int,
)
    requires
        0 <= a <= p.len(),
        0 <= b <= s.len(),
        0 <= i,
        0 <= j <= s.len() - b,
    ensures
        matches_at(stars, p.skip(a), i, s.skip(b), j) == matches_at(stars, p, a + i, s, b + j),
        matches_below(stars, p.skip(a), i, s.skip(b), j) == matches_below(
            stars,
            p,
            a + i,
            s,
            b + j,
        ),
    decreases p.len() - a - i, s.len() - b - j,
{
    if i < p.len() - a {
        lemma_what_is_left(stars, p, a, i + 1, s, b, j);
        if i + 2 <= p.len() - a {
            lemma_what_is_left(stars, p, a, i + 2, s, b, j);
        }
        if i + 3 <= p.len() - a {
            lemma_what_is_left(stars, p, a, i + 3, s, b, j);
        }
        if j < s.len() - b {
            lemma_what_is_left(stars, p, a, i + 1, s, b, j + 1);
        }
    }
    if j < s.len() - b {
        lemma_what_is_left(stars, p, a, i, s, b, j + 1);
    }
}

/// The empty pattern matches the empty path alone, and a pattern that begins with a
/// plain character matches the paths that begin with it and go on as the rest of the
/// pattern says.
pub proof fn law_a_plain_character_stands_for_itself(
    stars: DoubleStar,
    c: char,
    rest: Seq<char>,
    path: Seq<char>,
)
    requires
        c != '*',
    ensures
        matches(stars, Seq::empty(), path) <==> path.len() == 0,
        matches(stars, seq![c] + rest, path) <==> path.len() > 0 && path[0] == c && matches(
            stars,
            rest,
            path.skip(1),
        ),
{
    let p = seq![c] + rest;
    assert(p.skip(1) == rest);
    if path.len() > 0 {
        lemma_what_is_left(stars, p, 1, 0, path, 1, 0);
    }
}

/// A `*` stands for any run of characters without a slash, so that what follows it
/// in the pattern matches what follows the run.
pub proof fn law_a_star_stands_for_a_run_in_a_segment(
    stars: DoubleStar,
    rest: Seq<char>,
    path: Seq<char>,
)
    requires
        rest.len() > 0 ==> rest[0] != '*',
    ensures
        matches(stars, seq!['*'] + rest, path) <==> exists|k: int|
            0 <= k <= path.len() && !path.take(k).contains('/') && #[trigger] matches(
                stars,
                rest,
                path.skip(k),
            ),
{
    let p = seq!['*'] + rest;
    assert(p.skip(1) == rest);
    lemma_star_run(stars, p, path, 0);
    assert forall|k: int| 0 <= k <= path.len() implies matches_at(stars, p, 1, path, k)
        == #[trigger] matches(stars, rest, path.skip(k)) by {
        lemma_what_is_left(stars, p, 1, 0, path, k, 0);
    }
    assert forall|k: int| 0 <= k <= path.len() implies (forall|x: int|
        0 <= x < k ==> path[x] != '/') == !(#[trigger] path.take(k)).contains('/') by {
        let head = path.take(k);
        if head.contains('/') {
            let x = choose|x: int| 0 <= x < head.len() && head[x] == '/';
            assert(path[x] == '/');
        } else {
            assert forall|x: int| 0 <= x < k implies path[x] != '/' by {
                assert(head[x] == path[x]);
            }
        }
    }
    if matches(stars, p, path) {
        let k = choose|k: int|
            0 <= k <= path.len() && (forall|x: int| 0 <= x < k ==> path[x] != '/')
                && #[trigger] matches_at(stars, p, 1, path, k);
        assert(matches(stars, rest, path.skip(k)));
        assert(!path.take(k).contains('/'));
    }
    assert forall|k: int|
        0 <= k <= path.len() && !path.take(k).contains('/') && #[trigger] matches(
            stars,
            rest,
            path.skip(k),
        ) implies matches(stars, p, path) by {
        assert(matches_at(stars, p, 1, path, k));
    }
}

/// What a `*` at the start of a pattern stands for, from `j` on.
proof fn lemma_star_run(stars: DoubleStar, p: Seq<char>, s: Seq<char>, j: int)
    requires
        p.len() > 0 && p[0] == '*',
        p.len() > 1 ==> p[1] != '*',
        0 <= j <= s.len(),
    ensures
        matches_at(stars, p, 0, s, j) <==> exists|k: int|
            j <= k <= s.len() && (forall|x: int| j <= x < k ==> s[x] != '/')
                && #[trigger] matches_at(stars, p, 1, s, k),
    decreases s.len() - j,
{
    if j < s.len() {
        lemma_star_run(stars, p, s, j + 1);
    }
    if matches_at(stars, p, 0, s, j) && !matches_at(stars, p, 1, s, j) {
        let k = choose|k: int|
            j + 1 <= k <= s.len() && (forall|x: int| j + 1 <= x < k ==> s[x] != '/')
                && #[trigger] matches_at(stars, p, 1, s, k);
        assert(matches_at(stars, p, 1, s, k));
        assert(forall|x: int| j <= x < k ==> s[x] != '/');
    }
    assert forall|k: int|
        j <= k <= s.len() && (forall|x: int| j <= x < k ==> s[x] != '/') && #[trigger] matches_at(
            stars,
            p,
            1,
            s,
            k,
        ) implies matches_at(stars, p, 0, s, j) by {
        if k > j {
            assert(s[j] != '/');
            assert(matches_at(stars, p, 0, s, j + 1));
        }
    }
}

/// A `**` stands for any run of characters at all, unless it is read as whole
/// segments and a slash follows it.
pub proof fn law_a_double_star_stands_for_any_run(
    stars: DoubleStar,
    rest: Seq<char>,
    path: Seq<char>,
)
    requires
        stars == DoubleStar::Run || rest.len() == 0 || rest[0] != '/',
    ensures
        matches(stars, seq!['*', '*'] + rest, path) <==> exists|k: int|
            0 <= k <= path.len() && #[trigger] matches(stars, rest, path.skip(k)),
{
    let p = seq!['*', '*'] + rest;
    assert(p.skip(2) == rest);
    lemma_double_star_run(stars, p, path, 0);
    assert forall|k: int| 0 <= k <= path.len() implies matches_at(stars, p, 2, path, k)
        == #[trigger] matches(stars, rest, path.skip(k)) by {
        lemma_what_is_left(stars, p, 2, 0, path, k, 0);
    }
    if matches(stars, p, path) {
        let k = choose|k: int| 0 <= k <= path.len() && #[trigger] matches_at(stars, p, 2, path, k);
        assert(matches(stars, rest, path.skip(k)));
    }
    assert forall|k: int|
        0 <= k <= path.len() && #[trigger] matches(stars, rest, path.skip(k)) implies matches(
        stars,
        p,
        path,
    ) by {
        assert(matches_at(stars, p, 2, path, k));
    }
}

/// What a `**` at the start of a pattern stands for, from `j` on.
proof fn lemma_double_star_run(stars: DoubleStar, p: Seq<char>, s: Seq<char>, j: int)
    requires
        p.len() >= 2 && p[0] == '*' && p[1] == '*',
        stars == DoubleStar::Run || p.len() == 2 || p[2] != '/',
        0 <= j <= s.len(),
    ensures
        matches_at(stars, p, 0, s, j) <==> exists|k: int|
            j <= k <= s.len() && #[trigger] matches_at(stars, p, 2, s, k),
    decreases s.len() - j,
{
    if j < s.len() {
        lemma_double_star_run(stars, p, s, j + 1);
    }
    if matches_at(stars, p, 0, s, j) && !matches_at(stars, p, 2, s, j) {
        let k = choose|k: int|
            j + 1 <= k <= s.len() && #[trigger] matches_at(stars, p, 2, s, k);
        assert(matches_at(stars, p, 2, s, k));
    }
    assert forall|k: int|
        j <= k <= s.len() && #[trigger] matches_at(stars, p, 2, s, k) implies matches_at(
        stars,
        p,
        0,
        s,
        j,
    ) by {
        if k > j {
            assert(matches_at(stars, p, 0, s, j + 1));
        }
    }
}

/// Where it is read as whole segments, a double star with a slash behind it stands
/// for zero or more of them: the rest of the pattern matches the path, or what
/// follows one of the path's slashes.
pub proof fn law_a_double_star_stands_for_whole_segments(rest: Seq<char>, path: Seq<char>)
    ensures
        matches(DoubleStar::Segments, seq!['*', '*', '/'] + rest, path) <==> matches(
            DoubleStar::Segments,
            rest,
            path,
        ) || exists|k: int|
            0 <= k < path.len() && path[k] == '/' && #[trigger] matches(
                DoubleStar::Segments,
                rest,
                path.skip(k + 1),
            ),
{
    let stars = DoubleStar::Segments;
    let p = seq!['*', '*', '/'] + rest;
    assert(p.skip(3) == rest);
    lemma_below(stars, p, path, 0);
    lemma_what_is_left(stars, p, 3, 0, path, 0, 0);
    assert(path.skip(0) == path);
    assert forall|k: int| 0 <= k < path.len() implies matches_at(stars, p, 3, path, k + 1)
        == #[trigger] matches(stars, rest, path.skip(k + 1)) by {
        lemma_what_is_left(stars, p, 3, 0, path, k + 1, 0);
    }
    if matches_below(stars, p, 3, path, 0) {
        let m = choose|m: int|
            0 < m <= path.len() && path[m - 1] == '/' && #[trigger] matches_at(
                stars,
                p,
                3,
                path,
                m,
            );
        assert(matches(stars, rest, path.skip(m - 1 + 1)));
    }
    assert forall|k: int|
        0 <= k < path.len() && path[k] == '/' && #[trigger] matches(
            stars,
            rest,
            path.skip(k + 1),
        ) implies matches_below(stars, p, 3, path, 0) by {
        assert(matches_at(stars, p, 3, path, k + 1));
    }
}

/// What it takes for a pattern to match from behind some slash on.
proof fn lemma_below(stars: DoubleStar, p: Seq<char>, s: Seq<char>, j: int)
    requires
        0 <= j <= s.len(),
    ensures
        matches_below(stars, p, 3, s, j) <==> exists|m: int|
            j < m <= s.len() && s[m - 1] == '/' && #[trigger] matches_at(stars, p, 3, s, m),
    decreases s.len() - j,
{
    if j < s.len() {
        lemma_below(stars, p, s, j + 1);
        if s[j] == '/' && matches_at(stars, p, 3, s, j + 1) {
            assert(matches_below(stars, p, 3, s, j));
        }
        if matches_below(stars, p, 3, s, j + 1) {
            let m = choose|m: int|
                j + 1 < m <= s.len() && s[m - 1] == '/' && #[trigger] matches_at(
                    stars,
                    p,
                    3,
                    s,
                    m,
                );
            assert(matches_at(stars, p, 3, s, m));
        }
        assert forall|m: int|
            j < m <= s.len() && s[m - 1] == '/' && #[trigger] matches_at(
                stars,
                p,
                3,
                s,
                m,
            ) implies matches_below(stars, p, 3, s, j) by {
            if m > j + 1 {
                assert(matches_below(stars, p, 3, s, j + 1));
            }
        }
    }
}

} // verus!
