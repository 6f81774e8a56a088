//! Paths as sequences of components. Two spellings of a path are the same path
//! where their components are.

use vstd::prelude::*;

use crate::text;

verus! {

/// The component of a path's root.
pub open spec fn root() -> Seq<char> {
    seq!['/']
}

/// The components among the first segments of a path: empty segments do not
/// count, nor does a `.` that does not begin the path.
pub open spec fn counted(segments: Seq<Seq<char>>) -> Seq<Seq<char>>
    decreases segments.len(),
{
    if segments.len() == 0 {
        Seq::empty()
    } else {
        let before = counted(segments.drop_last());
        let segment = segments.last();
        if segment.len() == 0 || (segment == seq!['.'] && segments.len() > 1) {
            before
        } else {
            before.push(segment)
        }
    }
}

/// The components of a path. That of an absolute path begin with the root.
pub open spec fn components(path: Seq<char>) -> Seq<Seq<char>> {
    let segments = counted(text::split_on(path, seq!['/']));
    if root().is_prefix_of(path) {
        seq![root()] + segments
    } else {
        segments
    }
}

/// Whether `path` is `base` or lies below it.
pub open spec fn within(base: Seq<Seq<char>>, path: Seq<Seq<char>>) -> bool {
    base.is_prefix_of(path)
}

/// Whether a component names an entry of a directory.
pub open spec fn normal(component: Seq<char>) -> bool {
    component != root() && component != seq!['.'] && component != seq!['.', '.']
}

/// The directory a path lies in; the root where it has no parent.
pub open spec fn directory(path: Seq<Seq<char>>) -> Seq<Seq<char>> {
    if path.len() == 0 || path.last() == root() {
        seq![root()]
    } else {
        path.drop_last()
    }
}

/// The name a path ends in, or nothing where it does not end in a name.
pub open spec fn name(path: Seq<Seq<char>>) -> Seq<char> {
    if path.len() > 0 && normal(path.last()) {
        path.last()
    } else {
        Seq::empty()
    }
}

/// The components of `path`.
pub fn parse(path: &str) -> (r: Vec<Vec<char>>)
    ensures
        text::seqs(r@) == components(path@),
{
    let chars: Vec<char> = text::chars_of(path);
    let slash: [char; 1] = ['/'];
    let dot: [char; 1] = ['.'];
    assert(slash@ == seq!['/']);
    assert(dot@ == seq!['.']);
    let segments: Vec<Vec<char>> = text::split(chars.as_slice(), slash.as_slice());
    let ghost all = text::seqs(segments@);
    let mut parts: Vec<Vec<char>> = Vec::new();
    if text::starts_with(chars.as_slice(), slash.as_slice()) {
        parts.push(vec!['/']);
    }
    let ghost first = text::seqs(parts@);
    assert(first == (if root().is_prefix_of(path@) {
        seq![root()]
    } else {
        Seq::<Seq<char>>::empty()
    }));
    let mut i: usize = 0;
    assert(all.take(0) == Seq::<Seq<char>>::empty());
    assert(text::seqs(parts@) == first + counted(all.take(0)));
    while i < segments.len()
        invariant
            i <= segments@.len(),
            all == text::seqs(segments@),
            dot@ == seq!['.'],
            text::seqs(parts@) == first + counted(all.take(i as int)),
        decreases segments@.len() - i,
    {
        let segment: &Vec<char> = &segments[i];
        let ghost before = parts@;
        proof {
            let now = all.take(i + 1);
            assert(now.drop_last() == all.take(i as int));
            assert(now.last() == segment@);
        }
        if segment.len() > 0 && !(i > 0 && text::chars_eq(segment.as_slice(), dot.as_slice())) {
            let copy: Vec<char> = text::copy_range(segment.as_slice(), 0, segment.len());
            assert(copy@ == segment@);
            parts.push(copy);
            assert(text::seqs(parts@) == text::seqs(before).push(segment@));
        }
        i += 1;
    }
    assert(all.take(i as int) == all);
    parts
}

/// Whether `path` is `base` or lies below it.
pub fn lies_within(base: &Vec<Vec<char>>, path: &Vec<Vec<char>>) -> (r: bool)
    ensures
        r == within(text::seqs(base@), text::seqs(path@)),
{
    let ghost b = text::seqs(base@);
    let ghost p = text::seqs(path@);
    if base.len() > path.len() {
        return false;
    }
    let mut i: usize = 0;
    while i < base.len()
        invariant
            i <= base@.len() <= path@.len(),
            b == text::seqs(base@),
            p == text::seqs(path@),
            b.take(i as int) == p.take(i as int),
        decreases base@.len() - i,
    {
        if !text::chars_eq(base[i].as_slice(), path[i].as_slice()) {
            assert(b[i as int] != p[i as int]);
            assert(b != p.subrange(0, b.len() as int)) by {
                assert(p.subrange(0, b.len() as int)[i as int] == p[i as int]);
            }
            return false;
        }
        assert(b.take(i + 1) == b.take(i as int).push(b[i as int]));
        assert(p.take(i + 1) == p.take(i as int).push(p[i as int]));
        i += 1;
    }
    assert(b.take(i as int) == b);
    true
}

/// Whether two paths are the same.
pub fn same(a: &Vec<Vec<char>>, b: &Vec<Vec<char>>) -> (r: bool)
    ensures
        r == (text::seqs(a@) == text::seqs(b@)),
{
    let r: bool = a.len() == b.len() && lies_within(a, b);
    proof {
        let x = text::seqs(a@);
        let y = text::seqs(b@);
        assert(y.subrange(0, y.len() as int) == y);
        if x == y {
            assert(x.len() == y.len());
        }
    }
    r
}

/// A copy of a list of components.
fn copied(parts: &Vec<Vec<char>>, n: usize) -> (r: Vec<Vec<char>>)
    requires
        n <= parts@.len(),
    ensures
        text::seqs(r@) == text::seqs(parts@).take(n as int),
{
    let mut copy: Vec<Vec<char>> = Vec::new();
    let mut i: usize = 0;
    while i < n
        invariant
            i <= n <= parts@.len(),
            copy@.len() == i,
            forall|k: int| 0 <= k < i ==> (#[trigger] copy@[k])@ == parts@[k]@,
        decreases n - i,
    {
        copy.push(text::copy_range(parts[i].as_slice(), 0, parts[i].len()));
        i += 1;
    }
    assert(text::seqs(copy@) =~= text::seqs(parts@).take(n as int));
    copy
}

/// The directory a path lies in; the root where it has no parent.
pub fn parent_dir(path: &Vec<Vec<char>>) -> (r: Vec<Vec<char>>)
    ensures
        text::seqs(r@) == directory(text::seqs(path@)),
{
    let slash: [char; 1] = ['/'];
    assert(slash@ == root());
    let n: usize = path.len();
    if n == 0 || text::chars_eq(path[n - 1].as_slice(), slash.as_slice()) {
        let r: Vec<Vec<char>> = vec![vec!['/']];
        assert(r@[0]@ == root());
        assert(text::seqs(r@) =~= seq![root()]);
        r
    } else {
        let r: Vec<Vec<char>> = copied(path, n - 1);
        assert(text::seqs(path@).take(n - 1) == text::seqs(path@).drop_last());
        r
    }
}

/// The name a path ends in, or nothing where it does not end in a name.
pub fn file_name(path: &Vec<Vec<char>>) -> (r: String)
    ensures
        r@ == name(text::seqs(path@)),
{
    let slash: [char; 1] = ['/'];
    let dot: [char; 1] = ['.'];
    let dots: [char; 2] = ['.', '.'];
    assert(slash@ == root());
    assert(dot@ == seq!['.']);
    assert(dots@ == seq!['.', '.']);
    let n: usize = path.len();
    if n == 0 {
        return String::new();
    }
    let last: &Vec<char> = &path[n - 1];
    assert(text::seqs(path@).last() == last@);
    if text::chars_eq(last.as_slice(), slash.as_slice()) || text::chars_eq(
        last.as_slice(),
        dot.as_slice(),
    ) || text::chars_eq(last.as_slice(), dots.as_slice()) {
        String::new()
    } else {
        text::string_of(last.as_slice())
    }
}

/// A path is read segment by segment: behind a slash an empty segment or a `.` does
/// not count, and any other is one more component.
pub proof fn law_a_further_segment_is_a_component(path: Seq<char>, segment: Seq<char>)
    requires
        path.len() > 0,
        !segment.contains('/'),
    ensures
        ({
            let before = components(path);
            let after = components(path + seq!['/'] + segment);
            &&& segment.len() == 0 || segment == seq!['.'] ==> after == before
            &&& segment.len() > 0 && segment != seq!['.'] ==> after == before.push(segment)
        }),
{
    let whole = path + seq!['/'] + segment;
    let segments = text::split_on(path, seq!['/']);
    text::lemma_split_one_more(path, '/', segment);
    text::lemma_joined_split(path, seq!['/'], 0);
    assert(path.skip(0) == path);
    assert(segments.push(segment).drop_last() == segments);
    assert(segments.len() > 0) by {
        if segments.len() == 0 {
            assert(text::joined(segments, seq!['/']).len() == 0);
        }
    }
    assert(root().is_prefix_of(path) == root().is_prefix_of(whole)) by {
        assert(path.subrange(0, 1) == whole.subrange(0, 1));
    }
    let first = counted(segments);
    if segment.len() > 0 && segment != seq!['.'] {
        assert(seq![root()] + first.push(segment) == (seq![root()] + first).push(segment));
    }
}

/// A path of one segment has that segment as its only component, and the empty path
/// has none. A slash before it makes it absolute: the root comes first.
pub proof fn law_a_slash_before_a_path_makes_it_absolute(segment: Seq<char>)
    requires
        !segment.contains('/'),
    ensures
        segment.len() == 0 ==> components(segment) == Seq::<Seq<char>>::empty(),
        segment.len() > 0 ==> components(segment) == seq![segment],
        segment.len() == 0 || segment == seq!['.'] ==> components(seq!['/'] + segment) == seq![
            root(),
        ],
        segment.len() > 0 && segment != seq!['.'] ==> components(seq!['/'] + segment) == seq![
            root(),
            segment,
        ],
{
    let empty = Seq::<char>::empty();
    let none = Seq::<Seq<char>>::empty();
    let whole = seq!['/'] + segment;
    text::lemma_split_whole(segment, '/');
    text::lemma_split_whole(empty, '/');
    text::lemma_split_one_more(empty, '/', segment);
    assert(empty + seq!['/'] + segment == whole);
    let one = seq![segment];
    assert(one.drop_last() == none);
    assert(counted(none) == none);
    if root().is_prefix_of(segment) {
        assert(segment.subrange(0, 1)[0] == segment[0]);
    }
    assert(none.push(segment) == one);
    let blank = seq![empty];
    assert(blank.drop_last() == none);
    assert(counted(blank) == none);
    let two = blank.push(segment);
    assert(two.drop_last() == blank);
    assert(whole.subrange(0, 1) == root());
    assert(seq![root()] + none == seq![root()]);
    assert(seq![root()] + none.push(segment) == seq![root(), segment]);
}

/// An entry lies in the directory that is left without its name, and everything lies
/// within what it begins with.
pub proof fn law_an_entry_lies_in_its_directory(
    dir: Seq<Seq<char>>,
    entry: Seq<char>,
    rest: Seq<Seq<char>>,
)
    ensures
        entry != seq!['/'] ==> directory(dir.push(entry)) == dir,
        directory(seq![root()]) == seq![root()],
        directory(Seq::empty()) == seq![root()],
        entry != seq!['/'] && entry != seq!['.'] && entry != seq!['.', '.'] ==> name(
            dir.push(entry),
        ) == entry,
        name(dir.push(seq!['.', '.'])).len() == 0,
        within(dir, dir + rest),
        within(dir + rest, dir) <==> rest.len() == 0,
{
    assert(dir.push(entry).drop_last() == dir);
    assert((dir + rest).subrange(0, dir.len() as int) == dir);
    if rest.len() == 0 {
        assert(dir + rest == dir);
        assert(dir.subrange(0, dir.len() as int) == dir);
    }
}

} // verus!
