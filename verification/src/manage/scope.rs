//! Scopes: the extent over which a capability applies.

use vstd::prelude::*;

use crate::path;
use crate::text;

verus! {

/// The storage discriminant of a node-wide scope.
pub const SCOPE_KIND_NODE: &'static str = "node";

/// The storage discriminant of a folder scope.
pub const SCOPE_KIND_FOLDER: &'static str = "folder";

/// The extent over which a capability applies: the whole node, or the subtree
/// of a folder.
#[derive(Debug, PartialEq, Eq, Hash)]
pub enum Scope {
    /// The whole node.
    Node,
    /// A folder subtree. Matching is by path component, never by substring.
    Folder {
        /// The folder path this scope covers.
        path: String,
    },
}

/// What a [`Scope`] stands for.
pub enum ScopeView {
    /// The whole node.
    Node,
    /// The subtree of the folder with this path.
    Folder(Seq<char>),
}

/// One step of resolving a path: the component stack after `segment`.
pub open spec fn resolve_step(
    stack: Option<Seq<Seq<char>>>,
    segment: Seq<char>,
) -> Option<Seq<Seq<char>>> {
    match stack {
        None => None,
        Some(parts) => if segment.len() == 0 || segment == seq!['.'] {
            Some(parts)
        } else if segment == seq!['.', '.'] {
            if parts.len() == 0 {
                None
            } else {
                Some(parts.drop_last())
            }
        } else {
            Some(parts.push(segment))
        },
    }
}

/// The component stack left by `segments`, read left to right from the root.
pub open spec fn resolve(segments: Seq<Seq<char>>) -> Option<Seq<Seq<char>>>
    decreases segments.len(),
{
    if segments.len() == 0 {
        Some(Seq::empty())
    } else {
        resolve_step(resolve(segments.drop_last()), segments.last())
    }
}

/// The resolved components of a path: empty and `.` segments dropped, `..`
/// taking away the component before it. There are none where a `..` climbs
/// above the root.
pub open spec fn normalised(path: Seq<char>) -> Option<Seq<Seq<char>>> {
    resolve(text::split_on(path, seq!['/']))
}

/// Whether the components of `grant` begin those of `target`.
pub open spec fn path_covers(grant: Seq<char>, target: Seq<char>) -> bool {
    match (normalised(grant), normalised(target)) {
        (Some(g), Some(t)) => g.is_prefix_of(t),
        _ => false,
    }
}

impl ScopeView {
    /// Whether this scope covers `target`.
    pub open spec fn covers(self, target: ScopeView) -> bool {
        match (self, target) {
            (ScopeView::Node, _) => true,
            (ScopeView::Folder(_), ScopeView::Node) => false,
            (ScopeView::Folder(g), ScopeView::Folder(t)) => path_covers(g, t),
        }
    }

    /// Whether this scope covers every path of the node.
    pub open spec fn node_wide(self) -> bool {
        match self {
            ScopeView::Node => true,
            ScopeView::Folder(path) => normalised(path) == Some(Seq::<Seq<char>>::empty()),
        }
    }

    /// The storage discriminant of the scope.
    pub open spec fn kind(self) -> Seq<char> {
        match self {
            ScopeView::Node => SCOPE_KIND_NODE@,
            ScopeView::Folder(_) => SCOPE_KIND_FOLDER@,
        }
    }

    /// The stored path of the scope.
    pub open spec fn path(self) -> Option<Seq<char>> {
        match self {
            ScopeView::Node => None,
            ScopeView::Folder(path) => Some(path),
        }
    }
}

/// The scope that a stored kind and path stand for: none for an unknown kind,
/// or for a folder without a path; the path beside a node kind is ignored.
pub open spec fn scope_of_columns(kind: Seq<char>, path: Option<Seq<char>>) -> Option<ScopeView> {
    if kind == SCOPE_KIND_NODE@ {
        Some(ScopeView::Node)
    } else if kind == SCOPE_KIND_FOLDER@ {
        match path {
            Some(p) => Some(ScopeView::Folder(p)),
            None => None,
        }
    } else {
        None
    }
}

impl View for Scope {
    type V = ScopeView;

    open spec fn view(&self) -> ScopeView {
        match *self {
            Scope::Node => ScopeView::Node,
            Scope::Folder { path } => ScopeView::Folder(path@),
        }
    }
}

impl Clone for Scope {
    fn clone(&self) -> (r: Self)
        ensures
            r == *self,
    {
        match self {
            Scope::Node => Scope::Node,
            Scope::Folder { path } => Scope::Folder { path: path.clone() },
        }
    }
}

impl Scope {
    /// The folder scope with this path.
    pub fn folder(path: &str) -> (r: Scope)
        ensures
            r@ == ScopeView::Folder(path@),
    {
        Scope::Folder { path: path.to_owned() }
    }

    /// Whether the scope covers every path of the node. The root folder does,
    /// however it is spelled.
    pub fn is_node_wide(&self) -> (r: bool)
        ensures
            r == self@.node_wide(),
    {
        match self {
            Scope::Node => true,
            Scope::Folder { path } => match normalise_components(path.as_str()) {
                Some(components) => {
                    let root: bool = components.len() == 0;
                    assert(text::seqs(components@).len() == components@.len());
                    assert(root ==> text::seqs(components@) == Seq::<Seq<char>>::empty());
                    root
                },
                None => false,
            },
        }
    }

    /// The two storage columns of the scope: its kind and its path.
    pub fn to_columns(&self) -> (r: (&'static str, Option<&str>))
        ensures
            r.0@ == self@.kind(),
            match r.1 {
                Some(path) => self@.path() == Some(path@),
                None => self@.path() is None,
            },
    {
        match self {
            Scope::Node => (SCOPE_KIND_NODE, None),
            Scope::Folder { path } => (SCOPE_KIND_FOLDER, Some(path.as_str())),
        }
    }

    /// The scope with these storage columns, if they stand for one.
    pub fn from_columns(kind: &str, path: Option<String>) -> (r: Option<Scope>)
        ensures
            match r {
                Some(s) => scope_of_columns(kind@, text::opt_text(path)) == Some(s@),
                None => scope_of_columns(kind@, text::opt_text(path)) is None,
            },
    {
        if text::str_eq(kind, SCOPE_KIND_NODE) {
            Some(Scope::Node)
        } else if text::str_eq(kind, SCOPE_KIND_FOLDER) {
            match path {
                Some(path) => Some(Scope::Folder { path }),
                None => None,
            }
        } else {
            None
        }
    }

    /// Whether `self`, the scope of a held grant, covers `target`.
    pub fn covers(&self, target: &Scope) -> (r: bool)
        ensures
            r == self@.covers(target@),
    {
        match (self, target) {
            (Scope::Node, _) => true,
            (Scope::Folder { .. }, Scope::Node) => false,
            (Scope::Folder { path: grant }, Scope::Folder { path: target }) => path_prefix_covers(
                grant.as_str(),
                target.as_str(),
            ),
        }
    }
}

/// A folder covers itself, provided its path resolves at all; a node-wide scope
/// covers every scope.
pub proof fn law_covers_is_reflexive(s: ScopeView)
    ensures
        s is Node ==> s.covers(s),
        s matches ScopeView::Folder(p) ==> (s.covers(s) <==> normalised(p) is Some),
{
    if let ScopeView::Folder(p) = s {
        if let Some(parts) = normalised(p) {
            assert(parts == parts.subrange(0, parts.len() as int));
        }
    }
}

/// Coverage composes: what a covered scope covers is covered.
pub proof fn law_covers_is_transitive(a: ScopeView, b: ScopeView, c: ScopeView)
    requires
        a.covers(b),
        b.covers(c),
    ensures
        a.covers(c),
{
    if let (ScopeView::Folder(pa), ScopeView::Folder(pb), ScopeView::Folder(pc)) = (a, b, c) {
        let (x, y, z) = (normalised(pa)->0, normalised(pb)->0, normalised(pc)->0);
        assert(x == z.subrange(0, x.len() as int)) by {
            assert(x == y.subrange(0, x.len() as int));
            assert(y == z.subrange(0, y.len() as int));
            assert(y.subrange(0, x.len() as int) == z.subrange(0, x.len() as int));
        }
    }
}

/// A folder scope never covers the whole node, and a node scope covers every
/// target.
pub proof fn law_node_and_folder_coverage(path: Seq<char>, target: ScopeView)
    ensures
        !ScopeView::Folder(path).covers(ScopeView::Node),
        ScopeView::Node.covers(target),
{
}

/// A path that climbs above the root covers nothing and is covered by no
/// folder.
pub proof fn law_escaping_path_matches_nothing(path: Seq<char>, other: Seq<char>)
    requires
        normalised(path) is None,
    ensures
        !ScopeView::Folder(path).covers(ScopeView::Folder(other)),
        !ScopeView::Folder(other).covers(ScopeView::Folder(path)),
        !ScopeView::Folder(path).node_wide(),
{
}

/// A node-wide scope covers every folder whose path resolves, and every folder
/// scope that covers a node-wide folder is node-wide itself.
pub proof fn law_node_wide_covers_every_folder(s: ScopeView, path: Seq<char>)
    requires
        s.node_wide(),
        normalised(path) is Some,
    ensures
        s.covers(ScopeView::Folder(path)),
        ScopeView::Folder(path).covers(s) ==> ScopeView::Folder(path).node_wide(),
{
    let parts = normalised(path)->0;
    if let ScopeView::Folder(root) = s {
        let none = Seq::<Seq<char>>::empty();
        assert(none == parts.subrange(0, 0));
        if ScopeView::Folder(path).covers(s) {
            assert(parts == none.subrange(0, parts.len() as int));
            assert(parts == none);
        }
    }
}

/// Reading back the stored columns of a scope gives that scope.
pub proof fn law_columns_round_trip(s: ScopeView)
    ensures
        scope_of_columns(s.kind(), s.path()) == Some(s),
{
    lemma_kinds_differ();
}

/// The two storage discriminants are not the same text.
pub proof fn lemma_kinds_differ()
    ensures
        SCOPE_KIND_NODE@ != SCOPE_KIND_FOLDER@,
{
    reveal_strlit("node");
    reveal_strlit("folder");
    assert("node"@.len() != "folder"@.len());
}

/// The resolved components of `path`, or `None` where it climbs above the root.
pub fn normalise_components(path: &str) -> (r: Option<Vec<Vec<char>>>)
    ensures
        match r {
            Some(parts) => normalised(path@) == Some(text::seqs(parts@)),
            None => normalised(path@) is None,
        },
{
    let chars: Vec<char> = text::chars_of(path);
    let slash: [char; 1] = ['/'];
    let dot: [char; 1] = ['.'];
    let dots: [char; 2] = ['.', '.'];
    let segments: Vec<Vec<char>> = text::split(chars.as_slice(), slash.as_slice());
    let ghost all = text::seqs(segments@);
    assert(slash@ == seq!['/']);
    assert(dot@ == seq!['.']);
    assert(dots@ == seq!['.', '.']);
    let mut parts: Vec<Vec<char>> = Vec::new();
    let mut i: usize = 0;
    assert(text::seqs(parts@) == Seq::<Seq<char>>::empty());
    while i < segments.len()
        invariant
            i <= segments@.len(),
            all == text::seqs(segments@),
            all == text::split_on(path@, seq!['/']),
            resolve(all.take(i as int)) == Some(text::seqs(parts@)),
            dot@ == seq!['.'],
            dots@ == seq!['.', '.'],
        decreases segments@.len() - i,
    {
        let segment: &Vec<char> = &segments[i];
        let ghost before = parts@;
        proof {
            let now = all.take(i + 1);
            assert(now.drop_last() == all.take(i as int));
            assert(now.last() == segment@);
        }
        i += 1;
        if segment.len() == 0 || text::chars_eq(segment.as_slice(), dot.as_slice()) {
            assert(resolve(all.take(i as int)) == Some(text::seqs(parts@)));
        } else if text::chars_eq(segment.as_slice(), dots.as_slice()) {
            let popped: Option<Vec<char>> = parts.pop();
            if popped.is_none() {
                proof {
                    lemma_resolve_none(all, i as int);
                }
                return None;
            }
            assert(text::seqs(parts@) == text::seqs(before).drop_last());
        } else {
            let copy: Vec<char> = text::copy_range(segment.as_slice(), 0, segment.len());
            assert(copy@ == segment@);
            parts.push(copy);
            assert(text::seqs(parts@) == text::seqs(before).push(segment@));
        }
    }
    assert(all.take(i as int) == all);
    Some(parts)
}

/// Once resolving fails, no later segment mends it.
proof fn lemma_resolve_none(segments: Seq<Seq<char>>, i: int)
    requires
        0 <= i <= segments.len(),
        resolve(segments.take(i)) is None,
    ensures
        resolve(segments) is None,
    decreases segments.len() - i,
{
    if i == segments.len() {
        assert(segments.take(i) == segments);
    } else {
        assert(segments.take(i + 1).drop_last() == segments.take(i));
        lemma_resolve_none(segments, i + 1);
    }
}

/// Whether a segment names a component: it is neither empty nor a dot segment.
pub open spec fn ordinary(segment: Seq<char>) -> bool {
    segment.len() > 0 && segment != seq!['.'] && segment != seq!['.', '.']
}

/// How many ordinary segments there are, less the `..` ones.
pub open spec fn height(segments: Seq<Seq<char>>) -> int
    decreases segments.len(),
{
    if segments.len() == 0 {
        0
    } else {
        let before = height(segments.drop_last());
        if ordinary(segments.last()) {
            before + 1
        } else if segments.last() == seq!['.', '.'] {
            before - 1
        } else {
            before
        }
    }
}

/// Whether some of the segments from the first on climb above the root: more of
/// them are `..` than are ordinary.
pub open spec fn climbs(segments: Seq<Seq<char>>) -> bool {
    exists|i: int| 0 <= i <= segments.len() && #[trigger] height(segments.take(i)) < 0
}

/// Whether `at` says where the parts stand among the segments, in order.
pub open spec fn placed(at: Seq<int>, parts: Seq<Seq<char>>, segments: Seq<Seq<char>>) -> bool {
    &&& at.len() == parts.len()
    &&& forall|k: int|
        0 <= k < at.len() ==> 0 <= #[trigger] at[k] < segments.len() && segments[at[k]] == parts[k]
    &&& forall|j: int, k: int| 0 <= j < k < at.len() ==> at[j] < at[k]
}

/// Resolving fails exactly where the segments climb above the root.
proof fn lemma_resolve_height(segments: Seq<Seq<char>>)
    ensures
        resolve(segments) is None <==> climbs(segments),
        resolve(segments) matches Some(parts) ==> parts.len() == height(segments),
    decreases segments.len(),
{
    let n = segments.len() as int;
    assert(segments.take(n) == segments);
    if n == 0 {
        assert forall|i: int| 0 <= i <= n implies #[trigger] height(segments.take(i)) >= 0 by {
            assert(segments.take(i) == segments);
        }
    } else {
        let fewer = segments.drop_last();
        lemma_resolve_height(fewer);
        assert forall|i: int| 0 <= i < n implies #[trigger] fewer.take(i) == segments.take(i) by {}
        if climbs(fewer) {
            let i = choose|i: int| 0 <= i <= fewer.len() && #[trigger] height(fewer.take(i)) < 0;
            assert(height(segments.take(i)) < 0);
        } else {
            assert forall|i: int| 0 <= i < n implies #[trigger] height(segments.take(i)) >= 0 by {
                assert(fewer.take(i) == segments.take(i));
                assert(height(fewer.take(i)) >= 0);
            }
            if resolve(segments) is None {
                assert(height(segments.take(n)) < 0);
            }
        }
    }
}

/// What is left of the segments is ordinary and stands among them, in order.
proof fn lemma_resolve_parts(segments: Seq<Seq<char>>)
    requires
        resolve(segments) is Some,
    ensures
        forall|k: int|
            0 <= k < resolve(segments)->0.len() ==> ordinary(#[trigger] resolve(segments)->0[k]),
        exists|at: Seq<int>| placed(at, resolve(segments)->0, segments),
    decreases segments.len(),
{
    let parts = resolve(segments)->0;
    if segments.len() == 0 {
        assert(placed(Seq::empty(), parts, segments));
    } else {
        let n = segments.len() - 1;
        let fewer = segments.drop_last();
        lemma_resolve_parts(fewer);
        let before = resolve(fewer)->0;
        let at = choose|at: Seq<int>| placed(at, before, fewer);
        let last = segments.last();
        if ordinary(last) {
            assert(parts == before.push(last));
            let more = at.push(n);
            assert forall|k: int| 0 <= k < more.len() implies 0 <= #[trigger] more[k]
                < segments.len() && segments[more[k]] == parts[k] by {
                if k < at.len() {
                    assert(more[k] == at[k]);
                }
            }
            assert(placed(more, parts, segments));
        } else if last == seq!['.', '.'] {
            assert(last.len() == 2 && seq!['.'].len() == 1);
            assert(resolve(segments) == resolve_step(Some(before), last));
            assert(parts == before.drop_last());
            let less = at.drop_last();
            assert forall|k: int| 0 <= k < less.len() implies 0 <= #[trigger] less[k]
                < segments.len() && segments[less[k]] == parts[k] by {
                assert(less[k] == at[k]);
            }
            assert(placed(less, parts, segments));
        } else {
            assert(parts == before);
            assert forall|k: int| 0 <= k < at.len() implies 0 <= #[trigger] at[k]
                < segments.len() && segments[at[k]] == parts[k] by {}
            assert(placed(at, parts, segments));
        }
    }
}

/// Ordinary segments resolve to themselves.
proof fn lemma_resolve_ordinary(segments: Seq<Seq<char>>)
    requires
        forall|k: int| 0 <= k < segments.len() ==> ordinary(#[trigger] segments[k]),
    ensures
        resolve(segments) == Some(segments),
    decreases segments.len(),
{
    if segments.len() > 0 {
        let fewer = segments.drop_last();
        assert forall|k: int| 0 <= k < fewer.len() implies ordinary(#[trigger] fewer[k]) by {
            assert(fewer[k] == segments[k]);
        }
        lemma_resolve_ordinary(fewer);
        assert(ordinary(segments[segments.len() - 1]));
        assert(fewer.push(segments.last()) == segments);
    } else {
        assert(segments =~= Seq::<Seq<char>>::empty());
    }
}

/// A path has no components exactly where some of its segments, from the first
/// on, climb above the root.
pub proof fn law_only_a_climbing_path_has_no_components(path: Seq<char>)
    ensures
        normalised(path) is None <==> climbs(text::split_on(path, seq!['/'])),
{
    lemma_resolve_height(text::split_on(path, seq!['/']));
}

/// The components of a path are ordinary, hold no `/`, and stand among the path's
/// segments in their order.
pub proof fn law_components_are_segments_of_the_path(path: Seq<char>)
    requires
        normalised(path) is Some,
    ensures
        forall|k: int|
            0 <= k < normalised(path)->0.len() ==> ordinary(#[trigger] normalised(path)->0[k])
                && !normalised(path)->0[k].contains('/'),
        exists|at: Seq<int>| placed(at, normalised(path)->0, text::split_on(path, seq!['/'])),
{
    let segments = text::split_on(path, seq!['/']);
    let parts = normalised(path)->0;
    lemma_resolve_parts(segments);
    text::lemma_pieces_lack(path, '/', 0);
    let at = choose|at: Seq<int>| placed(at, parts, segments);
    assert forall|k: int| 0 <= k < parts.len() implies ordinary(#[trigger] parts[k])
        && !parts[k].contains('/') by {
        assert(segments[at[k]] == parts[k]);
    }
}

/// Normalising changes nothing the second time: the joined components of a path
/// have those components.
pub proof fn law_normalised_components_stay(path: Seq<char>)
    requires
        normalised(path) is Some,
    ensures
        normalised(text::joined(normalised(path)->0, seq!['/'])) == normalised(path),
{
    let parts = normalised(path)->0;
    let again = text::joined(parts, seq!['/']);
    law_components_are_segments_of_the_path(path);
    if parts.len() == 0 {
        assert(parts =~= Seq::<Seq<char>>::empty());
        assert(again.len() == 0);
        assert(text::find_from(again, seq!['/'], 0) is None);
        assert(again.skip(0) == again);
        let segments = text::split_on(again, seq!['/']);
        assert(segments =~= seq![again]);
        assert(segments.drop_last() =~= Seq::<Seq<char>>::empty());
        assert(resolve(segments.drop_last()) == Some(Seq::<Seq<char>>::empty()));
    } else {
        assert(again.skip(0) == again);
        text::lemma_split_joined(again, '/', 0, parts);
        lemma_resolve_ordinary(parts);
    }
}

/// Whether the components of `grant` begin those of `target`.
pub fn path_prefix_covers(grant: &str, target: &str) -> (r: bool)
    ensures
        r == path_covers(grant@, target@),
{
    match (normalise_components(grant), normalise_components(target)) {
        (Some(g), Some(t)) => path::lies_within(&g, &t),
        _ => false,
    }
}

/// A path is resolved segment by segment. A further segment that is empty or `.`
/// changes nothing, a `..` takes the last component away, or leads above the root
/// where there is none, and any other becomes the last component.
pub proof fn law_a_further_segment_is_resolved(path: Seq<char>, segment: Seq<char>)
    requires
        !segment.contains('/'),
    ensures
        ({
            let before = normalised(path);
            let after = normalised(path + seq!['/'] + segment);
            &&& before is None ==> after is None
            &&& segment.len() == 0 || segment == seq!['.'] ==> after == before
            &&& segment == seq!['.', '.'] ==> (before matches Some(parts) ==> {
                &&& parts.len() == 0 ==> after is None
                &&& parts.len() > 0 ==> after == Some(parts.drop_last())
            })
            &&& segment.len() > 0 && segment != seq!['.'] && segment != seq!['.', '.'] ==> (
            before matches Some(parts) ==> after == Some(parts.push(segment)))
        }),
{
    let segments = text::split_on(path, seq!['/']);
    text::lemma_split_one_more(path, '/', segment);
    assert(segments.push(segment).drop_last() == segments);
    assert(seq!['.'].len() == 1 && seq!['.', '.'].len() == 2);
}

/// A path of one segment resolves to that segment, to nothing where it is empty or
/// `.`, and leads above the root where it is `..`.
pub proof fn law_a_single_segment_is_resolved(segment: Seq<char>)
    requires
        !segment.contains('/'),
    ensures
        segment.len() == 0 || segment == seq!['.'] ==> normalised(segment) == Some(
            Seq::<Seq<char>>::empty(),
        ),
        segment == seq!['.', '.'] ==> normalised(segment) is None,
        segment.len() > 0 && segment != seq!['.'] && segment != seq!['.', '.'] ==> normalised(
            segment,
        ) == Some(seq![segment]),
{
    text::lemma_split_whole(segment, '/');
    let one = seq![segment];
    let none = Seq::<Seq<char>>::empty();
    assert(one.drop_last() == none);
    assert(resolve(none) == Some(none));
    assert(seq!['.'].len() == 1 && seq!['.', '.'].len() == 2);
    assert(none.push(segment) == one);
}

/// One folder covers another exactly where both resolve and the components of the
/// first are followed, in the second, by any number of others. The whole node covers
/// everything, and no folder covers it.
pub proof fn law_coverage_is_by_whole_components(grant: Seq<char>, target: Seq<char>)
    ensures
        ScopeView::Folder(grant).covers(ScopeView::Folder(target)) <==> normalised(grant) is Some
            && normalised(target) is Some && exists|rest: Seq<Seq<char>>|
            normalised(target)->0 == #[trigger] (normalised(grant)->0 + rest),
        ScopeView::Folder(grant).node_wide() <==> normalised(grant) is Some && normalised(
            grant,
        )->0.len() == 0,
        ScopeView::Node.node_wide(),
{
    if normalised(grant) is Some && normalised(target) is Some {
        let (g, t) = (normalised(grant)->0, normalised(target)->0);
        if g.is_prefix_of(t) {
            assert(t == g + t.skip(g.len() as int));
        }
        assert forall|rest: Seq<Seq<char>>| t == #[trigger] (g + rest) implies g.is_prefix_of(
            t,
        ) by {
            assert(t.subrange(0, g.len() as int) == g);
        }
    }
    if let Some(g) = normalised(grant) {
        if g.len() == 0 {
            assert(g == Seq::<Seq<char>>::empty());
        }
    }
}

/// A folder covers each entry below it, and an entry does not cover its folder.
pub proof fn law_a_folder_covers_what_lies_in_it(folder: Seq<char>, name: Seq<char>)
    requires
        normalised(folder) is Some,
        !name.contains('/'),
        ordinary(name),
    ensures
        ScopeView::Folder(folder).covers(ScopeView::Folder(folder + seq!['/'] + name)),
        !ScopeView::Folder(folder + seq!['/'] + name).covers(ScopeView::Folder(folder)),
{
    law_a_further_segment_is_resolved(folder, name);
    let parts = normalised(folder)->0;
    assert(parts.push(name).subrange(0, parts.len() as int) == parts);
}

/// A scope is stored as `node` without a path or as `folder` with one; nothing else
/// reads as a scope.
pub proof fn law_stored_scopes_are_node_or_folder(
    s: ScopeView,
    kind: Seq<char>,
    path: Option<Seq<char>>,
)
    ensures
        s is Node ==> s.kind() == "node"@ && s.path() is None,
        s matches ScopeView::Folder(p) ==> s.kind() == "folder"@ && s.path() == Some(p),
        scope_of_columns(kind, path) == Some(s) <==> (s is Node && kind == "node"@) || (s matches
            ScopeView::Folder(p) && kind == "folder"@ && path == Some(p)),
{
    lemma_kinds_differ();
}

/// A scope stands for the node or for the folder it names, and for nothing else.
pub proof fn law_a_scope_stands_for_what_it_names(scope: Scope)
    ensures
        scope is Node <==> scope@ is Node,
        scope matches Scope::Folder { path } ==> (scope@ matches ScopeView::Folder(named) && named
            == path@),
{
}

} // verus!
