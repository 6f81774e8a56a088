//! The change feed: a per-parent index over each backend's stream of changes.
//!
//! Changes are filed under the directory they touch and stamped with a sequence
//! number that grows along the backend's stream. Each directory keeps its last
//! [`PER_PARENT_CAPACITY`] events. A reader asks for what came after the last
//! sequence number it saw; where that has been overtaken it is told to
//! enumerate afresh.

use std::collections::VecDeque;

use vstd::prelude::*;

use crate::table::Table;
use crate::types::{Change, FileEntry, ItemId};

verus! {

/// How many events are kept for each parent directory.
pub const PER_PARENT_CAPACITY: usize = 1024;

/// A change and its place in the backend's stream.
#[derive(Debug)]
pub struct StampedChange {
    /// The sequence number it was filed under.
    pub seq: u64,
    /// The change.
    pub change: Change,
}

impl Clone for StampedChange {
    fn clone(&self) -> (r: Self)
        ensures
            r == *self,
    {
        StampedChange { seq: self.seq, change: self.change.clone() }
    }
}

/// The parent directory of an entry; an entry may have none.
pub open spec fn parent(entry: FileEntry) -> Option<Seq<char>> {
    if entry.parent_id@.len() == 0 {
        None
    } else {
        Some(entry.parent_id@)
    }
}

/// What is filed for a change to one entry: the change under the entry's parent,
/// or nothing where it has none.
pub open spec fn filing(entry: FileEntry, change: Change) -> Seq<(Seq<char>, Change)> {
    match parent(entry) {
        Some(parent) => seq![(parent, change)],
        None => Seq::empty(),
    }
}

/// What is filed for a change. A move is a deletion under the old parent and a
/// creation under the new one.
pub open spec fn filings(change: Change) -> Seq<(Seq<char>, Change)> {
    match change {
        Change::Created(entry) => filing(entry, change),
        Change::Updated { old: _, new } => filing(new, change),
        Change::Deleted(entry) => filing(entry, change),
        Change::Moved { from, to } => filing(from, Change::Deleted(from)) + filing(
            to,
            Change::Created(to),
        ),
    }
}

/// What is filed for a batch of changes.
pub open spec fn batch(changes: Seq<Change>) -> Seq<(Seq<char>, Change)>
    decreases changes.len(),
{
    if changes.len() == 0 {
        Seq::empty()
    } else {
        batch(changes.drop_last()) + filings(changes.last())
    }
}

/// The events kept once one more is filed: where the buffer is full the oldest
/// gives way.
pub open spec fn kept(buffer: Seq<StampedChange>, event: StampedChange) -> Seq<StampedChange> {
    if buffer.len() >= PER_PARENT_CAPACITY {
        buffer.skip(1).push(event)
    } else {
        buffer.push(event)
    }
}

/// What the feed knows of one backend.
#[verifier::ext_equal]
pub struct ChangesView {
    /// The next sequence number.
    pub next_seq: u64,
    /// The events kept for each parent directory.
    pub by_parent: Map<Seq<char>, Seq<StampedChange>>,
}

impl ChangesView {
    /// Nothing filed yet.
    pub open spec fn fresh() -> ChangesView {
        ChangesView { next_seq: 0, by_parent: Map::empty() }
    }

    /// The events kept for a parent.
    pub open spec fn buffer(self, parent: Seq<char>) -> Seq<StampedChange> {
        if self.by_parent.dom().contains(parent) {
            self.by_parent[parent]
        } else {
            Seq::empty()
        }
    }

    /// The state once the next sequence number is handed out.
    pub open spec fn advanced(self) -> ChangesView {
        ChangesView {
            next_seq: if self.next_seq == u64::MAX {
                0
            } else {
                (self.next_seq + 1) as u64
            },
            by_parent: self.by_parent,
        }
    }

    /// The state once an event is kept for a parent.
    pub open spec fn pushed(self, parent: Seq<char>, event: StampedChange) -> ChangesView {
        ChangesView {
            next_seq: self.next_seq,
            by_parent: self.by_parent.insert(parent, kept(self.buffer(parent), event)),
        }
    }

    /// The state once a change is filed under a parent.
    pub open spec fn filed(self, parent: Seq<char>, change: Change) -> ChangesView {
        self.advanced().pushed(parent, StampedChange { seq: self.next_seq, change })
    }

    /// The state once each of `filings` is filed in turn.
    pub open spec fn filed_all(self, filings: Seq<(Seq<char>, Change)>) -> ChangesView
        decreases filings.len(),
    {
        if filings.len() == 0 {
            self
        } else {
            self.filed_all(filings.drop_last()).filed(filings.last().0, filings.last().1)
        }
    }
}

/// Filing one sequence after another is filing their concatenation.
pub proof fn law_filed_in_parts(
    view: ChangesView,
    a: Seq<(Seq<char>, Change)>,
    b: Seq<(Seq<char>, Change)>,
)
    ensures
        view.filed_all(a + b) == view.filed_all(a).filed_all(b),
    decreases b.len(),
{
    if b.len() == 0 {
        assert(a + b == a);
    } else {
        assert((a + b).drop_last() == a + b.drop_last());
        law_filed_in_parts(view, a, b.drop_last());
    }
}

/// The parent directory of an entry; an entry may have none.
pub fn parent_of(entry: &FileEntry) -> (r: Option<ItemId>)
    ensures
        match r {
            Some(id) => parent(*entry) == Some(id@),
            None => parent(*entry) is None,
        },
{
    if entry.parent_id.0.as_str().is_empty() {
        None
    } else {
        Some(entry.parent_id.clone())
    }
}

/// What the feed keeps for one backend.
#[derive(Debug)]
pub struct BackendChangeState {
    next_seq: u64,
    by_parent: Table<VecDeque<StampedChange>>,
}

impl View for BackendChangeState {
    type V = ChangesView;

    closed spec fn view(&self) -> ChangesView {
        ChangesView {
            next_seq: self.next_seq,
            by_parent: self.by_parent@.map_values(|buffer: VecDeque<StampedChange>| buffer@),
        }
    }
}

impl BackendChangeState {
    /// Whether the index is in order.
    pub closed spec fn wf(self) -> bool {
        self.by_parent.wf()
    }

    /// A backend of which nothing is filed yet.
    pub fn new() -> (r: BackendChangeState)
        ensures
            r.wf(),
            r@ == ChangesView::fresh(),
    {
        let r = BackendChangeState { next_seq: 0, by_parent: Table::new() };
        assert(r@ =~= ChangesView::fresh());
        r
    }

    /// Hands out the next sequence number.
    pub fn allocate_seq(&mut self) -> (seq: u64)
        requires
            old(self).wf(),
        ensures
            seq == old(self)@.next_seq,
            final(self).wf(),
            final(self)@ == old(self)@.advanced(),
    {
        let seq: u64 = self.next_seq;
        self.next_seq = if seq == u64::MAX {
            0
        } else {
            seq + 1
        };
        seq
    }

    /// Keeps an event for a parent. Where its buffer is full the oldest event
    /// gives way.
    pub fn push_event(&mut self, parent: ItemId, event: StampedChange)
        requires
            old(self).wf(),
        ensures
            final(self).wf(),
            final(self)@ == old(self)@.pushed(parent@, event),
    {
        let ghost before = *self;
        let buffer = self.by_parent.entry(parent.0.as_str(), VecDeque::new());
        if buffer.len() >= PER_PARENT_CAPACITY {
            buffer.pop_front();
        }
        buffer.push_back(event);
        assert(self@ =~= before@.pushed(parent@, event));
    }

    /// Files a change under the directories it touches. An entry without a
    /// parent is dropped: there is no directory to file it under.
    pub fn file_change(&mut self, change: Change)
        requires
            old(self).wf(),
        ensures
            final(self).wf(),
            final(self)@ == old(self)@.filed_all(filings(change)),
    {
        match change {
            Change::Moved { from, to } => {
                let ghost first = filing(from, Change::Deleted(from));
                let ghost second = filing(to, Change::Created(to));
                proof {
                    law_filed_in_parts(self@, first, second);
                }
                let old_parent: Option<ItemId> = parent_of(&from);
                self.file_entry(old_parent, Change::Deleted(from));
                let new_parent: Option<ItemId> = parent_of(&to);
                self.file_entry(new_parent, Change::Created(to));
            },
            Change::Created(entry) => {
                let parent: Option<ItemId> = parent_of(&entry);
                self.file_entry(parent, Change::Created(entry));
            },
            Change::Updated { old: before, new } => {
                let parent: Option<ItemId> = parent_of(&new);
                self.file_entry(parent, Change::Updated { old: before, new });
            },
            Change::Deleted(entry) => {
                let parent: Option<ItemId> = parent_of(&entry);
                self.file_entry(parent, Change::Deleted(entry));
            },
        }
    }

    /// Files a change under a parent, or drops it where there is none.
    fn file_entry(&mut self, parent: Option<ItemId>, change: Change)
        requires
            old(self).wf(),
        ensures
            final(self).wf(),
            final(self)@ == old(self)@.filed_all(
                match parent {
                    Some(id) => seq![(id@, change)],
                    None => Seq::empty(),
                },
            ),
    {
        match parent {
            Some(id) => {
                let ghost one = seq![(id@, change)];
                proof {
                    assert(one.drop_last() == Seq::<(Seq<char>, Change)>::empty());
                    assert(one.last() == (id@, change));
                    reveal_with_fuel(ChangesView::filed_all, 2);
                }
                let seq: u64 = self.allocate_seq();
                self.push_event(id, StampedChange { seq, change });
            },
            None => {},
        }
    }
}

/// The answer to a reader of a parent's changes.
#[derive(Debug)]
pub enum ChangeQueryResult {
    /// The changes after the sequence number the reader gave.
    Delta {
        /// The changes, oldest first.
        events: Vec<Change>,
        /// The sequence number to give next time.
        new_seq: u64,
    },
    /// The reader has been overtaken and must enumerate afresh.
    Evicted,
    /// Nothing was ever filed under this parent.
    Unknown,
}

/// Whether an event comes after what the reader has seen.
pub open spec fn newer(event: StampedChange, since: Option<u64>) -> bool {
    since matches Some(seen) ==> event.seq > seen
}

/// The changes of a buffer that come after what the reader has seen.
pub open spec fn changes_after(buffer: Seq<StampedChange>, since: Option<u64>) -> Seq<Change>
    decreases buffer.len(),
{
    if buffer.len() == 0 {
        Seq::empty()
    } else {
        let before = changes_after(buffer.drop_last(), since);
        if newer(buffer.last(), since) {
            before.push(buffer.last().change)
        } else {
            before
        }
    }
}

/// Whether the reader has been overtaken: between what it has seen and the oldest
/// event kept there is a gap.
pub open spec fn overtaken(buffer: Seq<StampedChange>, since: Option<u64>) -> bool {
    since matches Some(seen) && buffer.len() > 0 && seen + 1 < buffer[0].seq
}

/// The sequence number a reader has reached once it has read a buffer.
pub open spec fn reached(buffer: Seq<StampedChange>, since: Option<u64>) -> u64 {
    if buffer.len() > 0 {
        buffer.last().seq
    } else {
        match since {
            Some(seen) => seen,
            None => 0,
        }
    }
}

/// Whether `answer` answers a reader of `parent` that has seen `since`.
pub open spec fn answers(
    feed: Map<Seq<char>, ChangesView>,
    backend: Seq<char>,
    parent: Seq<char>,
    since: Option<u64>,
    answer: ChangeQueryResult,
) -> bool {
    if !feed.dom().contains(backend) || !feed[backend].by_parent.dom().contains(parent) {
        answer is Unknown
    } else {
        let buffer = feed[backend].by_parent[parent];
        if overtaken(buffer, since) {
            answer is Evicted
        } else {
            answer matches ChangeQueryResult::Delta { events, new_seq } && events@
                == changes_after(buffer, since) && new_seq == reached(buffer, since)
        }
    }
}

/// What the feed knows of a backend; of one never recorded, nothing.
pub open spec fn known(feed: Map<Seq<char>, ChangesView>, backend: Seq<char>) -> ChangesView {
    if feed.dom().contains(backend) {
        feed[backend]
    } else {
        ChangesView::fresh()
    }
}

/// The change feed of all backends.
#[derive(Debug)]
pub struct ChangeFeed {
    backends: Table<BackendChangeState>,
}

impl View for ChangeFeed {
    type V = Map<Seq<char>, ChangesView>;

    closed spec fn view(&self) -> Map<Seq<char>, ChangesView> {
        self.backends@.map_values(|state: BackendChangeState| state@)
    }
}

impl ChangeFeed {
    /// Whether the index is in order.
    pub closed spec fn wf(self) -> bool {
        &&& self.backends.wf()
        &&& forall|backend: Seq<char>| #[trigger]
            self.backends@.dom().contains(backend) ==> self.backends@[backend].wf()
    }

    /// A feed that knows of no backend.
    pub fn new() -> (r: ChangeFeed)
        ensures
            r.wf(),
            r@ == Map::<Seq<char>, ChangesView>::empty(),
    {
        let r = ChangeFeed { backends: Table::new() };
        assert(r@ =~= Map::<Seq<char>, ChangesView>::empty());
        r
    }

    /// Files a batch of a backend's changes, in order. The backend is known from
    /// then on, even where the batch is empty.
    pub fn record(&mut self, backend_id: &str, changes: &[Change])
        requires
            old(self).wf(),
        ensures
            final(self).wf(),
            final(self)@ == old(self)@.insert(
                backend_id@,
                known(old(self)@, backend_id@).filed_all(batch(changes@)),
            ),
    {
        let ghost before = *self;
        let ghost start = known(self@, backend_id@);
        let state = self.backends.entry(backend_id, BackendChangeState::new());
        let ghost first = state@;
        assert(first == start);
        let mut i: usize = 0;
        assert(changes@.take(0) == Seq::<Change>::empty());
        while i < changes.len()
            invariant
                i <= changes@.len(),
                state.wf(),
                state@ == first.filed_all(batch(changes@.take(i as int))),
            decreases changes@.len() - i,
        {
            proof {
                let seen = changes@.take(i + 1);
                assert(seen.drop_last() == changes@.take(i as int));
                assert(seen.last() == changes@[i as int]);
                law_filed_in_parts(
                    first,
                    batch(changes@.take(i as int)),
                    filings(changes@[i as int]),
                );
            }
            state.file_change(changes[i].clone());
            i += 1;
        }
        assert(changes@.take(i as int) == changes@);
        assert(self@ =~= before@.insert(backend_id@, start.filed_all(batch(changes@))));
    }

    /// The changes under a parent after the sequence number `since`; without one,
    /// all that are kept.
    pub fn parent_changes_since(
        &self,
        backend_id: &str,
        parent_id: &ItemId,
        since: Option<u64>,
    ) -> (r: ChangeQueryResult)
        requires
            self.wf(),
        ensures
            answers(self@, backend_id@, parent_id@, since, r),
    {
        let state: &BackendChangeState = match self.backends.get(backend_id) {
            Some(state) => state,
            None => {
                return ChangeQueryResult::Unknown;
            },
        };
        assert(self@[backend_id@] == state@);
        let buffer: &VecDeque<StampedChange> = match state.by_parent.get(parent_id.0.as_str()) {
            Some(buffer) => buffer,
            None => {
                return ChangeQueryResult::Unknown;
            },
        };
        assert(state@.by_parent[parent_id@] == buffer@);
        let n: usize = buffer.len();
        if let Some(seen) = since {
            if n > 0 && buffer[0].seq > 0 && seen < buffer[0].seq - 1 {
                return ChangeQueryResult::Evicted;
            }
        }
        let mut events: Vec<Change> = Vec::new();
        let mut i: usize = 0;
        assert(buffer@.take(0) == Seq::<StampedChange>::empty());
        while i < n
            invariant
                i <= n == buffer@.len(),
                events@ == changes_after(buffer@.take(i as int), since),
            decreases n - i,
        {
            let event: &StampedChange = &buffer[i];
            assert(buffer@.take(i + 1).drop_last() == buffer@.take(i as int));
            assert(buffer@.take(i + 1).last() == *event);
            let wanted: bool = match since {
                Some(seen) => event.seq > seen,
                None => true,
            };
            if wanted {
                events.push(event.change.clone());
            }
            i += 1;
        }
        assert(buffer@.take(i as int) == buffer@);
        let new_seq: u64 = if n > 0 {
            buffer[n - 1].seq
        } else {
            match since {
                Some(seen) => seen,
                None => 0,
            }
        };
        ChangeQueryResult::Delta { events, new_seq }
    }
}

impl Default for ChangeFeed {
    fn default() -> (r: Self)
        ensures
            r.wf(),
            r@ == Map::<Seq<char>, ChangesView>::empty(),
    {
        ChangeFeed::new()
    }
}

/// Everything ever filed under a parent, stamped with its place in the backend's
/// history.
pub open spec fn timeline(history: Seq<(Seq<char>, Change)>, parent: Seq<char>) -> Seq<
    StampedChange,
>
    decreases history.len(),
{
    if history.len() == 0 {
        Seq::empty()
    } else {
        let before = timeline(history.drop_last(), parent);
        if history.last().0 == parent {
            before.push(
                StampedChange { seq: (history.len() - 1) as u64, change: history.last().1 },
            )
        } else {
            before
        }
    }
}

/// The last events of a timeline, as many as are kept.
pub open spec fn tail(events: Seq<StampedChange>) -> Seq<StampedChange> {
    if events.len() > PER_PARENT_CAPACITY {
        events.skip(events.len() - PER_PARENT_CAPACITY)
    } else {
        events
    }
}

/// A timeline runs in the order of its sequence numbers, all below the length of
/// the history.
pub proof fn law_a_timeline_is_in_sequence(history: Seq<(Seq<char>, Change)>, parent: Seq<char>)
    requires
        history.len() <= u64::MAX,
    ensures
        forall|i: int, j: int|
            0 <= i < j < timeline(history, parent).len() ==> timeline(history, parent)[i].seq
                < timeline(history, parent)[j].seq,
        forall|i: int|
            0 <= i < timeline(history, parent).len() ==> #[trigger] timeline(history, parent)[i].seq
                < history.len(),
    decreases history.len(),
{
    if history.len() > 0 {
        law_a_timeline_is_in_sequence(history.drop_last(), parent);
    }
}

/// What the feed keeps of a parent is the end of its timeline, never more than
/// [`PER_PARENT_CAPACITY`] events; sequence numbers count the filings.
pub proof fn law_the_end_of_each_timeline_is_kept(
    history: Seq<(Seq<char>, Change)>,
    parent: Seq<char>,
)
    requires
        history.len() <= u64::MAX,
    ensures
        ({
            let view = ChangesView::fresh().filed_all(history);
            &&& view.next_seq == history.len()
            &&& view.buffer(parent) == tail(timeline(history, parent))
            &&& view.buffer(parent).len() <= PER_PARENT_CAPACITY
            &&& view.by_parent.dom().contains(parent) == (timeline(history, parent).len() > 0)
        }),
    decreases history.len(),
{
    if history.len() > 0 {
        let before = history.drop_last();
        law_the_end_of_each_timeline_is_kept(before, parent);
        let then = ChangesView::fresh().filed_all(before);
        let now = ChangesView::fresh().filed_all(history);
        assert(now == then.filed(history.last().0, history.last().1));
        let events = timeline(before, parent);
        if history.last().0 == parent {
            let event = StampedChange {
                seq: (history.len() - 1) as u64,
                change: history.last().1,
            };
            assert(then.next_seq == event.seq);
            assert(timeline(history, parent) == events.push(event));
            assert(kept(tail(events), event) =~= tail(events.push(event)));
            assert(now.buffer(parent) == kept(then.buffer(parent), event));
        }
    } else {
        assert(timeline(history, parent) == Seq::<StampedChange>::empty());
    }
}

/// Dropping events that the reader has seen changes nothing for it.
proof fn lemma_seen_events_do_not_count(events: Seq<StampedChange>, k: int, since: Option<u64>)
    requires
        0 <= k <= events.len(),
        forall|i: int| 0 <= i < k ==> !newer(#[trigger] events[i], since),
    ensures
        changes_after(events.skip(k), since) == changes_after(events, since),
    decreases events.len(),
{
    if k < events.len() {
        let fewer = events.drop_last();
        lemma_seen_events_do_not_count(fewer, k, since);
        assert(events.skip(k).drop_last() == fewer.skip(k));
        assert(events.skip(k).last() == events.last());
    } else {
        assert(events.skip(k).len() == 0);
        lemma_all_seen(events, since);
    }
}

/// Where the reader has seen every event, nothing comes after.
proof fn lemma_all_seen(events: Seq<StampedChange>, since: Option<u64>)
    requires
        forall|i: int| 0 <= i < events.len() ==> !newer(#[trigger] events[i], since),
    ensures
        changes_after(events, since) == Seq::<Change>::empty(),
    decreases events.len(),
{
    if events.len() > 0 {
        let fewer = events.drop_last();
        assert forall|i: int| 0 <= i < fewer.len() implies !newer(#[trigger] fewer[i], since) by {
            assert(fewer[i] == events[i]);
        }
        lemma_all_seen(fewer, since);
        assert(!newer(events[events.len() - 1], since));
    }
}

/// A reader that is not told to enumerate afresh is given every change ever filed
/// under the parent after the sequence number it gave: none is lost.
pub proof fn law_a_delta_is_complete(
    history: Seq<(Seq<char>, Change)>,
    parent: Seq<char>,
    seen: u64,
)
    requires
        history.len() <= u64::MAX,
        !overtaken(ChangesView::fresh().filed_all(history).buffer(parent), Some(seen)),
    ensures
        changes_after(ChangesView::fresh().filed_all(history).buffer(parent), Some(seen))
            == changes_after(timeline(history, parent), Some(seen)),
{
    let events = timeline(history, parent);
    law_the_end_of_each_timeline_is_kept(history, parent);
    law_a_timeline_is_in_sequence(history, parent);
    if events.len() > PER_PARENT_CAPACITY {
        let k = events.len() - PER_PARENT_CAPACITY;
        assert(tail(events)[0] == events[k]);
        assert forall|i: int| 0 <= i < k implies !newer(#[trigger] events[i], Some(seen)) by {
            assert(events[i].seq < events[k].seq);
        }
        lemma_seen_events_do_not_count(events, k, Some(seen));
    }
}

/// The timeline of a longer history begins with that of the shorter one, and the
/// rest carries higher sequence numbers.
proof fn lemma_timeline_grows(
    a: Seq<(Seq<char>, Change)>,
    b: Seq<(Seq<char>, Change)>,
    parent: Seq<char>,
)
    requires
        a.len() + b.len() <= u64::MAX,
    ensures
        ({
            let n = timeline(a, parent).len() as int;
            let events = timeline(a + b, parent);
            &&& n <= events.len()
            &&& events.take(n) == timeline(a, parent)
            &&& forall|i: int| n <= i < events.len() ==> #[trigger] events[i].seq >= a.len()
        }),
    decreases b.len(),
{
    if b.len() == 0 {
        assert(a + b == a);
    } else {
        assert((a + b).drop_last() == a + b.drop_last());
        lemma_timeline_grows(a, b.drop_last(), parent);
        let n = timeline(a, parent).len() as int;
        let before = timeline(a + b.drop_last(), parent);
        assert(timeline(a + b, parent).take(n) =~= before.take(n));
    }
}

/// A reader that resumes from where its last answer left it, and is not told to
/// enumerate afresh, is given exactly what was filed under the parent since.
pub proof fn law_a_reader_that_resumes_misses_nothing(
    before: Seq<(Seq<char>, Change)>,
    since_then: Seq<(Seq<char>, Change)>,
    parent: Seq<char>,
    first: Option<u64>,
)
    requires
        before.len() + since_then.len() <= u64::MAX,
        ChangesView::fresh().filed_all(before).by_parent.dom().contains(parent),
        !overtaken(
            ChangesView::fresh().filed_all(before + since_then).buffer(parent),
            Some(reached(ChangesView::fresh().filed_all(before).buffer(parent), first)),
        ),
    ensures
        changes_after(
            ChangesView::fresh().filed_all(before + since_then).buffer(parent),
            Some(reached(ChangesView::fresh().filed_all(before).buffer(parent), first)),
        ) == changes_after(
            timeline(before + since_then, parent).skip(timeline(before, parent).len() as int),
            None,
        ),
{
    let seen = reached(ChangesView::fresh().filed_all(before).buffer(parent), first);
    let events = timeline(before + since_then, parent);
    let n = timeline(before, parent).len() as int;
    law_a_delta_is_complete(before + since_then, parent, seen);
    law_the_end_of_each_timeline_is_kept(before, parent);
    law_a_timeline_is_in_sequence(before, parent);
    law_a_timeline_is_in_sequence(before + since_then, parent);
    lemma_timeline_grows(before, since_then, parent);
    assert(seen == timeline(before, parent).last().seq);
    assert(events[n - 1] == events.take(n)[n - 1]);
    assert(events[n - 1].seq == seen);
    assert forall|i: int| 0 <= i < n implies !newer(#[trigger] events[i], Some(seen)) by {
        if i < n - 1 {
            assert(events[i].seq < events[n - 1].seq);
        }
    }
    lemma_seen_events_do_not_count(events, n, Some(seen));
    let rest = events.skip(n);
    assert forall|i: int| 0 <= i < rest.len() implies newer(#[trigger] rest[i], Some(seen)) by {
        assert(rest[i] == events[n + i]);
        assert(events[n - 1].seq < events[n + i].seq);
    }
    lemma_all_newer(rest, Some(seen));
}

/// Where every event is new to the reader, it is given all of them.
proof fn lemma_all_newer(events: Seq<StampedChange>, since: Option<u64>)
    requires
        forall|i: int| 0 <= i < events.len() ==> newer(#[trigger] events[i], since),
    ensures
        changes_after(events, since) == changes_after(events, None),
    decreases events.len(),
{
    if events.len() > 0 {
        let fewer = events.drop_last();
        assert forall|i: int| 0 <= i < fewer.len() implies newer(#[trigger] fewer[i], since) by {
            assert(fewer[i] == events[i]);
        }
        lemma_all_newer(fewer, since);
        assert(newer(events[events.len() - 1], since));
    }
}

/// A move between two directories shows as a deletion in the old one and a
/// creation in the new one.
pub proof fn law_a_move_is_a_deletion_and_a_creation(from: FileEntry, to: FileEntry)
    requires
        parent(from) is Some,
        parent(to) is Some,
    ensures
        filings(Change::Moved { from, to }) == seq![
            (parent(from).unwrap(), Change::Deleted(from)),
            (parent(to).unwrap(), Change::Created(to)),
        ],
{
}

/// A creation, an update or a deletion is filed once, unchanged, under the parent of
/// the entry it leaves or takes away, and nowhere where that entry has no parent.
pub proof fn law_a_change_is_filed_as_it_is(change: Change, entry: FileEntry)
    requires
        change == Change::Created(entry) || change == Change::Deleted(entry) || (
        change is Updated && change->new == entry),
    ensures
        entry.parent_id@.len() > 0 ==> filings(change) == seq![(entry.parent_id@, change)],
        entry.parent_id@.len() == 0 ==> filings(change) == Seq::<(Seq<char>, Change)>::empty(),
{
}

/// A move is filed as a deletion under the old parent, then a creation under the new
/// one; a side without a parent is left out.
pub proof fn law_each_side_of_a_move_is_filed(from: FileEntry, to: FileEntry)
    ensures
        ({
            let filed = filings(Change::Moved { from, to });
            let gone = (from.parent_id@, Change::Deleted(from));
            let new = (to.parent_id@, Change::Created(to));
            &&& from.parent_id@.len() > 0 && to.parent_id@.len() > 0 ==> filed == seq![gone, new]
            &&& from.parent_id@.len() > 0 && to.parent_id@.len() == 0 ==> filed == seq![gone]
            &&& from.parent_id@.len() == 0 && to.parent_id@.len() > 0 ==> filed == seq![new]
            &&& from.parent_id@.len() == 0 && to.parent_id@.len() == 0 ==> filed.len() == 0
        }),
{
}

/// What a batch files is what each of its changes files, in order.
pub proof fn law_a_batch_is_filed_in_order(a: Seq<Change>, b: Seq<Change>, change: Change)
    ensures
        batch(a + b) == batch(a) + batch(b),
        batch(seq![change]) == filings(change),
        batch(Seq::empty()) == Seq::<(Seq<char>, Change)>::empty(),
    decreases b.len(),
{
    let one = seq![change];
    assert(batch(one.drop_last()) == Seq::<(Seq<char>, Change)>::empty());
    assert(batch(one) == batch(one.drop_last()) + filings(one.last()));
    assert(batch(one) =~= filings(change));
    if b.len() == 0 {
        assert(a + b == a);
    } else {
        assert((a + b).drop_last() == a + b.drop_last());
        law_a_batch_is_filed_in_order(a, b.drop_last(), change);
        assert(batch(a + b) =~= batch(a) + batch(b));
    }
}

/// Filing a change adds it, under the next sequence number, as the newest event of
/// its directory, and touches no other directory. Only a full directory gives up an
/// event for it, its oldest.
pub proof fn law_filing_adds_the_newest_event(
    view: ChangesView,
    parent: Seq<char>,
    change: Change,
    other: Seq<char>,
)
    ensures
        ({
            let after = view.filed(parent, change);
            let before = view.buffer(parent);
            &&& after.buffer(parent).len() > 0
            &&& after.buffer(parent).last().seq == view.next_seq
            &&& after.buffer(parent).last().change == change
            &&& before.len() < 1024 ==> after.buffer(parent).drop_last() == before
            &&& before.len() >= 1024 ==> after.buffer(parent).drop_last() == before.skip(1)
            &&& other != parent ==> after.buffer(other) == view.buffer(other)
            &&& other != parent ==> after.by_parent.dom().contains(other)
                == view.by_parent.dom().contains(other)
            &&& view.next_seq < u64::MAX ==> after.next_seq == view.next_seq + 1
            &&& view.next_seq == u64::MAX ==> after.next_seq == 0
        }),
{
    let after = view.filed(parent, change);
    let before = view.buffer(parent);
    if before.len() < 1024 {
        assert(after.buffer(parent).drop_last() =~= before);
    } else {
        assert(after.buffer(parent).drop_last() =~= before.skip(1));
    }
}

/// A reader is given the changes of the events whose sequence numbers are higher than
/// the one it gave, in order, and all of them where it gave none.
pub proof fn law_a_reader_is_given_the_later_changes(
    buffer: Seq<StampedChange>,
    since: Option<u64>,
)
    ensures
        since is None ==> changes_after(buffer, since) == buffer.map_values(
            |event: StampedChange| event.change,
        ),
        since matches Some(seen) ==> changes_after(buffer, since) == buffer.filter(
            |event: StampedChange| event.seq > seen,
        ).map_values(|event: StampedChange| event.change),
    decreases buffer.len(),
{
    reveal(Seq::filter);
    if buffer.len() > 0 {
        let fewer = buffer.drop_last();
        law_a_reader_is_given_the_later_changes(fewer, since);
        let of = |event: StampedChange| event.change;
        match since {
            None => {
                assert(buffer.map_values(of) =~= fewer.map_values(of).push(buffer.last().change));
            },
            Some(seen) => {
                let later = |event: StampedChange| event.seq > seen;
                if buffer.last().seq > seen {
                    assert(buffer.filter(later) == fewer.filter(later).push(buffer.last()));
                    assert(fewer.filter(later).push(buffer.last()).map_values(of)
                        =~= fewer.filter(later).map_values(of).push(buffer.last().change));
                }
            },
        }
    }
}

/// A reader of a directory that nothing was filed under is told so. One that has
/// missed an event which is no longer kept is told to enumerate afresh. Any other is
/// given the later changes and the sequence number of the newest event.
pub proof fn law_what_a_reader_is_told(
    feed: Map<Seq<char>, ChangesView>,
    backend: Seq<char>,
    parent: Seq<char>,
    since: Option<u64>,
    answer: ChangeQueryResult,
)
    requires
        answers(feed, backend, parent, since, answer),
    ensures
        answer is Unknown <==> !(feed.dom().contains(backend)
            && feed[backend].by_parent.dom().contains(parent)),
        feed.dom().contains(backend) && feed[backend].by_parent.dom().contains(parent) ==> {
            let buffer = feed[backend].by_parent[parent];
            &&& answer is Evicted <==> buffer.len() > 0 && (since matches Some(seen)
                && buffer[0].seq > seen + 1)
            &&& answer matches ChangeQueryResult::Delta { events, new_seq } ==> {
                &&& events@ == changes_after(buffer, since)
                &&& buffer.len() > 0 ==> new_seq == buffer[buffer.len() - 1].seq
                &&& buffer.len() == 0 ==> (since matches Some(seen) ==> new_seq == seen)
            }
        },
{
}

/// Recording for one backend leaves what is known of the others as it is, and a
/// backend that was never recorded starts with nothing filed and sequence number 0.
pub proof fn law_backends_are_kept_apart(
    feed: Map<Seq<char>, ChangesView>,
    backend: Seq<char>,
    other: Seq<char>,
    changes: Seq<Change>,
)
    ensures
        ({
            let after = feed.insert(backend, known(feed, backend).filed_all(batch(changes)));
            &&& other != backend ==> known(after, other) == known(feed, other)
            &&& !feed.dom().contains(backend) ==> known(feed, backend).next_seq == 0
            &&& !feed.dom().contains(backend) ==> known(feed, backend).by_parent
                == Map::<Seq<char>, Seq<StampedChange>>::empty()
            &&& feed.dom().contains(backend) ==> known(feed, backend) == feed[backend]
        }),
{
}

} // verus!
