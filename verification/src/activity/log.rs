//! The activity log and the conflicts of the folder registered now.

use vstd::prelude::*;
use vstd::string::*;
use vstd::utf8::*;
use crate::activity::{Event, EventModel};
use crate::local::run::push_to;
use crate::path::{begins_path, path_begins};

verus! {

/// The path is that of `root`, or of something in it; nothing is inside no
/// folder.
pub open spec fn is_inside(root: Seq<char>, path: Seq<char>) -> bool {
    root.len() > 0 && path_begins(encode_utf8(path), encode_utf8(root))
}

/// Whether `path` is inside `root` (both full paths); nothing is inside no
/// folder.
pub fn inside(root: &str, path: &str) -> (r: bool)
    ensures
        r == is_inside(root@, path@),
{
    root.unicode_len() > 0 && begins_path(path.as_bytes(), root.as_bytes())
}

/// The first `n` events, those inside `root` only.
pub open spec fn inside_of(events: Seq<EventModel>, root: Seq<char>, n: int) -> Seq<EventModel>
    decreases n,
{
    if n <= 0 {
        Seq::empty()
    } else if is_inside(root, events[n - 1].path) {
        inside_of(events, root, n - 1).push(events[n - 1])
    } else {
        inside_of(events, root, n - 1)
    }
}

/// The events inside `root`, in their order.
pub open spec fn all_inside(events: Seq<EventModel>, root: Seq<char>) -> Seq<EventModel> {
    inside_of(events, root, events.len() as int)
}

/// The first `n` events, those whose path begins with `root` only.
pub open spec fn beneath_of(events: Seq<EventModel>, root: Seq<u8>, n: int) -> Seq<EventModel>
    decreases n,
{
    if n <= 0 {
        Seq::empty()
    } else if path_begins(encode_utf8(events[n - 1].path), root) {
        beneath_of(events, root, n - 1).push(events[n - 1])
    } else {
        beneath_of(events, root, n - 1)
    }
}

/// The events whose path begins with `root`, in their order.
pub open spec fn all_beneath(events: Seq<EventModel>, root: Seq<u8>) -> Seq<EventModel> {
    beneath_of(events, root, events.len() as int)
}

/// The last `n` of `s`, or all of them.
pub open spec fn last_of<T>(s: Seq<T>, n: nat) -> Seq<T> {
    if s.len() <= n {
        s
    } else {
        s.subrange(s.len() - n, s.len() as int)
    }
}

/// The log of the folder registered now. It is kept in the folder's store
/// while there is one, and otherwise here, in memory.
pub struct Activity {
    /// The folder's store keeps the log.
    pub stored: bool,
    /// How many events memory keeps.
    pub kept: usize,
    /// What memory keeps, oldest first.
    pub memory: Vec<Event>,
}

#[verifier::ext_equal]
pub struct ActivityModel {
    pub stored: bool,
    pub kept: nat,
    pub memory: Seq<EventModel>,
}

impl View for Activity {
    type V = ActivityModel;

    open spec fn view(&self) -> ActivityModel {
        ActivityModel {
            stored: self.stored,
            kept: self.kept as nat,
            memory: self.memory.deep_view(),
        }
    }
}

/// The log with `events` recorded, of which only those inside `root` count: in
/// memory the newest are kept, and a store is handed them instead.
pub open spec fn recording(a: ActivityModel, events: Seq<EventModel>, root: Seq<char>) -> ActivityModel {
    if a.stored {
        a
    } else {
        ActivityModel { memory: last_of(a.memory + all_inside(events, root), a.kept), ..a }
    }
}

/// The log kept in the folder's store from now on.
pub open spec fn attaching(a: ActivityModel) -> ActivityModel {
    ActivityModel { stored: true, memory: Seq::empty(), ..a }
}

impl ActivityModel {
    /// Memory never keeps more than it may.
    pub open spec fn wf(self) -> bool {
        self.memory.len() <= self.kept
    }
}

fn only_inside(events: Vec<Event>, root: &str) -> (r: Vec<Event>)
    ensures
        r.deep_view() == all_inside(events.deep_view(), root@),
{
    let ghost all = events.deep_view();
    let mut out: Vec<Event> = Vec::new();
    assert(out.deep_view() =~= Seq::<EventModel>::empty());
    for event in it: events
        invariant
            it.seq() == events@,
            all == events.deep_view(),
            out.deep_view() == inside_of(all, root@, it.index()),
    {
        assert(all[it.index()] == events@[it.index()]@);
        if inside(root, event.path.as_str()) {
            push_to(&mut out, event);
        }
    }
    out
}

fn only_beneath(events: Vec<Event>, root: &[u8]) -> (r: Vec<Event>)
    ensures
        r.deep_view() == all_beneath(events.deep_view(), root@),
{
    let ghost all = events.deep_view();
    let mut out: Vec<Event> = Vec::new();
    assert(out.deep_view() =~= Seq::<EventModel>::empty());
    for event in it: events
        invariant
            it.seq() == events@,
            all == events.deep_view(),
            out.deep_view() == beneath_of(all, root@, it.index()),
    {
        assert(all[it.index()] == events@[it.index()]@);
        if begins_path(event.path.as_str().as_bytes(), root) {
            push_to(&mut out, event);
        }
    }
    out
}

/// A copy of the events.
fn copies(events: &Vec<Event>, from: usize) -> (r: Vec<Event>)
    requires
        from <= events@.len(),
    ensures
        r.deep_view() == events.deep_view().subrange(from as int, events@.len() as int),
{
    let mut out: Vec<Event> = Vec::new();
    let mut i: usize = from;
    assert(out.deep_view() =~= events.deep_view().subrange(from as int, from as int));
    while i < events.len()
        invariant
            from <= i <= events@.len(),
            out.deep_view() == events.deep_view().subrange(from as int, i as int),
        decreases events@.len() - i,
    {
        assert(events.deep_view()[i as int] == events@[i as int]@);
        push_to(&mut out, events[i].clone());
        i += 1;
        assert(out.deep_view() =~= events.deep_view().subrange(from as int, i as int));
    }
    out
}

impl Activity {
    /// An empty log, of which memory keeps the newest `kept` events.
    pub fn new(kept: usize) -> (r: Self)
        ensures
            r@ == (ActivityModel { stored: false, kept: kept as nat, memory: Seq::empty() }),
            r@.wf(),
    {
        let r = Activity { stored: false, kept, memory: Vec::new() };
        assert(r.memory.deep_view() =~= Seq::<EventModel>::empty());
        r
    }

    /// Keeps the log of the folder at `root` in its store from now on. What
    /// was recorded in memory meanwhile about that folder moves there, oldest
    /// first; anything about another folder is dropped.
    pub fn attach(&mut self, root: &[u8]) -> (moved: Vec<Event>)
        ensures
            final(self)@ == attaching(old(self)@),
            final(self)@.wf(),
            moved.deep_view() == all_beneath(old(self)@.memory, root@),
    {
        let mut held: Vec<Event> = Vec::new();
        std::mem::swap(&mut held, &mut self.memory);
        self.stored = true;
        assert(self.memory.deep_view() =~= Seq::<EventModel>::empty());
        only_beneath(held, root)
    }

    /// Lets go of the store, and forgets what memory held.
    pub fn detach(&mut self)
        ensures
            final(self)@ == (ActivityModel {
                stored: false,
                kept: old(self)@.kept,
                memory: Seq::empty(),
            }),
            final(self)@.wf(),
    {
        self.stored = false;
        self.memory = Vec::new();
        assert(self.memory.deep_view() =~= Seq::<EventModel>::empty());
    }

    /// Records `events`, oldest first: those inside the folder registered now,
    /// at `root`; the rest are dropped. What is returned is announced, and
    /// added to the store when there is one.
    pub fn record_blocking(&mut self, events: Vec<Event>, root: &str) -> (kept: Vec<Event>)
        requires
            old(self)@.wf(),
        ensures
            final(self)@ == recording(old(self)@, events.deep_view(), root@),
            final(self)@.wf(),
            kept.deep_view() == all_inside(events.deep_view(), root@),
    {
        let kept = only_inside(events, root);
        if !self.stored {
            let ghost before = self.memory.deep_view();
            let n: usize = kept.len();
            if n >= self.kept {
                let all = copies(&kept, n - self.kept);
                assert(last_of(before + kept.deep_view(), self.kept as nat) =~= all.deep_view());
                self.memory = all;
            } else {
                let room: usize = self.kept - n;
                let held: usize = self.memory.len();
                let from: usize = if held > room {
                    held - room
                } else {
                    0
                };
                let mut all = copies(&self.memory, from);
                let ghost start = all.deep_view();
                let mut i: usize = 0;
                assert(start + kept.deep_view().subrange(0, 0) =~= start);
                while i < kept.len()
                    invariant
                        i <= kept@.len(),
                        all.deep_view() == start + kept.deep_view().subrange(0, i as int),
                    decreases kept@.len() - i,
                {
                    assert(kept.deep_view()[i as int] == kept@[i as int]@);
                    push_to(&mut all, kept[i].clone());
                    i += 1;
                    assert(all.deep_view() =~= start + kept.deep_view().subrange(0, i as int));
                }
                assert(kept.deep_view().subrange(0, i as int) =~= kept.deep_view());
                assert(last_of(before + kept.deep_view(), self.kept as nat) =~= all.deep_view());
                self.memory = all;
            }
        }
        kept
    }

    /// The newest `limit` events, newest first, where memory keeps the log; a
    /// store is asked instead.
    pub fn recent(&self, limit: usize) -> (r: Option<Vec<Event>>)
        ensures
            r is None <==> self.stored,
            r matches Some(events) ==> events.deep_view() == last_of(
                self@.memory,
                if limit <= self.kept {
                    limit as nat
                } else {
                    self.kept as nat
                },
            ).reverse(),
    {
        if self.stored {
            return None;
        }
        let most: usize = if limit <= self.kept {
            limit
        } else {
            self.kept
        };
        let n: usize = self.memory.len();
        let count: usize = if n <= most {
            n
        } else {
            most
        };
        let ghost all = self.memory.deep_view();
        let mut out: Vec<Event> = Vec::new();
        let mut i: usize = 0;
        while i < count
            invariant
                i <= count <= n,
                n == self.memory@.len(),
                all == self.memory.deep_view(),
                out.deep_view().len() == i,
                forall|j: int| 0 <= j < i ==> out.deep_view()[j] == all[n - 1 - j],
            decreases count - i,
        {
            assert(all[n - 1 - i] == self.memory@[n - 1 - i]@);
            push_to(&mut out, self.memory[n - 1 - i].clone());
            i += 1;
        }
        assert(out.deep_view() =~= last_of(all, most as nat).reverse());
        Some(out)
    }
}

/// A local version a reconcile moved out of the way.
#[derive(Debug)]
pub struct ConflictRow {
    /// Unix seconds.
    pub at: i64,
    /// Where it was.
    pub original: String,
    /// Where it is now.
    pub rescued: String,
}

#[verifier::ext_equal]
pub struct ConflictModel {
    pub at: i64,
    pub original: Seq<char>,
    pub rescued: Seq<char>,
}

impl View for ConflictRow {
    type V = ConflictModel;

    open spec fn view(&self) -> ConflictModel {
        ConflictModel { at: self.at, original: self.original@, rescued: self.rescued@ }
    }
}

impl DeepView for ConflictRow {
    type V = ConflictModel;

    open spec fn deep_view(&self) -> ConflictModel {
        self.view()
    }
}

/// The first `n` rows whose file is still there (`gone`: it is not), in their
/// order.
pub open spec fn still_there(rows: Seq<ConflictModel>, gone: Seq<bool>, n: int) -> Seq<ConflictModel>
    decreases n,
{
    if n <= 0 {
        Seq::empty()
    } else if gone[n - 1] {
        still_there(rows, gone, n - 1)
    } else {
        still_there(rows, gone, n - 1).push(rows[n - 1])
    }
}

/// The rescued files of the first `n` rows that are gone.
pub open spec fn gone_of(rows: Seq<ConflictModel>, gone: Seq<bool>, n: int) -> Seq<Seq<char>>
    decreases n,
{
    if n <= 0 {
        Seq::empty()
    } else if gone[n - 1] {
        gone_of(rows, gone, n - 1).push(rows[n - 1].rescued)
    } else {
        gone_of(rows, gone, n - 1)
    }
}

/// Parts the conflicts: those whose rescued file is still there stay, in their
/// order; the rescued paths of the others are to be dropped from the store.
pub fn conflicts(rows: Vec<ConflictRow>, gone: &Vec<bool>) -> (r: (Vec<ConflictRow>, Vec<String>))
    requires
        rows@.len() == gone@.len(),
    ensures
        r.0.deep_view() == still_there(rows.deep_view(), gone@, rows@.len() as int),
        r.1.deep_view() == gone_of(rows.deep_view(), gone@, rows@.len() as int),
{
    let ghost all = rows.deep_view();
    let total: usize = rows.len();
    let mut kept: Vec<ConflictRow> = Vec::new();
    let mut dropped: Vec<String> = Vec::new();
    let mut i: usize = 0;
    assert(kept.deep_view() =~= Seq::<ConflictModel>::empty());
    assert(dropped.deep_view() =~= Seq::<Seq<char>>::empty());
    for row in it: rows
        invariant
            it.seq() == rows@,
            all == rows.deep_view(),
            rows@.len() == gone@.len() == total,
            i == it.index(),
            kept.deep_view() == still_there(all, gone@, i as int),
            dropped.deep_view() == gone_of(all, gone@, i as int),
    {
        assert(all[i as int] == rows@[i as int]@);
        if gone[i] {
            push_to(&mut dropped, row.rescued);
        } else {
            push_to(&mut kept, row);
        }
        i += 1;
    }
    (kept, dropped)
}

proof fn lemma_inside_of(events: Seq<EventModel>, root: Seq<char>, n: int)
    requires
        0 <= n <= events.len(),
    ensures
        inside_of(events, root, n).len() <= n,
        forall|k: int|
            0 <= k < inside_of(events, root, n).len() ==> is_inside(
                root,
                (#[trigger] inside_of(events, root, n)[k]).path,
            ),
    decreases n,
{
    if n > 0 {
        lemma_inside_of(events, root, n - 1);
    }
}

proof fn lemma_beneath_again(events: Seq<EventModel>, root: Seq<char>, n: int)
    requires
        0 <= n <= events.len(),
        forall|k: int| 0 <= k < n ==> is_inside(root, (#[trigger] events[k]).path),
    ensures
        beneath_of(events, encode_utf8(root), n) == events.subrange(0, n),
    decreases n,
{
    if n > 0 {
        lemma_beneath_again(events, root, n - 1);
        assert(events.subrange(0, n - 1).push(events[n - 1]) =~= events.subrange(0, n));
    } else {
        assert(events.subrange(0, 0) =~= Seq::empty());
    }
}

/// Nothing of another folder is kept: whatever is recorded, memory gains only
/// events inside the folder registered now.
pub proof fn law_only_this_folders_events_are_kept(
    a: ActivityModel,
    events: Seq<EventModel>,
    root: Seq<char>,
    e: EventModel,
)
    requires
        recording(a, events, root).memory.contains(e),
    ensures
        a.memory.contains(e) || is_inside(root, e.path),
{
    lemma_inside_of(events, root, events.len() as int);
    let all = a.memory + all_inside(events, root);
    let now = recording(a, events, root).memory;
    if !a.stored {
        let k = choose|k: int| 0 <= k < now.len() && now[k] == e;
        let m = if all.len() <= a.kept {
            k
        } else {
            k + all.len() - a.kept
        };
        assert(all[m] == e);
        if m < a.memory.len() {
            assert(a.memory[m] == e);
        } else {
            assert(all_inside(events, root)[m - a.memory.len()] == e);
        }
    }
}

/// Nothing recorded before a store is attached is lost: as long as memory has
/// room, a folder's events move into its store, all of them and in order.
pub proof fn law_attaching_loses_nothing(
    a: ActivityModel,
    first: Seq<EventModel>,
    then: Seq<EventModel>,
    root: Seq<char>,
)
    requires
        !a.stored,
        a.memory.len() == 0,
        all_inside(first, root).len() + all_inside(then, root).len() <= a.kept,
    ensures
        all_beneath(
            recording(recording(a, first, root), then, root).memory,
            encode_utf8(root),
        ) == all_inside(first, root) + all_inside(then, root),
{
    lemma_inside_of(first, root, first.len() as int);
    lemma_inside_of(then, root, then.len() as int);
    let once = recording(a, first, root);
    assert(a.memory + all_inside(first, root) =~= all_inside(first, root));
    assert(once.memory == all_inside(first, root));
    let twice = recording(once, then, root);
    assert(twice.memory == all_inside(first, root) + all_inside(then, root));
    lemma_beneath_again(twice.memory, root, twice.memory.len() as int);
    assert(twice.memory.subrange(0, twice.memory.len() as int) =~= twice.memory);
}

} // verus!
