//! A read-write folder's cycle: the stale-delta guard, and what waits.

use vstd::prelude::*;
use vstd::string::*;
use crate::listing::feed::{change_id, Change, ChangeModel};
use crate::activity::log::ConflictRow;
use crate::activity::Event;
use crate::listing::reconcile::{
    append_to, Applied, Commit, CommitModel, Look, LookModel, Said, Scope, ScopeModel,
};
use crate::listing::record::{conflict_rows, dropped_events, record, record_dropped, recorded_events};
use crate::listing::{drive_error, drive_trouble, CycleError, DriveError, DriveKind};
use crate::local::batch::{no_batch, with_name, Batch, BatchModel};
use crate::local::run::push_to;
use crate::path::{name_of, parent_of, AbsPath, RelPath};
use crate::sorted::{insert, inserted, inserted_all, SortedMap};
use crate::text::same_text;
use crate::tree::same_opt;

verus! {

/// What the outbox committed of an item since a fetch started.
#[derive(Debug)]
pub struct Committed {
    /// It was deleted.
    pub gone: bool,
    pub etag: Option<String>,
}

#[verifier::ext_equal]
pub struct CommittedModel {
    pub gone: bool,
    pub etag: Option<Seq<char>>,
}

impl View for Committed {
    type V = CommittedModel;

    open spec fn view(&self) -> CommittedModel {
        CommittedModel { gone: self.gone, etag: self.etag.deep_view() }
    }
}

impl DeepView for Committed {
    type V = CommittedModel;

    open spec fn deep_view(&self) -> CommittedModel {
        self.view()
    }
}

/// The change may be older than what the outbox committed while it was
/// fetched, or newer: it is about a committed item, and is not the commit
/// itself.
pub open spec fn is_stale(c: ChangeModel, committed: Map<Seq<char>, CommittedModel>) -> bool {
    committed.contains_key(change_id(c)) && match c {
        ChangeModel::Upsert(row) => {
            let commit = committed[change_id(c)];
            commit.gone || row.etag is None || row.etag != commit.etag
        },
        _ => true,
    }
}

/// Whether the change is read again from Graph.
pub fn stale(c: &Change, committed: &SortedMap<String, Committed>) -> (r: bool)
    requires
        committed.wf(),
    ensures
        r == is_stale(c@, committed@),
{
    match committed.get(c.id()) {
        None => false,
        Some(commit) => match c {
            Change::Upsert(row) => commit.gone || row.etag.is_none() || !same_opt(
                &row.etag,
                &commit.etag,
            ),
            _ => true,
        },
    }
}

/// The items of the first `n` changes that are read again, in their order.
pub open spec fn stale_of(changes: Seq<ChangeModel>, committed: Map<Seq<char>, CommittedModel>, n: int) -> Seq<
    Seq<char>,
>
    decreases n,
{
    if n <= 0 {
        Seq::empty()
    } else {
        let before = stale_of(changes, committed, n - 1);
        if is_stale(changes[n - 1], committed) {
            before.push(change_id(changes[n - 1]))
        } else {
            before
        }
    }
}

/// The first `n` changes, each stale one replaced by what Graph says of it now:
/// the answers `fresh`, in their order.
pub open spec fn guarded(
    changes: Seq<ChangeModel>,
    committed: Map<Seq<char>, CommittedModel>,
    fresh: Seq<ChangeModel>,
    n: int,
) -> Seq<ChangeModel>
    decreases n,
{
    if n <= 0 {
        Seq::empty()
    } else {
        let before = guarded(changes, committed, fresh, n - 1);
        if is_stale(changes[n - 1], committed) {
            before.push(fresh[stale_of(changes, committed, n - 1).len() as int])
        } else {
            before.push(changes[n - 1])
        }
    }
}

/// The items to read again, in their order.
pub fn stale_ids(changes: &Vec<Change>, committed: &SortedMap<String, Committed>) -> (r: Vec<String>)
    requires
        committed.wf(),
    ensures
        r.deep_view() == stale_of(changes.deep_view(), committed@, changes@.len() as int),
{
    let mut out: Vec<String> = Vec::new();
    let mut i: usize = 0;
    assert(out.deep_view() =~= Seq::<Seq<char>>::empty());
    while i < changes.len()
        invariant
            committed.wf(),
            i <= changes@.len(),
            out.deep_view() == stale_of(changes.deep_view(), committed@, i as int),
        decreases changes@.len() - i,
    {
        assert(changes.deep_view()[i as int] == changes@[i as int]@);
        if stale(&changes[i], committed) {
            push_to(&mut out, changes[i].id().clone());
        }
        i += 1;
    }
    out
}

proof fn lemma_stale_rises(
    changes: Seq<ChangeModel>,
    committed: Map<Seq<char>, CommittedModel>,
    a: int,
    b: int,
)
    requires
        0 <= a <= b,
    ensures
        stale_of(changes, committed, a).len() <= stale_of(changes, committed, b).len(),
    decreases b - a,
{
    if a < b {
        lemma_stale_rises(changes, committed, a, b - 1);
    }
}

/// The stale-delta guard: each entry of an item the outbox committed after the
/// fetch started is replaced by what Graph says of it now (`fresh`, in the
/// order of [`stale_ids`]), unless it is the commit itself.
pub fn guard_delta(changes: Vec<Change>, committed: &SortedMap<String, Committed>, fresh: Vec<Change>) -> (r: Vec<
    Change,
>)
    requires
        committed.wf(),
        fresh@.len() == stale_of(changes.deep_view(), committed@, changes@.len() as int).len(),
    ensures
        r.deep_view() == guarded(
            changes.deep_view(),
            committed@,
            fresh.deep_view(),
            changes@.len() as int,
        ),
{
    let ghost all = changes.deep_view();
    let ghost answers = fresh.deep_view();
    let total: usize = fresh.len();
    let mut fresh = fresh;
    let mut out: Vec<Change> = Vec::new();
    let mut f: usize = 0;
    assert(out.deep_view() =~= Seq::<ChangeModel>::empty());
    for change in it: changes
        invariant
            committed.wf(),
            it.seq() == changes@,
            all == changes.deep_view(),
            fresh@.len() == answers.len() == total,
            total == stale_of(all, committed@, all.len() as int).len(),
            f == stale_of(all, committed@, it.index()).len(),
            forall|k: int| f <= k < total ==> (#[trigger] fresh@[k])@ == answers[k],
            out.deep_view() == guarded(all, committed@, answers, it.index()),
    {
        let ghost n = it.index();
        assert(all[n] == changes@[n]@);
        proof {
            lemma_stale_rises(all, committed@, n + 1, all.len() as int);
        }
        if stale(&change, committed) {
            let mut answer = Change::Root(String::new());
            assert(fresh@[f as int]@ == answers[f as int]);
            std::mem::swap(&mut answer, &mut fresh[f]);
            push_to(&mut out, answer);
            f += 1;
        } else {
            push_to(&mut out, change);
        }
    }
    out
}

/// Item `id` as Graph has it now: what it answered, or that it is gone.
pub fn fresh(got: Result<Change, DriveError>, id: &str) -> (r: Result<Change, CycleError>)
    ensures
        match got {
            Ok(change) => r matches Ok(c) && c@ == change@,
            Err(e) => if e.kind == DriveKind::NotFound {
                r matches Ok(c) && c@ == ChangeModel::Delete(id@)
            } else {
                r matches Err(trouble) && trouble@ == drive_trouble(e.kind, e.text@)
            },
        },
{
    match got {
        Ok(change) => Ok(change),
        Err(e) => match e.kind {
            DriveKind::NotFound => Ok(Change::Delete(id.to_owned())),
            _ => Err(drive_error(e)),
        },
    }
}

/// The guard keeps every entry's place, and stages no stale one: what it stages
/// is the entry itself where it is not stale, and an answer of Graph's where it
/// is.
pub proof fn law_no_stale_entry_is_staged(
    changes: Seq<ChangeModel>,
    committed: Map<Seq<char>, CommittedModel>,
    fresh: Seq<ChangeModel>,
    n: int,
    k: int,
)
    requires
        0 <= k < n <= changes.len(),
        fresh.len() == stale_of(changes, committed, changes.len() as int).len(),
    ensures
        guarded(changes, committed, fresh, n).len() == n,
        !is_stale(changes[k], committed) ==> guarded(changes, committed, fresh, n)[k] == changes[k],
        is_stale(changes[k], committed) ==> fresh.contains(
            guarded(changes, committed, fresh, n)[k],
        ),
    decreases n,
{
    lemma_guarded_len(changes, committed, fresh, n - 1);
    if k < n - 1 {
        law_no_stale_entry_is_staged(changes, committed, fresh, n - 1, k);
    } else {
        lemma_stale_rises(changes, committed, n, changes.len() as int);
    }
}

proof fn lemma_guarded_len(
    changes: Seq<ChangeModel>,
    committed: Map<Seq<char>, CommittedModel>,
    fresh: Seq<ChangeModel>,
    n: int,
)
    requires
        0 <= n,
    ensures
        guarded(changes, committed, fresh, n).len() == n,
    decreases n,
{
    if n > 0 {
        lemma_guarded_len(changes, committed, fresh, n - 1);
    }
}

/// Whether `list` holds `x`.
fn holds(list: &Vec<String>, x: &str) -> (r: bool)
    ensures
        r == list.deep_view().contains(x@),
{
    let mut i: usize = 0;
    while i < list.len()
        invariant
            i <= list@.len(),
            forall|k: int| 0 <= k < i ==> list.deep_view()[k] != x@,
        decreases list@.len() - i,
    {
        assert(list.deep_view()[i as int] == list@[i as int]@);
        if same_text(list[i].as_str(), x) {
            assert(list.deep_view()[i as int] == x@);
            return true;
        }
        i += 1;
    }
    false
}

/// A read-write cycle finds nothing to do but store its link: no full reconcile
/// was asked for, nothing changed, everything deferred waits for a row of its
/// item, and nothing is to be looked at again or placed.
pub open spec fn idle(
    full_requested: bool,
    changes: nat,
    deferred: Seq<Seq<char>>,
    rows: Seq<Seq<char>>,
    revisit: nat,
    unplaced: nat,
) -> bool {
    &&& !full_requested
    &&& changes == 0
    &&& forall|k: int| 0 <= k < deferred.len() ==> rows.contains(#[trigger] deferred[k])
    &&& revisit == 0
    &&& unplaced == 0
}

/// Whether a read-write cycle has nothing to do but store its link.
pub fn is_idle(
    full_requested: bool,
    changes: usize,
    deferred: &Vec<String>,
    rows: &Vec<String>,
    revisit: usize,
    unplaced: usize,
) -> (r: bool)
    ensures
        r == idle(
            full_requested,
            changes as nat,
            deferred.deep_view(),
            rows.deep_view(),
            revisit as nat,
            unplaced as nat,
        ),
{
    let mut i: usize = 0;
    while i < deferred.len()
        invariant
            i <= deferred@.len(),
            forall|k: int| 0 <= k < i ==> rows.deep_view().contains(#[trigger] deferred.deep_view()[k]),
        decreases deferred@.len() - i,
    {
        assert(deferred.deep_view()[i as int] == deferred@[i as int]@);
        if !holds(rows, deferred[i].as_str()) {
            return false;
        }
        i += 1;
    }
    !full_requested && changes == 0 && revisit == 0 && unplaced == 0
}

fn add_all(to: &mut Vec<String>, more: Vec<String>)
    ensures
        final(to).deep_view() == inserted_all::<String>(old(to).deep_view(), more.deep_view()),
{
    let ghost first = to.deep_view();
    let ghost all = more.deep_view();
    assert(all.subrange(0, 0) =~= Seq::empty());
    for x in it: more
        invariant
            it.seq() == more@,
            all == more.deep_view(),
            to.deep_view() == inserted_all::<String>(first, all.subrange(0, it.index())),
    {
        let ghost n = it.index();
        assert(all[n] == more@[n]@);
        assert(all.subrange(0, n + 1).drop_last() =~= all.subrange(0, n));
        insert(to, x);
    }
    assert(all.subrange(0, all.len() as int) =~= all);
}

/// What a read-write cycle looks at: what changed, what the outbox committed
/// since the last cycle, and what has no local object on record; each once, in
/// order.
pub open spec fn looked_at(
    changed: Seq<Seq<char>>,
    revisit: Seq<Seq<char>>,
    unplaced: Seq<Seq<char>>,
) -> Seq<Seq<char>> {
    inserted_all::<String>(
        inserted_all::<String>(inserted_all::<String>(Seq::empty(), changed), revisit),
        unplaced,
    )
}

/// How a staged delta of `count` entries is reconciled in read-write mode.
pub fn rw_scope(
    full_requested: bool,
    count: usize,
    threshold: usize,
    changed: Vec<String>,
    revisit: Vec<String>,
    unplaced: Vec<String>,
) -> (r: Scope)
    ensures
        r@ == if full_requested || count > threshold {
            ScopeModel::Full
        } else {
            ScopeModel::Changed(
                looked_at(changed.deep_view(), revisit.deep_view(), unplaced.deep_view()),
            )
        },
{
    if full_requested || count > threshold {
        return Scope::Full;
    }
    let mut ids: Vec<String> = Vec::new();
    assert(ids.deep_view() =~= Seq::<Seq<char>>::empty());
    add_all(&mut ids, changed);
    add_all(&mut ids, revisit);
    add_all(&mut ids, unplaced);
    Scope::Changed(ids)
}

/// An item whose change was deferred, and which no row waits for any more, is
/// looked at again: the cycle does not go idle over it.
pub proof fn law_a_deferred_change_is_not_forgotten(
    full_requested: bool,
    changes: nat,
    deferred: Seq<Seq<char>>,
    rows: Seq<Seq<char>>,
    revisit: nat,
    unplaced: nat,
    id: Seq<char>,
)
    requires
        deferred.contains(id),
        !rows.contains(id),
    ensures
        !idle(full_requested, changes, deferred, rows, revisit, unplaced),
{
    let k = choose|k: int| 0 <= k < deferred.len() && deferred[k] == id;
    assert(deferred[k] == id);
}

/// What the disk does not show yet of a read-write reconcile.
#[derive(Debug)]
pub struct Unshown {
    /// Items a row removes from OneDrive: nothing of theirs waits.
    pub removing: Vec<String>,
    /// Items left as they are on disk.
    pub held: Vec<String>,
    /// Items the disk did not take.
    pub unsettled: Vec<String>,
    /// Items of which the disk took all but the content.
    pub content_waits: Vec<String>,
}

/// The change of `id` waits: it keeps its base, and is staged again.
pub open spec fn defers(u: Unshown, id: Seq<char>) -> bool {
    !u.removing.deep_view().contains(id) && (u.held.deep_view().contains(id)
        || u.unsettled.deep_view().contains(id))
}

/// Only the content of `id` waits.
pub open spec fn defers_content(u: Unshown, id: Seq<char>) -> bool {
    !u.removing.deep_view().contains(id) && !defers(u, id) && u.content_waits.deep_view().contains(id)
}

/// The first `n` of `changed` that wait.
pub open spec fn deferred_of(u: Unshown, changed: Seq<Seq<char>>, n: int) -> Seq<Seq<char>>
    decreases n,
{
    if n <= 0 {
        Seq::empty()
    } else if defers(u, changed[n - 1]) {
        deferred_of(u, changed, n - 1).push(changed[n - 1])
    } else {
        deferred_of(u, changed, n - 1)
    }
}

/// The first `n` of `changed` of which only the content waits.
pub open spec fn content_of(u: Unshown, changed: Seq<Seq<char>>, n: int) -> Seq<Seq<char>>
    decreases n,
{
    if n <= 0 {
        Seq::empty()
    } else if defers_content(u, changed[n - 1]) {
        content_of(u, changed, n - 1).push(changed[n - 1])
    } else {
        content_of(u, changed, n - 1)
    }
}

impl Unshown {
    /// Of the changed items, those whose change waits, and those of which only
    /// the content does.
    pub fn waits(&self, changed: &Vec<String>) -> (r: (Vec<String>, Vec<String>))
        ensures
            r.0.deep_view() == deferred_of(*self, changed.deep_view(), changed@.len() as int),
            r.1.deep_view() == content_of(*self, changed.deep_view(), changed@.len() as int),
    {
        let mut defer: Vec<String> = Vec::new();
        let mut content: Vec<String> = Vec::new();
        let mut i: usize = 0;
        assert(defer.deep_view() =~= Seq::<Seq<char>>::empty());
        assert(content.deep_view() =~= Seq::<Seq<char>>::empty());
        while i < changed.len()
            invariant
                i <= changed@.len(),
                defer.deep_view() == deferred_of(*self, changed.deep_view(), i as int),
                content.deep_view() == content_of(*self, changed.deep_view(), i as int),
            decreases changed@.len() - i,
        {
            assert(changed.deep_view()[i as int] == changed@[i as int]@);
            let id = changed[i].as_str();
            if !holds(&self.removing, id) {
                if holds(&self.held, id) || holds(&self.unsettled, id) {
                    push_to(&mut defer, changed[i].clone());
                } else if holds(&self.content_waits, id) {
                    push_to(&mut content, changed[i].clone());
                }
            }
            i += 1;
        }
        (defer, content)
    }
}

proof fn lemma_deferred(u: Unshown, changed: Seq<Seq<char>>, n: int)
    requires
        0 <= n <= changed.len(),
    ensures
        forall|id: Seq<char>| #[trigger] deferred_of(u, changed, n).contains(id) ==> defers(u, id),
        forall|id: Seq<char>| #[trigger]
            content_of(u, changed, n).contains(id) ==> defers_content(u, id),
        forall|k: int|
            0 <= k < n && defers(u, #[trigger] changed[k]) ==> deferred_of(u, changed, n).contains(
                changed[k],
            ),
        forall|k: int|
            0 <= k < n && defers_content(u, #[trigger] changed[k]) ==> content_of(
                u,
                changed,
                n,
            ).contains(changed[k]),
    decreases n,
{
    if n > 0 {
        lemma_deferred(u, changed, n - 1);
        let d = deferred_of(u, changed, n - 1);
        let c = content_of(u, changed, n - 1);
        let x = changed[n - 1];
        assert forall|id: Seq<char>| #[trigger] d.push(x).contains(id) <==> (d.contains(id) || id == x) by {
            vstd::seq_lib::lemma_seq_contains_after_push(d, x, id);
        }
        assert forall|id: Seq<char>| #[trigger] c.push(x).contains(id) <==> (c.contains(id) || id == x) by {
            vstd::seq_lib::lemma_seq_contains_after_push(c, x, id);
        }
    }
}

/// What waits, waits whole or for its content, never both; nothing a row
/// removes waits at all; and everything held or unsettled does, unless it is
/// being removed.
pub proof fn law_nothing_waits_twice(u: Unshown, changed: Seq<Seq<char>>, id: Seq<char>)
    requires
        changed.contains(id),
    ensures
        ({
            let defer = deferred_of(u, changed, changed.len() as int);
            let content = content_of(u, changed, changed.len() as int);
            &&& !(defer.contains(id) && content.contains(id))
            &&& u.removing.deep_view().contains(id) ==> !defer.contains(id) && !content.contains(id)
            &&& !u.removing.deep_view().contains(id) && (u.held.deep_view().contains(id)
                || u.unsettled.deep_view().contains(id)) ==> defer.contains(id)
        }),
{
    lemma_deferred(u, changed, changed.len() as int);
    let k = choose|k: int| 0 <= k < changed.len() && changed[k] == id;
    assert(changed[k] == id);
}

/// `b` with a place to examine.
pub open spec fn with_look(b: BatchModel, look: LookModel) -> BatchModel {
    if look.below {
        BatchModel { trees: inserted::<RelPath>(b.trees, look.rel), ..b }
    } else {
        match (parent_of(look.rel), name_of(look.rel)) {
            (Some(parent), Some(name)) => with_name(b, parent, name),
            _ => b,
        }
    }
}

/// The batch of the first `n` places.
pub open spec fn looks_batch(looks: Seq<LookModel>, n: int) -> BatchModel
    decreases n,
{
    if n <= 0 {
        no_batch()
    } else {
        with_look(looks_batch(looks, n - 1), looks[n - 1])
    }
}

/// What the watcher is to examine of what a reconcile kept, copied or made
/// local: each place by its name, or everything below it.
pub fn examine_batch(looks: &Vec<Look>) -> (r: Batch)
    ensures
        r.wf(),
        r@ == looks_batch(looks.deep_view(), looks@.len() as int),
{
    let mut batch = Batch::new();
    let mut i: usize = 0;
    while i < looks.len()
        invariant
            batch.wf(),
            i <= looks@.len(),
            batch@ == looks_batch(looks.deep_view(), i as int),
        decreases looks@.len() - i,
    {
        assert(looks.deep_view()[i as int] == looks@[i as int]@);
        if looks[i].below {
            batch.tree(&looks[i].rel);
        } else {
            match (looks[i].rel.parent(), looks[i].rel.file_name()) {
                (Some(parent), Some(name)) => {
                    batch.name(&parent, name);
                },
                _ => {},
            }
        }
        i += 1;
    }
    batch
}

/// What a read-write reconcile commits.
pub enum RwCommit {
    /// The staging area swapped in with its link; these changes keep their base
    /// and wait, and of these only the content does.
    Swap { link: String, defer: Vec<String>, content: Vec<String> },
    /// One page of a first listing, with the link to the page after it.
    Page { next: String },
}

#[verifier::ext_equal]
pub enum RwCommitModel {
    Swap { link: Seq<char>, defer: Seq<Seq<char>>, content: Seq<Seq<char>> },
    Page { next: Seq<char> },
}

impl View for RwCommit {
    type V = RwCommitModel;

    open spec fn view(&self) -> RwCommitModel {
        match self {
            RwCommit::Swap { link, defer, content } => RwCommitModel::Swap {
                link: link@,
                defer: defer.deep_view(),
                content: content.deep_view(),
            },
            RwCommit::Page { next } => RwCommitModel::Page { next: next@ },
        }
    }
}

/// What is committed so in read-write mode, the staging area differing by
/// `changed`.
pub open spec fn rw_commit_of(commit: CommitModel, changed: Seq<Seq<char>>, u: Unshown) -> RwCommitModel {
    match commit {
        CommitModel::Swap { link, .. } => RwCommitModel::Swap {
            link,
            defer: deferred_of(u, changed, changed.len() as int),
            content: content_of(u, changed, changed.len() as int),
        },
        CommitModel::Page { next } => RwCommitModel::Page { next },
    }
}

/// What a read-write reconcile commits, the staging area differing by
/// `changed`: what the disk does not show yet keeps its base.
pub fn rw_commit(commit: &Commit, changed: &Vec<String>, u: &Unshown) -> (r: RwCommit)
    ensures
        r@ == rw_commit_of(commit@, changed.deep_view(), *u),
{
    match commit {
        Commit::Swap { link, .. } => {
            let (defer, content) = u.waits(changed);
            RwCommit::Swap { link: link.clone(), defer, content }
        },
        Commit::Page { next } => RwCommit::Page { next: next.clone() },
    }
}

/// What follows a read-write reconcile once it is committed.
pub struct Settled {
    /// New conflicts.
    pub conflicts: Vec<ConflictRow>,
    /// What the activity log says, in order.
    pub events: Vec<Event>,
    /// What the watcher is to examine, if anything.
    pub examine: Option<Batch>,
}

/// What follows a read-write reconcile of the folder at `root` that is
/// committed: the rows dropped because their items, at `dropped`, are gone from
/// OneDrive are said, then what the reconcile did; and the watcher examines
/// what was kept, copied or made local.
pub fn settle(
    root: &AbsPath,
    applied: &Applied,
    said: Said,
    dropped: &Vec<RelPath>,
    listed: u64,
    at: i64,
) -> (r: Settled)
    ensures
        r.conflicts.deep_view() == conflict_rows(root@, applied@.rescued, at),
        r.events.deep_view() == dropped_events(root@, dropped.deep_view(), at) + recorded_events(
            root@,
            applied@,
            said,
            listed,
            at,
        ),
        match r.examine {
            Some(batch) => applied@.examine.len() > 0 && batch.wf() && batch@ == looks_batch(
                applied@.examine,
                applied@.examine.len() as int,
            ),
            None => applied@.examine.len() == 0,
        },
{
    let mut events = record_dropped(root, dropped, at);
    let (conflicts, more) = record(root, applied, said, listed, at);
    append_to(&mut events, more);
    let examine = if applied.examine.len() > 0 {
        Some(examine_batch(&applied.examine))
    } else {
        None
    };
    Settled { conflicts, events, examine }
}

} // verus!
