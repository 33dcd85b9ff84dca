//! What a read-write cycle does with what it fetched, step by step, under the
//! tree lock: what the outbox committed meanwhile is read again, what waits is
//! staged with it, and the folder reconciled.

use vstd::prelude::*;
use vstd::string::*;
use crate::listing::feed::{ids, ids_of, Change, ChangeModel, Fetched, FetchedModel};
use crate::listing::reconcile::{
    append_to, nothing_applied, Commit, CommitModel, Reconciled, ReconciledModel, Scope, ScopeModel,
};
use crate::listing::rw::{
    fresh, guard_delta, guarded, idle, is_idle, looked_at, rw_scope, stale_ids, stale_of,
    Committed, CommittedModel,
};
use crate::listing::{drive_trouble, CycleError, CycleErrorModel, DriveError, DriveKind};
use crate::local::run::push_to;
use crate::sorted::SortedMap;

verus! {

/// The next thing to do.
#[derive(Debug)]
pub enum RwAction {
    /// The store is asked what the outbox committed since the fetch started.
    ReadCommitted,
    /// Graph is asked for this item again.
    ReadAgain(String),
    /// The store is asked what waits.
    ReadWaiting,
    /// These are staged over the new listing, and the store asked which items
    /// were deferred.
    StageOver(Vec<Change>),
    /// The staging area begins with what is stored; these are staged on it, in
    /// order, and the store asked what changed.
    Stage(Vec<Change>),
    /// Nothing is to do: the link is stored.
    StoreLink(String),
    /// The folder is made to match the staging area, which is then committed;
    /// the `consumed` deferred changes are done with, or deferred anew.
    /// `upload_differences`: what was downloaded and the listing leaves out is
    /// kept, to be uploaded again.
    Reconcile { scope: Scope, commit: Commit, consumed: Vec<String>, upload_differences: bool },
}

#[verifier::ext_equal]
pub enum RwActionModel {
    ReadCommitted,
    ReadAgain(Seq<char>),
    ReadWaiting,
    StageOver(Seq<ChangeModel>),
    Stage(Seq<ChangeModel>),
    StoreLink(Seq<char>),
    Reconcile {
        scope: ScopeModel,
        commit: CommitModel,
        consumed: Seq<Seq<char>>,
        upload_differences: bool,
    },
}

impl View for RwAction {
    type V = RwActionModel;

    open spec fn view(&self) -> RwActionModel {
        match self {
            RwAction::ReadCommitted => RwActionModel::ReadCommitted,
            RwAction::ReadAgain(id) => RwActionModel::ReadAgain(id@),
            RwAction::ReadWaiting => RwActionModel::ReadWaiting,
            RwAction::StageOver(changes) => RwActionModel::StageOver(changes.deep_view()),
            RwAction::Stage(changes) => RwActionModel::Stage(changes.deep_view()),
            RwAction::StoreLink(link) => RwActionModel::StoreLink(link@),
            RwAction::Reconcile {
                scope,
                commit,
                consumed,
                upload_differences,
            } => RwActionModel::Reconcile {
                scope: scope@,
                commit: commit@,
                consumed: consumed.deep_view(),
                upload_differences: *upload_differences,
            },
        }
    }
}

/// What came of an action.
pub enum RwEvent {
    /// What the outbox committed, by item.
    Committed(SortedMap<String, Committed>),
    /// What Graph answered.
    Item(Result<Change, DriveError>),
    /// The changes deferred, the items with a row in the outbox, those it
    /// committed since the last cycle, and how many have no local object.
    Waiting { deferred: Vec<Change>, rows: Vec<String>, revisit: Vec<String>, unplaced: usize },
    /// The items whose changes were deferred.
    Over(Vec<String>),
    /// What the staging area differs by, and its items with no local object.
    Staged { changed: Vec<String>, without: Vec<String> },
    /// The link is stored.
    Stored,
    /// The folder matches and it is committed; what that did.
    Reconciled(Reconciled),
}

#[verifier::ext_equal]
pub enum RwEventModel {
    Committed { committed: Map<Seq<char>, CommittedModel>, keys: Seq<Seq<char>> },
    Item(Result<ChangeModel, (DriveKind, Seq<char>)>),
    Waiting { deferred: Seq<ChangeModel>, rows: Seq<Seq<char>>, revisit: Seq<Seq<char>>, unplaced: nat },
    Over(Seq<Seq<char>>),
    Staged { changed: Seq<Seq<char>>, without: Seq<Seq<char>> },
    Stored,
    Reconciled(ReconciledModel),
}

impl View for RwEvent {
    type V = RwEventModel;

    open spec fn view(&self) -> RwEventModel {
        match self {
            RwEvent::Committed(committed) => RwEventModel::Committed {
                committed: committed@,
                keys: committed.keys(),
            },
            RwEvent::Item(got) => RwEventModel::Item(
                match got {
                    Ok(change) => Ok(change@),
                    Err(e) => Err((e.kind, e.text@)),
                },
            ),
            RwEvent::Waiting { deferred, rows, revisit, unplaced } => RwEventModel::Waiting {
                deferred: deferred.deep_view(),
                rows: rows.deep_view(),
                revisit: revisit.deep_view(),
                unplaced: *unplaced as nat,
            },
            RwEvent::Over(consumed) => RwEventModel::Over(consumed.deep_view()),
            RwEvent::Staged { changed, without } => RwEventModel::Staged {
                changed: changed.deep_view(),
                without: without.deep_view(),
            },
            RwEvent::Stored => RwEventModel::Stored,
            RwEvent::Reconciled(done) => RwEventModel::Reconciled(done@),
        }
    }
}

/// What is read again: the changes of a delta, or, without them, a full listing
/// that is in the staging area already.
enum RwPhase {
    Committed(Option<Vec<Change>>),
    /// The answers so far, to the items asked for again.
    Reading {
        changes: Option<Vec<Change>>,
        committed: SortedMap<String, Committed>,
        ids: Vec<String>,
        fresh: Vec<Change>,
    },
    Waiting(Vec<Change>),
    Over,
    Delta { consumed: Vec<String>, revisit: Vec<String> },
    Storing,
    Reconciling,
}

#[verifier::ext_equal]
pub enum RwPhaseModel {
    Committed(Option<Seq<ChangeModel>>),
    Reading {
        changes: Option<Seq<ChangeModel>>,
        committed: Map<Seq<char>, CommittedModel>,
        ids: Seq<Seq<char>>,
        fresh: Seq<ChangeModel>,
    },
    Waiting(Seq<ChangeModel>),
    Over,
    Delta { consumed: Seq<Seq<char>>, revisit: Seq<Seq<char>> },
    Storing,
    Reconciling,
}

/// A read-write cycle, once something was fetched.
pub struct RwCycle {
    full_requested: bool,
    threshold: usize,
    count: usize,
    link: String,
    upload_differences: bool,
    phase: RwPhase,
}

#[verifier::ext_equal]
pub struct RwCycleModel {
    /// The whole folder is to be reconciled.
    pub full_requested: bool,
    /// A delta with more changes than this is reconciled in full.
    pub threshold: nat,
    /// Entries in the delta; 0 for a full listing.
    pub count: nat,
    /// The link to ask from next time.
    pub link: Seq<char>,
    /// What was downloaded and the listing leaves out is kept, to be uploaded
    /// again; never for a delta.
    pub upload_differences: bool,
    pub phase: RwPhaseModel,
}

impl View for RwCycle {
    type V = RwCycleModel;

    closed spec fn view(&self) -> RwCycleModel {
        RwCycleModel {
            full_requested: self.full_requested,
            threshold: self.threshold as nat,
            count: self.count as nat,
            link: self.link@,
            upload_differences: self.upload_differences,
            phase: match self.phase {
                RwPhase::Committed(changes) => RwPhaseModel::Committed(changes.deep_view()),
                RwPhase::Reading { changes, committed, ids, fresh } => RwPhaseModel::Reading {
                    changes: changes.deep_view(),
                    committed: committed@,
                    ids: ids.deep_view(),
                    fresh: fresh.deep_view(),
                },
                RwPhase::Waiting(changes) => RwPhaseModel::Waiting(changes.deep_view()),
                RwPhase::Over => RwPhaseModel::Over,
                RwPhase::Delta { consumed, revisit } => RwPhaseModel::Delta {
                    consumed: consumed.deep_view(),
                    revisit: revisit.deep_view(),
                },
                RwPhase::Storing => RwPhaseModel::Storing,
                RwPhase::Reconciling => RwPhaseModel::Reconciling,
            },
        }
    }
}

/// What comes after an event.
pub enum RwNext {
    Go(RwCycle, RwAction),
    /// What the cycle did, and how many entries its delta had.
    Done(Reconciled, usize),
}

#[verifier::ext_equal]
pub enum RwNextModel {
    Go(RwCycleModel, RwActionModel),
    Done(ReconciledModel, nat),
}

impl View for RwNext {
    type V = RwNextModel;

    open spec fn view(&self) -> RwNextModel {
        match self {
            RwNext::Go(cycle, action) => RwNextModel::Go(cycle@, action@),
            RwNext::Done(done, count) => RwNextModel::Done(done@, *count as nat),
        }
    }
}

/// The items read again: the stale entries of a delta, or everything the outbox
/// committed while the drive was listed.
pub open spec fn read_again(
    changes: Option<Seq<ChangeModel>>,
    committed: Map<Seq<char>, CommittedModel>,
    keys: Seq<Seq<char>>,
) -> Seq<Seq<char>> {
    match changes {
        Some(changes) => stale_of(changes, committed, changes.len() as int),
        None => keys,
    }
}

pub open spec fn rw_on(c: RwCycleModel, phase: RwPhaseModel, action: RwActionModel) -> Result<
    RwNextModel,
    CycleErrorModel,
> {
    Ok(RwNextModel::Go(RwCycleModel { phase, ..c }, action))
}

/// Everything read again has been: the delta is guarded, or the answers go over
/// the listing.
pub open spec fn all_read(
    c: RwCycleModel,
    changes: Option<Seq<ChangeModel>>,
    committed: Map<Seq<char>, CommittedModel>,
    fresh: Seq<ChangeModel>,
) -> Result<RwNextModel, CycleErrorModel> {
    match changes {
        Some(changes) => rw_on(
            c,
            RwPhaseModel::Waiting(guarded(changes, committed, fresh, changes.len() as int)),
            RwActionModel::ReadWaiting,
        ),
        None => rw_on(c, RwPhaseModel::Over, RwActionModel::StageOver(fresh)),
    }
}

/// The next item is asked for, or all have been.
pub open spec fn reading_on(
    c: RwCycleModel,
    changes: Option<Seq<ChangeModel>>,
    committed: Map<Seq<char>, CommittedModel>,
    ids: Seq<Seq<char>>,
    fresh: Seq<ChangeModel>,
) -> Result<RwNextModel, CycleErrorModel> {
    if fresh.len() < ids.len() {
        rw_on(
            c,
            RwPhaseModel::Reading { changes, committed, ids, fresh },
            RwActionModel::ReadAgain(ids[fresh.len() as int]),
        )
    } else {
        all_read(c, changes, committed, fresh)
    }
}

/// What Graph says of `id` now, or the trouble there was asking.
pub open spec fn answered(got: Result<ChangeModel, (DriveKind, Seq<char>)>, id: Seq<char>) -> Result<
    ChangeModel,
    CycleErrorModel,
> {
    match got {
        Ok(change) => Ok(change),
        Err((kind, text)) => if kind == DriveKind::NotFound {
            Ok(ChangeModel::Delete(id))
        } else {
            Err(drive_trouble(kind, text))
        },
    }
}

/// What comes after `e`. One the cycle does not wait for cuts it short.
pub open spec fn rw_stepped(c: RwCycleModel, e: RwEventModel) -> Result<RwNextModel, CycleErrorModel> {
    match (c.phase, e) {
        (RwPhaseModel::Committed(changes), RwEventModel::Committed { committed, keys }) => reading_on(
            c,
            changes,
            committed,
            read_again(changes, committed, keys),
            Seq::empty(),
        ),
        (
            RwPhaseModel::Reading { changes, committed, ids, fresh },
            RwEventModel::Item(got),
        ) => match answered(got, ids[fresh.len() as int]) {
            Err(trouble) => Err(trouble),
            Ok(change) => reading_on(c, changes, committed, ids, fresh.push(change)),
        },
        (
            RwPhaseModel::Waiting(changes),
            RwEventModel::Waiting { deferred, rows, revisit, unplaced },
        ) => if idle(
            c.full_requested,
            changes.len(),
            ids_of(deferred),
            rows,
            revisit.len(),
            unplaced,
        ) {
            rw_on(c, RwPhaseModel::Storing, RwActionModel::StoreLink(c.link))
        } else {
            rw_on(
                c,
                RwPhaseModel::Delta { consumed: ids_of(deferred), revisit },
                RwActionModel::Stage(deferred + changes),
            )
        },
        (RwPhaseModel::Over, RwEventModel::Over(consumed)) => rw_on(
            c,
            RwPhaseModel::Reconciling,
            RwActionModel::Reconcile {
                scope: ScopeModel::Full,
                commit: CommitModel::Swap { link: c.link, listing: false },
                consumed,
                upload_differences: c.upload_differences,
            },
        ),
        (
            RwPhaseModel::Delta { consumed, revisit },
            RwEventModel::Staged { changed, without },
        ) => rw_on(
            c,
            RwPhaseModel::Reconciling,
            RwActionModel::Reconcile {
                scope: if c.full_requested || c.count > c.threshold {
                    ScopeModel::Full
                } else {
                    ScopeModel::Changed(looked_at(changed, revisit, without))
                },
                commit: CommitModel::Swap { link: c.link, listing: false },
                consumed,
                upload_differences: c.upload_differences,
            },
        ),
        (RwPhaseModel::Storing, RwEventModel::Stored) => Ok(
            RwNextModel::Done(
                ReconciledModel { applied: nothing_applied(), full: false },
                c.count,
            ),
        ),
        (RwPhaseModel::Reconciling, RwEventModel::Reconciled(done)) => Ok(
            RwNextModel::Done(done, c.count),
        ),
        _ => Err(CycleErrorModel::Cancelled),
    }
}

pub open spec fn rw_view(r: Result<RwNext, CycleError>) -> Result<RwNextModel, CycleErrorModel> {
    match r {
        Ok(next) => Ok(next@),
        Err(e) => Err(e@),
    }
}

/// How a read-write cycle takes up what was fetched.
pub open spec fn taken_up(f: FetchedModel, full_requested: bool, threshold: nat) -> RwNextModel {
    match f {
        FetchedModel::Placed(done) => RwNextModel::Done(done, 0),
        FetchedModel::Listed { link, upload_differences } => RwNextModel::Go(
            RwCycleModel {
                full_requested,
                threshold,
                count: 0,
                link,
                upload_differences,
                phase: RwPhaseModel::Committed(None),
            },
            RwActionModel::ReadCommitted,
        ),
        FetchedModel::Changes { changes, link } => RwNextModel::Go(
            RwCycleModel {
                full_requested,
                threshold,
                count: changes.len(),
                link,
                upload_differences: false,
                phase: RwPhaseModel::Committed(Some(changes)),
            },
            RwActionModel::ReadCommitted,
        ),
    }
}

fn key_list(map: &SortedMap<String, Committed>) -> (r: Vec<String>)
    requires
        map.wf(),
    ensures
        r.deep_view() == map.keys(),
{
    let mut out: Vec<String> = Vec::new();
    let mut i: usize = 0;
    assert(out.deep_view() =~= map.keys().subrange(0, 0));
    while i < map.len()
        invariant
            map.wf(),
            i <= map.keys().len(),
            out.deep_view() == map.keys().subrange(0, i as int),
        decreases map.keys().len() - i,
    {
        push_to(&mut out, map.key(i).clone());
        i += 1;
        assert(out.deep_view() =~= map.keys().subrange(0, i as int));
    }
    assert(map.keys().subrange(0, i as int) =~= map.keys());
    out
}

impl RwEvent {
    pub open spec fn wf(&self) -> bool {
        match self {
            RwEvent::Committed(committed) => committed.wf(),
            _ => true,
        }
    }
}

impl RwNext {
    pub open spec fn wf(&self) -> bool {
        match self {
            RwNext::Go(cycle, _) => cycle.wf(),
            RwNext::Done(..) => true,
        }
    }
}

impl RwCycle {
    /// While items are read again, the next one is one of those to read.
    pub closed spec fn wf(&self) -> bool {
        match self.phase {
            RwPhase::Reading { changes, committed, ids, fresh } => {
                &&& committed.wf()
                &&& fresh@.len() < ids@.len()
                &&& changes is Some ==> ids.deep_view() == stale_of(
                    changes->0.deep_view(),
                    committed@,
                    changes->0@.len() as int,
                )
            },
            _ => true,
        }
    }

    /// A read-write cycle takes up what was fetched.
    pub fn begin(fetched: Fetched, full_requested: bool, threshold: usize) -> (r: RwNext)
        ensures
            r.wf(),
            r@ == taken_up(fetched@, full_requested, threshold as nat),
    {
        match fetched {
            Fetched::Placed(done) => RwNext::Done(done, 0),
            Fetched::Listed { link, upload_differences } => RwNext::Go(
                RwCycle {
                    full_requested,
                    threshold,
                    count: 0,
                    link,
                    upload_differences,
                    phase: RwPhase::Committed(None),
                },
                RwAction::ReadCommitted,
            ),
            Fetched::Changes { changes, link } => RwNext::Go(
                RwCycle {
                    full_requested,
                    threshold,
                    count: changes.len(),
                    link,
                    upload_differences: false,
                    phase: RwPhase::Committed(Some(changes)),
                },
                RwAction::ReadCommitted,
            ),
        }
    }

    fn go(self, phase: RwPhase, action: RwAction) -> (r: Result<RwNext, CycleError>)
        requires
            (RwCycle { phase, ..self }).wf(),
        ensures
            r matches Ok(next) && next.wf(),
            rw_view(r) == rw_on(self@, (RwCycle { phase, ..self })@.phase, action@),
    {
        let cycle = RwCycle {
            full_requested: self.full_requested,
            threshold: self.threshold,
            count: self.count,
            link: self.link,
            upload_differences: self.upload_differences,
            phase,
        };
        Ok(RwNext::Go(cycle, action))
    }

    fn read_on(
        self,
        changes: Option<Vec<Change>>,
        committed: SortedMap<String, Committed>,
        ids: Vec<String>,
        fresh: Vec<Change>,
    ) -> (r: Result<RwNext, CycleError>)
        requires
            committed.wf(),
            fresh@.len() <= ids@.len(),
            changes is Some ==> ids.deep_view() == stale_of(
                changes->0.deep_view(),
                committed@,
                changes->0@.len() as int,
            ),
        ensures
            r matches Ok(next) && next.wf(),
            rw_view(r) == reading_on(
                self@,
                changes.deep_view(),
                committed@,
                ids.deep_view(),
                fresh.deep_view(),
            ),
    {
        if fresh.len() < ids.len() {
            let id = ids[fresh.len()].clone();
            assert(id@ == ids.deep_view()[fresh@.len() as int]);
            return self.go(
                RwPhase::Reading { changes, committed, ids, fresh },
                RwAction::ReadAgain(id),
            );
        }
        match changes {
            Some(changes) => {
                let guarded = guard_delta(changes, &committed, fresh);
                self.go(RwPhase::Waiting(guarded), RwAction::ReadWaiting)
            },
            None => self.go(RwPhase::Over, RwAction::StageOver(fresh)),
        }
    }

    /// What comes after an event.
    pub fn next(self, e: RwEvent) -> (r: Result<RwNext, CycleError>)
        requires
            self.wf(),
            e.wf(),
        ensures
            r matches Ok(next) ==> next.wf(),
            rw_view(r) == rw_stepped(self@, e@),
    {
        let RwCycle { full_requested, threshold, count, link, upload_differences, phase } = self;
        let rest = RwCycle {
            full_requested,
            threshold,
            count,
            link,
            upload_differences,
            phase: RwPhase::Storing,
        };
        match (phase, e) {
            (RwPhase::Committed(changes), RwEvent::Committed(committed)) => {
                let again = match &changes {
                    Some(changes) => stale_ids(changes, &committed),
                    None => key_list(&committed),
                };
                let none: Vec<Change> = Vec::new();
                assert(none.deep_view() =~= Seq::<ChangeModel>::empty());
                rest.read_on(changes, committed, again, none)
            },
            (RwPhase::Reading { changes, committed, ids, fresh: got_so_far }, RwEvent::Item(got)) => {
                let id = ids[got_so_far.len()].as_str();
                assert(id@ == ids.deep_view()[got_so_far@.len() as int]);
                match fresh(got, id) {
                    Err(trouble) => Err(trouble),
                    Ok(change) => {
                        let mut all = got_so_far;
                        push_to(&mut all, change);
                        rest.read_on(changes, committed, ids, all)
                    },
                }
            },
            (
                RwPhase::Waiting(changes),
                RwEvent::Waiting { deferred, rows, revisit, unplaced },
            ) => {
                let consumed = ids(&deferred);
                if is_idle(
                    rest.full_requested,
                    changes.len(),
                    &consumed,
                    &rows,
                    revisit.len(),
                    unplaced,
                ) {
                    let link = rest.link.clone();
                    return rest.go(RwPhase::Storing, RwAction::StoreLink(link));
                }
                let mut all = deferred;
                append_to(&mut all, changes);
                rest.go(RwPhase::Delta { consumed, revisit }, RwAction::Stage(all))
            },
            (RwPhase::Over, RwEvent::Over(consumed)) => {
                let link = rest.link.clone();
                rest.go(
                    RwPhase::Reconciling,
                    RwAction::Reconcile {
                        scope: Scope::Full,
                        commit: Commit::Swap { link, listing: false },
                        consumed,
                        upload_differences,
                    },
                )
            },
            (RwPhase::Delta { consumed, revisit }, RwEvent::Staged { changed, without }) => {
                let link = rest.link.clone();
                let scope = rw_scope(
                    rest.full_requested,
                    rest.count,
                    rest.threshold,
                    changed,
                    revisit,
                    without,
                );
                rest.go(
                    RwPhase::Reconciling,
                    RwAction::Reconcile {
                        scope,
                        commit: Commit::Swap { link, listing: false },
                        consumed,
                        upload_differences,
                    },
                )
            },
            (RwPhase::Storing, RwEvent::Stored) => Ok(
                RwNext::Done(Reconciled::default(), rest.count),
            ),
            (RwPhase::Reconciling, RwEvent::Reconciled(done)) => Ok(
                RwNext::Done(done, rest.count),
            ),
            _ => Err(CycleError::Cancelled),
        }
    }
}

/// Where the cycle is once the first `n` answers have come, each to the item
/// asked for then; nothing if it did anything but ask for the next.
pub open spec fn asked_again(c: RwCycleModel, answers: Seq<ChangeModel>, n: int) -> Option<RwCycleModel>
    decreases n,
{
    if n <= 0 {
        Some(c)
    } else {
        match asked_again(c, answers, n - 1) {
            None => None,
            Some(now) => match rw_stepped(now, RwEventModel::Item(Ok(answers[n - 1]))) {
                Ok(RwNextModel::Go(then, RwActionModel::ReadAgain(_))) => Some(then),
                _ => None,
            },
        }
    }
}

proof fn lemma_asked_again(
    c: RwCycleModel,
    changes: Option<Seq<ChangeModel>>,
    committed: Map<Seq<char>, CommittedModel>,
    ids: Seq<Seq<char>>,
    answers: Seq<ChangeModel>,
    n: int,
)
    requires
        c.phase == (RwPhaseModel::Reading { changes, committed, ids, fresh: Seq::empty() }),
        0 <= n < ids.len(),
        n <= answers.len(),
    ensures
        asked_again(c, answers, n) == Some(
            RwCycleModel {
                phase: RwPhaseModel::Reading {
                    changes,
                    committed,
                    ids,
                    fresh: answers.subrange(0, n),
                },
                ..c
            },
        ),
    decreases n,
{
    if n > 0 {
        lemma_asked_again(c, changes, committed, ids, answers, n - 1);
        assert(answers.subrange(0, n - 1).push(answers[n - 1]) =~= answers.subrange(0, n));
    } else {
        assert(answers.subrange(0, 0) =~= Seq::empty());
    }
}

/// What the outbox committed while a delta was fetched is read again before
/// anything is staged: each stale entry's item is asked for in its turn, and
/// only once all are answered is the delta taken, each stale entry replaced by
/// its answer.
pub proof fn law_what_was_committed_meanwhile_is_read_again(
    c: RwCycleModel,
    changes: Seq<ChangeModel>,
    committed: Map<Seq<char>, CommittedModel>,
    keys: Seq<Seq<char>>,
    answers: Seq<ChangeModel>,
)
    requires
        c.phase == RwPhaseModel::Committed(Some(changes)),
        answers.len() == stale_of(changes, committed, changes.len() as int).len(),
        answers.len() > 0,
    ensures
        rw_stepped(c, RwEventModel::Committed { committed, keys }) matches Ok(
            RwNextModel::Go(first, action),
        ) && {
            &&& action == RwActionModel::ReadAgain(
                stale_of(changes, committed, changes.len() as int)[0],
            )
            &&& asked_again(first, answers, answers.len() - 1) matches Some(last) && (rw_stepped(
                last,
                RwEventModel::Item(Ok(answers.last())),
            ) matches Ok(RwNextModel::Go(then, then_action)) && then_action is ReadWaiting
                && then.phase == RwPhaseModel::Waiting(
                guarded(changes, committed, answers, changes.len() as int),
            ))
        },
{
    let ids = stale_of(changes, committed, changes.len() as int);
    let first = RwCycleModel {
        phase: RwPhaseModel::Reading {
            changes: Some(changes),
            committed,
            ids,
            fresh: Seq::empty(),
        },
        ..c
    };
    lemma_asked_again(first, Some(changes), committed, ids, answers, answers.len() - 1);
    assert(answers.subrange(0, answers.len() - 1).push(answers.last()) =~= answers);
}

/// What was deferred is staged in front of what came since, and is what the
/// reconcile consumes; a cycle that has anything to do is never idle over it.
pub proof fn law_deferred_changes_are_staged_first(
    c: RwCycleModel,
    changes: Seq<ChangeModel>,
    deferred: Seq<ChangeModel>,
    rows: Seq<Seq<char>>,
    revisit: Seq<Seq<char>>,
    unplaced: nat,
    changed: Seq<Seq<char>>,
    without: Seq<Seq<char>>,
)
    requires
        c.phase == RwPhaseModel::Waiting(changes),
        changes.len() > 0 || revisit.len() > 0 || unplaced > 0 || c.full_requested,
    ensures
        rw_stepped(c, RwEventModel::Waiting { deferred, rows, revisit, unplaced }) matches Ok(
            RwNextModel::Go(then, action),
        ) && {
            &&& action == RwActionModel::Stage(deferred + changes)
            &&& rw_stepped(
                then,
                RwEventModel::Staged { changed, without },
            ) matches Ok(RwNextModel::Go(_, RwActionModel::Reconcile { consumed, commit, .. }))
                && consumed == ids_of(deferred) && commit == (CommitModel::Swap {
                link: c.link,
                listing: false,
            })
        },
{
}

/// A whole listing is reconciled whole, with what Graph said of what was
/// committed meanwhile staged over it, and commits its own link.
pub proof fn law_a_listing_is_reconciled_whole(c: RwCycleModel, consumed: Seq<Seq<char>>)
    requires
        c.phase is Over,
    ensures
        rw_stepped(c, RwEventModel::Over(consumed)) matches Ok(RwNextModel::Go(_, action))
            && action == (RwActionModel::Reconcile {
            scope: ScopeModel::Full,
            commit: CommitModel::Swap { link: c.link, listing: false },
            consumed,
            upload_differences: c.upload_differences,
        }),
{
}

/// What a resync said of the differences reaches the reconcile, whatever
/// happens in between: they are kept when it said so, and never for a delta.
pub proof fn law_a_resync_decides_what_becomes_of_the_differences(
    c: RwCycleModel,
    e: RwEventModel,
    link: Seq<char>,
    upload_differences: bool,
    changes: Seq<ChangeModel>,
    full_requested: bool,
    threshold: nat,
)
    ensures
        taken_up(
            FetchedModel::Listed { link, upload_differences },
            full_requested,
            threshold,
        ) matches RwNextModel::Go(begun, _) && begun.upload_differences == upload_differences,
        taken_up(
            FetchedModel::Changes { changes, link },
            full_requested,
            threshold,
        ) matches RwNextModel::Go(begun, _) && !begun.upload_differences,
        rw_stepped(c, e) matches Ok(RwNextModel::Go(then, action)) ==> {
            &&& then.upload_differences == c.upload_differences
            &&& action matches RwActionModel::Reconcile { upload_differences, .. }
                ==> upload_differences == c.upload_differences
        },
{
}

} // verus!
