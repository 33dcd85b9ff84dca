//! One cycle: the steps it takes, from the account check to what it leaves
//! behind. Whoever runs it carries each step out and hands back what came of
//! it; a step that cannot be carried out ends the cycle.

use vstd::prelude::*;
use vstd::string::*;
use crate::listing::feed::{
    delta_scope, fetch_of, fetch_plan, holds_nothing_yet, left_for_later, listed_of, nothing_of_ours, page_commit,
    page_placed, page_scope, staged, Change, ChangeModel, Changes, CycleReport, DeltaFrom,
    DeltaNext, FeedStep, Fetch, FetchModel, Fetched, FetchedModel, FromModel, ListAll, NextModel, Page, Paged,
    Placed, Placing, PlacingModel, Todo,
};
use crate::listing::reconcile::{
    fits, nothing_applied, AppliedModel, Commit, CommitModel, Reconciled, ReconciledModel, Scope,
    ScopeModel,
};
use crate::listing::{
    account_of, check_account, drive_trouble, helper_ready, is_refusal, keeps_differences,
    kept_drive, known_drive, Account, CycleError, CycleErrorModel, DriveError, DriveKind, DriveRecord,
};

verus! {

/// What is prepared before the feed is asked.
#[derive(Debug, Clone, Copy, PartialEq, Eq, Structural)]
pub enum Prepare {
    /// Nothing: the feed goes on.
    Nothing,
    /// A first listing: the staging area holds what is stored. `mark`: it is
    /// noted as under way first.
    Placing { mark: bool },
    /// A full listing, into an empty staging area.
    Listing,
    /// The same, once the link of the listing that would not go on is
    /// forgotten.
    Again,
}

/// The next thing to do in a cycle.
#[derive(Debug)]
pub enum Action {
    /// The account's drive is asked for, and the store for the drive it
    /// records.
    AskDrive,
    /// The drive is recorded so, and the store asked for its links.
    ReadLinks(Account),
    /// The folder is looked at: whether anything is listed, and which item ids
    /// are found.
    LookAtFolder,
    /// The feed is asked.
    Ask { prepare: Prepare, from: DeltaFrom },
    /// A page of a full listing is staged; so many items are listed by now.
    StagePage { changes: Vec<Change>, listed: u64 },
    /// A delta is staged on what is stored. `read`: the store is asked what
    /// changed by it.
    StageDelta { changes: Vec<Change>, read: bool },
    /// A page of a first listing is staged, the folder made to match, and the
    /// page committed.
    Place { changes: Vec<Change>, scope: Scope, commit: Commit },
    /// The folder is made to match the staging area, which is then committed.
    Reconcile { scope: Scope, commit: Commit },
    /// Nothing changed: the link is stored.
    StoreLink(String),
}

#[verifier::ext_equal]
pub enum ActionModel {
    AskDrive,
    ReadLinks(Account),
    LookAtFolder,
    Ask { prepare: Prepare, from: FromModel },
    StagePage { changes: Seq<ChangeModel>, listed: nat },
    StageDelta { changes: Seq<ChangeModel>, read: bool },
    Place { changes: Seq<ChangeModel>, scope: ScopeModel, commit: CommitModel },
    Reconcile { scope: ScopeModel, commit: CommitModel },
    StoreLink(Seq<char>),
}

impl View for Action {
    type V = ActionModel;

    open spec fn view(&self) -> ActionModel {
        match self {
            Action::AskDrive => ActionModel::AskDrive,
            Action::ReadLinks(account) => ActionModel::ReadLinks(*account),
            Action::LookAtFolder => ActionModel::LookAtFolder,
            Action::Ask { prepare, from } => ActionModel::Ask { prepare: *prepare, from: from@ },
            Action::StagePage { changes, listed } => ActionModel::StagePage {
                changes: changes.deep_view(),
                listed: *listed as nat,
            },
            Action::StageDelta { changes, read } => ActionModel::StageDelta {
                changes: changes.deep_view(),
                read: *read,
            },
            Action::Place { changes, scope, commit } => ActionModel::Place {
                changes: changes.deep_view(),
                scope: scope@,
                commit: commit@,
            },
            Action::Reconcile { scope, commit } => ActionModel::Reconcile {
                scope: scope@,
                commit: commit@,
            },
            Action::StoreLink(link) => ActionModel::StoreLink(link@),
        }
    }
}

/// What came of an action.
#[derive(Debug)]
pub enum Event {
    /// The account's drive, and the one the store records.
    Drive { id: Result<String, DriveError>, stored: Option<String> },
    /// The stored link, and that of a first listing under way.
    Links { stored: Option<String>, resume_at: Option<String> },
    /// Whether nothing is listed, and the item ids found in the folder.
    Folder { none_listed: bool, ids: Vec<Option<String>> },
    /// What the feed answered.
    Page(Result<Page, DriveError>),
    /// It is staged; what changed by it, where that was asked for.
    Staged(Vec<String>),
    /// The folder matches and it is committed; what that did.
    Reconciled(Reconciled),
    /// The link is stored.
    Stored,
}

#[verifier::ext_equal]
pub struct PageModel {
    pub changes: Seq<ChangeModel>,
    pub next: NextModel,
}

#[verifier::ext_equal]
pub enum EventModel {
    Drive { id: Result<Seq<char>, (DriveKind, Seq<char>)>, stored: Option<Seq<char>> },
    Links { stored: Option<Seq<char>>, resume_at: Option<Seq<char>> },
    /// Whether the folder holds nothing of ours yet.
    Folder(bool),
    Page(Result<PageModel, (DriveKind, Seq<char>)>),
    Staged(Seq<Seq<char>>),
    Reconciled(ReconciledModel),
    Stored,
}

impl View for Event {
    type V = EventModel;

    open spec fn view(&self) -> EventModel {
        match self {
            Event::Drive { id, stored } => EventModel::Drive {
                id: match id {
                    Ok(id) => Ok(id@),
                    Err(e) => Err((e.kind, e.text@)),
                },
                stored: stored.deep_view(),
            },
            Event::Links { stored, resume_at } => EventModel::Links {
                stored: stored.deep_view(),
                resume_at: resume_at.deep_view(),
            },
            Event::Folder { none_listed, ids } => EventModel::Folder(
                nothing_of_ours(*none_listed, ids@),
            ),
            Event::Page(got) => EventModel::Page(
                match got {
                    Ok(page) => Ok(
                        PageModel { changes: page.changes.deep_view(), next: page.next@ },
                    ),
                    Err(e) => Err((e.kind, e.text@)),
                },
            ),
            Event::Staged(changed) => EventModel::Staged(changed.deep_view()),
            Event::Reconciled(done) => EventModel::Reconciled(done@),
            Event::Stored => EventModel::Stored,
        }
    }
}

/// Where a cycle stands: what it waits for.
enum Phase {
    Drive,
    Links,
    Folder,
    /// A page of the changes since the stored link.
    Feed(Changes),
    /// A page of a full listing.
    All(ListAll),
    /// That the page of a full listing is staged; then what comes after it.
    AllStaged(ListAll, DeltaNext),
    /// A page of a first listing.
    Placing(Placing),
    /// That the page of a first listing is placed.
    Placed(Placing),
    /// That the delta of `count` changes is staged.
    Delta { count: usize, link: String },
    /// The reconcile, after a delta of `count` changes.
    Reconciling { count: usize },
    /// That the link is stored.
    Storing,
}

#[verifier::ext_equal]
pub enum PhaseModel {
    Drive,
    Links,
    Folder,
    Feed(Seq<ChangeModel>),
    All(nat),
    AllStaged(nat, NextModel),
    Placing(PlacingModel),
    Placed(PlacingModel),
    Delta { count: nat, link: Seq<char> },
    Reconciling { count: nat },
    Storing,
}

/// One cycle under way.
pub struct Cycle {
    writes: bool,
    full_requested: bool,
    threshold: usize,
    record: Option<DriveRecord>,
    recorded: bool,
    upload_differences: bool,
    phase: Phase,
}

#[verifier::ext_equal]
pub struct CycleModel {
    /// The folder is read-write: what was fetched is taken up under the tree
    /// lock.
    pub writes: bool,
    /// The whole folder is to be reconciled.
    pub full_requested: bool,
    /// A delta with more changes than this is reconciled in full.
    pub threshold: nat,
    /// The drive's record beside the root, and whether this sync has written
    /// it already.
    pub record: Option<DriveRecord>,
    pub recorded: bool,
    /// What was downloaded and the listing under way leaves out is kept, to be
    /// uploaded again.
    pub upload_differences: bool,
    pub phase: PhaseModel,
}

impl View for Cycle {
    type V = CycleModel;

    closed spec fn view(&self) -> CycleModel {
        CycleModel {
            writes: self.writes,
            full_requested: self.full_requested,
            threshold: self.threshold as nat,
            record: self.record,
            recorded: self.recorded,
            upload_differences: self.upload_differences,
            phase: match self.phase {
                Phase::Drive => PhaseModel::Drive,
                Phase::Links => PhaseModel::Links,
                Phase::Folder => PhaseModel::Folder,
                Phase::Feed(changes) => PhaseModel::Feed(changes.changes.deep_view()),
                Phase::All(all) => PhaseModel::All(all.listed as nat),
                Phase::AllStaged(all, next) => PhaseModel::AllStaged(all.listed as nat, next@),
                Phase::Placing(placing) => PhaseModel::Placing(placing@),
                Phase::Placed(placing) => PhaseModel::Placed(placing@),
                Phase::Delta { count, link } => PhaseModel::Delta { count: count as nat, link: link@ },
                Phase::Reconciling { count } => PhaseModel::Reconciling { count: count as nat },
                Phase::Storing => PhaseModel::Storing,
            },
        }
    }
}

/// What comes after an event.
pub enum Next {
    /// The cycle goes on with this.
    Go(Cycle, Action),
    /// It went through. `full_next`: the next one is to reconcile the whole
    /// folder.
    Done { report: CycleReport, full_next: bool },
    /// A read-write folder's cycle has fetched this: it is taken up from here
    /// by [`RwCycle`](crate::listing::rw_cycle::RwCycle).
    Fetched(Fetched),
}

/// What a cycle that went through did.
#[verifier::ext_equal]
pub struct ReportModel {
    pub full: bool,
    pub changes: nat,
    pub applied: AppliedModel,
}

#[verifier::ext_equal]
pub enum NextStepModel {
    Go(CycleModel, ActionModel),
    Done { report: ReportModel, full_next: bool },
    Fetched(FetchedModel),
}

impl View for Next {
    type V = NextStepModel;

    open spec fn view(&self) -> NextStepModel {
        match self {
            Next::Go(cycle, action) => NextStepModel::Go(cycle@, action@),
            Next::Done { report, full_next } => NextStepModel::Done {
                report: ReportModel {
                    full: report.full,
                    changes: report.changes as nat,
                    applied: report.applied@,
                },
                full_next: *full_next,
            },
            Next::Fetched(fetched) => NextStepModel::Fetched(fetched@),
        }
    }
}

/// What it counts still fits.
pub open spec fn countable(phase: PhaseModel, e: EventModel) -> bool {
    match (phase, e) {
        (PhaseModel::All(listed), EventModel::Page(Ok(page))) => listed + page.changes.len() <= u64::MAX,
        (PhaseModel::Placed(p), EventModel::Reconciled(done)) => fits(p.placed.applied, done.applied),
        _ => true,
    }
}

/// The cycle in another phase, and what is to be done for it.
pub open spec fn on(c: CycleModel, phase: PhaseModel, action: ActionModel) -> Result<
    NextStepModel,
    CycleErrorModel,
> {
    Ok(NextStepModel::Go(CycleModel { phase, ..c }, action))
}

/// The cycle went through: what it did, after a delta of `count` changes. The
/// next one is a full one when files were left for later, or `again`.
pub open spec fn through(done: ReconciledModel, count: nat, again: bool) -> Result<
    NextStepModel,
    CycleErrorModel,
> {
    Ok(
        NextStepModel::Done {
            report: ReportModel { full: done.full, changes: count, applied: done.applied },
            full_next: again || done.applied.deferred > 0,
        },
    )
}

/// How the feed is asked first.
pub open spec fn asking(c: CycleModel, fetch: FetchModel) -> Result<NextStepModel, CycleErrorModel> {
    match fetch {
        FetchModel::Changes(link) => on(
            c,
            PhaseModel::Feed(Seq::empty()),
            ActionModel::Ask { prepare: Prepare::Nothing, from: FromModel::Link(link) },
        ),
        FetchModel::Placing { from, begin } => on(
            c,
            PhaseModel::Placing(
                PlacingModel {
                    full: true,
                    handed_over: false,
                    resuming: from is Link,
                    next: None,
                    placed: ReconciledModel { applied: nothing_applied(), full: false },
                },
            ),
            ActionModel::Ask { prepare: Prepare::Placing { mark: begin }, from },
        ),
        FetchModel::All => listing_all(c, Prepare::Listing, false),
    }
}

/// The drive is listed, whole; `upload_differences`: what was downloaded and the
/// listing leaves out is kept.
pub open spec fn listing_all(c: CycleModel, prepare: Prepare, upload_differences: bool) -> Result<
    NextStepModel,
    CycleErrorModel,
> {
    on(CycleModel { upload_differences, ..c }, PhaseModel::All(0), ActionModel::Ask { prepare, from: FromModel::Start })
}

/// A delta is reconciled in full.
pub open spec fn in_full(c: CycleModel, count: nat) -> bool {
    c.full_requested || count > c.threshold
}

/// A page of the changes since the stored link has come: the next one is asked
/// for, or all of them are staged, or there are none and the link is stored; a
/// read-write folder takes them up in its own way.
pub open spec fn fed(c: CycleModel, so_far: Seq<ChangeModel>, page: PageModel) -> Result<
    NextStepModel,
    CycleErrorModel,
> {
    let all = so_far + page.changes;
    match page.next {
        NextModel::Page(next) => on(
            c,
            PhaseModel::Feed(all),
            ActionModel::Ask { prepare: Prepare::Nothing, from: FromModel::Link(next) },
        ),
        NextModel::Done(link) => if c.writes {
            Ok(NextStepModel::Fetched(FetchedModel::Changes { changes: all, link }))
        } else if all.len() > 0 || c.full_requested {
            on(
                c,
                PhaseModel::Delta { count: all.len(), link },
                ActionModel::StageDelta { changes: all, read: !in_full(c, all.len()) },
            )
        } else {
            on(c, PhaseModel::Storing, ActionModel::StoreLink(link))
        },
    }
}

/// The whole folder is made to match a listing; a read-write folder takes it up
/// in its own way.
pub open spec fn listed_whole(c: CycleModel, link: Seq<char>) -> Result<NextStepModel, CycleErrorModel> {
    if c.writes {
        Ok(
            NextStepModel::Fetched(
                FetchedModel::Listed { link, upload_differences: c.upload_differences },
            ),
        )
    } else {
        on(
            c,
            PhaseModel::Reconciling { count: 0 },
            ActionModel::Reconcile {
                scope: ScopeModel::Full,
                commit: CommitModel::Swap { link, listing: false },
            },
        )
    }
}

/// A page of a first listing has been placed.
pub open spec fn placed_page(c: CycleModel, p: PlacingModel, done: ReconciledModel) -> Result<
    NextStepModel,
    CycleErrorModel,
> {
    let now = page_placed(p, done);
    match now.next {
        Some(next) => on(
            c,
            PhaseModel::Placing(PlacingModel { next: None, ..now }),
            ActionModel::Ask { prepare: Prepare::Nothing, from: FromModel::Link(next) },
        ),
        None => through(now.placed, 0, now.handed_over),
    }
}

/// What comes after `e`. One the cycle does not wait for cuts it short.
pub open spec fn stepped(c: CycleModel, e: EventModel) -> Result<NextStepModel, CycleErrorModel> {
    match (c.phase, e) {
        (PhaseModel::Drive, EventModel::Drive { id, stored }) => match id {
            Err((kind, text)) => Err(drive_trouble(kind, text)),
            Ok(id) => match account_of(id, stored, c.record, c.recorded) {
                Err(trouble) => Err(trouble),
                Ok(account) => on(c, PhaseModel::Links, ActionModel::ReadLinks(account)),
            },
        },
        (PhaseModel::Links, EventModel::Links { stored, resume_at }) => if stored is None
            && resume_at is None {
            on(c, PhaseModel::Folder, ActionModel::LookAtFolder)
        } else {
            asking(c, fetch_of(stored, resume_at, false))
        },
        (PhaseModel::Folder, EventModel::Folder(nothing_yet)) => asking(
            c,
            fetch_of(None, None, nothing_yet),
        ),
        (PhaseModel::Feed(so_far), EventModel::Page(got)) => match got {
            Ok(page) => fed(c, so_far, page),
            Err((kind, text)) => if kind is ResyncRequired {
                listing_all(c, Prepare::Listing, keeps_differences(kind))
            } else {
                Err(drive_trouble(kind, text))
            },
        },
        (PhaseModel::All(listed), EventModel::Page(got)) => match got {
            Ok(page) => {
                let now = listed + listed_of(page.changes, page.changes.len() as int);
                on(
                    c,
                    PhaseModel::AllStaged(now, page.next),
                    ActionModel::StagePage { changes: page.changes, listed: now },
                )
            },
            Err((kind, text)) => Err(drive_trouble(kind, text)),
        },
        (PhaseModel::AllStaged(listed, next), EventModel::Staged(_)) => match next {
            NextModel::Page(next) => on(
                c,
                PhaseModel::All(listed),
                ActionModel::Ask { prepare: Prepare::Nothing, from: FromModel::Link(next) },
            ),
            NextModel::Done(link) => listed_whole(c, link),
        },
        (PhaseModel::Placing(p), EventModel::Page(got)) => match got {
            Ok(page) => on(
                c,
                PhaseModel::Placed(
                    PlacingModel {
                        resuming: false,
                        next: match page.next {
                            NextModel::Page(next) => Some(next),
                            NextModel::Done(_) => None,
                        },
                        ..p
                    },
                ),
                ActionModel::Place {
                    changes: page.changes,
                    scope: page_scope(p, page.changes),
                    commit: page_commit(page.next),
                },
            ),
            Err((kind, text)) => if p.resuming && is_refusal(kind) {
                listing_all(c, Prepare::Again, keeps_differences(kind))
            } else {
                Err(drive_trouble(kind, text))
            },
        },
        (PhaseModel::Placed(p), EventModel::Reconciled(done)) => placed_page(c, p, done),
        (PhaseModel::Delta { count, link }, EventModel::Staged(changed)) => on(
            c,
            PhaseModel::Reconciling { count },
            ActionModel::Reconcile {
                scope: delta_scope(c.full_requested, count, c.threshold, changed),
                commit: CommitModel::Swap { link, listing: false },
            },
        ),
        (PhaseModel::Reconciling { count }, EventModel::Reconciled(done)) => through(
            done,
            count,
            false,
        ),
        (PhaseModel::Storing, EventModel::Stored) => through(
            ReconciledModel { applied: nothing_applied(), full: false },
            0,
            false,
        ),
        _ => Err(CycleErrorModel::Cancelled),
    }
}

/// How a result reads.
pub open spec fn next_view(r: Result<Next, CycleError>) -> Result<NextStepModel, CycleErrorModel> {
    match r {
        Ok(next) => Ok(next@),
        Err(e) => Err(e@),
    }
}

/// How a first step reads.
pub open spec fn first_view(r: Result<(Cycle, Action), CycleError>) -> Result<
    (CycleModel, ActionModel),
    CycleErrorModel,
> {
    match r {
        Ok((cycle, action)) => Ok((cycle@, action@)),
        Err(e) => Err(e@),
    }
}

/// How a cycle begins.
pub open spec fn begun(
    intercepted: bool,
    connected: bool,
    writes: bool,
    full_requested: bool,
    threshold: nat,
    record: Option<DriveRecord>,
    recorded: bool,
) -> Result<(CycleModel, ActionModel), CycleErrorModel> {
    if intercepted && connected {
        Ok(
            (
                CycleModel {
                    writes,
                    full_requested,
                    threshold,
                    record,
                    recorded,
                    upload_differences: false,
                    phase: PhaseModel::Drive,
                },
                ActionModel::AskDrive,
            ),
        )
    } else {
        Err(CycleErrorModel::NoHelper)
    }
}

impl Cycle {
    /// A cycle begins: not without interception and a connected helper, since
    /// nothing could be placed.
    pub fn begin(
        intercepted: bool,
        connected: bool,
        writes: bool,
        full_requested: bool,
        threshold: usize,
        record: Option<DriveRecord>,
        recorded: bool,
    ) -> (r: Result<(Cycle, Action), CycleError>)
        ensures
            first_view(r) == if intercepted && connected {
                Ok::<(CycleModel, ActionModel), CycleErrorModel>(
                    (
                        CycleModel {
                            writes,
                            full_requested,
                            threshold: threshold as nat,
                            record,
                            recorded,
                            upload_differences: false,
                            phase: PhaseModel::Drive,
                        },
                        ActionModel::AskDrive,
                    ),
                )
            } else {
                Err(CycleErrorModel::NoHelper)
            },
            first_view(r) == begun(
                intercepted,
                connected,
                writes,
                full_requested,
                threshold as nat,
                record,
                recorded,
            ),
    {
        helper_ready(intercepted, connected)?;
        let cycle = Cycle {
            writes,
            full_requested,
            threshold,
            record,
            recorded,
            upload_differences: false,
            phase: Phase::Drive,
        };
        Ok((cycle, Action::AskDrive))
    }

    fn go(self, phase: Phase, action: Action) -> (r: Result<Next, CycleError>)
        ensures
            next_view(r) == on(self@, (Cycle { phase, ..self })@.phase, action@),
    {
        let cycle = Cycle {
            writes: self.writes,
            full_requested: self.full_requested,
            threshold: self.threshold,
            record: self.record,
            recorded: self.recorded,
            upload_differences: self.upload_differences,
            phase,
        };
        Ok(Next::Go(cycle, action))
    }

    fn through(done: Reconciled, count: usize, again: bool) -> (r: Result<Next, CycleError>)
        ensures
            next_view(r) == through(done@, count as nat, again),
    {
        let full_next = again || left_for_later(&done);
        Ok(Next::Done { report: CycleReport::of(done, count), full_next })
    }

    fn ask(self, fetch: Fetch) -> (r: Result<Next, CycleError>)
        ensures
            next_view(r) == asking(self@, fetch@),
    {
        match fetch {
            Fetch::Changes(link) => self.go(
                Phase::Feed(Changes::new()),
                Action::Ask { prepare: Prepare::Nothing, from: DeltaFrom::Link(link) },
            ),
            Fetch::Placing { from, begin } => self.go(
                Phase::Placing(Placing::start(&from)),
                Action::Ask { prepare: Prepare::Placing { mark: begin }, from },
            ),
            Fetch::All => self.list_all(Prepare::Listing, false),
        }
    }

    fn list_all(self, prepare: Prepare, upload_differences: bool) -> (r: Result<Next, CycleError>)
        ensures
            next_view(r) == listing_all(self@, prepare, upload_differences),
    {
        let mut cycle = self;
        cycle.upload_differences = upload_differences;
        cycle.go(Phase::All(ListAll::new()), Action::Ask { prepare, from: DeltaFrom::Start })
    }

    /// A page of the changes since the stored link, or trouble.
    fn feed(self, changes: Changes, got: Result<Page, DriveError>) -> (r: Result<Next, CycleError>)
        ensures
            next_view(r) == match Event::Page(got)@ {
                EventModel::Page(Ok(page)) => fed(self@, changes.changes.deep_view(), page),
                EventModel::Page(Err((kind, text))) => if kind is ResyncRequired {
                    listing_all(self@, Prepare::Listing, keeps_differences(kind))
                } else {
                    Err(drive_trouble(kind, text))
                },
                _ => arbitrary(),
            },
    {
        let mut changes = changes;
        let link = match changes.page(got) {
            Err(e) => return Err(e),
            Ok(FeedStep::Ask(from)) => {
                return self.go(
                    Phase::Feed(changes),
                    Action::Ask { prepare: Prepare::Nothing, from },
                );
            },
            Ok(FeedStep::ListAgain { upload_differences }) => {
                return self.list_all(Prepare::Listing, upload_differences);
            },
            Ok(FeedStep::Done(link)) => link,
        };
        let fetched = Fetched::Changes { changes: changes.changes, link };
        if self.writes {
            return Ok(Next::Fetched(fetched));
        }
        let count = fetched.count();
        let read = !(self.full_requested || count > self.threshold);
        match fetched.todo(self.full_requested) {
            Todo::Stage { changes, link } => self.go(
                Phase::Delta { count, link },
                Action::StageDelta { changes, read },
            ),
            Todo::StoreLink(link) => self.go(Phase::Storing, Action::StoreLink(link)),
            Todo::Reconcile { scope, commit } => self.go(
                Phase::Reconciling { count },
                Action::Reconcile { scope, commit },
            ),
            Todo::Done(done) => Self::through(done, count, false),
        }
    }

    /// What comes after an event.
    pub fn next(self, e: Event) -> (r: Result<Next, CycleError>)
        requires
            countable(self@.phase, e@),
        ensures
            next_view(r) == stepped(self@, e@),
    {
        let Cycle {
            writes,
            full_requested,
            threshold,
            record,
            recorded,
            upload_differences,
            phase,
        } = self;
        let rest = Cycle {
            writes,
            full_requested,
            threshold,
            record,
            recorded,
            upload_differences,
            phase: Phase::Storing,
        };
        match (phase, e) {
            (Phase::Drive, Event::Drive { id, stored }) => {
                match check_account(id, &stored, &rest.record, rest.recorded) {
                    Err(trouble) => Err(trouble),
                    Ok(account) => rest.go(Phase::Links, Action::ReadLinks(account)),
                }
            },
            (Phase::Links, Event::Links { stored, resume_at }) => if stored.is_none()
                && resume_at.is_none() {
                rest.go(Phase::Folder, Action::LookAtFolder)
            } else {
                rest.ask(fetch_plan(stored, resume_at, false))
            },
            (Phase::Folder, Event::Folder { none_listed, ids }) => {
                let nothing_yet = holds_nothing_yet(none_listed, &ids);
                rest.ask(fetch_plan(None, None, nothing_yet))
            },
            (Phase::Feed(changes), Event::Page(got)) => rest.feed(changes, got),
            (Phase::All(all), Event::Page(got)) => {
                let mut all = all;
                match all.page(got) {
                    Err(trouble) => Err(trouble),
                    Ok(staging) => {
                        let listed = all.listed;
                        rest.go(
                            Phase::AllStaged(all, staging.next),
                            Action::StagePage { changes: staging.changes, listed },
                        )
                    },
                }
            },
            (Phase::AllStaged(all, next), Event::Staged(_)) => match next {
                DeltaNext::Page(next) => rest.go(
                    Phase::All(all),
                    Action::Ask { prepare: Prepare::Nothing, from: DeltaFrom::Link(next) },
                ),
                DeltaNext::Done(link) => {
                    let fetched = Fetched::Listed { link, upload_differences };
                    if rest.writes {
                        return Ok(Next::Fetched(fetched));
                    }
                    match fetched.todo(false) {
                        Todo::Reconcile { scope, commit } => rest.go(
                            Phase::Reconciling { count: 0 },
                            Action::Reconcile { scope, commit },
                        ),
                        _ => Err(CycleError::Cancelled),
                    }
                },
            },
            (Phase::Placing(placing), Event::Page(got)) => {
                let mut placing = placing;
                match placing.page(got) {
                    Err(trouble) => Err(trouble),
                    Ok(Paged::Restart { upload_differences }) => rest.list_all(
                        Prepare::Again,
                        upload_differences,
                    ),
                    Ok(Paged::Place { changes, scope, commit }) => rest.go(
                        Phase::Placed(placing),
                        Action::Place { changes, scope, commit },
                    ),
                }
            },
            (Phase::Placed(placing), Event::Reconciled(done)) => match placing.placed(done) {
                (Some(placing), Placed::Ask(from)) => rest.go(
                    Phase::Placing(placing),
                    Action::Ask { prepare: Prepare::Nothing, from },
                ),
                (_, Placed::Done { placed, again }) => Self::through(placed, 0, again),
                _ => Err(CycleError::Cancelled),
            },
            (Phase::Delta { count, link }, Event::Staged(changed)) => {
                let full = rest.full_requested;
                let most = rest.threshold;
                match staged(full, count, most, changed, link) {
                    Todo::Reconcile { scope, commit } => rest.go(
                        Phase::Reconciling { count },
                        Action::Reconcile { scope, commit },
                    ),
                    _ => Err(CycleError::Cancelled),
                }
            },
            (Phase::Reconciling { count }, Event::Reconciled(done)) => Self::through(
                done,
                count,
                false,
            ),
            (Phase::Storing, Event::Stored) => Self::through(Reconciled::default(), 0, false),
            _ => Err(CycleError::Cancelled),
        }
    }

    /// Whether what the event counts can be added.
    pub fn counts(&self, e: &Event) -> (r: bool)
        ensures
            r == countable(self@.phase, e@),
    {
        match (&self.phase, e) {
            (Phase::All(all), Event::Page(Ok(page))) => page.changes.len() as u64 <= u64::MAX
                - all.listed,
            (Phase::Placed(placing), Event::Reconciled(done)) => placing.placed.has_room(done),
            _ => true,
        }
    }
}

/// A sign-in as someone else ends the cycle before anything is asked of the
/// feed, whichever record knows the folder's drive; and so does a drive that
/// cannot be asked for.
pub proof fn law_another_account_is_asked_for_nothing(
    c: CycleModel,
    id: Seq<char>,
    stored: Option<Seq<char>>,
    kind: DriveKind,
    text: Seq<char>,
)
    requires
        c.phase is Drive,
    ensures
        known_drive(stored, kept_drive(c.record)) matches Some(known) ==> known != id ==> stepped(
            c,
            EventModel::Drive { id: Ok(id), stored },
        ) == Err::<NextStepModel, CycleErrorModel>(CycleErrorModel::OtherAccount(known)),
        stepped(c, EventModel::Drive { id: Err((kind, text)), stored }) is Err,
        stepped(c, EventModel::Drive { id: Ok(id), stored }) matches Ok(next) ==> (next matches
            NextStepModel::Go(_, action) && action is ReadLinks),
{
}

/// The changes of the first `n` pages, in their order.
pub open spec fn gathered(pages: Seq<PageModel>, n: int) -> Seq<ChangeModel>
    decreases n,
{
    if n <= 0 {
        Seq::empty()
    } else {
        gathered(pages, n - 1) + pages[n - 1].changes
    }
}

/// Each of the first `n` pages leads to another one; where the cycle is once
/// they have come. None of them touches the folder or the store.
pub open spec fn reading(c: CycleModel, pages: Seq<PageModel>, n: int) -> Option<CycleModel>
    decreases n,
{
    if n <= 0 {
        Some(c)
    } else {
        match reading(c, pages, n - 1) {
            None => None,
            Some(now) => match stepped(now, EventModel::Page(Ok(pages[n - 1]))) {
                Ok(NextStepModel::Go(then, ActionModel::Ask { prepare, from })) => if prepare
                    == Prepare::Nothing && Some(from) == link_after(pages[n - 1]) {
                    Some(then)
                } else {
                    None
                },
                _ => None,
            },
        }
    }
}

/// Where the page after this one is asked for.
pub open spec fn link_after(page: PageModel) -> Option<FromModel> {
    match page.next {
        NextModel::Page(next) => Some(FromModel::Link(next)),
        NextModel::Done(_) => None,
    }
}

proof fn lemma_reading(c: CycleModel, pages: Seq<PageModel>, n: int)
    requires
        c.phase == PhaseModel::Feed(Seq::empty()),
        0 <= n <= pages.len(),
        forall|k: int| 0 <= k < n ==> (#[trigger] pages[k]).next is Page,
    ensures
        reading(c, pages, n) == Some(CycleModel { phase: PhaseModel::Feed(gathered(pages, n)), ..c }),
    decreases n,
{
    if n > 0 {
        lemma_reading(c, pages, n - 1);
        assert(pages[n - 1].next is Page);
    } else {
        assert(c =~= (CycleModel { phase: PhaseModel::Feed(gathered(pages, n)), ..c }));
    }
}

/// A later cycle's delta, however many pages it has, changes the folder only
/// once all of it is in: until its last page every page leads to asking for the
/// next, and then the changes of all of them are staged, in their order, or,
/// if there are none and nobody asked for the whole folder, only the link is
/// stored. A read-write folder takes all of them up at once, too.
pub proof fn law_a_delta_changes_the_folder_only_once_it_is_all_in(
    c: CycleModel,
    pages: Seq<PageModel>,
    link: Seq<char>,
)
    requires
        c.phase == PhaseModel::Feed(Seq::empty()),
        pages.len() > 0,
        forall|k: int| 0 <= k < pages.len() - 1 ==> (#[trigger] pages[k]).next is Page,
        pages.last().next == NextModel::Done(link),
    ensures
        reading(c, pages, pages.len() - 1) matches Some(now) && {
            let all = gathered(pages, pages.len() as int);
            let last = stepped(now, EventModel::Page(Ok(pages.last())));
            if c.writes {
                last == Ok::<NextStepModel, CycleErrorModel>(
                    NextStepModel::Fetched(FetchedModel::Changes { changes: all, link }),
                )
            } else if all.len() > 0 || c.full_requested {
                last matches Ok(NextStepModel::Go(then, action)) && then.phase == (
                PhaseModel::Delta { count: all.len(), link }) && action == (
                ActionModel::StageDelta { changes: all, read: !in_full(c, all.len()) })
            } else {
                last matches Ok(NextStepModel::Go(then, action)) && then.phase is Storing
                    && action == ActionModel::StoreLink(link)
            }
        },
{
    lemma_reading(c, pages, pages.len() - 1);
}

/// What a delta was staged of is reconciled with the feed's own link to commit;
/// and a cycle that reconciled ends with what that did.
pub proof fn law_a_staged_delta_is_reconciled(
    c: CycleModel,
    count: nat,
    link: Seq<char>,
    changed: Seq<Seq<char>>,
    done: ReconciledModel,
)
    requires
        c.phase == (PhaseModel::Delta { count, link }),
    ensures
        stepped(c, EventModel::Staged(changed)) matches Ok(NextStepModel::Go(then, action)) && {
            &&& action matches ActionModel::Reconcile { scope, commit }
            &&& commit == (CommitModel::Swap { link, listing: false })
            &&& in_full(c, count) ==> scope is Full
            &&& !in_full(c, count) ==> scope == ScopeModel::Changed(changed)
            &&& stepped(then, EventModel::Reconciled(done)) == through(done, count, false)
        },
{
}

/// A first listing places each page as it comes, and asks for the next only
/// once that is committed with the link to it; the last one ends the cycle.
pub proof fn law_a_first_listing_places_each_page_as_it_comes(
    c: CycleModel,
    p: PlacingModel,
    page: PageModel,
    done: ReconciledModel,
)
    requires
        c.phase == PhaseModel::Placing(p),
    ensures
        stepped(c, EventModel::Page(Ok(page))) matches Ok(NextStepModel::Go(then, action)) && {
            &&& action matches ActionModel::Place { changes, commit, .. }
            &&& changes == page.changes
            &&& commit == page_commit(page.next)
            &&& match page.next {
                NextModel::Page(next) => stepped(then, EventModel::Reconciled(done)) matches Ok(
                    NextStepModel::Go(_, after),
                ) && after == (ActionModel::Ask {
                    prepare: Prepare::Nothing,
                    from: FromModel::Link(next),
                }),
                NextModel::Done(_) => stepped(then, EventModel::Reconciled(done)) matches Ok(
                    NextStepModel::Done { .. },
                ),
            }
        },
{
}

/// A drive listed again — its feed expired, or the link of a stopped listing
/// refused — is listed from its start into an empty staging area, and the whole
/// folder reconciled once at its end; a link handed out in this very cycle
/// that is refused fails it instead.
pub proof fn law_a_drive_listed_again_is_reconciled_whole(
    c: CycleModel,
    text: Seq<char>,
    upload_differences: bool,
    kind: DriveKind,
    listed: nat,
    link: Seq<char>,
    changed: Seq<Seq<char>>,
)
    ensures
        c.phase is Feed ==> stepped(
            c,
            EventModel::Page(Err((DriveKind::ResyncRequired { upload_differences }, text))),
        ) == listing_all(c, Prepare::Listing, upload_differences),
        c.phase matches PhaseModel::Placing(p) ==> is_refusal(kind) ==> stepped(
            c,
            EventModel::Page(Err((kind, text))),
        ) == if p.resuming {
            listing_all(c, Prepare::Again, keeps_differences(kind))
        } else {
            Err::<NextStepModel, CycleErrorModel>(CycleErrorModel::Offline(text))
        },
        c.phase == PhaseModel::AllStaged(listed, NextModel::Done(link)) ==> if c.writes {
            stepped(c, EventModel::Staged(changed)) == Ok::<NextStepModel, CycleErrorModel>(
                NextStepModel::Fetched(
                    FetchedModel::Listed { link, upload_differences: c.upload_differences },
                ),
            )
        } else {
            stepped(c, EventModel::Staged(changed)) matches Ok(NextStepModel::Go(_, action))
                && action == (ActionModel::Reconcile {
                scope: ScopeModel::Full,
                commit: CommitModel::Swap { link, listing: false },
            })
        },
{
}

/// A cycle that leaves a file for later makes the next one full.
pub proof fn law_what_is_left_for_later_makes_the_next_cycle_full(c: CycleModel, e: EventModel)
    ensures
        stepped(c, e) matches Ok(NextStepModel::Done { report, full_next }) ==> report.applied.deferred
            > 0 ==> full_next,
{
}

} // verus!
