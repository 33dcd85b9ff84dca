//! What the drive's feed says since the stored link: which of its ends to ask
//! from, and what each page it hands out leads to.

use vstd::prelude::*;
use vstd::string::*;
use crate::listing::reconcile::{
    append_to, fits, nothing_applied, with_page, Commit, CommitModel, Reconciled, ReconciledModel,
    Scope, ScopeModel,
};
use crate::listing::{
    drive_error, drive_trouble, is_refusal, keeps_differences, refused, uploads_differences,
    CycleError, DriveError, DriveKind,
};
use crate::local::run::push_to;
use crate::tree::{Row, RowModel};

verus! {

/// One entry of the feed.
#[derive(Debug)]
pub enum Change {
    /// The drive's root, by its id.
    Root(String),
    Upsert(Row),
    /// The item is gone, by its id.
    Delete(String),
}

#[verifier::ext_equal]
pub enum ChangeModel {
    Root(Seq<char>),
    Upsert(RowModel),
    Delete(Seq<char>),
}

impl View for Change {
    type V = ChangeModel;

    open spec fn view(&self) -> ChangeModel {
        match self {
            Change::Root(id) => ChangeModel::Root(id@),
            Change::Upsert(row) => ChangeModel::Upsert(row@),
            Change::Delete(id) => ChangeModel::Delete(id@),
        }
    }
}

impl DeepView for Change {
    type V = ChangeModel;

    open spec fn deep_view(&self) -> ChangeModel {
        self.view()
    }
}

/// The item a change is about.
pub open spec fn change_id(c: ChangeModel) -> Seq<char> {
    match c {
        ChangeModel::Root(id) => id,
        ChangeModel::Upsert(row) => row.id,
        ChangeModel::Delete(id) => id,
    }
}

impl Change {
    /// The item it is about.
    pub fn id(&self) -> (r: &String)
        ensures
            r@ == change_id(self@),
    {
        match self {
            Change::Root(id) => id,
            Change::Upsert(row) => &row.id,
            Change::Delete(id) => id,
        }
    }
}

/// The items of the first `n` changes, in their order.
pub open spec fn ids_of(changes: Seq<ChangeModel>) -> Seq<Seq<char>> {
    Seq::new(changes.len(), |k: int| change_id(changes[k]))
}

/// The items the changes are about, in their order.
pub fn ids(changes: &Vec<Change>) -> (r: Vec<String>)
    ensures
        r.deep_view() == ids_of(changes.deep_view()),
{
    let mut out: Vec<String> = Vec::new();
    let mut i: usize = 0;
    let ghost all = ids_of(changes.deep_view());
    assert(out.deep_view() =~= all.subrange(0, 0));
    while i < changes.len()
        invariant
            i <= changes@.len(),
            all == ids_of(changes.deep_view()),
            out.deep_view() == all.subrange(0, i as int),
        decreases changes@.len() - i,
    {
        assert(changes.deep_view()[i as int] == changes@[i as int]@);
        push_to(&mut out, changes[i].id().clone());
        i += 1;
        assert(out.deep_view() =~= all.subrange(0, i as int));
    }
    assert(all.subrange(0, i as int) =~= all);
    out
}

/// How many of the first `n` changes list an item.
pub open spec fn listed_of(changes: Seq<ChangeModel>, n: int) -> nat
    decreases n,
{
    if n <= 0 {
        0
    } else {
        listed_of(changes, n - 1) + if changes[n - 1] is Upsert {
            1nat
        } else {
            0nat
        }
    }
}

/// How many of the changes list an item: the root and what is gone do not.
pub fn listed(changes: &Vec<Change>) -> (r: u64)
    ensures
        r == listed_of(changes.deep_view(), changes@.len() as int),
        r <= changes@.len(),
{
    let mut n: u64 = 0;
    let mut i: usize = 0;
    while i < changes.len()
        invariant
            i <= changes@.len(),
            n == listed_of(changes.deep_view(), i as int),
            n <= i,
        decreases changes@.len() - i,
    {
        assert(changes.deep_view()[i as int] == changes@[i as int]@);
        match &changes[i] {
            Change::Upsert(_) => {
                n += 1;
            },
            _ => {},
        }
        i += 1;
    }
    n
}

/// Where the feed is asked from.
#[derive(Debug)]
pub enum DeltaFrom {
    Start,
    Link(String),
}

#[verifier::ext_equal]
pub enum FromModel {
    Start,
    Link(Seq<char>),
}

impl View for DeltaFrom {
    type V = FromModel;

    open spec fn view(&self) -> FromModel {
        match self {
            DeltaFrom::Start => FromModel::Start,
            DeltaFrom::Link(link) => FromModel::Link(link@),
        }
    }
}

/// What comes after a page.
#[derive(Debug)]
pub enum DeltaNext {
    /// The link to the page after it.
    Page(String),
    /// The feed is read: the link to ask from next time.
    Done(String),
}

#[verifier::ext_equal]
pub enum NextModel {
    Page(Seq<char>),
    Done(Seq<char>),
}

impl View for DeltaNext {
    type V = NextModel;

    open spec fn view(&self) -> NextModel {
        match self {
            DeltaNext::Page(link) => NextModel::Page(link@),
            DeltaNext::Done(link) => NextModel::Done(link@),
        }
    }
}

/// One page of the feed.
#[derive(Debug)]
pub struct Page {
    pub changes: Vec<Change>,
    pub next: DeltaNext,
}

/// How a cycle asks the feed.
pub enum Fetch {
    /// The changes since `link`.
    Changes(String),
    /// A first listing, placed page by page. `begin`: it starts now, and is
    /// under way from here on.
    Placing { from: DeltaFrom, begin: bool },
    /// A full listing, reconciled once at its end.
    All,
}

#[verifier::ext_equal]
pub enum FetchModel {
    Changes(Seq<char>),
    Placing { from: FromModel, begin: bool },
    All,
}

impl View for Fetch {
    type V = FetchModel;

    open spec fn view(&self) -> FetchModel {
        match self {
            Fetch::Changes(link) => FetchModel::Changes(link@),
            Fetch::Placing { from, begin } => FetchModel::Placing { from: from@, begin: *begin },
            Fetch::All => FetchModel::All,
        }
    }
}

/// How a cycle asks the feed, the store holding the link `stored` and a first
/// listing under way at `resume_at`; `nothing_yet`: the folder holds nothing of
/// ours.
pub open spec fn fetch_of(stored: Option<Seq<char>>, resume_at: Option<Seq<char>>, nothing_yet: bool) -> FetchModel {
    match (stored, resume_at) {
        (Some(link), _) => FetchModel::Changes(link),
        (None, Some(next)) => FetchModel::Placing {
            from: if next.len() == 0 {
                FromModel::Start
            } else {
                FromModel::Link(next)
            },
            begin: false,
        },
        (None, None) => if nothing_yet {
            FetchModel::Placing { from: FromModel::Start, begin: true }
        } else {
            FetchModel::All
        },
    }
}

/// How a cycle asks the feed. Whether the folder holds nothing of ours is
/// looked at only where neither link is stored; part-way through a listing an
/// item of ours not listed yet cannot be told from one that is gone.
pub fn fetch_plan(stored: Option<String>, resume_at: Option<String>, nothing_yet: bool) -> (r: Fetch)
    ensures
        r@ == fetch_of(stored.deep_view(), resume_at.deep_view(), nothing_yet),
{
    match (stored, resume_at) {
        (Some(link), _) => Fetch::Changes(link),
        (None, Some(next)) => if next.as_str().unicode_len() == 0 {
            Fetch::Placing { from: DeltaFrom::Start, begin: false }
        } else {
            Fetch::Placing { from: DeltaFrom::Link(next), begin: false }
        },
        (None, None) => if nothing_yet {
            Fetch::Placing { from: DeltaFrom::Start, begin: true }
        } else {
            Fetch::All
        },
    }
}

/// Nothing is listed yet, and nothing found in the folder carries an item id.
pub open spec fn nothing_of_ours(none_listed: bool, ids: Seq<Option<String>>) -> bool {
    none_listed && forall|k: int| 0 <= k < ids.len() ==> (#[trigger] ids[k]) is None
}

/// A first listing can be placed page by page: nothing is listed yet, and
/// nothing in the folder (`ids`: the item ids found there) carries an item id.
pub fn holds_nothing_yet(none_listed: bool, ids: &Vec<Option<String>>) -> (r: bool)
    ensures
        r == (none_listed && forall|k: int| 0 <= k < ids@.len() ==> (#[trigger] ids@[k]) is None),
        r == nothing_of_ours(none_listed, ids@),
{
    let mut i: usize = 0;
    while i < ids.len()
        invariant
            i <= ids@.len(),
            forall|k: int| 0 <= k < i ==> (#[trigger] ids@[k]) is None,
        decreases ids@.len() - i,
    {
        if ids[i].is_some() {
            return false;
        }
        i += 1;
    }
    none_listed
}

/// What comes after a page of changes.
pub enum FeedStep {
    /// The next page is asked for.
    Ask(DeltaFrom),
    /// All the changes are in, and the link to ask from next time.
    Done(String),
    /// The feed has expired: the drive is listed again.
    ListAgain { upload_differences: bool },
}

/// The changes since a link, as their pages come.
pub struct Changes {
    pub changes: Vec<Change>,
}

impl Changes {
    pub fn new() -> (r: Self)
        ensures
            r.changes.deep_view() == Seq::<ChangeModel>::empty(),
    {
        let r = Changes { changes: Vec::new() };
        assert(r.changes.deep_view() =~= Seq::<ChangeModel>::empty());
        r
    }

    /// A page has come, or trouble: an expired feed becomes a full listing.
    pub fn page(&mut self, got: Result<Page, DriveError>) -> (r: Result<FeedStep, CycleError>)
        ensures
            match got {
                Ok(page) => {
                    &&& final(self).changes.deep_view() == old(self).changes.deep_view()
                        + page.changes.deep_view()
                    &&& match page.next@ {
                        NextModel::Page(next) => r matches Ok(FeedStep::Ask(from)) && from@
                            == FromModel::Link(next),
                        NextModel::Done(link) => r matches Ok(FeedStep::Done(l)) && l@ == link,
                    }
                },
                Err(e) => {
                    &&& *final(self) == *old(self)
                    &&& if e.kind is ResyncRequired {
                        r matches Ok(FeedStep::ListAgain { upload_differences })
                            && upload_differences == keeps_differences(e.kind)
                    } else {
                        r matches Err(trouble) && trouble@ == drive_trouble(e.kind, e.text@)
                    }
                },
            },
    {
        match got {
            Ok(page) => {
                append_to(&mut self.changes, page.changes);
                match page.next {
                    DeltaNext::Page(next) => Ok(FeedStep::Ask(DeltaFrom::Link(next))),
                    DeltaNext::Done(link) => Ok(FeedStep::Done(link)),
                }
            },
            Err(e) => match e.kind {
                DriveKind::ResyncRequired { upload_differences } => Ok(
                    FeedStep::ListAgain { upload_differences },
                ),
                _ => Err(drive_error(e)),
            },
        }
    }
}

/// A full listing into the staging area, as its pages come: how many items
/// were listed.
pub struct ListAll {
    pub listed: u64,
}

/// What a page of a full listing leads to: its changes are staged and the count
/// published first.
pub struct Staging {
    pub changes: Vec<Change>,
    /// The next page is asked for, or the listing is in.
    pub next: DeltaNext,
}

impl ListAll {
    pub fn new() -> (r: Self)
        ensures
            r.listed == 0,
    {
        ListAll { listed: 0 }
    }

    /// A page has come, or trouble.
    pub fn page(&mut self, got: Result<Page, DriveError>) -> (r: Result<Staging, CycleError>)
        requires
            got matches Ok(page) ==> old(self).listed + page.changes@.len() <= u64::MAX,
        ensures
            match got {
                Ok(page) => {
                    &&& final(self).listed == old(self).listed + listed_of(
                        page.changes.deep_view(),
                        page.changes@.len() as int,
                    )
                    &&& r matches Ok(staging) && staging.changes.deep_view()
                        == page.changes.deep_view() && staging.next@ == page.next@
                },
                Err(e) => {
                    &&& *final(self) == *old(self)
                    &&& r matches Err(trouble) && trouble@ == drive_trouble(e.kind, e.text@)
                },
            },
    {
        match got {
            Ok(page) => {
                let n = listed(&page.changes);
                self.listed = self.listed + n;
                Ok(Staging { changes: page.changes, next: page.next })
            },
            Err(e) => Err(drive_error(e)),
        }
    }
}

/// A first listing placed page by page. Each page is staged, then placed and
/// committed with the link to the page after it; the last one swaps the staging
/// area in, which ends the listing.
pub struct Placing {
    /// The next page is reconciled in full: none has been placed yet.
    pub full: bool,
    /// A later page had to hand over to a full reconcile.
    pub handed_over: bool,
    /// The link asked for is the one a stopped listing left: the only one that
    /// may be refused and send the listing back to the start.
    pub resuming: bool,
    /// The page being placed: its successor, if it has one.
    pub next: Option<String>,
    /// What the pages so far did.
    pub placed: Reconciled,
}

#[verifier::ext_equal]
pub struct PlacingModel {
    pub full: bool,
    pub handed_over: bool,
    pub resuming: bool,
    pub next: Option<Seq<char>>,
    pub placed: ReconciledModel,
}

impl View for Placing {
    type V = PlacingModel;

    open spec fn view(&self) -> PlacingModel {
        PlacingModel {
            full: self.full,
            handed_over: self.handed_over,
            resuming: self.resuming,
            next: self.next.deep_view(),
            placed: self.placed@,
        }
    }
}

/// What a page of a first listing leads to.
pub enum Paged {
    /// The drive would not go on: it is listed again from the start, whole.
    Restart { upload_differences: bool },
    /// The changes are staged, placed so far, and committed so.
    Place { changes: Vec<Change>, scope: Scope, commit: Commit },
}

/// What comes once a page is placed and committed.
pub enum Placed {
    /// The next page is asked for.
    Ask(DeltaFrom),
    /// The listing is in. `again`: it is reconciled once more, whole, at the
    /// next cycle.
    Done { placed: Reconciled, again: bool },
}

/// How much a page of a first listing looks at.
pub open spec fn page_scope(p: PlacingModel, changes: Seq<ChangeModel>) -> ScopeModel {
    if p.full {
        ScopeModel::Full
    } else {
        ScopeModel::Changed(ids_of(changes))
    }
}

/// What a page of a first listing is committed with.
pub open spec fn page_commit(next: NextModel) -> CommitModel {
    match next {
        NextModel::Page(next) => CommitModel::Page { next },
        NextModel::Done(link) => CommitModel::Swap { link, listing: true },
    }
}

/// A first listing once a page of it was placed: `done` is what that did. Still
/// full until a page is placed at all; and one that had to hand over found the
/// folder not matching part-way.
pub open spec fn page_placed(p: PlacingModel, done: ReconciledModel) -> PlacingModel {
    PlacingModel {
        full: p.full && !done.full,
        handed_over: p.handed_over || (!p.full && done.full),
        placed: with_page(p.placed, done),
        ..p
    }
}

impl Placing {
    /// A first listing, from the start or from where a stopped one got to.
    pub fn start(from: &DeltaFrom) -> (r: Self)
        ensures
            r@ == (PlacingModel {
                full: true,
                handed_over: false,
                resuming: from@ is Link,
                next: None,
                placed: ReconciledModel { applied: nothing_applied(), full: false },
            }),
    {
        let resuming = match from {
            DeltaFrom::Start => false,
            DeltaFrom::Link(_) => true,
        };
        Placing { full: true, handed_over: false, resuming, next: None, placed: Reconciled::default() }
    }

    /// A page has come, or trouble. A resume link the drive refuses lists the
    /// drive again from the start; one it handed out in this cycle and then
    /// turns down fails the cycle, and the next cycle resumes from it.
    pub fn page(&mut self, got: Result<Page, DriveError>) -> (r: Result<Paged, CycleError>)
        ensures
            match got {
                Ok(page) => {
                    &&& final(self)@ == (PlacingModel {
                        resuming: false,
                        next: match page.next@ {
                            NextModel::Page(next) => Some(next),
                            NextModel::Done(_) => None,
                        },
                        ..old(self)@
                    })
                    &&& r matches Ok(Paged::Place { changes, scope, commit }) && changes.deep_view()
                        == page.changes.deep_view() && scope@ == page_scope(
                        old(self)@,
                        page.changes.deep_view(),
                    ) && commit@ == page_commit(page.next@)
                },
                Err(e) => {
                    &&& final(self)@ == old(self)@
                    &&& if old(self)@.resuming && is_refusal(e.kind) {
                        r matches Ok(Paged::Restart { upload_differences }) && upload_differences
                            == keeps_differences(e.kind)
                    } else {
                        r matches Err(trouble) && trouble@ == drive_trouble(e.kind, e.text@)
                    }
                },
            },
    {
        let page = match got {
            Ok(page) => page,
            Err(e) => {
                return if self.resuming && refused(&e) {
                    Ok(Paged::Restart { upload_differences: uploads_differences(&e) })
                } else {
                    Err(drive_error(e))
                };
            },
        };
        self.resuming = false;
        let scope = if self.full {
            Scope::Full
        } else {
            Scope::Changed(ids(&page.changes))
        };
        let commit = match page.next {
            DeltaNext::Page(next) => {
                self.next = Some(next.clone());
                Commit::Page { next }
            },
            DeltaNext::Done(link) => {
                self.next = None;
                Commit::Swap { link, listing: true }
            },
        };
        Ok(Paged::Place { changes: page.changes, scope, commit })
    }

    /// The page is placed and committed; `done` is what that did.
    pub fn placed(self, done: Reconciled) -> (r: (Option<Placing>, Placed))
        requires
            fits(self@.placed.applied, done@.applied),
        ensures
            ({
                let now = page_placed(self@, done@);
                match now.next {
                    Some(next) => {
                        &&& r.0 matches Some(p) && p@ == (PlacingModel { next: None, ..now })
                        &&& r.1 matches Placed::Ask(from) && from@ == FromModel::Link(next)
                    },
                    None => {
                        &&& r.0 is None
                        &&& r.1 matches Placed::Done { placed, again } && placed@ == now.placed && again
                            == now.handed_over
                    },
                }
            }),
    {
        let full = done.full;
        let mut all = self.placed;
        all.add(done);
        let handed_over = self.handed_over || (!self.full && full);
        match self.next {
            Some(next) => (
                Some(
                    Placing {
                        full: self.full && !full,
                        handed_over,
                        resuming: self.resuming,
                        next: None,
                        placed: all,
                    },
                ),
                Placed::Ask(DeltaFrom::Link(next)),
            ),
            None => (None, Placed::Done { placed: all, again: handed_over }),
        }
    }
}

/// What the feed said since the stored link.
pub enum Fetched {
    /// A full listing is in the staging area. `upload_differences`: what was
    /// downloaded and it leaves out is kept, to be uploaded again.
    Listed { link: String, upload_differences: bool },
    Changes { changes: Vec<Change>, link: String },
    /// A first listing, placed page by page and committed with its link.
    Placed(Reconciled),
}

#[verifier::ext_equal]
pub enum FetchedModel {
    Listed { link: Seq<char>, upload_differences: bool },
    Changes { changes: Seq<ChangeModel>, link: Seq<char> },
    Placed(ReconciledModel),
}

impl View for Fetched {
    type V = FetchedModel;

    open spec fn view(&self) -> FetchedModel {
        match self {
            Fetched::Listed { link, upload_differences } => FetchedModel::Listed {
                link: link@,
                upload_differences: *upload_differences,
            },
            Fetched::Changes { changes, link } => FetchedModel::Changes {
                changes: changes.deep_view(),
                link: link@,
            },
            Fetched::Placed(done) => FetchedModel::Placed(done@),
        }
    }
}

/// What a cycle does with what it fetched.
pub enum Todo {
    /// It is all done.
    Done(Reconciled),
    /// The folder is made to match the staging area, which is then committed.
    Reconcile { scope: Scope, commit: Commit },
    /// The changes are staged on what is stored, unless there are none; the
    /// scope follows from what they change.
    Stage { changes: Vec<Change>, link: String },
    /// Nothing changed: only the link is stored.
    StoreLink(String),
}

#[verifier::ext_equal]
pub enum TodoModel {
    Done(ReconciledModel),
    Reconcile { scope: ScopeModel, commit: CommitModel },
    Stage { changes: Seq<ChangeModel>, link: Seq<char> },
    StoreLink(Seq<char>),
}

impl View for Todo {
    type V = TodoModel;

    open spec fn view(&self) -> TodoModel {
        match self {
            Todo::Done(done) => TodoModel::Done(done@),
            Todo::Reconcile { scope, commit } => TodoModel::Reconcile {
                scope: scope@,
                commit: commit@,
            },
            Todo::Stage { changes, link } => TodoModel::Stage {
                changes: changes.deep_view(),
                link: link@,
            },
            Todo::StoreLink(link) => TodoModel::StoreLink(link@),
        }
    }
}

/// What a cycle does with what it fetched: a listing is reconciled in full, a
/// delta staged — an empty one only when a full reconcile was asked for.
pub open spec fn todo_of(f: Fetched, full_requested: bool) -> TodoModel {
    match f {
        Fetched::Placed(done) => TodoModel::Done(done@),
        Fetched::Listed { link, .. } => TodoModel::Reconcile {
            scope: ScopeModel::Full,
            commit: CommitModel::Swap { link: link@, listing: false },
        },
        Fetched::Changes { changes, link } => if changes@.len() > 0 || full_requested {
            TodoModel::Stage { changes: changes.deep_view(), link: link@ }
        } else {
            TodoModel::StoreLink(link@)
        },
    }
}

impl Fetched {
    /// What a cycle does with it.
    pub fn todo(self, full_requested: bool) -> (r: Todo)
        ensures
            r@ == todo_of(self, full_requested),
    {
        match self {
            Fetched::Placed(done) => Todo::Done(done),
            Fetched::Listed { link, .. } => Todo::Reconcile {
                scope: Scope::Full,
                commit: Commit::Swap { link, listing: false },
            },
            Fetched::Changes { changes, link } => if changes.len() > 0 || full_requested {
                Todo::Stage { changes, link }
            } else {
                Todo::StoreLink(link)
            },
        }
    }

    /// How many entries the delta has; 0 for a listing.
    pub fn count(&self) -> (r: usize)
        ensures
            r == match self {
                Fetched::Changes { changes, .. } => changes@.len(),
                _ => 0,
            },
    {
        match self {
            Fetched::Changes { changes, .. } => changes.len(),
            _ => 0,
        }
    }
}

/// How much of the folder a staged delta of `count` changes has reconciled.
pub open spec fn delta_scope(full_requested: bool, count: nat, threshold: nat, changed: Seq<Seq<char>>) -> ScopeModel {
    if full_requested || count > threshold {
        ScopeModel::Full
    } else {
        ScopeModel::Changed(changed)
    }
}

/// How a staged delta of `count` changes is reconciled, `changed` being what
/// the staging area now differs by.
pub fn staged(full_requested: bool, count: usize, threshold: usize, changed: Vec<String>, link: String) -> (r:
    Todo)
    ensures
        r@ == (TodoModel::Reconcile {
            scope: delta_scope(full_requested, count as nat, threshold as nat, changed.deep_view()),
            commit: CommitModel::Swap { link: link@, listing: false },
        }),
{
    let scope = if full_requested || count > threshold {
        Scope::Full
    } else {
        Scope::Changed(changed)
    };
    Todo::Reconcile { scope, commit: Commit::Swap { link, listing: false } }
}

/// Files being filled or freed up right now were left: a changed scope would
/// never look at them again, so the next cycle is a full one.
pub fn left_for_later(done: &Reconciled) -> (r: bool)
    ensures
        r == (done@.applied.deferred > 0),
{
    done.applied.deferred > 0
}

/// What one cycle did.
#[derive(Debug)]
pub struct CycleReport {
    /// A full reconcile ran.
    pub full: bool,
    /// Entries in the delta; 0 for a full listing.
    pub changes: usize,
    pub applied: crate::listing::reconcile::Applied,
}

impl CycleReport {
    /// The report of a cycle that reconciled so, after a delta of `changes`.
    pub fn of(done: Reconciled, changes: usize) -> (r: Self)
        ensures
            r.full == done@.full,
            r.applied@ == done@.applied,
            r.changes == changes,
    {
        CycleReport { full: done.full, changes, applied: done.applied }
    }
}

/// The link stored goes before everything else: only a folder without one
/// starts or resumes a first listing, and one never begins while another is
/// under way.
pub proof fn law_a_listing_under_way_is_resumed(
    stored: Option<Seq<char>>,
    resume_at: Option<Seq<char>>,
    nothing_yet: bool,
)
    ensures
        stored is Some ==> fetch_of(stored, resume_at, nothing_yet) == FetchModel::Changes(stored->0),
        stored is None && resume_at is Some ==> (fetch_of(stored, resume_at, nothing_yet) matches
            FetchModel::Placing { begin, .. } && !begin),
        fetch_of(stored, resume_at, nothing_yet) is All ==> !nothing_yet,
{
}

/// A listing stopped part-way resumes where it stopped: the link a page is
/// committed with is the one the next cycle asks from; and once the last page
/// is in, the next cycle asks for what changed since.
pub proof fn law_a_stopped_listing_resumes_where_it_stopped(next: NextModel, nothing_yet: bool)
    requires
        next matches NextModel::Page(link) ==> link.len() > 0,
    ensures
        match (page_commit(next), next) {
            (CommitModel::Page { next: stored }, NextModel::Page(link)) => fetch_of(
                None,
                Some(stored),
                nothing_yet,
            ) == (FetchModel::Placing { from: FromModel::Link(link), begin: false }),
            (CommitModel::Swap { link: stored, listing }, NextModel::Done(link)) => listing
                && fetch_of(Some(stored), None, nothing_yet) == FetchModel::Changes(link),
            _ => false,
        },
{
}

/// Once a page of a first listing was placed in full, later pages look only at
/// their own entries; and one of those that had to hand over makes the end of
/// the listing reconciled once more.
pub proof fn law_later_pages_look_at_their_own_entries(
    p: PlacingModel,
    first: ReconciledModel,
    then: ReconciledModel,
    changes: Seq<ChangeModel>,
)
    requires
        p.full,
        first.full,
    ensures
        page_scope(page_placed(p, first), changes) == ScopeModel::Changed(ids_of(changes)),
        then.full ==> page_placed(page_placed(p, first), then).handed_over,
        page_placed(p, first).handed_over == p.handed_over,
{
}

/// An empty delta touches nothing but the link; one asked to reconcile in full,
/// or with too many changes, does; and whatever is committed is the feed's own
/// link.
pub proof fn law_a_delta_commits_the_feeds_link(
    f: Fetched,
    full_requested: bool,
    threshold: nat,
    changed: Seq<Seq<char>>,
)
    requires
        f is Changes,
    ensures
        f->changes@.len() == 0 && !full_requested ==> todo_of(f, full_requested)
            == TodoModel::StoreLink(f->Changes_link@),
        full_requested || f->changes@.len() > threshold ==> delta_scope(
            full_requested,
            f->changes@.len(),
            threshold,
            changed,
        ) == ScopeModel::Full,
        match todo_of(f, full_requested) {
            TodoModel::StoreLink(link) => link == f->Changes_link@,
            TodoModel::Stage { link, .. } => link == f->Changes_link@,
            _ => false,
        },
{
}

} // verus!
