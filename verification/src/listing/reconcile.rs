//! Making the folder match the staging area: what one reconcile is asked, what
//! it did, and when it is tried again in full.

use vstd::prelude::*;
use vstd::string::*;
use crate::activity::Kind;
use crate::listing::replacement::{Replacement, ReplacementModel};
use crate::listing::{
    apply_trouble, applying, helper_ready, ApplyError, ApplyKind, CycleError, CycleErrorModel,
};
use crate::path::{AbsPath, PathModel, RelPath};

verus! {

/// A local version moved out of the way.
#[derive(Debug)]
pub struct Rescued {
    /// Where in the folder it was.
    pub original: RelPath,
    /// Where it is now.
    pub rescued: AbsPath,
}

#[verifier::ext_equal]
pub struct RescuedModel {
    pub original: PathModel,
    pub rescued: Seq<u8>,
}

impl View for Rescued {
    type V = RescuedModel;

    open spec fn view(&self) -> RescuedModel {
        RescuedModel { original: self.original@, rescued: self.rescued@ }
    }
}

impl DeepView for Rescued {
    type V = RescuedModel;

    open spec fn deep_view(&self) -> RescuedModel {
        self.view()
    }
}

/// One thing a reconcile changed in the folder.
#[derive(Debug)]
pub struct Changed {
    pub kind: Kind,
    pub rel: RelPath,
    /// Where it was, when it moved.
    pub from: Option<RelPath>,
}

#[verifier::ext_equal]
pub struct ChangedModel {
    pub kind: Kind,
    pub rel: PathModel,
    pub from: Option<PathModel>,
}

impl View for Changed {
    type V = ChangedModel;

    open spec fn view(&self) -> ChangedModel {
        ChangedModel { kind: self.kind, rel: self.rel@, from: self.from.deep_view() }
    }
}

impl DeepView for Changed {
    type V = ChangedModel;

    open spec fn deep_view(&self) -> ChangedModel {
        self.view()
    }
}

/// A place to examine, and whether with everything below it.
#[derive(Debug)]
pub struct Look {
    pub rel: RelPath,
    pub below: bool,
}

#[verifier::ext_equal]
pub struct LookModel {
    pub rel: PathModel,
    pub below: bool,
}

impl View for Look {
    type V = LookModel;

    open spec fn view(&self) -> LookModel {
        LookModel { rel: self.rel@, below: self.below }
    }
}

impl DeepView for Look {
    type V = LookModel;

    open spec fn deep_view(&self) -> LookModel {
        self.view()
    }
}

/// What making the folder match the tree did.
#[derive(Debug)]
pub struct Applied {
    pub created: usize,
    pub moved: usize,
    pub deleted: usize,
    pub updated: usize,
    /// Files left for later: being filled or freed up right now.
    pub deferred: usize,
    pub rescued: Vec<Rescued>,
    pub replacements: Vec<Replacement>,
    pub changes: Vec<Changed>,
    /// Conflict copies made, in the folder.
    pub copies: Vec<RelPath>,
    /// What the folder's watcher is to examine.
    pub examine: Vec<Look>,
    /// Folders made again, by item id.
    pub recreated: Vec<String>,
}

#[verifier::ext_equal]
pub struct AppliedModel {
    pub created: nat,
    pub moved: nat,
    pub deleted: nat,
    pub updated: nat,
    pub deferred: nat,
    pub rescued: Seq<RescuedModel>,
    pub replacements: Seq<ReplacementModel>,
    pub changes: Seq<ChangedModel>,
    pub copies: Seq<PathModel>,
    pub examine: Seq<LookModel>,
    pub recreated: Seq<Seq<char>>,
}

impl View for Applied {
    type V = AppliedModel;

    open spec fn view(&self) -> AppliedModel {
        AppliedModel {
            created: self.created as nat,
            moved: self.moved as nat,
            deleted: self.deleted as nat,
            updated: self.updated as nat,
            deferred: self.deferred as nat,
            rescued: self.rescued.deep_view(),
            replacements: self.replacements.deep_view(),
            changes: self.changes.deep_view(),
            copies: self.copies.deep_view(),
            examine: self.examine.deep_view(),
            recreated: self.recreated.deep_view(),
        }
    }
}

impl DeepView for Applied {
    type V = AppliedModel;

    open spec fn deep_view(&self) -> AppliedModel {
        self.view()
    }
}

/// Nothing was done.
pub open spec fn nothing_applied() -> AppliedModel {
    AppliedModel {
        created: 0,
        moved: 0,
        deleted: 0,
        updated: 0,
        deferred: 0,
        rescued: Seq::empty(),
        replacements: Seq::empty(),
        changes: Seq::empty(),
        copies: Seq::empty(),
        examine: Seq::empty(),
        recreated: Seq::empty(),
    }
}

impl Default for Applied {
    fn default() -> (r: Self)
        ensures
            r@ == nothing_applied(),
    {
        let r = Applied {
            created: 0,
            moved: 0,
            deleted: 0,
            updated: 0,
            deferred: 0,
            rescued: Vec::new(),
            replacements: Vec::new(),
            changes: Vec::new(),
            copies: Vec::new(),
            examine: Vec::new(),
            recreated: Vec::new(),
        };
        assert(r@ =~= nothing_applied());
        r
    }
}

/// Adds all of `more` at the end of `to`.
pub fn append_to<T: DeepView>(to: &mut Vec<T>, more: Vec<T>)
    ensures
        final(to).deep_view() == old(to).deep_view() + more.deep_view(),
{
    let ghost before = to.deep_view();
    let ghost added = more.deep_view();
    let mut more = more;
    to.append(&mut more);
    assert(to.deep_view() =~= before + added);
}

/// What the second pass did, with what the first did on disk before it handed
/// over: that stands whatever the second did.
pub open spec fn with_first(first: AppliedModel, second: AppliedModel) -> AppliedModel {
    AppliedModel {
        rescued: first.rescued + second.rescued,
        copies: first.copies + second.copies,
        examine: first.examine + second.examine,
        recreated: first.recreated + second.recreated,
        ..second
    }
}

impl Applied {
    /// What both passes did, `first` having been made before this one.
    pub fn after(self, first: Applied) -> (r: Applied)
        ensures
            r@ == with_first(first@, self@),
    {
        let ghost want = with_first(first@, self@);
        let mut rescued = first.rescued;
        append_to(&mut rescued, self.rescued);
        let mut copies = first.copies;
        append_to(&mut copies, self.copies);
        let mut examine = first.examine;
        append_to(&mut examine, self.examine);
        let mut recreated = first.recreated;
        append_to(&mut recreated, self.recreated);
        let r = Applied {
            created: self.created,
            moved: self.moved,
            deleted: self.deleted,
            updated: self.updated,
            deferred: self.deferred,
            rescued,
            replacements: self.replacements,
            changes: self.changes,
            copies,
            examine,
            recreated,
        };
        assert(r@ =~= want);
        r
    }
}

/// What a reconcile did.
#[derive(Debug)]
pub struct Reconciled {
    pub applied: Applied,
    /// A full reconcile ran — asked for, or handed over to.
    pub full: bool,
}

#[verifier::ext_equal]
pub struct ReconciledModel {
    pub applied: AppliedModel,
    pub full: bool,
}

impl View for Reconciled {
    type V = ReconciledModel;

    open spec fn view(&self) -> ReconciledModel {
        ReconciledModel { applied: self.applied@, full: self.full }
    }
}

impl DeepView for Reconciled {
    type V = ReconciledModel;

    open spec fn deep_view(&self) -> ReconciledModel {
        self.view()
    }
}

impl Default for Reconciled {
    fn default() -> (r: Self)
        ensures
            r@ == (ReconciledModel { applied: nothing_applied(), full: false }),
    {
        Reconciled { applied: Applied::default(), full: false }
    }
}

/// The counts of both fit.
pub open spec fn fits(a: AppliedModel, b: AppliedModel) -> bool {
    &&& a.created + b.created <= usize::MAX
    &&& a.moved + b.moved <= usize::MAX
    &&& a.deleted + b.deleted <= usize::MAX
    &&& a.updated + b.updated <= usize::MAX
    &&& a.deferred + b.deferred <= usize::MAX
}

/// What one page of a first listing did, added to what the pages before it
/// did. The changes are not kept: a first listing is one event, as a full
/// reconcile is.
pub open spec fn with_page(all: ReconciledModel, page: ReconciledModel) -> ReconciledModel {
    ReconciledModel {
        applied: AppliedModel {
            created: all.applied.created + page.applied.created,
            moved: all.applied.moved + page.applied.moved,
            deleted: all.applied.deleted + page.applied.deleted,
            updated: all.applied.updated + page.applied.updated,
            deferred: all.applied.deferred + page.applied.deferred,
            rescued: all.applied.rescued + page.applied.rescued,
            replacements: all.applied.replacements + page.applied.replacements,
            ..all.applied
        },
        full: all.full || page.full,
    }
}

impl Reconciled {
    /// What one page of a first listing did, added to what the pages before it
    /// did.
    pub fn add(&mut self, page: Reconciled)
        requires
            fits(old(self)@.applied, page@.applied),
        ensures
            final(self)@ == with_page(old(self)@, page@),
    {
        let ghost want = with_page(self@, page@);
        let applied = page.applied;
        self.applied.created = self.applied.created + applied.created;
        self.applied.moved = self.applied.moved + applied.moved;
        self.applied.deleted = self.applied.deleted + applied.deleted;
        self.applied.updated = self.applied.updated + applied.updated;
        self.applied.deferred = self.applied.deferred + applied.deferred;
        append_to(&mut self.applied.rescued, applied.rescued);
        append_to(&mut self.applied.replacements, applied.replacements);
        self.full = self.full || page.full;
        assert(self@ =~= want);
    }

    /// Whether what `page` did can be counted too.
    pub fn has_room(&self, page: &Reconciled) -> (r: bool)
        ensures
            r == fits(self@.applied, page@.applied),
    {
        page.applied.created <= usize::MAX - self.applied.created && page.applied.moved <= usize::MAX
            - self.applied.moved && page.applied.deleted <= usize::MAX - self.applied.deleted
            && page.applied.updated <= usize::MAX - self.applied.updated && page.applied.deferred
            <= usize::MAX - self.applied.deferred
    }
}

/// How much of the folder a reconcile looks at.
#[derive(Debug)]
pub enum Scope {
    Full,
    /// These items, and what hangs on them.
    Changed(Vec<String>),
}

#[verifier::ext_equal]
pub enum ScopeModel {
    Full,
    Changed(Seq<Seq<char>>),
}

impl View for Scope {
    type V = ScopeModel;

    open spec fn view(&self) -> ScopeModel {
        match self {
            Scope::Full => ScopeModel::Full,
            Scope::Changed(ids) => ScopeModel::Changed(ids.deep_view()),
        }
    }
}

impl DeepView for Scope {
    type V = ScopeModel;

    open spec fn deep_view(&self) -> ScopeModel {
        self.view()
    }
}

/// What a reconcile commits once the folder matches the staging area.
#[derive(Debug)]
pub enum Commit {
    /// The staging area swapped in, with the link to ask from next time.
    /// `listing`: the last page of a first listing placed page by page.
    Swap { link: String, listing: bool },
    /// One page of a first listing, with the link to the page after it.
    Page { next: String },
}

#[verifier::ext_equal]
pub enum CommitModel {
    Swap { link: Seq<char>, listing: bool },
    Page { next: Seq<char> },
}

impl View for Commit {
    type V = CommitModel;

    open spec fn view(&self) -> CommitModel {
        match self {
            Commit::Swap { link, listing } => CommitModel::Swap { link: link@, listing: *listing },
            Commit::Page { next } => CommitModel::Page { next: next@ },
        }
    }
}

impl DeepView for Commit {
    type V = CommitModel;

    open spec fn deep_view(&self) -> CommitModel {
        self.view()
    }
}

/// What the activity log says of a reconcile, beside its conflicts.
#[derive(Debug, Clone, Copy, PartialEq, Eq, Structural)]
pub enum Said {
    /// One event for the whole folder: a full reconcile, or the end of a first
    /// listing.
    Listed,
    /// What the reconcile did, item by item.
    EachChange,
    /// Nothing: a page of a first listing.
    Nothing,
}

/// What is said of a reconcile that committed so.
pub open spec fn said_of(commit: CommitModel, full: bool) -> Said {
    match commit {
        CommitModel::Swap { listing, .. } => if listing || full {
            Said::Listed
        } else {
            Said::EachChange
        },
        CommitModel::Page { .. } => Said::Nothing,
    }
}

impl Commit {
    /// What is said of a reconcile that committed so.
    pub fn said(&self, full: bool) -> (r: Said)
        ensures
            r == said_of(self@, full),
    {
        match self {
            Commit::Swap { listing, .. } => if *listing || full {
                Said::Listed
            } else {
                Said::EachChange
            },
            Commit::Page { .. } => Said::Nothing,
        }
    }
}

/// A reconcile under way: how much it was asked to look at, what it commits,
/// whether it has handed over to a full one, and what stands of the passes
/// before.
pub struct Applying {
    changed: bool,
    handed_over: bool,
    commit: Commit,
    first: Applied,
}

#[verifier::ext_equal]
pub struct ApplyingModel {
    pub changed: bool,
    pub handed_over: bool,
    pub commit: CommitModel,
    pub first: AppliedModel,
}

impl View for Applying {
    type V = ApplyingModel;

    closed spec fn view(&self) -> ApplyingModel {
        ApplyingModel {
            changed: self.changed,
            handed_over: self.handed_over,
            commit: self.commit@,
            first: self.first@,
        }
    }
}

/// The folder matches the staging area: what is left is to commit it. Only a
/// pass that went through leads here.
pub struct Committing {
    commit: Commit,
    done: Reconciled,
}

#[verifier::ext_equal]
pub struct CommittingModel {
    pub commit: CommitModel,
    pub done: ReconciledModel,
}

impl View for Committing {
    type V = CommittingModel;

    closed spec fn view(&self) -> CommittingModel {
        CommittingModel { commit: self.commit@, done: self.done@ }
    }
}

/// How a reconcile begins.
pub enum Begun {
    /// The drive's root has not come yet: the page is committed all the same,
    /// with this link, and nothing of it is placed.
    Waits(String),
    /// The folder is made to match.
    Apply(Applying),
}

#[verifier::ext_equal]
pub enum BegunModel {
    Waits(Seq<char>),
    Apply(ApplyingModel),
}

impl View for Begun {
    type V = BegunModel;

    open spec fn view(&self) -> BegunModel {
        match self {
            Begun::Waits(next) => BegunModel::Waits(next@),
            Begun::Apply(applying) => BegunModel::Apply(applying@),
        }
    }
}

/// What comes after a pass over the folder.
pub enum Passed {
    /// The folder does not match the stored tree: a full pass follows.
    Again(Applying),
    Commit(Committing),
}

#[verifier::ext_equal]
pub enum PassedModel {
    Again(ApplyingModel),
    Commit(CommittingModel),
}

impl View for Passed {
    type V = PassedModel;

    open spec fn view(&self) -> PassedModel {
        match self {
            Passed::Again(applying) => PassedModel::Again(applying@),
            Passed::Commit(committing) => PassedModel::Commit(committing@),
        }
    }
}

/// How a reconcile of `scope` that commits `commit` begins: not without the
/// helper, and a listing that ends without a root is none.
pub open spec fn beginning(
    intercepted: bool,
    connected: bool,
    root_known: bool,
    scope: ScopeModel,
    commit: CommitModel,
) -> Result<BegunModel, CycleErrorModel> {
    if !intercepted || !connected {
        Err(CycleErrorModel::NoHelper)
    } else if !root_known {
        match commit {
            CommitModel::Page { next } => Ok(BegunModel::Waits(next)),
            CommitModel::Swap { .. } => Err(
                CycleErrorModel::Apply("the drive's listing has no root"@),
            ),
        }
    } else {
        Ok(
            BegunModel::Apply(
                ApplyingModel {
                    changed: scope is Changed,
                    handed_over: false,
                    commit,
                    first: nothing_applied(),
                },
            ),
        )
    }
}

/// The pass that ended so hands over to a full one.
pub open spec fn hands_over(a: ApplyingModel, kind: ApplyKind) -> bool {
    a.changed && !a.handed_over && (kind == ApplyKind::NeedFull || kind == ApplyKind::Io)
}

/// What comes once a pass has made `applied` of the folder; `kept` is what it
/// did before it stopped, and stands.
pub open spec fn pass_made(a: ApplyingModel, applied: AppliedModel, kept: AppliedModel) -> PassedModel {
    PassedModel::Commit(
        CommittingModel {
            commit: a.commit,
            done: ReconciledModel {
                applied: with_first(with_first(a.first, kept), applied),
                full: !a.changed || a.handed_over,
            },
        },
    )
}

/// What comes once a pass has run into `kind`.
pub open spec fn pass_failed(a: ApplyingModel, kind: ApplyKind, text: Seq<char>, kept: AppliedModel) -> Result<
    PassedModel,
    CycleErrorModel,
> {
    if hands_over(a, kind) {
        Ok(
            PassedModel::Again(
                ApplyingModel { handed_over: true, first: with_first(a.first, kept), ..a },
            ),
        )
    } else {
        Err(apply_trouble(kind, text))
    }
}

/// How a result reads whose error is a cycle's and whose value has a view.
pub open spec fn cycled_view<T: View>(r: Result<T, CycleError>) -> Result<T::V, CycleErrorModel> {
    match r {
        Ok(t) => Ok(t@),
        Err(e) => Err(e@),
    }
}

impl Applying {
    /// A reconcile of `scope` that commits `commit` once the folder matches;
    /// `root_known`: the drive's root has come.
    pub fn begin(
        intercepted: bool,
        connected: bool,
        root_known: bool,
        scope: &Scope,
        commit: Commit,
    ) -> (r: Result<Begun, CycleError>)
        ensures
            cycled_view(r) == beginning(intercepted, connected, root_known, scope@, commit@),
    {
        helper_ready(intercepted, connected)?;
        if !root_known {
            return match commit {
                Commit::Page { next } => Ok(Begun::Waits(next)),
                Commit::Swap { .. } => Err(
                    CycleError::Apply("the drive's listing has no root".to_owned()),
                ),
            };
        }
        let changed = match scope {
            Scope::Full => false,
            Scope::Changed(_) => true,
        };
        Ok(
            Begun::Apply(
                Applying { changed, handed_over: false, commit, first: Applied::default() },
            ),
        )
    }

    /// A pass over the folder has ended; `kept` is what it did that stands
    /// though it stopped. A changed scope that finds the folder not matching
    /// the stored tree hands over to a full pass, once, in the same run.
    pub fn passed(self, got: Result<Applied, ApplyError>, kept: Applied) -> (r: Result<
        Passed,
        CycleError,
    >)
        ensures
            match got {
                Ok(applied) => cycled_view(r) == Ok::<PassedModel, CycleErrorModel>(
                    pass_made(self@, applied@, kept@),
                ),
                Err(e) => cycled_view(r) == pass_failed(self@, e.kind, e.text@, kept@),
            },
    {
        let first = kept.after(self.first);
        match got {
            Ok(applied) => Ok(
                Passed::Commit(
                    Committing {
                        commit: self.commit,
                        done: Reconciled {
                            applied: applied.after(first),
                            full: !self.changed || self.handed_over,
                        },
                    },
                ),
            ),
            Err(e) => {
                let full_helps = match e.kind {
                    ApplyKind::NeedFull | ApplyKind::Io => true,
                    _ => false,
                };
                if self.changed && !self.handed_over && full_helps {
                    Ok(
                        Passed::Again(
                            Applying {
                                changed: true,
                                handed_over: true,
                                commit: self.commit,
                                first,
                            },
                        ),
                    )
                } else {
                    Err(applying(e))
                }
            },
        }
    }
}

impl Committing {
    /// What is to be committed.
    pub fn commit(&self) -> (r: &Commit)
        ensures
            r@ == self@.commit,
    {
        &self.commit
    }

    /// What the reconcile did.
    pub fn done(&self) -> (r: &Reconciled)
        ensures
            r@ == self@.done,
    {
        &self.done
    }

    /// It is committed: what the reconcile did, and what is said of it.
    pub fn committed(self) -> (r: (Reconciled, Said))
        ensures
            r.0@ == self@.done,
            r.1 == said_of(self@.commit, self@.done.full),
    {
        let said = self.commit.said(self.done.full);
        (self.done, said)
    }
}

/// A reconcile passes over the folder twice at most: one that looks at
/// everything never hands over, and one that has handed over never does again.
pub proof fn law_a_reconcile_hands_over_once(
    a: ApplyingModel,
    kind: ApplyKind,
    text: Seq<char>,
    kept: AppliedModel,
    again: ApplyKind,
)
    ensures
        !a.changed ==> pass_failed(a, kind, text, kept) is Err,
        pass_failed(a, kind, text, kept) matches Ok(next) ==> (next matches PassedModel::Again(b)
            && !hands_over(b, again) && pass_failed(b, again, text, kept) is Err),
{
}

/// Nothing is committed unless the folder was made to match: a pass that stops
/// commits nothing, and one that went through commits exactly what the
/// reconcile was asked to.
pub proof fn law_only_a_matching_folder_is_committed(
    a: ApplyingModel,
    kind: ApplyKind,
    text: Seq<char>,
    applied: AppliedModel,
    kept: AppliedModel,
)
    ensures
        !(pass_failed(a, kind, text, kept) matches Ok(next) && next is Commit),
        pass_made(a, applied, kept) matches PassedModel::Commit(c) && c.commit == a.commit,
{
}

/// What the first pass moved out of the way is in what both did, in front, and
/// nothing of the second is lost.
pub proof fn law_what_the_first_pass_did_stands(first: AppliedModel, second: AppliedModel, r: RescuedModel)
    ensures
        with_first(first, second).rescued.contains(r) <==> first.rescued.contains(r)
            || second.rescued.contains(r),
        with_first(first, second).rescued.subrange(0, first.rescued.len() as int) == first.rescued,
{
    let all = with_first(first, second).rescued;
    assert(all.subrange(0, first.rescued.len() as int) =~= first.rescued);
    if first.rescued.contains(r) {
        let k = choose|k: int| 0 <= k < first.rescued.len() && first.rescued[k] == r;
        assert(all[k] == r);
    }
    if second.rescued.contains(r) {
        let k = choose|k: int| 0 <= k < second.rescued.len() && second.rescued[k] == r;
        assert(all[first.rescued.len() + k] == r);
    }
    if all.contains(r) {
        let k = choose|k: int| 0 <= k < all.len() && all[k] == r;
        if k < first.rescued.len() {
            assert(first.rescued[k] == r);
        } else {
            assert(second.rescued[k - first.rescued.len()] == r);
        }
    }
}

} // verus!
