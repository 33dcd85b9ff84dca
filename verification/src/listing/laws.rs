//! What holds of every cycle.

use vstd::prelude::*;
use vstd::string::*;
use crate::listing::cycle::{
    begun, stepped, ActionModel, CycleModel, Event, EventModel, NextStepModel, PageModel, PhaseModel,
    Prepare,
};
use crate::listing::feed::{
    delta_scope, listed_of, todo_of, Change, ChangeModel, Fetched, FetchedModel, FromModel,
    NextModel, PlacingModel, TodoModel,
};
use crate::listing::reconcile::{
    beginning, pass_failed, pass_made, said_of, with_page, AppliedModel, ApplyingModel, BegunModel,
    CommitModel, PassedModel, ReconciledModel, Said, ScopeModel,
};
use crate::listing::record::{change_events, conflict_events, conflict_rows, dropped_events};
use crate::listing::rw_laws::is_about;
use crate::listing::{
    drive_to_write, error_text, is_blocking, published, turn_begun, turn_ended, ApplyKind,
    CycleErrorModel, DriveKind, DriveRecord, OutcomeModel,
};
use crate::path::{joined, PathModel};
use crate::text::text_of;

verus! {

/// A cycle begins with what it was asked for, and only with interception and a
/// connected helper.
pub proof fn law_a_cycle_begins_as_it_was_asked(
    intercepted: bool,
    connected: bool,
    writes: bool,
    full_requested: bool,
    threshold: nat,
    record: Option<DriveRecord>,
    recorded: bool,
)
    ensures
        match begun(intercepted, connected, writes, full_requested, threshold, record, recorded) {
            Ok((c, action)) => {
                &&& intercepted && connected
                &&& c.writes == writes
                &&& c.full_requested == full_requested
                &&& c.threshold == threshold
                &&& c.record == record
                &&& c.recorded == recorded
                &&& !c.upload_differences
                &&& c.phase is Drive
                &&& action is AskDrive
            },
            Err(e) => !(intercepted && connected) && e is NoHelper,
        },
{
}

/// What a cycle was begun with stays as it is to its end.
pub proof fn law_a_cycle_stays_what_it_was_begun_as(c: CycleModel, e: EventModel)
    ensures
        stepped(c, e) matches Ok(NextStepModel::Go(then, _)) ==> {
            &&& then.writes == c.writes
            &&& then.full_requested == c.full_requested
            &&& then.threshold == c.threshold
            &&& then.record == c.record
            &&& then.recorded == c.recorded
        },
{
}

/// A cycle goes on for the drive the folder was listed from and for no other:
/// the one the store records, or, where it records none, the one kept beside
/// the root. Where a record is missing it is written, beside the root once.
pub proof fn law_a_cycle_goes_on_for_the_folders_own_drive(
    c: CycleModel,
    id: Seq<char>,
    stored: Option<Seq<char>>,
    text: Seq<char>,
    kind: DriveKind,
)
    requires
        c.phase is Drive,
    ensures
        ({
            let beside: Option<Seq<char>> = match c.record {
                Some(r) => match r.recorded {
                    Some(drive) => Some(drive@),
                    None => None,
                },
                None => None,
            };
            let next = stepped(c, EventModel::Drive { id: Ok(id), stored });
            &&& stored is Some && stored != Some(id) ==> next == Err::<NextStepModel, CycleErrorModel>(
                CycleErrorModel::OtherAccount(stored->0),
            )
            &&& stored is None && beside is Some && beside != Some(id) ==> next == Err::<
                NextStepModel,
                CycleErrorModel,
            >(CycleErrorModel::OtherAccount(beside->0))
            &&& stored == Some(id) || (stored is None && (beside is None || beside == Some(id))) ==> (
            next matches Ok(NextStepModel::Go(then, ActionModel::ReadLinks(account))) && {
                &&& then.phase is Links
                &&& account.in_store == (stored is None)
                &&& account.beside_root == (c.record is Some && beside is None && !c.recorded)
            })
        }),
        stepped(c, EventModel::Drive { id: Err((DriveKind::SignedOut, text)), stored }) == Err::<
            NextStepModel,
            CycleErrorModel,
        >(CycleErrorModel::SignedOut),
        kind != DriveKind::SignedOut ==> stepped(
            c,
            EventModel::Drive { id: Err((kind, text)), stored },
        ) == Err::<NextStepModel, CycleErrorModel>(CycleErrorModel::Offline(text)),
{
}

/// The folder is looked at only where no link is stored, and holds nothing of
/// ours exactly when nothing is listed and nothing in it carries an item id.
pub proof fn law_a_folder_with_an_item_of_ours_is_not_empty(
    none_listed: bool,
    ids: Vec<Option<String>>,
)
    ensures
        (Event::Folder { none_listed, ids })@ == EventModel::Folder(true) <==> none_listed && forall|k: int|
            0 <= k < ids@.len() ==> (#[trigger] ids@[k]) is None,
        (Event::Folder { none_listed, ids })@ is Folder,
{
}

/// From where the feed is asked: from the stored link if there is one; else
/// from where a first listing stopped, or from the start if it got nowhere; else
/// a folder that holds nothing of ours begins a first listing, and any other is
/// listed whole.
pub proof fn law_the_feed_is_asked_from_where_it_was_left(
    c: CycleModel,
    link: Seq<char>,
    resume_at: Option<Seq<char>>,
    next: Seq<char>,
)
    ensures
        c.phase is Links ==> {
            &&& stepped(c, EventModel::Links { stored: Some(link), resume_at }) matches Ok(
                NextStepModel::Go(then, action),
            ) && then.phase == PhaseModel::Feed(Seq::empty()) && action == (ActionModel::Ask {
                prepare: Prepare::Nothing,
                from: FromModel::Link(link),
            })
            &&& stepped(c, EventModel::Links { stored: None, resume_at: Some(next) }) matches Ok(
                NextStepModel::Go(then, ActionModel::Ask { prepare, from }),
            ) && {
                &&& prepare == (Prepare::Placing { mark: false })
                &&& from == if next.len() == 0 {
                    FromModel::Start
                } else {
                    FromModel::Link(next)
                }
                &&& then.phase matches PhaseModel::Placing(p) && p.full && !p.handed_over
                    && p.resuming == (next.len() > 0) && p.next is None
            }
            &&& stepped(c, EventModel::Links { stored: None, resume_at: None }) matches Ok(
                NextStepModel::Go(then, action),
            ) && then.phase is Folder && action is LookAtFolder
        },
        c.phase is Folder ==> {
            &&& stepped(c, EventModel::Folder(true)) matches Ok(
                NextStepModel::Go(then, ActionModel::Ask { prepare, from }),
            ) && prepare == (Prepare::Placing { mark: true }) && from is Start && (then.phase matches
                PhaseModel::Placing(p) && p.full && !p.handed_over && !p.resuming)
            &&& stepped(c, EventModel::Folder(false)) matches Ok(
                NextStepModel::Go(then, ActionModel::Ask { prepare, from }),
            ) && prepare == Prepare::Listing && from is Start && then.phase == PhaseModel::All(0)
                && !then.upload_differences
        },
{
}

/// A page of the changes is added to those before it, in order; the last one
/// hands all of them on: to a read-write folder with the link; else they are
/// staged, unless there are none and no full reconcile was asked for, when only
/// the link is stored.
pub proof fn law_the_pages_of_a_delta_are_gathered(
    c: CycleModel,
    so_far: Seq<ChangeModel>,
    changes: Seq<ChangeModel>,
    link: Seq<char>,
)
    requires
        c.phase == PhaseModel::Feed(so_far),
    ensures
        ({
            let page = |next: NextModel|
                stepped(c, EventModel::Page(Ok(PageModel { changes, next })));
            let all = so_far + changes;
            &&& page(NextModel::Page(link)) matches Ok(NextStepModel::Go(then, action)) && then.phase
                == PhaseModel::Feed(all) && action == (ActionModel::Ask {
                prepare: Prepare::Nothing,
                from: FromModel::Link(link),
            })
            &&& c.writes ==> page(NextModel::Done(link)) == Ok::<NextStepModel, CycleErrorModel>(
                NextStepModel::Fetched(FetchedModel::Changes { changes: all, link }),
            )
            &&& !c.writes && (all.len() > 0 || c.full_requested) ==> (page(NextModel::Done(link)) matches Ok(
                NextStepModel::Go(then, ActionModel::StageDelta { changes: staged, read }),
            ) && staged == all && then.phase == (PhaseModel::Delta { count: all.len(), link }) && read
                == (!c.full_requested && all.len() <= c.threshold))
            &&& !c.writes && all.len() == 0 && !c.full_requested ==> (page(
                NextModel::Done(link),
            ) matches Ok(NextStepModel::Go(then, action)) && then.phase is Storing && action
                == ActionModel::StoreLink(link))
        }),
{
}

/// A staged delta is reconciled as far as it has to be: the whole folder where
/// that was asked for or the delta has more changes than the threshold, and
/// otherwise exactly what changed; and it commits its own link.
pub proof fn law_a_delta_is_reconciled_as_far_as_it_has_to_be(
    c: CycleModel,
    count: nat,
    link: Seq<char>,
    changed: Seq<Seq<char>>,
)
    requires
        c.phase == (PhaseModel::Delta { count, link }),
    ensures
        stepped(c, EventModel::Staged(changed)) matches Ok(
            NextStepModel::Go(then, ActionModel::Reconcile { scope, commit }),
        ) && {
            &&& c.full_requested ==> scope is Full
            &&& count > c.threshold ==> scope is Full
            &&& !c.full_requested && count <= c.threshold ==> scope == ScopeModel::Changed(changed)
            &&& commit == (CommitModel::Swap { link, listing: false })
            &&& then.phase == (PhaseModel::Reconciling { count })
        },
{
}

/// How many of the first `n` changes list an item.
proof fn lemma_listed(changes: Seq<ChangeModel>, n: int)
    requires
        0 <= n <= changes.len(),
    ensures
        listed_of(changes, n) == changes.subrange(0, n).filter(|c: ChangeModel| c is Upsert).len(),
    decreases n,
{
    reveal(Seq::filter);
    if n > 0 {
        lemma_listed(changes, n - 1);
        assert(changes.subrange(0, n).drop_last() =~= changes.subrange(0, n - 1));
    }
}

/// A page of a full listing is staged whole, and the items it lists are counted
/// — not what it says is gone, nor the root; then the page after it is asked
/// for, or, once all are in, the whole folder made to match.
pub proof fn law_a_full_listing_is_staged_page_by_page(
    c: CycleModel,
    listed: nat,
    changes: Seq<ChangeModel>,
    next: NextModel,
    link: Seq<char>,
    staged: Seq<Seq<char>>,
)
    ensures
        c.phase == PhaseModel::All(listed) ==> (stepped(
            c,
            EventModel::Page(Ok(PageModel { changes, next })),
        ) matches Ok(NextStepModel::Go(then, ActionModel::StagePage { changes: page, listed: now }))
            && {
            &&& page == changes
            &&& now == listed + changes.filter(|c: ChangeModel| c is Upsert).len()
            &&& then.phase == PhaseModel::AllStaged(now, next)
        }),
        c.phase == PhaseModel::AllStaged(listed, NextModel::Page(link)) ==> (stepped(
            c,
            EventModel::Staged(staged),
        ) matches Ok(NextStepModel::Go(then, action)) && then.phase == PhaseModel::All(listed)
            && action == (ActionModel::Ask {
            prepare: Prepare::Nothing,
            from: FromModel::Link(link),
        })),
        c.phase == PhaseModel::AllStaged(listed, NextModel::Done(link)) ==> if c.writes {
            stepped(c, EventModel::Staged(staged)) == Ok::<NextStepModel, CycleErrorModel>(
                NextStepModel::Fetched(
                    FetchedModel::Listed { link, upload_differences: c.upload_differences },
                ),
            )
        } else {
            stepped(c, EventModel::Staged(staged)) matches Ok(NextStepModel::Go(then, action))
                && then.phase == (PhaseModel::Reconciling { count: 0 }) && action == (
            ActionModel::Reconcile {
                scope: ScopeModel::Full,
                commit: CommitModel::Swap { link, listing: false },
            })
        },
{
    lemma_listed(changes, changes.len() as int);
    assert(changes.subrange(0, changes.len() as int) =~= changes);
}

/// A page of a first listing is placed: in full until one page was, and then
/// only its own items; and committed with the link to the page after it, or, the
/// last one, with the feed's link and as the end of the listing.
pub proof fn law_a_page_of_a_first_listing_is_placed(
    c: CycleModel,
    p: PlacingModel,
    page: PageModel,
    k: int,
)
    requires
        c.phase == PhaseModel::Placing(p),
    ensures
        stepped(c, EventModel::Page(Ok(page))) matches Ok(
            NextStepModel::Go(then, ActionModel::Place { changes, scope, commit }),
        ) && {
            &&& changes == page.changes
            &&& p.full ==> scope is Full
            &&& !p.full ==> (scope matches ScopeModel::Changed(ids) && ids.len() == page.changes.len()
                && (0 <= k < ids.len() ==> is_about(page.changes[k], ids[k])))
            &&& match page.next {
                NextModel::Page(next) => commit == (CommitModel::Page { next }),
                NextModel::Done(link) => commit == (CommitModel::Swap { link, listing: true }),
            }
            &&& then.phase matches PhaseModel::Placed(q) && {
                &&& q.full == p.full
                &&& q.handed_over == p.handed_over
                &&& !q.resuming
                &&& q.placed == p.placed
                &&& match page.next {
                    NextModel::Page(next) => q.next == Some(next),
                    NextModel::Done(_) => q.next is None,
                }
            }
        },
{
}

/// Once a page of a first listing is placed the one after it is asked for, or
/// the cycle is through. A page placed in full is the last to be; a later one
/// that had to look at the whole folder has the next cycle look again.
pub proof fn law_a_first_listing_goes_on_page_after_page(
    c: CycleModel,
    p: PlacingModel,
    done: ReconciledModel,
)
    requires
        c.phase == PhaseModel::Placed(p),
    ensures
        match p.next {
            Some(next) => stepped(c, EventModel::Reconciled(done)) matches Ok(
                NextStepModel::Go(then, action),
            ) && action == (ActionModel::Ask { prepare: Prepare::Nothing, from: FromModel::Link(next) })
                && (then.phase matches PhaseModel::Placing(q) && {
                &&& q.full == (p.full && !done.full)
                &&& q.handed_over == (p.handed_over || (!p.full && done.full))
                &&& q.placed == with_page(p.placed, done)
                &&& q.next is None
            }),
            None => stepped(c, EventModel::Reconciled(done)) matches Ok(
                NextStepModel::Done { report, full_next },
            ) && {
                let all = with_page(p.placed, done);
                &&& report.full == all.full
                &&& report.applied == all.applied
                &&& report.changes == 0
                &&& full_next == (p.handed_over || (!p.full && done.full) || all.applied.deferred > 0)
            },
        },
{
}

/// What the pages of a first listing did adds up: every count, everything
/// rescued and everything to fetch anew.
pub proof fn law_what_pages_did_adds_up(all: ReconciledModel, page: ReconciledModel)
    ensures
        ({
            let both = with_page(all, page);
            &&& both.full == (all.full || page.full)
            &&& both.applied.created == all.applied.created + page.applied.created
            &&& both.applied.moved == all.applied.moved + page.applied.moved
            &&& both.applied.deleted == all.applied.deleted + page.applied.deleted
            &&& both.applied.updated == all.applied.updated + page.applied.updated
            &&& both.applied.deferred == all.applied.deferred + page.applied.deferred
            &&& both.applied.rescued == all.applied.rescued + page.applied.rescued
            &&& both.applied.replacements == all.applied.replacements + page.applied.replacements
            &&& both.applied.changes == all.applied.changes
        }),
{
}

/// Once the folder is reconciled the cycle is through with what that did, and
/// the next one is full where files were left for later; once only the link was
/// stored, with nothing done.
pub proof fn law_a_cycle_is_through_with_what_it_did(
    c: CycleModel,
    count: nat,
    done: ReconciledModel,
)
    ensures
        c.phase == (PhaseModel::Reconciling { count }) ==> (stepped(c, EventModel::Reconciled(done)) matches Ok(
            NextStepModel::Done { report, full_next },
        ) && {
            &&& report.full == done.full
            &&& report.changes == count
            &&& report.applied == done.applied
            &&& full_next == (done.applied.deferred > 0)
        }),
        c.phase is Storing ==> (stepped(c, EventModel::Stored) matches Ok(
            NextStepModel::Done { report, full_next },
        ) && !report.full && report.changes == 0 && !full_next && report.applied.rescued.len() == 0
            && report.applied.deferred == 0),
{
}

/// An expired feed is listed again from its start, and so is a first listing
/// whose resume link is expired, gone or refused; a link handed out in this
/// cycle, and any other trouble, ends the cycle: signed out, or offline. What
/// becomes of the differences is what the drive said.
pub proof fn law_trouble_with_the_feed(
    c: CycleModel,
    p: PlacingModel,
    listed: nat,
    kind: DriveKind,
    text: Seq<char>,
)
    ensures
        ({
            let next = stepped(c, EventModel::Page(Err((kind, text))));
            let over = Err::<NextStepModel, CycleErrorModel>(
                if kind is SignedOut {
                    CycleErrorModel::SignedOut
                } else {
                    CycleErrorModel::Offline(text)
                },
            );
            let keeps = kind == (DriveKind::ResyncRequired { upload_differences: true });
            let again = |prepare: Prepare|
                next matches Ok(NextStepModel::Go(then, action)) && then.phase == PhaseModel::All(0)
                    && then.upload_differences == keeps && action == (ActionModel::Ask {
                    prepare,
                    from: FromModel::Start,
                });
            &&& c.phase is Feed ==> if kind is ResyncRequired {
                again(Prepare::Listing)
            } else {
                next == over
            }
            &&& c.phase == PhaseModel::Placing(p) ==> if p.resuming && (kind is ResyncRequired
                || kind is NotFound || kind is Failed) {
                again(Prepare::Again)
            } else {
                next == over
            }
            &&& c.phase == PhaseModel::All(listed) ==> next == over
        }),
{
}

/// A reconcile begins only with the helper; before the drive's root has come a
/// page is committed and nothing placed, and a listing is none; else the folder
/// is made to match, as far as asked, and commits what it was given.
pub proof fn law_a_reconcile_begins_with_the_helper_and_the_root(
    intercepted: bool,
    connected: bool,
    root_known: bool,
    scope: ScopeModel,
    commit: CommitModel,
)
    ensures
        ({
            let r = beginning(intercepted, connected, root_known, scope, commit);
            &&& !(intercepted && connected) ==> r == Err::<BegunModel, CycleErrorModel>(
                CycleErrorModel::NoHelper,
            )
            &&& intercepted && connected && !root_known ==> match commit {
                CommitModel::Page { next } => r == Ok::<BegunModel, CycleErrorModel>(
                    BegunModel::Waits(next),
                ),
                CommitModel::Swap { .. } => r matches Err(CycleErrorModel::Apply(_)),
            }
            &&& intercepted && connected && root_known ==> (r matches Ok(BegunModel::Apply(a)) && {
                &&& a.changed == (scope is Changed)
                &&& !a.handed_over
                &&& a.commit == commit
                &&& a.first.rescued.len() == 0 && a.first.copies.len() == 0 && a.first.examine.len()
                    == 0 && a.first.recreated.len() == 0
            })
        }),
{
}

/// A pass over the changed items that finds the folder not matching, or cannot
/// read it, hands over to one over everything, once; one cut short is cut
/// short, and anything else is said. What a stopped pass did stands.
pub proof fn law_a_pass_that_fails(
    a: ApplyingModel,
    kind: ApplyKind,
    text: Seq<char>,
    kept: AppliedModel,
)
    ensures
        ({
            let r = pass_failed(a, kind, text, kept);
            if a.changed && !a.handed_over && (kind == ApplyKind::NeedFull || kind == ApplyKind::Io) {
                r matches Ok(PassedModel::Again(b)) && {
                    &&& b.handed_over
                    &&& b.changed
                    &&& b.commit == a.commit
                    &&& b.first.rescued == a.first.rescued + kept.rescued
                    &&& b.first.copies == a.first.copies + kept.copies
                    &&& b.first.examine == a.first.examine + kept.examine
                    &&& b.first.recreated == a.first.recreated + kept.recreated
                }
            } else if kind == ApplyKind::Cancelled {
                r == Err::<PassedModel, CycleErrorModel>(CycleErrorModel::Cancelled)
            } else {
                r == Err::<PassedModel, CycleErrorModel>(CycleErrorModel::Apply(text))
            }
        }),
{
}

/// A pass that goes through is committed as asked, with what all the passes
/// moved, copied, made again and left to examine, and what the last one
/// counted; it was a full one where it was asked for or handed over to.
pub proof fn law_a_pass_that_goes_through(a: ApplyingModel, applied: AppliedModel, kept: AppliedModel)
    ensures
        pass_made(a, applied, kept) matches PassedModel::Commit(c) && {
            &&& c.commit == a.commit
            &&& c.done.full == (!a.changed || a.handed_over)
            &&& c.done.applied.created == applied.created
            &&& c.done.applied.moved == applied.moved
            &&& c.done.applied.deleted == applied.deleted
            &&& c.done.applied.updated == applied.updated
            &&& c.done.applied.deferred == applied.deferred
            &&& c.done.applied.replacements == applied.replacements
            &&& c.done.applied.changes == applied.changes
            &&& c.done.applied.rescued == a.first.rescued + kept.rescued + applied.rescued
            &&& c.done.applied.copies == a.first.copies + kept.copies + applied.copies
            &&& c.done.applied.examine == a.first.examine + kept.examine + applied.examine
            &&& c.done.applied.recreated == a.first.recreated + kept.recreated + applied.recreated
        },
{
}

/// A full reconcile and the end of a first listing are one event, a page of one
/// is none, and anything else is told change by change.
pub proof fn law_how_much_is_said_of_a_reconcile(
    link: Seq<char>,
    listing: bool,
    next: Seq<char>,
    full: bool,
)
    ensures
        said_of(CommitModel::Page { next }, full) == Said::Nothing,
        said_of(CommitModel::Swap { link, listing: true }, full) == Said::Listed,
        said_of(CommitModel::Swap { link, listing }, true) == Said::Listed,
        said_of(CommitModel::Swap { link, listing: false }, false) == Said::EachChange,
{
}

/// Each change is told as what it was, of the place it is at now, and of a move
/// where it came from; each rescue with the place it had and the one it has;
/// each row dropped as removed. All at the time given.
pub proof fn law_what_is_told_of_each_change(
    root: Seq<u8>,
    applied: AppliedModel,
    rels: Seq<PathModel>,
    at: i64,
    k: int,
)
    ensures
        change_events(root, applied.changes, at).len() == applied.changes.len(),
        0 <= k < applied.changes.len() ==> {
            let e = change_events(root, applied.changes, at)[k];
            &&& e.at == at
            &&& e.kind == crate::activity::kind_name(applied.changes[k].kind)
            &&& e.path == text_of(joined(root, applied.changes[k].rel))
            &&& match applied.changes[k].from {
                Some(from) => e.detail == "from "@ + text_of(joined(root, from)),
                None => e.detail.len() == 0,
            }
        },
        conflict_rows(root, applied.rescued, at).len() == applied.rescued.len(),
        0 <= k < applied.rescued.len() ==> {
            let row = conflict_rows(root, applied.rescued, at)[k];
            let e = conflict_events(conflict_rows(root, applied.rescued, at))[k];
            &&& row.at == at
            &&& row.original == text_of(joined(root, applied.rescued[k].original))
            &&& row.rescued == text_of(applied.rescued[k].rescued)
            &&& e.at == at
            &&& e.kind == "conflict"@
            &&& e.path == row.original
            &&& e.detail == row.rescued
        },
        dropped_events(root, rels, at).len() == rels.len(),
        0 <= k < rels.len() ==> {
            let e = dropped_events(root, rels, at)[k];
            &&& e.at == at
            &&& e.kind == "removed"@
            &&& e.path == text_of(joined(root, rels[k]))
            &&& e.detail == "already removed in OneDrive"@
        },
{
}

/// A cycle that succeeds clears what was wrong and says when; one without the
/// helper waits for it and is no trouble; one cut short says nothing; any other
/// failure is told, as blocking exactly when someone has to act: signed out,
/// another account's, or a store that cannot be used. None of them has checked
/// the folder.
pub proof fn law_what_is_published_of_a_cycle(o: OutcomeModel, e: CycleErrorModel, now: i64)
    ensures
        ({
            let well = published(o, Ok(()), now);
            &&& well.trouble is None
            &&& !well.waits_for_helper
            &&& well.last_checked == now
        }),
        ({
            let bad = published(o, Err(e), now);
            &&& bad.last_checked == o.last_checked
            &&& e is Cancelled ==> bad == o
            &&& e is NoHelper ==> bad.waits_for_helper && bad.trouble == o.trouble
            &&& !(e is Cancelled || e is NoHelper) ==> {
                &&& bad.waits_for_helper == o.waits_for_helper
                &&& bad.trouble matches Some(t) && t.text == error_text(e) && t.blocking == (
                e is SignedOut || e is OtherAccount || e is Store)
            }
        }),
        is_blocking(e) <==> e is SignedOut || e is OtherAccount || e is Store || e is NoHelper,
{
}

/// The next cycle is full when one was asked for since this one began, or this
/// one failed, and else not.
pub proof fn law_when_the_next_cycle_is_full(needs_full: bool, asked: bool, succeeded: bool)
    ensures
        turn_ended(turn_begun(needs_full) || asked, succeeded) == (asked || !succeeded),
{
}

/// The drive is written beside the root only while nothing is written there for
/// this very root.
pub proof fn law_the_drive_is_written_once_beside_its_own_root(
    of_root: Seq<char>,
    id: Seq<char>,
    root_id: Seq<char>,
    drive_id: Seq<char>,
)
    ensures
        drive_to_write(of_root, id, root_id, drive_id) is Some <==> root_id == of_root
            && drive_id.len() == 0,
        drive_to_write(of_root, id, root_id, drive_id) matches Some(written) ==> written == id,
{
}

/// What is done with what was fetched: a listing is reconciled whole, one
/// already placed is done, and a delta staged unless it is empty and no full
/// reconcile was asked for.
pub proof fn law_what_is_done_with_what_was_fetched(
    changes: Vec<Change>,
    link: String,
    upload_differences: bool,
    full_requested: bool,
    count: nat,
    threshold: nat,
    changed: Seq<Seq<char>>,
)
    ensures
        todo_of(Fetched::Listed { link, upload_differences }, full_requested) == (
        TodoModel::Reconcile {
            scope: ScopeModel::Full,
            commit: CommitModel::Swap { link: link@, listing: false },
        }),
        changes@.len() > 0 || full_requested ==> todo_of(
            Fetched::Changes { changes, link },
            full_requested,
        ) == (TodoModel::Stage { changes: changes.deep_view(), link: link@ }),
        changes@.len() == 0 && !full_requested ==> todo_of(
            Fetched::Changes { changes, link },
            full_requested,
        ) == TodoModel::StoreLink(link@),
        delta_scope(full_requested, count, threshold, changed) is Full <==> full_requested || count
            > threshold,
        !full_requested && count <= threshold ==> delta_scope(
            full_requested,
            count,
            threshold,
            changed,
        ) == ScopeModel::Changed(changed),
{
}

} // verus!
