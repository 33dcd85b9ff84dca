//! What holds of every read-write cycle.

use vstd::prelude::*;
use crate::listing::feed::{ids_of, ChangeModel, FetchedModel};
use crate::listing::reconcile::{CommitModel, ReconciledModel, ScopeModel};
use crate::listing::rw::{
    content_of, deferred_of, guarded, is_stale, looked_at, rw_commit_of, stale_of, CommittedModel,
    RwCommitModel, Unshown,
};
use crate::listing::rw_cycle::{
    rw_stepped, taken_up, RwActionModel, RwCycleModel, RwEventModel, RwNextModel, RwPhaseModel,
};
use crate::listing::{CycleErrorModel, DriveKind};
use crate::sorted::{inserted_all, lemma_inserted_all_holds};

verus! {

/// `c` is about the item `id`.
pub open spec fn is_about(c: ChangeModel, id: Seq<char>) -> bool {
    ||| c == ChangeModel::Root(id)
    ||| c == ChangeModel::Delete(id)
    ||| c matches ChangeModel::Upsert(row) && row.id == id
}

/// `c` is what the outbox itself committed of the item: the item as it stands,
/// with the version the commit left it at.
pub open spec fn is_the_commit(c: ChangeModel, commit: CommittedModel) -> bool {
    c matches ChangeModel::Upsert(row) && !commit.gone && row.etag is Some && row.etag == commit.etag
}

/// What a cycle was begun with stays as it is until the folder is reconciled:
/// whether a full reconcile was asked for, from how many changes on one is made,
/// how many there were, and the link that is committed in the end.
pub proof fn law_a_cycle_keeps_what_it_was_begun_with(c: RwCycleModel, e: RwEventModel)
    ensures
        rw_stepped(c, e) matches Ok(RwNextModel::Go(then, action)) ==> {
            &&& then.full_requested == c.full_requested
            &&& then.threshold == c.threshold
            &&& then.count == c.count
            &&& then.link == c.link
            &&& action matches RwActionModel::StoreLink(link) ==> link == c.link
            &&& action matches RwActionModel::Reconcile { commit, .. } ==> commit
                == (CommitModel::Swap { link: c.link, listing: false })
        },
        rw_stepped(c, e) matches Ok(RwNextModel::Done(_, count)) ==> count == c.count,
{
}

/// A cycle begins with what was fetched: a delta with its changes, their number
/// and its link, and no difference of the folder's to upload; a listing with
/// its link; and one already placed is done.
pub proof fn law_a_cycle_begins_with_what_was_fetched(
    changes: Seq<ChangeModel>,
    link: Seq<char>,
    upload_differences: bool,
    done: ReconciledModel,
    full_requested: bool,
    threshold: nat,
)
    ensures
        taken_up(
            FetchedModel::Changes { changes, link },
            full_requested,
            threshold,
        ) matches RwNextModel::Go(c, action) && {
            &&& c.full_requested == full_requested
            &&& c.threshold == threshold
            &&& c.count == changes.len()
            &&& c.link == link
            &&& !c.upload_differences
            &&& c.phase == RwPhaseModel::Committed(Some(changes))
            &&& action is ReadCommitted
        },
        taken_up(
            FetchedModel::Listed { link, upload_differences },
            full_requested,
            threshold,
        ) matches RwNextModel::Go(c, action) && {
            &&& c.full_requested == full_requested
            &&& c.count == 0
            &&& c.link == link
            &&& c.upload_differences == upload_differences
            &&& c.phase == RwPhaseModel::Committed(None)
            &&& action is ReadCommitted
        },
        taken_up(FetchedModel::Placed(done), full_requested, threshold) == RwNextModel::Done(done, 0),
{
}

/// What a cycle looks at is what changed, what the outbox committed since the
/// last cycle and what has no local object, and nothing else.
proof fn lemma_looked_at(
    changed: Seq<Seq<char>>,
    revisit: Seq<Seq<char>>,
    without: Seq<Seq<char>>,
    id: Seq<char>,
)
    ensures
        looked_at(changed, revisit, without).contains(id) <==> changed.contains(id)
            || revisit.contains(id) || without.contains(id),
{
    let first = inserted_all::<String>(Seq::empty(), changed);
    let second = inserted_all::<String>(first, revisit);
    lemma_inserted_all_holds::<String>(Seq::empty(), changed, id);
    lemma_inserted_all_holds::<String>(first, revisit, id);
    lemma_inserted_all_holds::<String>(second, without, id);
}

/// A staged delta is reconciled as far as it has to be. Where a full reconcile
/// was asked for, or the delta has more changes than the threshold, the whole
/// folder is; otherwise exactly what changed, what the outbox committed since
/// the last cycle and what has no local object. It commits its link and is done
/// with what was deferred.
pub proof fn law_a_staged_delta_is_reconciled_as_far_as_it_has_to_be(
    c: RwCycleModel,
    consumed: Seq<Seq<char>>,
    revisit: Seq<Seq<char>>,
    changed: Seq<Seq<char>>,
    without: Seq<Seq<char>>,
    id: Seq<char>,
)
    requires
        c.phase == (RwPhaseModel::Delta { consumed, revisit }),
    ensures
        rw_stepped(c, RwEventModel::Staged { changed, without }) matches Ok(
            RwNextModel::Go(then, RwActionModel::Reconcile { scope, commit, consumed: done_with, .. }),
        ) && {
            &&& c.full_requested ==> scope is Full
            &&& c.count > c.threshold ==> scope is Full
            &&& !c.full_requested && c.count <= c.threshold ==> (scope matches ScopeModel::Changed(
                ids,
            ) && (ids.contains(id) <==> changed.contains(id) || revisit.contains(id)
                || without.contains(id)))
            &&& commit == (CommitModel::Swap { link: c.link, listing: false })
            &&& done_with == consumed
            &&& then.phase is Reconciling
        },
{
    lemma_looked_at(changed, revisit, without, id);
}

/// The cycle stores its link and does nothing else exactly when no full
/// reconcile was asked for, nothing changed, the outbox committed nothing since
/// the last cycle, everything has its local object, and whatever is deferred
/// waits for a row of its own item. Otherwise what is deferred is staged, and
/// what changed after it.
pub proof fn law_a_cycle_with_anything_to_do_does_it(
    c: RwCycleModel,
    changes: Seq<ChangeModel>,
    deferred: Seq<ChangeModel>,
    rows: Seq<Seq<char>>,
    revisit: Seq<Seq<char>>,
    unplaced: nat,
)
    requires
        c.phase == RwPhaseModel::Waiting(changes),
    ensures
        rw_stepped(c, RwEventModel::Waiting { deferred, rows, revisit, unplaced }) matches Ok(
            RwNextModel::Go(then, action),
        ) && {
            let waits = forall|k: int, id: Seq<char>|
                0 <= k < deferred.len() && #[trigger] is_about(deferred[k], id) ==> rows.contains(id);
            if !c.full_requested && changes.len() == 0 && revisit.len() == 0 && unplaced == 0 && waits {
                action == RwActionModel::StoreLink(c.link) && then.phase is Storing
            } else {
                &&& action == RwActionModel::Stage(deferred + changes)
                &&& then.phase matches RwPhaseModel::Delta { consumed, revisit: again } && {
                    &&& again == revisit
                    &&& consumed.len() == deferred.len()
                    &&& forall|k: int|
                        0 <= k < deferred.len() ==> is_about(#[trigger] deferred[k], consumed[k])
                }
            }
        },
{
    let ids = ids_of(deferred);
    assert forall|k: int, id: Seq<char>|
        0 <= k < deferred.len() && #[trigger] is_about(deferred[k], id) implies id == ids[k] by {}
    assert forall|k: int| 0 <= k < deferred.len() implies is_about(#[trigger] deferred[k], ids[k]) by {}
    if forall|k: int| 0 <= k < ids.len() ==> rows.contains(#[trigger] ids[k]) {
        assert forall|k: int, id: Seq<char>|
            0 <= k < deferred.len() && #[trigger] is_about(deferred[k], id) implies rows.contains(id) by {
            assert(rows.contains(ids[k]));
        }
    } else {
        let k = choose|k: int| 0 <= k < ids.len() && !rows.contains(#[trigger] ids[k]);
        assert(is_about(deferred[k], ids[k]));
    }
}

/// Once the folder is reconciled, or the link stored, the cycle is done: with
/// what the reconcile did, or with nothing done.
pub proof fn law_a_cycle_ends_with_what_it_did(c: RwCycleModel, done: ReconciledModel)
    ensures
        c.phase is Reconciling ==> rw_stepped(c, RwEventModel::Reconciled(done)) == Ok::<
            RwNextModel,
            CycleErrorModel,
        >(RwNextModel::Done(done, c.count)),
        c.phase is Storing ==> (rw_stepped(c, RwEventModel::Stored) matches Ok(
            RwNextModel::Done(nothing, _),
        ) && !nothing.full && nothing.applied.rescued.len() == 0 && nothing.applied.copies.len() == 0),
{
}

/// An item asked for again that Graph no longer has is deleted; any other
/// trouble ends the cycle; and what Graph has of it is what is taken.
pub proof fn law_an_item_gone_when_asked_for_again_is_deleted(
    c: RwCycleModel,
    changes: Option<Seq<ChangeModel>>,
    committed: Map<Seq<char>, CommittedModel>,
    ids: Seq<Seq<char>>,
    fresh: Seq<ChangeModel>,
    change: ChangeModel,
    kind: DriveKind,
    text: Seq<char>,
)
    requires
        c.phase == (RwPhaseModel::Reading { changes, committed, ids, fresh }),
        fresh.len() < ids.len(),
    ensures
        rw_stepped(c, RwEventModel::Item(Err((DriveKind::NotFound, text)))) == rw_stepped(
            c,
            RwEventModel::Item(Ok(ChangeModel::Delete(ids[fresh.len() as int]))),
        ),
        kind != DriveKind::NotFound ==> rw_stepped(c, RwEventModel::Item(Err((kind, text)))) is Err,
        fresh.len() + 1 < ids.len() ==> (rw_stepped(c, RwEventModel::Item(Ok(change))) matches Ok(
            RwNextModel::Go(then, action),
        ) && action == RwActionModel::ReadAgain(ids[(fresh.len() + 1) as int]) && then.phase == (
        RwPhaseModel::Reading { changes, committed, ids, fresh: fresh.push(change) })),
        fresh.len() + 1 == ids.len() && changes is None ==> (rw_stepped(
            c,
            RwEventModel::Item(Ok(change)),
        ) matches Ok(RwNextModel::Go(then, action)) && action == RwActionModel::StageOver(
            fresh.push(change),
        ) && then.phase is Over),
{
}

/// The entries of a delta that are asked for again are those of an item the
/// outbox committed meanwhile, unless the entry is the commit itself.
proof fn lemma_stale(c: ChangeModel, committed: Map<Seq<char>, CommittedModel>, id: Seq<char>)
    requires
        is_about(c, id),
    ensures
        is_stale(c, committed) <==> committed.contains_key(id) && !is_the_commit(c, committed[id]),
{
}

proof fn lemma_guarded(
    changes: Seq<ChangeModel>,
    committed: Map<Seq<char>, CommittedModel>,
    fresh: Seq<ChangeModel>,
    n: int,
    k: int,
    id: Seq<char>,
)
    requires
        0 <= k < n <= changes.len(),
        is_about(changes[k], id),
        fresh.len() == stale_of(changes, committed, changes.len() as int).len(),
    ensures
        guarded(changes, committed, fresh, n).len() == n,
        committed.contains_key(id) && !is_the_commit(changes[k], committed[id]) ==> exists|j: int|
            0 <= j < stale_of(changes, committed, n).len() && #[trigger] stale_of(
                changes,
                committed,
                n,
            )[j] == id && guarded(changes, committed, fresh, n)[k] == fresh[j],
        !(committed.contains_key(id) && !is_the_commit(changes[k], committed[id])) ==> guarded(
            changes,
            committed,
            fresh,
            n,
        )[k] == changes[k],
    decreases n,
{
    lemma_stale(changes[k], committed, id);
    lemma_lengths(changes, committed, fresh, n - 1);
    let before = stale_of(changes, committed, n - 1);
    let now = stale_of(changes, committed, n);
    if k < n - 1 {
        lemma_guarded(changes, committed, fresh, n - 1, k, id);
        if committed.contains_key(id) && !is_the_commit(changes[k], committed[id]) {
            let j = choose|j: int|
                0 <= j < before.len() && #[trigger] before[j] == id && guarded(
                    changes,
                    committed,
                    fresh,
                    n - 1,
                )[k] == fresh[j];
            assert(now[j] == id);
        }
    } else if is_stale(changes[k], committed) {
        assert(now[before.len() as int] == id);
    }
}

proof fn lemma_lengths(
    changes: Seq<ChangeModel>,
    committed: Map<Seq<char>, CommittedModel>,
    fresh: Seq<ChangeModel>,
    n: int,
)
    requires
        0 <= n,
    ensures
        guarded(changes, committed, fresh, n).len() == n,
    decreases n,
{
    if n > 0 {
        lemma_lengths(changes, committed, fresh, n - 1);
    }
}

/// Nothing the outbox committed is undone by an older answer of the feed's: the
/// entry of an item it committed after the fetch began is replaced by what
/// Graph answers when asked for that item again, unless it is the commit
/// itself; every other entry is staged as it came, and each in its place.
pub proof fn law_a_commit_is_not_undone_by_an_older_entry(
    changes: Seq<ChangeModel>,
    committed: Map<Seq<char>, CommittedModel>,
    fresh: Seq<ChangeModel>,
    k: int,
    id: Seq<char>,
)
    requires
        0 <= k < changes.len(),
        is_about(changes[k], id),
        fresh.len() == stale_of(changes, committed, changes.len() as int).len(),
    ensures
        ({
            let asked = stale_of(changes, committed, changes.len() as int);
            let staged = guarded(changes, committed, fresh, changes.len() as int);
            &&& staged.len() == changes.len()
            &&& if committed.contains_key(id) && !is_the_commit(changes[k], committed[id]) {
                exists|j: int|
                    0 <= j < asked.len() && #[trigger] asked[j] == id && staged[k] == fresh[j]
            } else {
                staged[k] == changes[k]
            }
        }),
{
    lemma_guarded(changes, committed, fresh, changes.len() as int, k, id);
}

proof fn lemma_waits(u: Unshown, changed: Seq<Seq<char>>, n: int, id: Seq<char>)
    requires
        0 <= n <= changed.len(),
    ensures
        deferred_of(u, changed, n).contains(id) <==> changed.subrange(0, n).contains(id)
            && !u.removing.deep_view().contains(id) && (u.held.deep_view().contains(id)
            || u.unsettled.deep_view().contains(id)),
        content_of(u, changed, n).contains(id) <==> changed.subrange(0, n).contains(id)
            && !u.removing.deep_view().contains(id) && !u.held.deep_view().contains(id)
            && !u.unsettled.deep_view().contains(id) && u.content_waits.deep_view().contains(id),
    decreases n,
{
    if n > 0 {
        lemma_waits(u, changed, n - 1, id);
        let x = changed[n - 1];
        let before = changed.subrange(0, n - 1);
        assert(changed.subrange(0, n) =~= before.push(x));
        vstd::seq_lib::lemma_seq_contains_after_push(before, x, id);
        vstd::seq_lib::lemma_seq_contains_after_push(deferred_of(u, changed, n - 1), x, id);
        vstd::seq_lib::lemma_seq_contains_after_push(content_of(u, changed, n - 1), x, id);
    }
}

/// Of what changed, the change of an item the disk did not take, or that is
/// left as it is there, keeps its base and waits; of one the disk took but for
/// its content only that does; and nothing of what a row removes. The link is
/// the reconcile's own, and so is the page's.
pub proof fn law_what_the_disk_did_not_take_keeps_its_base(
    link: Seq<char>,
    listing: bool,
    next: Seq<char>,
    changed: Seq<Seq<char>>,
    u: Unshown,
    id: Seq<char>,
)
    ensures
        rw_commit_of(CommitModel::Swap { link, listing }, changed, u) matches RwCommitModel::Swap {
            link: stored,
            defer,
            content,
        } && {
            &&& stored == link
            &&& defer.contains(id) <==> changed.contains(id) && !u.removing.deep_view().contains(id)
                && (u.held.deep_view().contains(id) || u.unsettled.deep_view().contains(id))
            &&& content.contains(id) <==> changed.contains(id) && !u.removing.deep_view().contains(id)
                && !u.held.deep_view().contains(id) && !u.unsettled.deep_view().contains(id)
                && u.content_waits.deep_view().contains(id)
        },
        rw_commit_of(CommitModel::Page { next }, changed, u) == (RwCommitModel::Page { next }),
{
    lemma_waits(u, changed, changed.len() as int, id);
    assert(changed.subrange(0, changed.len() as int) =~= changed);
}

} // verus!
