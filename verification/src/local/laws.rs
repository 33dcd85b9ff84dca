//! What holds of every examination.

use vstd::prelude::*;
use crate::local::content::{
    backing_up, checking, checking_hydrated, detection, dir_id, estranging, finding,
    forgetting_state, found_change, keeping_backup, noting, probing, saving_by_rename, waiting,
    Content,
};
use crate::local::entry::{inode_of, EntryModel, State, StateAttr};
use crate::local::examine::{
    by_depth, carriers, class_of, classifying, depth_of, depth_slot, finding_all, found_by_depth,
    ids_carried, listing_all, meeting_all_new, recording_skips, resolving_all, starting, unlisting,
    without_id,
};
use crate::local::facts::{absent_of, place_of, AskModel, Facts, PlaceModel, StopModel};
use crate::local::finish::{
    all_removed, comes_first, examining, finishing, guarding, held, holding_rows, is_new_removal,
    is_waiting_removal, mass_delete, recorded, trips,
};
use crate::local::ignore::ignored;
use crate::local::missing::{
    items_in, losing_inside, losing_items, losing_new, losing_rows, missing_from, missing_in,
};
use crate::local::order::{in_order, law_order_is_a_permutation, slots_of, written_order};
use crate::local::removal::{
    clearing, enough, leaving, losing, losing_pending, newcomer, object_of, removal_of, removing,
};
use crate::local::resolve::{
    by_path, estranging_all, estranging_others, group_at, group_from, group_of_handle, grouped,
    grouping, groups_of, linking,
    meeting_unknown, of_kind, path_slot, resolving, taking,
};
use crate::local::run::{
    choosing, consuming, index_at, index_from, rechecking, rechecking_at, skipping, with_detection, with_op,
    ExaminedModel, RunModel, SceneModel, Settle,
};
use crate::local::shape::{
    is_tree, lemma_losing_reaches_its_end, lemma_removing_reaches_its_end,
};
use crate::local::unnamed::{
    appearing, dropping_inside, ignoring, in_ignored_dir, meeting_new, new_change, new_kind,
    new_refusal,
};
use crate::local::world::{
    being_created, expected_rel, item_of, pending_of, pending_upto, recorded_handle, row_is_of, WorldModel,
};
use crate::path::{dir_of, PathModel};
use crate::text::text_of;
use crate::tree::{
    kind_removes, DetectionModel, InodeModel, OpModel, OutboxKind, OutboxState, RowModel,
};

verus! {

/// A row numbered `seq` is not being sent.
pub open spec fn is_removable(w: WorldModel, seq: i64) -> bool {
    exists|k: int|
        0 <= k < w.rows.len() && (#[trigger] w.rows[k]).seq == seq && w.rows[k].state
            != OutboxState::Running
}

/// Item `id` is proved deleted from `rel`: its recorded object is gone, told by
/// a handle of this filesystem, and is absent from there.
pub open spec fn proved_deleted(sc: SceneModel, id: Seq<char>, rel: PathModel) -> bool {
    recorded_handle(sc.w, id) matches Some(h) && place_of(sc.w, sc.f, h) == Ok::<
        PlaceModel,
        StopModel,
    >(PlaceModel::Gone) && absent_of(sc.f, rel, h) == Ok::<bool, StopModel>(true)
}

/// Item `id` is proved to have left the folder: its recorded object is alive
/// at a sure path outside it.
pub open spec fn proved_out(sc: SceneModel, id: Seq<char>) -> bool {
    recorded_handle(sc.w, id) matches Some(h) && place_of(sc.w, sc.f, h) matches Ok(
        PlaceModel::Outside(_),
    )
}

/// A removal of an item is proved.
pub open spec fn is_proved(sc: SceneModel, d: DetectionModel) -> bool {
    &&& d.kind == OutboxKind::Delete && d.item_id is Some ==> proved_deleted(
        sc,
        d.item_id->0,
        d.rel,
    )
    &&& d.kind == OutboxKind::MoveOut ==> d.item_id is Some && proved_out(sc, d.item_id->0)
    &&& d.state != OutboxState::Running
}

/// The entry may be a OneDrive object: not the daemon's own, not under a name
/// kept for it, a file or a directory, and on the folder's filesystem.
pub open spec fn may_go_up(sc: SceneModel, e: EntryModel) -> bool {
    class_of(sc, e) is Item || class_of(sc, e) is New
}

/// The entries `list` may be OneDrive objects.
spec fn all_may_go_up(sc: SceneModel, first: Seq<EntryModel>, list: Seq<usize>) -> bool {
    forall|k: int|
        0 <= k < list.len() ==> (#[trigger] list[k]) < first.len() && may_go_up(
            sc,
            first[list[k] as int],
        )
}

/// So may those of every group.
spec fn groups_may_go_up(sc: SceneModel, first: Seq<EntryModel>, groups: Seq<Seq<usize>>) -> bool {
    forall|g: int|
        0 <= g < groups.len() ==> all_may_go_up(sc, first, #[trigger] groups[g]) && groups[g].len()
            > 0
}

/// The detection creates the entry in OneDrive: it may be there, neither its
/// name nor a directory of the user's own above it is ignored, and what
/// OneDrive refuses is blocked.
pub open spec fn creates(sc: SceneModel, e: EntryModel, d: DetectionModel) -> bool {
    &&& d.rel == e.rel
    &&& may_go_up(sc, e)
    &&& !ignored(sc.w.ignore, e.name)
    &&& in_ignored_dir(sc, crate::path::dir_of(e.rel)) == Ok::<bool, StopModel>(false)
    &&& new_refusal(e) is Some ==> d.state == OutboxState::Blocked
}

/// The detection is of the entry as it stands on disk: the object that is there,
/// at its path, to be sent under its name into the item its directory is — the
/// root for an entry of the root, and for any other an item that the directory
/// it is in carries the id of, or none yet.
pub open spec fn stands_for(
    sc: SceneModel,
    first: Seq<EntryModel>,
    e: EntryModel,
    d: DetectionModel,
) -> bool {
    &&& d.rel == e.rel
    &&& d.target_name == Some(text_of(e.name))
    &&& d.inode matches Some(o) && o.dev == e.dev && o.ino == e.ino && o.handle == e.handle
    &&& e.rel.len() <= 1 ==> d.target_parent == Some(sc.w.root_id)
    &&& e.rel.len() > 1 ==> (d.target_parent matches Some(p) ==> exists|j: int|
        0 <= j < first.len() && (#[trigger] first[j]).rel == e.rel.drop_last() && first[j].id
            == Some(p))
}

/// What is sent stands in the folder, and what is created may go there.
pub open spec fn is_of_an_entry(sc: SceneModel, first: Seq<EntryModel>, d: DetectionModel) -> bool {
    &&& d.kind == OutboxKind::Create || d.kind == OutboxKind::Mkdir ==> exists|i: int|
        0 <= i < first.len() && creates(sc, #[trigger] first[i], d)
    &&& !kind_removes(d.kind) ==> exists|i: int|
        0 <= i < first.len() && stands_for(sc, first, #[trigger] first[i], d)
}

/// The entries are those first read; only their id and state may have changed.
spec fn still_read(first: Seq<EntryModel>, entries: Seq<EntryModel>) -> bool {
    &&& entries.len() == first.len() <= usize::MAX
    &&& forall|i: int|
        0 <= i < first.len() ==> (#[trigger] entries[i]).name == first[i].name && entries[i].rel
            == first[i].rel && entries[i].ty == first[i].ty && entries[i].dev == first[i].dev
            && entries[i].ino == first[i].ino && entries[i].handle == first[i].handle
            && entries[i].size == first[i].size && (entries[i].state == first[i].state
            || entries[i].state == StateAttr::Absent) && (entries[i].id == first[i].id
            || entries[i].id is None)
}

/// No row being sent is removed, every removal is proved, and everything
/// created is an entry's.
spec fn is_sound(sc: SceneModel, first: Seq<EntryModel>, run: RunModel) -> bool {
    &&& forall|k: int|
        0 <= k < run.out.ops.len() ==> (#[trigger] run.out.ops[k] matches OpModel::Remove(seq)
            ==> is_removable(sc.w, seq))
    &&& forall|k: int|
        0 <= k < run.out.ops.len() ==> !((#[trigger] run.out.ops[k]) is Record)
    &&& forall|k: int|
        0 <= k < run.detections.len() ==> is_proved(sc, #[trigger] run.detections[k])
            && is_of_an_entry(sc, first, run.detections[k])
    &&& all_may_go_up(sc, first, run.fresh)
    &&& still_read(first, run.entries)
    &&& forall|id: Seq<char>| #[trigger]
        run.chosen.contains_key(id) ==> run.chosen[id] < first.len()
}

/// The question has no answer yet.
pub open spec fn is_open(f: Facts, ask: AskModel) -> bool {
    match ask {
        AskModel::Whereabouts(h) => f.told_of(h) is None,
        AskModel::Standing(rel) => f.standing_of(rel) is None,
        AskModel::StandingOut(went, rel) => f.standing_out_of(went, rel) is None,
        AskModel::Dir(rel) => f.dir_of(rel) is None,
        AskModel::Strip(i) => f.stripped_of(i) is None,
        AskModel::Check(i) => f.checked_of(i) is None,
        AskModel::Hash(i) => f.hashed_of(i) is None,
        AskModel::Restore(i) => f.restored_of(i) is None,
        AskModel::Probe(rel) => f.probed_of(rel) is None,
        AskModel::DirInode(rel) => f.dir_inode_of(rel) is None,
    }
}

/// A stop asks only what is not answered.
pub open spec fn asks_openly(sc: SceneModel, stop: StopModel) -> bool {
    stop matches StopModel::Ask(ask) ==> is_open(sc.f, ask)
}

/// Only a downloaded file is read, and only a placeholder given its size back.
pub open spec fn reads_downloaded(first: Seq<EntryModel>, stop: StopModel) -> bool {
    match stop {
        StopModel::Ask(AskModel::Hash(i)) => i < first.len() ==> first[i as int].state
            == StateAttr::Known(State::Hydrated),
        StopModel::Ask(AskModel::Restore(i)) => i < first.len() ==> first[i as int].state
            == StateAttr::Known(State::OnlineOnly),
        _ => true,
    }
}

/// A base that is a tree is walked to its end.
pub open spec fn walks_to_the_end(sc: SceneModel, stop: StopModel) -> bool {
    is_tree(sc.w) ==> !(stop is NoTree)
}

/// What a step of a walk comes to is sound.
spec fn sound_step(sc: SceneModel, first: Seq<EntryModel>, r: Result<RunModel, StopModel>) -> bool {
    match r {
        Ok(run) => is_sound(sc, first, run),
        Err(stop) => asks_openly(sc, stop) && reads_downloaded(first, stop),
    }
}

/// What a step of a walk that gives a value comes to is sound.
spec fn sound_step_with<T>(
    sc: SceneModel,
    first: Seq<EntryModel>,
    r: Result<(RunModel, T), StopModel>,
) -> bool {
    match r {
        Ok((run, _)) => is_sound(sc, first, run),
        Err(stop) => asks_openly(sc, stop) && reads_downloaded(first, stop),
    }
}

/// What a step comes to is sound, and a tree is walked to its end.
spec fn kept(sc: SceneModel, first: Seq<EntryModel>, r: Result<RunModel, StopModel>) -> bool {
    &&& sound_step(sc, first, r)
    &&& r matches Err(stop) ==> walks_to_the_end(sc, stop)
}

/// So is what a step that gives a value comes to.
spec fn kept_with<T>(sc: SceneModel, first: Seq<EntryModel>, r: Result<(RunModel, T), StopModel>) -> bool {
    &&& sound_step_with(sc, first, r)
    &&& r matches Err(stop) ==> walks_to_the_end(sc, stop)
}

proof fn lemma_op(sc: SceneModel, first: Seq<EntryModel>, run: RunModel, op: OpModel)
    requires
        is_sound(sc, first, run),
        op matches OpModel::Remove(seq) ==> is_removable(sc.w, seq),
        !(op is Record),
    ensures
        is_sound(sc, first, with_op(run, op)),
{
}

proof fn lemma_detection(sc: SceneModel, first: Seq<EntryModel>, run: RunModel, d: DetectionModel)
    requires
        is_sound(sc, first, run),
        is_proved(sc, d),
        is_of_an_entry(sc, first, d),
    ensures
        is_sound(sc, first, with_detection(run, d)),
{
}

/// The item of a directory is one that it carried the id of when it was read.
proof fn lemma_dir_id(sc: SceneModel, first: Seq<EntryModel>, run: RunModel, rel: PathModel)
    requires
        is_sound(sc, first, run),
        rel.len() > 0,
    ensures
        dir_id(sc, run, rel) matches Some(p) ==> exists|j: int|
            0 <= j < first.len() && (#[trigger] first[j]).rel == rel && first[j].id == Some(p),
{
    lemma_index(run.entries, rel, 0);
    if let Some(j) = index_at(run.entries, rel) {
        assert(run.entries[j as int].rel == first[j as int].rel);
    }
}

/// What is recorded of entry `i` is of it as it was read.
proof fn lemma_stands_for(sc: SceneModel, first: Seq<EntryModel>, run: RunModel, i: usize, d: DetectionModel)
    requires
        is_sound(sc, first, run),
        i < first.len(),
        d.rel == run.entries[i as int].rel,
        d.target_name == Some(text_of(run.entries[i as int].name)),
        d.inode == Some(inode_of(run.entries[i as int])),
        d.target_parent == dir_id(sc, run, dir_of(run.entries[i as int].rel)),
    ensures
        stands_for(sc, first, first[i as int], d),
{
    let e = run.entries[i as int];
    assert(e.rel == first[i as int].rel);
    if e.rel.len() > 1 {
        lemma_dir_id(sc, first, run, e.rel.drop_last());
    }
}

proof fn lemma_pending(w: WorldModel, e: EntryModel, n: int)
    requires
        n <= w.rows.len(),
    ensures
        pending_upto(w.rows, e, n) matches Some(row) ==> row_is_of(row, e) && exists|k: int|
            0 <= k < w.rows.len() && #[trigger] w.rows[k] == row,
    decreases n,
{
    if n > 0 {
        if !row_is_of(w.rows[n - 1], e) {
            lemma_pending(w, e, n - 1);
        } else {
            assert(w.rows[n - 1] == pending_upto(w.rows, e, n)->0);
        }
    }
}

proof fn lemma_saving(sc: SceneModel, first: Seq<EntryModel>, run: RunModel, id: Seq<char>, base: RowModel, s: usize)
    requires
        is_sound(sc, first, run),
        s < first.len(),
    ensures
        kept(sc, first, saving_by_rename(sc, run, id, base, s)),
{
    let e = run.entries[s as int];
    lemma_pending(sc.w, e, sc.w.rows.len() as int);
    let removed = match pending_of(sc.w, e) {
        Some(row) => if row.state != OutboxState::Running {
            with_op(run, OpModel::Remove(row.seq))
        } else {
            run
        },
        None => run,
    };
    assert(is_sound(sc, first, removed));
    match probing(sc, removed, s) {
        Err(_) => {},
        Ok((next, busy)) => {
            assert(is_sound(sc, first, next));
            let d = detection(sc, next, OutboxKind::Update, id, base, e, None);
            lemma_stands_for(sc, first, next, s, d);
            assert(stands_for(sc, first, first[s as int], waiting(d, sc.w.now)));
            lemma_detection(sc, first, next, d);
            lemma_detection(sc, first, next, waiting(d, sc.w.now));
        },
    }
}

proof fn lemma_estranging(sc: SceneModel, first: Seq<EntryModel>, run: RunModel, i: usize)
    requires
        is_sound(sc, first, run),
        i < first.len(),
        may_go_up(sc, first[i as int]),
    ensures
        kept(sc, first, estranging(sc, run, i)),
{
}

proof fn lemma_estranging_all(sc: SceneModel, first: Seq<EntryModel>, run: RunModel, list: Seq<usize>, k: int)
    requires
        is_sound(sc, first, run),
        all_may_go_up(sc, first, list),
        0 <= k,
    ensures
        kept(sc, first, estranging_all(sc, run, list, k)),
    decreases list.len() - k,
{
    if k < list.len() {
        lemma_estranging(sc, first, run, list[k]);
        if let Ok(next) = estranging(sc, run, list[k]) {
            lemma_estranging_all(sc, first, next, list, k + 1);
        }
    }
}

proof fn lemma_keeping_backup(sc: SceneModel, first: Seq<EntryModel>, run: RunModel, group: Seq<usize>, k: int)
    requires
        is_sound(sc, first, run),
    ensures
        kept(sc, first, keeping_backup(sc, run, group, k)),
    decreases group.len() - k,
{
    if k < group.len() {
        let taken = consuming(run, group[k]);
        let e = run.entries[group[k] as int];
        lemma_keeping_backup(sc, first, taken, group, k + 1);
        lemma_keeping_backup(
            sc,
            first,
            RunModel {
                out: ExaminedModel { stripped: taken.out.stripped.push(e.rel), ..taken.out },
                ..taken
            },
            group,
            k + 1,
        );
    }
}

proof fn lemma_index(entries: Seq<EntryModel>, rel: PathModel, i: int)
    requires
        entries.len() <= usize::MAX,
        0 <= i,
    ensures
        index_from(entries, rel, i) matches Some(s) ==> s < entries.len() && entries[s as int].rel
            == rel,
    decreases entries.len() - i,
{
    if i < entries.len() {
        lemma_index(entries, rel, i + 1);
    }
}

proof fn lemma_backing_up(
    sc: SceneModel,
    first: Seq<EntryModel>,
    run: RunModel,
    id: Seq<char>,
    base: RowModel,
    group: Seq<usize>,
    s: usize,
)
    requires
        is_sound(sc, first, run),
        s < first.len(),
    ensures
        kept(sc, first, backing_up(sc, run, id, base, group, s)),
{
    lemma_keeping_backup(sc, first, run, group, 0);
    if let Ok(kept_run) = keeping_backup(sc, run, group, 0) {
        let ready = forgetting_state(choosing(consuming(kept_run, s), id, s), s);
        assert(is_sound(sc, first, ready));
        lemma_saving(sc, first, ready, id, base, s);
    }
}

proof fn lemma_finding(sc: SceneModel, first: Seq<EntryModel>, run: RunModel, id: Seq<char>, base: RowModel, i: usize)
    requires
        is_sound(sc, first, run),
        i < first.len(),
    ensures
        kept(sc, first, finding(sc, run, id, base, i)),
{
    let noted = noting(sc, run, id, i);
    assert(is_sound(sc, first, noted));
    if run.entries[i as int].state == StateAttr::Known(State::Hydrated) {
        assert(kept_with(sc, first, checking_hydrated(sc, noted, id, base, i)));
    }
    assert(kept_with(sc, first, checking(sc, noted, id, base, i)));
    let checked = if run.entries[i as int].ty == crate::os::Type::File {
        checking(sc, noted, id, base, i)
    } else {
        Ok((noted, Content::Same))
    };
    if let Ok((next, content)) = checked {
        assert(next.entries == run.entries);
        let d = found_change(sc, next, id, base, i, content);
        lemma_stands_for(sc, first, next, i, d);
        lemma_detection(sc, first, next, d);
    }
}

proof fn lemma_losing_pending(sc: SceneModel, first: Seq<EntryModel>, run: RunModel, k: int)
    requires
        is_sound(sc, first, run),
        0 <= k < sc.w.rows.len(),
    ensures
        is_sound(sc, first, losing_pending(run, sc.w.rows[k])),
{
}

proof fn lemma_losing(sc: SceneModel, first: Seq<EntryModel>, run: RunModel, id: Seq<char>, rel: PathModel, fuel: nat)
    requires
        is_sound(sc, first, run),
    ensures
        sound_step(sc, first, losing(sc, run, id, rel, fuel)),
    decreases fuel, 0nat, 0nat,
{
    if fuel > 0 {
        match item_of(sc.w, id) {
            None => {},
            Some(item) => match newcomer(sc, run, item.row, rel) {
                Some(s) => {
                    lemma_index(run.entries, rel, 0);
                    lemma_saving(sc, first, choosing(consuming(run, s), id, s), id, item.row, s);
                },
                None => match item.handle {
                    None => {},
                    Some(handle) => match place_of(sc.w, sc.f, handle) {
                        Ok(PlaceModel::Gone) => {
                            if absent_of(sc.f, rel, handle) == Ok::<bool, StopModel>(true) {
                                lemma_removing(
                                    sc,
                                    first,
                                    run,
                                    OutboxKind::Delete,
                                    id,
                                    item.row,
                                    rel,
                                    None,
                                    None,
                                    (fuel - 1) as nat,
                                );
                            }
                        },
                        Ok(PlaceModel::Outside(to)) => {
                            lemma_removing(
                                sc,
                                first,
                                run,
                                OutboxKind::MoveOut,
                                id,
                                item.row,
                                rel,
                                Some(object_of(handle)),
                                Some(to),
                                (fuel - 1) as nat,
                            );
                        },
                        _ => {},
                    },
                },
            },
        }
    }
}

proof fn lemma_removing(
    sc: SceneModel,
    first: Seq<EntryModel>,
    run: RunModel,
    kind: OutboxKind,
    id: Seq<char>,
    base: RowModel,
    rel: PathModel,
    inode: Option<InodeModel>,
    went: Option<Seq<u8>>,
    fuel: nat,
)
    requires
        is_sound(sc, first, run),
        is_proved(sc, removal_of(kind, id, base, rel, inode, went)),
        kind_removes(kind),
    ensures
        sound_step_with(sc, first, removing(sc, run, kind, id, base, rel, inode, went, fuel)),
    decreases fuel, 0nat, 0nat,
{
    if fuel > 0 && !run.decided.contains(id) {
        let marked = RunModel { decided: run.decided.insert(id), ..run };
        lemma_leaving(
            sc,
            first,
            marked,
            seq![id],
            0,
            rel,
            went,
            Settle::Done,
            sc.w.items.len() + 1,
            (fuel - 1) as nat,
        );
        if let Ok((next, Settle::Done)) = leaving(
            sc,
            marked,
            seq![id],
            0,
            rel,
            went,
            Settle::Done,
            sc.w.items.len() + 1,
            (fuel - 1) as nat,
        ) {
            lemma_clearing(sc, first, next, id, rel, 0, (fuel - 1) as nat);
        }
    }
}

proof fn lemma_clearing(
    sc: SceneModel,
    first: Seq<EntryModel>,
    run: RunModel,
    folder: Seq<char>,
    rel: PathModel,
    k: int,
    fuel: nat,
)
    requires
        is_sound(sc, first, run),
        0 <= k,
    ensures
        sound_step(sc, first, clearing(sc, run, folder, rel, k, fuel)),
    decreases fuel, sc.w.rows.len() - k, 0nat,
{
    if k < sc.w.rows.len() && fuel > 0 {
        let row = sc.w.rows[k];
        lemma_clearing(sc, first, run, folder, rel, k + 1, fuel);
        lemma_losing_pending(sc, first, run, k);
        lemma_clearing(sc, first, losing_pending(run, row), folder, rel, k + 1, fuel);
        if row.state != OutboxState::Running {
            lemma_op(sc, first, run, OpModel::Remove(row.seq));
            lemma_clearing(sc, first, with_op(run, OpModel::Remove(row.seq)), folder, rel, k + 1, fuel);
        }
        if let Some(item) = row.item_id {
            lemma_losing(sc, first, run, item, row.rel, (fuel - 1) as nat);
            if let Ok(next) = losing(sc, run, item, row.rel, (fuel - 1) as nat) {
                lemma_clearing(sc, first, next, folder, rel, k + 1, fuel);
            }
        }
    }
}

proof fn lemma_leaving(
    sc: SceneModel,
    first: Seq<EntryModel>,
    run: RunModel,
    queue: Seq<Seq<char>>,
    c: int,
    rel: PathModel,
    went: Option<Seq<u8>>,
    settled: Settle,
    steps: nat,
    fuel: nat,
)
    requires
        is_sound(sc, first, run),
        0 <= c,
    ensures
        sound_step_with(sc, first, leaving(sc, run, queue, c, rel, went, settled, steps, fuel)),
    decreases fuel, steps, sc.w.items.len() - c,
{
    if queue.len() > 0 && steps > 0 && fuel > 0 {
        if c >= sc.w.items.len() {
            lemma_leaving(
                sc,
                first,
                run,
                queue.drop_first(),
                0,
                rel,
                went,
                settled,
                (steps - 1) as nat,
                fuel,
            );
        } else {
            let child = sc.w.items[c].row;
            let id = child.id;
            let inside = queue.push(id);
            let wait = crate::local::run::less_settled(settled, Settle::Wait);
            let unproven = crate::local::run::less_settled(settled, Settle::Unproven);
            let before = crate::local::run::less_settled(
                settled,
                crate::local::run::settled_as(run, id),
            );
            lemma_leaving(sc, first, run, queue, c + 1, rel, went, settled, steps, fuel);
            lemma_leaving(sc, first, run, inside, c + 1, rel, went, settled, steps, fuel);
            lemma_leaving(sc, first, run, queue, c + 1, rel, went, wait, steps, fuel);
            lemma_leaving(sc, first, run, queue, c + 1, rel, went, unproven, steps, fuel);
            lemma_leaving(sc, first, run, queue, c + 1, rel, went, before, steps, fuel);
            if let Some(handle) = recorded_handle(sc.w, id) {
                match place_of(sc.w, sc.f, handle) {
                    Ok(PlaceModel::Outside(to)) => if let Some(at) = expected_rel(sc.w, id) {
                        lemma_removing(
                            sc,
                            first,
                            run,
                            OutboxKind::MoveOut,
                            id,
                            child,
                            at,
                            Some(object_of(handle)),
                            Some(to),
                            (fuel - 1) as nat,
                        );
                        if let Ok((next, left)) = removing(
                            sc,
                            run,
                            OutboxKind::MoveOut,
                            id,
                            child,
                            at,
                            Some(object_of(handle)),
                            Some(to),
                            (fuel - 1) as nat,
                        ) {
                            lemma_leaving(
                                sc,
                                first,
                                next,
                                queue,
                                c + 1,
                                rel,
                                went,
                                crate::local::run::less_settled(settled, left),
                                steps,
                                fuel,
                            );
                        }
                    },
                    Ok(PlaceModel::Inside(now)) => {
                        lemma_leaving(
                            sc,
                            first,
                            rechecking_at(run, now),
                            queue,
                            c + 1,
                            rel,
                            went,
                            wait,
                            steps,
                            fuel,
                        );
                    },
                    _ => {},
                }
            }
        }
    }
}

proof fn lemma_meeting_unknown(sc: SceneModel, first: Seq<EntryModel>, run: RunModel, id: Seq<char>, list: Seq<usize>, k: int)
    requires
        is_sound(sc, first, run),
        all_may_go_up(sc, first, list),
        0 <= k,
    ensures
        kept(sc, first, meeting_unknown(sc, run, id, list, k)),
    decreases list.len() - k,
{
    if k < list.len() {
        let e = run.entries[list[k] as int];
        lemma_meeting_unknown(sc, first, rechecking(run, e), id, list, k + 1);
        lemma_meeting_unknown(sc, first, run, id, list, k + 1);
        lemma_estranging(sc, first, run, list[k]);
        if let Ok(next) = estranging(sc, run, list[k]) {
            lemma_meeting_unknown(sc, first, next, id, list, k + 1);
        }
    }
}

proof fn lemma_of_kind(
    sc: SceneModel,
    first: Seq<EntryModel>,
    run: RunModel,
    want: crate::os::Type,
    list: Seq<usize>,
    k: int,
    same: Seq<usize>,
)
    requires
        is_sound(sc, first, run),
        all_may_go_up(sc, first, list),
        all_may_go_up(sc, first, same),
        0 <= k,
    ensures
        of_kind(sc, run, want, list, k, same) matches Ok((_, all)) ==> all_may_go_up(sc, first, all),
        kept_with(sc, first, of_kind(sc, run, want, list, k, same)),
    decreases list.len() - k,
{
    if k < list.len() {
        lemma_of_kind(sc, first, run, want, list, k + 1, same.push(list[k]));
        lemma_estranging(sc, first, run, list[k]);
        if let Ok(next) = estranging(sc, run, list[k]) {
            lemma_of_kind(sc, first, next, want, list, k + 1, same);
        }
    }
}

proof fn lemma_linking(sc: SceneModel, first: Seq<EntryModel>, run: RunModel, group: Seq<usize>, chosen: usize, k: int)
    requires
        is_sound(sc, first, run),
    ensures
        is_sound(sc, first, linking(sc, run, group, chosen, k)),
    decreases group.len() - k,
{
    if k < group.len() {
        let e = run.entries[group[k] as int];
        let taken = consuming(run, group[k]);
        lemma_linking(sc, first, run, group, chosen, k + 1);
        lemma_linking(sc, first, taken, group, chosen, k + 1);
        lemma_linking(sc, first, skipping(taken, e.rel, "hard-link"@), group, chosen, k + 1);
    }
}

proof fn lemma_estranging_others(
    sc: SceneModel,
    first: Seq<EntryModel>,
    run: RunModel,
    groups: Seq<Seq<usize>>,
    pick: int,
    g: int,
)
    requires
        is_sound(sc, first, run),
        groups_may_go_up(sc, first, groups),
        0 <= g,
    ensures
        kept(sc, first, estranging_others(sc, run, groups, pick, g)),
    decreases groups.len() - g,
{
    if g < groups.len() {
        lemma_estranging_others(sc, first, run, groups, pick, g + 1);
        lemma_estranging_all(sc, first, run, groups[g], 0);
        if let Ok(next) = estranging_all(sc, run, groups[g], 0) {
            lemma_estranging_others(sc, first, next, groups, pick, g + 1);
        }
    }
}

proof fn lemma_group_slot(entries: Seq<EntryModel>, groups: Seq<Seq<usize>>, i: usize, g: int)
    requires
        0 <= g <= groups.len(),
    ensures
        g <= group_from(entries, groups, i, g) <= groups.len(),
    decreases groups.len() - g,
{
    if g < groups.len() {
        lemma_group_slot(entries, groups, i, g + 1);
    }
}

proof fn lemma_grouping(
    sc: SceneModel,
    first: Seq<EntryModel>,
    entries: Seq<EntryModel>,
    same: Seq<usize>,
    k: int,
    groups: Seq<Seq<usize>>,
)
    requires
        all_may_go_up(sc, first, same),
        groups_may_go_up(sc, first, groups),
        0 <= k,
    ensures
        groups_may_go_up(sc, first, grouping(entries, same, k, groups)),
        grouping(entries, same, k, groups).len() >= groups.len(),
        k < same.len() ==> grouping(entries, same, k, groups).len() > 0,
    decreases same.len() - k,
{
    if k < same.len() {
        let i = same[k];
        let next = grouped(entries, groups, i);
        lemma_group_slot(entries, groups, i, 0);
        let g = group_from(entries, groups, i, 0);
        assert forall|h: int| 0 <= h < next.len() implies all_may_go_up(
            sc,
            first,
            #[trigger] next[h],
        ) && next[h].len() > 0 by {
            if g < groups.len() && h == g {
                assert(all_may_go_up(sc, first, groups[g]));
                assert(next[h] == groups[g].push(i));
            } else if g >= groups.len() && h == groups.len() {
                assert(next[h] == seq![i]);
            } else {
                assert(next[h] == groups[h]);
            }
        }
        lemma_grouping(sc, first, entries, same, k + 1, next);
    }
}

proof fn lemma_path_slot(entries: Seq<EntryModel>, s: Seq<usize>, x: usize, p: int)
    requires
        0 <= p <= s.len(),
    ensures
        p <= path_slot(entries, s, x, p) <= s.len(),
    decreases s.len() - p,
{
    if p < s.len() {
        lemma_path_slot(entries, s, x, p + 1);
    }
}

proof fn lemma_by_path(
    sc: SceneModel,
    first: Seq<EntryModel>,
    entries: Seq<EntryModel>,
    s: Seq<usize>,
    n: int,
)
    requires
        all_may_go_up(sc, first, s),
        n <= s.len(),
    ensures
        all_may_go_up(sc, first, by_path(entries, s, n)),
        0 <= n ==> by_path(entries, s, n).len() == n,
    decreases n,
{
    if n > 0 {
        lemma_by_path(sc, first, entries, s, n - 1);
        let rest = by_path(entries, s, n - 1);
        lemma_path_slot(entries, rest, s[n - 1], 0);
    }
}

proof fn lemma_groups(
    sc: SceneModel,
    first: Seq<EntryModel>,
    entries: Seq<EntryModel>,
    same: Seq<usize>,
)
    requires
        all_may_go_up(sc, first, same),
    ensures
        groups_may_go_up(sc, first, groups_of(entries, same)),
        same.len() > 0 ==> groups_of(entries, same).len() > 0,
{
    let groups = grouping(entries, same, 0, Seq::empty());
    lemma_grouping(sc, first, entries, same, 0, Seq::empty());
    assert forall|g: int| 0 <= g < groups.len() implies all_may_go_up(
        sc,
        first,
        #[trigger] groups_of(entries, same)[g],
    ) && groups_of(entries, same)[g].len() > 0 by {
        lemma_by_path(sc, first, entries, groups[g], groups[g].len() as int);
    }
}

proof fn lemma_name_in_group(
    sc: SceneModel,
    first: Seq<EntryModel>,
    entries: Seq<EntryModel>,
    group: Seq<usize>,
    rel: Option<PathModel>,
    k: int,
)
    requires
        all_may_go_up(sc, first, group),
        group.len() > 0,
        0 <= k,
    ensures
        crate::local::resolve::name_in_group(entries, group, rel, k) < first.len(),
    decreases group.len() - k,
{
    if k < group.len() {
        lemma_name_in_group(sc, first, entries, group, rel, k + 1);
    }
}

proof fn lemma_picks(
    entries: Seq<EntryModel>,
    groups: Seq<Seq<usize>>,
    handle: Seq<u8>,
    rel: Option<PathModel>,
    g: int,
)
    requires
        0 <= g,
    ensures
        group_at(entries, groups, rel, g) matches Some(h) ==> 0 <= h < groups.len(),
        group_of_handle(entries, groups, handle, g) matches Some(h) ==> 0 <= h < groups.len(),
    decreases groups.len() - g,
{
    if g < groups.len() {
        lemma_picks(entries, groups, handle, rel, g + 1);
    }
}

proof fn lemma_taking(
    sc: SceneModel,
    first: Seq<EntryModel>,
    run: RunModel,
    id: Seq<char>,
    groups: Seq<Seq<usize>>,
    pick: int,
    expected: Option<PathModel>,
)
    requires
        is_sound(sc, first, run),
        groups_may_go_up(sc, first, groups),
        0 <= pick < groups.len(),
    ensures
        kept_with(sc, first, taking(sc, run, id, groups, pick, expected)),
        taking(sc, run, id, groups, pick, expected) matches Ok((_, Some(i))) ==> i < first.len(),
{
    let group = groups[pick];
    let chosen = crate::local::resolve::name_in_group(run.entries, group, expected, 0);
    lemma_name_in_group(sc, first, run.entries, group, expected, 0);
    lemma_linking(sc, first, consuming(choosing(run, id, chosen), chosen), group, chosen, 0);
    let linked = linking(sc, consuming(choosing(run, id, chosen), chosen), group, chosen, 0);
    lemma_estranging_others(sc, first, linked, groups, pick, 0);
}

proof fn lemma_resolving(sc: SceneModel, first: Seq<EntryModel>, run: RunModel, id: Seq<char>, list: Seq<usize>)
    requires
        is_sound(sc, first, run),
        all_may_go_up(sc, first, list),
    ensures
        kept_with(sc, first, resolving(sc, run, id, list)),
        resolving(sc, run, id, list) matches Ok((_, Some(i))) ==> i < first.len(),
{
    match item_of(sc.w, id) {
        None => lemma_meeting_unknown(sc, first, run, id, list, 0),
        Some(item) => {
            let want = if item.row.kind == crate::tree::Kind::Folder {
                crate::os::Type::Dir
            } else {
                crate::os::Type::File
            };
            lemma_of_kind(sc, first, run, want, list, 0, Seq::empty());
            if let Ok((next, same)) = of_kind(sc, run, want, list, 0, Seq::empty()) {
                if let Some(rel) = expected_rel(sc.w, id) {
                    lemma_index(next.entries, rel, 0);
                }
                assert forall|group: Seq<usize>, s: usize| s < first.len() implies kept(
                    sc,
                    first,
                    #[trigger] backing_up(sc, next, id, item.row, group, s),
                ) by {
                    lemma_backing_up(sc, first, next, id, item.row, group, s);
                }
                lemma_groups(sc, first, next.entries, same);
                let all = groups_of(next.entries, same);
                assert forall|groups: Seq<Seq<usize>>, pick: int, at: Option<PathModel>|
                    groups_may_go_up(sc, first, groups) && 0 <= pick < groups.len() implies kept_with(
                    sc,
                    first,
                    #[trigger] taking(sc, next, id, groups, pick, at),
                ) && (taking(sc, next, id, groups, pick, at) matches Ok((_, Some(i))) ==> i
                    < first.len()) by {
                    lemma_taking(sc, first, next, id, groups, pick, at);
                }
                let handle = match item.handle {
                    Some(h) => h,
                    None => Seq::empty(),
                };
                lemma_picks(next.entries, all, handle, expected_rel(sc.w, id), 0);
                lemma_picks(next.entries, all, handle, item.located, 0);
                lemma_estranging_all(sc, first, next, same, 0);
                if let Ok(copies) = estranging_all(sc, next, same, 0) {
                    if let Some(h) = item.handle {
                        if let Ok(PlaceModel::Outside(to)) = place_of(sc.w, sc.f, h) {
                            assert forall|rel: PathModel| kept_with(
                                sc,
                                first,
                                #[trigger] removing(
                                    sc,
                                    copies,
                                    OutboxKind::MoveOut,
                                    id,
                                    item.row,
                                    rel,
                                    Some(object_of(h)),
                                    Some(to),
                                    enough(sc.w),
                                ),
                            ) by {
                                lemma_removing(
                                    sc,
                                    first,
                                    copies,
                                    OutboxKind::MoveOut,
                                    id,
                                    item.row,
                                    rel,
                                    Some(object_of(h)),
                                    Some(to),
                                    enough(sc.w),
                                );
                                if is_tree(sc.w) {
                                    lemma_removing_reaches_its_end(
                                        sc,
                                        copies,
                                        OutboxKind::MoveOut,
                                        id,
                                        item.row,
                                        rel,
                                        Some(object_of(h)),
                                        Some(to),
                                    );
                                }
                            }
                        }
                    }
                }
            }
        },
    }
}

proof fn lemma_losing_items(
    sc: SceneModel,
    first: Seq<EntryModel>,
    run: RunModel,
    found: Seq<(Seq<char>, PathModel)>,
    k: int,
)
    requires
        is_sound(sc, first, run),
    ensures
        kept(sc, first, losing_items(sc, run, found, k)),
    decreases found.len() - k,
{
    if k < found.len() {
        lemma_losing_items(sc, first, run, found, k + 1);
        lemma_losing(sc, first, run, found[k].0, found[k].1, enough(sc.w));
        if is_tree(sc.w) {
            lemma_losing_reaches_its_end(sc, run, found[k].0, found[k].1);
        }
        if let Ok(next) = losing(sc, run, found[k].0, found[k].1, enough(sc.w)) {
            lemma_losing_items(sc, first, next, found, k + 1);
        }
    }
}

proof fn lemma_losing_inside(sc: SceneModel, first: Seq<EntryModel>, run: RunModel, rel: PathModel, k: int)
    requires
        is_sound(sc, first, run),
        0 <= k,
    ensures
        kept(sc, first, losing_inside(sc, run, rel, k)),
    decreases sc.w.rows.len() - k,
{
    if k < sc.w.rows.len() {
        let row = sc.w.rows[k];
        lemma_losing_inside(sc, first, run, rel, k + 1);
        lemma_losing_pending(sc, first, run, k);
        lemma_losing_inside(sc, first, losing_pending(run, row), rel, k + 1);
        if let Some(id) = row.item_id {
            lemma_losing(sc, first, run, id, row.rel, enough(sc.w));
            if is_tree(sc.w) {
                lemma_losing_reaches_its_end(sc, run, id, row.rel);
            }
            if let Ok(next) = losing(sc, run, id, row.rel, enough(sc.w)) {
                lemma_losing_inside(sc, first, next, rel, k + 1);
            }
        }
    }
}

proof fn lemma_losing_rows(
    sc: SceneModel,
    first: Seq<EntryModel>,
    run: RunModel,
    dir: PathModel,
    names: Option<Seq<Seq<u8>>>,
    k: int,
)
    requires
        is_sound(sc, first, run),
        0 <= k,
    ensures
        kept(sc, first, losing_rows(sc, run, dir, names, k)),
    decreases sc.w.rows.len() - k,
{
    if k < sc.w.rows.len() {
        let row = sc.w.rows[k];
        lemma_losing_rows(sc, first, run, dir, names, k + 1);
        lemma_losing_pending(sc, first, run, k);
        lemma_losing_inside(sc, first, losing_pending(run, row), row.rel, 0);
        if let Ok(next) = losing_new(sc, run, row) {
            lemma_losing_rows(sc, first, next, dir, names, k + 1);
        }
    }
}

proof fn lemma_missing(sc: SceneModel, first: Seq<EntryModel>, run: RunModel, p: int)
    requires
        is_sound(sc, first, run),
    ensures
        kept(sc, first, missing_from(sc, run, p)),
    decreases sc.whole.len() + sc.named_dirs.len() - p,
{
    if p < sc.whole.len() + sc.named_dirs.len() {
        let dir = if p < sc.whole.len() {
            sc.whole[p]
        } else {
            sc.named_dirs[p - sc.whole.len()]
        };
        let names = if p < sc.whole.len() {
            None
        } else {
            Some(sc.named[dir])
        };
        let items = items_in(sc, run, dir, names);
        lemma_losing_items(sc, first, run, items, 0);
        if let Ok(next) = losing_items(sc, run, items, 0) {
            lemma_losing_rows(sc, first, next, dir, names, 0);
        }
        if let Ok(next) = missing_in(sc, run, dir, names) {
            lemma_missing(sc, first, next, p + 1);
        }
    }
}

proof fn lemma_dropping_inside(sc: SceneModel, first: Seq<EntryModel>, run: RunModel, rel: PathModel, k: int)
    requires
        is_sound(sc, first, run),
        0 <= k,
    ensures
        is_sound(sc, first, dropping_inside(sc.w, run, rel, k)),
    decreases sc.w.rows.len() - k,
{
    if k < sc.w.rows.len() {
        lemma_dropping_inside(sc, first, run, rel, k + 1);
        if sc.w.rows[k].state != OutboxState::Running {
            lemma_op(sc, first, run, OpModel::Remove(sc.w.rows[k].seq));
            lemma_dropping_inside(
                sc,
                first,
                with_op(run, OpModel::Remove(sc.w.rows[k].seq)),
                rel,
                k + 1,
            );
        }
    }
}

proof fn lemma_in_ignored_dir(sc: SceneModel, dir: PathModel)
    ensures
        in_ignored_dir(sc, dir) matches Err(stop) ==> asks_openly(sc, stop) && !(stop matches
            StopModel::Ask(AskModel::Hash(_))) && !(stop matches StopModel::Ask(AskModel::Restore(_)))
            && !(stop is NoTree),
    decreases dir.len(),
{
    if dir.len() > 0 {
        lemma_in_ignored_dir(sc, dir.drop_last());
    }
}

proof fn lemma_meeting_new(sc: SceneModel, first: Seq<EntryModel>, run: RunModel, i: usize)
    requires
        is_sound(sc, first, run),
        i < first.len(),
        may_go_up(sc, first[i as int]),
    ensures
        kept(sc, first, meeting_new(sc, run, i)),
{
    let e = run.entries[i as int];
    lemma_in_ignored_dir(sc, crate::path::dir_of(e.rel));
    lemma_pending(sc.w, e, sc.w.rows.len() as int);
    // Ignored: a row of an object that is not being created is not being sent.
    if !being_created(sc.w, e) {
        let dropped = match pending_of(sc.w, e) {
            Some(row) => if row.kind == OutboxKind::Create || row.kind == OutboxKind::Mkdir {
                with_op(run, OpModel::Remove(row.seq))
            } else {
                run
            },
            None => run,
        };
        if let Some(row) = pending_of(sc.w, e) {
            let k = choose|k: int| 0 <= k < sc.w.rows.len() && #[trigger] sc.w.rows[k] == row;
            assert(row_is_of(sc.w.rows[k], e));
            assert(is_removable(sc.w, row.seq));
            lemma_op(sc, first, run, OpModel::Remove(row.seq));
        }
        lemma_dropping_inside(sc, first, dropped, e.rel, 0);
    }
    if being_created(sc.w, e) {
        let d = new_change(sc, run, OutboxKind::Move, e);
        lemma_stands_for(sc, first, run, i, d);
        lemma_detection(sc, first, run, d);
    }
    assert(is_sound(sc, first, ignoring(sc, run, i)));
    if let Some(id) = crate::local::unnamed::replaces(sc.w, e) {
        lemma_saving(sc, first, consuming(run, i), id, item_of(sc.w, id)->0.row, i);
    }
    if !ignored(sc.w.ignore, e.name) && in_ignored_dir(sc, crate::path::dir_of(e.rel)) == Ok::<
        bool,
        StopModel,
    >(false) {
        let start = first[i as int];
        assert forall|d: DetectionModel|
            d.rel == e.rel && (new_refusal(e) is Some ==> d.state == OutboxState::Blocked) implies
            #[trigger] creates(sc, start, d) by {
            assert(new_refusal(start) == new_refusal(e));
        }
        let moved = match pending_of(sc.w, e) {
            Some(row) => if e.ty == crate::os::Type::Dir && row.rel != e.rel {
                with_op(run, OpModel::Rebase { from: row.rel, to: e.rel })
            } else {
                run
            },
            None => run,
        };
        assert(is_sound(sc, first, moved));
        let d = new_change(sc, run, new_kind(sc.w, e), e);
        lemma_stands_for(sc, first, run, i, d);
        assert forall|other: DetectionModel|
            other.rel == d.rel && other.target_name == d.target_name && other.inode == d.inode
                && other.target_parent == d.target_parent implies #[trigger] stands_for(
            sc,
            first,
            start,
            other,
        ) by {}
        if let Some(why) = new_refusal(e) {
            let blocked = DetectionModel {
                state: OutboxState::Blocked,
                reason: Some(crate::local::names::refused_code(why)),
                ..d
            };
            assert(creates(sc, start, blocked));
            assert(stands_for(sc, first, start, blocked));
            lemma_detection(sc, first, moved, blocked);
        } else {
            assert(creates(sc, start, d));
            assert(creates(sc, start, waiting(d, sc.w.now)));
            assert(stands_for(sc, first, start, d));
            assert(stands_for(sc, first, start, waiting(d, sc.w.now)));
            lemma_detection(sc, first, moved, d);
            if let Ok((next, busy)) = probing(sc, moved, i) {
                assert(is_sound(sc, first, next));
                lemma_detection(sc, first, next, d);
                lemma_detection(sc, first, next, waiting(d, sc.w.now));
            }
        }
        assert(kept(sc, first, appearing(sc, run, i)));
    }
}

proof fn lemma_meeting_all_new(sc: SceneModel, first: Seq<EntryModel>, run: RunModel, list: Seq<usize>, k: int)
    requires
        is_sound(sc, first, run),
        all_may_go_up(sc, first, list),
        0 <= k,
    ensures
        kept(sc, first, meeting_all_new(sc, run, list, k)),
    decreases list.len() - k,
{
    if k < list.len() {
        lemma_meeting_all_new(sc, first, run, list, k + 1);
        lemma_meeting_new(sc, first, run, list[k]);
        if let Ok(next) = meeting_new(sc, run, list[k]) {
            lemma_meeting_all_new(sc, first, next, list, k + 1);
        }
    }
}

proof fn lemma_listing_all(sc: SceneModel, first: Seq<EntryModel>, run: RunModel, i: int)
    requires
        is_sound(sc, first, run),
    ensures
        is_sound(sc, first, listing_all(sc, run, i)),
    decreases run.entries.len() - i,
{
    if i < run.entries.len() {
        match crate::local::examine::class_of(sc, run.entries[i]) {
            crate::local::examine::Class::Listed(reason) => {
                lemma_listing_all(sc, first, skipping(run, run.entries[i].rel, reason), i + 1);
            },
            _ => lemma_listing_all(sc, first, run, i + 1),
        }
    }
}

/// The entries found are entries.
spec fn all_found(first: Seq<EntryModel>, found: Seq<(Seq<char>, usize)>) -> bool {
    forall|k: int| 0 <= k < found.len() ==> (#[trigger] found[k]).1 < first.len()
}

proof fn lemma_depth_slot_fits(depths: Seq<nat>, depth: nat, p: int)
    requires
        0 <= p <= depths.len(),
    ensures
        p <= depth_slot(depths, depth, p) <= depths.len(),
    decreases depths.len() - p,
{
    if p < depths.len() {
        lemma_depth_slot_fits(depths, depth, p + 1);
    }
}

proof fn lemma_found_by_depth(first: Seq<EntryModel>, entries: Seq<EntryModel>, s: Seq<(Seq<char>, usize)>, n: int)
    requires
        all_found(first, s),
        n <= s.len(),
    ensures
        all_found(first, found_by_depth(entries, s, n)),
    decreases n,
{
    if n > 0 {
        lemma_found_by_depth(first, entries, s, n - 1);
        let rest = found_by_depth(entries, s, n - 1);
        let depths = Seq::new(rest.len(), |p: int| depth_of(entries, rest[p].1));
        lemma_depth_slot_fits(depths, depth_of(entries, s[n - 1].1), 0);
    }
}

proof fn lemma_resolving_all(
    sc: SceneModel,
    first: Seq<EntryModel>,
    run: RunModel,
    entries: Seq<EntryModel>,
    ids: Seq<Seq<char>>,
    k: int,
    found: Seq<(Seq<char>, usize)>,
)
    requires
        is_sound(sc, first, run),
        entries == first,
        first.len() <= usize::MAX,
        all_found(first, found),
    ensures
        kept_with(sc, first, resolving_all(sc, run, entries, ids, k, found)),
        resolving_all(sc, run, entries, ids, k, found) matches Ok((_, all)) ==> all_found(first, all),
    decreases ids.len() - k,
{
    if k < ids.len() {
        let list = carriers(sc, entries, ids[k], 0, Seq::empty());
        lemma_carriers(sc, first, ids[k], 0, Seq::empty());
        lemma_resolving(sc, first, run, ids[k], list);
        match resolving(sc, run, ids[k], list) {
            Err(_) => {},
            Ok((next, Some(i))) => lemma_resolving_all(
                sc,
                first,
                next,
                entries,
                ids,
                k + 1,
                found.push((ids[k], i)),
            ),
            Ok((next, None)) => lemma_resolving_all(sc, first, next, entries, ids, k + 1, found),
        }
    }
}

proof fn lemma_finding_all(sc: SceneModel, first: Seq<EntryModel>, run: RunModel, found: Seq<(Seq<char>, usize)>, k: int)
    requires
        is_sound(sc, first, run),
        all_found(first, found),
        0 <= k,
    ensures
        kept(sc, first, finding_all(sc, run, found, k)),
    decreases found.len() - k,
{
    if k < found.len() {
        lemma_finding_all(sc, first, run, found, k + 1);
        if let Some(item) = item_of(sc.w, found[k].0) {
            lemma_finding(sc, first, run, found[k].0, item.row, found[k].1);
            if let Ok(next) = finding(sc, run, found[k].0, item.row, found[k].1) {
                lemma_finding_all(sc, first, next, found, k + 1);
            }
        }
    }
}

proof fn lemma_unlisting(sc: SceneModel, first: Seq<EntryModel>, run: RunModel, k: int)
    requires
        is_sound(sc, first, run),
    ensures
        is_sound(sc, first, unlisting(sc, run, k)),
    decreases sc.w.skipped.len() - k,
{
    if k < sc.w.skipped.len() {
        lemma_unlisting(sc, first, run, k + 1);
        lemma_op(sc, first, run, OpModel::Unskip(sc.w.skipped[k]));
        lemma_unlisting(sc, first, with_op(run, OpModel::Unskip(sc.w.skipped[k])), k + 1);
    }
}

proof fn lemma_recording_skips(sc: SceneModel, first: Seq<EntryModel>, run: RunModel, skips: Seq<(PathModel, Seq<char>)>, k: int)
    requires
        is_sound(sc, first, run),
    ensures
        is_sound(sc, first, recording_skips(run, skips, k)),
    decreases skips.len() - k,
{
    if k < skips.len() {
        let op = OpModel::Skip { rel: skips[k].0, reason: skips[k].1 };
        lemma_op(sc, first, run, op);
        lemma_recording_skips(sc, first, with_op(run, op), skips, k + 1);
    }
}

proof fn lemma_carriers(
    sc: SceneModel,
    first: Seq<EntryModel>,
    id: Seq<char>,
    i: int,
    found: Seq<usize>,
)
    requires
        first.len() <= usize::MAX,
        all_may_go_up(sc, first, found),
        0 <= i,
    ensures
        all_may_go_up(sc, first, carriers(sc, first, id, i, found)),
    decreases first.len() - i,
{
    if i < first.len() {
        lemma_carriers(sc, first, id, i + 1, found);
        if class_of(sc, first[i]) == crate::local::examine::Class::Item(id) {
            lemma_carriers(sc, first, id, i + 1, found.push(i as usize));
        }
    }
}

proof fn lemma_without_id(sc: SceneModel, first: Seq<EntryModel>, i: int, found: Seq<usize>)
    requires
        first.len() <= usize::MAX,
        all_may_go_up(sc, first, found),
        0 <= i,
    ensures
        all_may_go_up(sc, first, without_id(sc, first, i, found)),
    decreases first.len() - i,
{
    if i < first.len() {
        lemma_without_id(sc, first, i + 1, found);
        if class_of(sc, first[i]) == crate::local::examine::Class::New {
            lemma_without_id(sc, first, i + 1, found.push(i as usize));
        }
    }
}

proof fn lemma_depth_slot(depths: Seq<nat>, depth: nat, p: int)
    requires
        0 <= p <= depths.len(),
    ensures
        p <= depth_slot(depths, depth, p) <= depths.len(),
    decreases depths.len() - p,
{
    if p < depths.len() {
        lemma_depth_slot(depths, depth, p + 1);
    }
}

proof fn lemma_by_depth(
    sc: SceneModel,
    first: Seq<EntryModel>,
    entries: Seq<EntryModel>,
    s: Seq<usize>,
    n: int,
)
    requires
        all_may_go_up(sc, first, s),
        n <= s.len(),
    ensures
        all_may_go_up(sc, first, by_depth(entries, s, n)),
    decreases n,
{
    if n > 0 {
        lemma_by_depth(sc, first, entries, s, n - 1);
        let rest = by_depth(entries, s, n - 1);
        let depths = Seq::new(rest.len(), |p: int| depth_of(entries, rest[p]));
        lemma_depth_slot(depths, depth_of(entries, s[n - 1]), 0);
    }
}

proof fn lemma_classifying(sc: SceneModel, first: Seq<EntryModel>, run: RunModel)
    requires
        is_sound(sc, first, run),
        run.entries == first,
        first.len() <= usize::MAX,
    ensures
        kept(sc, first, classifying(sc, run)),
{
    lemma_listing_all(sc, first, run, 0);
    let listed = listing_all(sc, run, 0);
    let ids = ids_carried(sc, run.entries, 0, Seq::empty());
    lemma_resolving_all(sc, first, listed, run.entries, ids, 0, Seq::empty());
    if let Ok((known, found)) = resolving_all(sc, listed, run.entries, ids, 0, Seq::empty()) {
        let sorted = found_by_depth(known.entries, found, found.len() as int);
        lemma_found_by_depth(first, known.entries, found, found.len() as int);
        lemma_finding_all(sc, first, known, sorted, 0);
        if let Ok(placed) = finding_all(sc, known, sorted, 0) {
            lemma_missing(sc, first, placed, 0);
            if let Ok(missed) = missing_from(sc, placed, 0) {
                let new = without_id(sc, run.entries, 0, Seq::empty()) + missed.fresh;
                let list = by_depth(missed.entries, new, new.len() as int);
                lemma_without_id(sc, first, 0, Seq::empty());
                lemma_by_depth(sc, first, missed.entries, new, new.len() as int);
                let taken = RunModel { fresh: Seq::empty(), ..missed };
                lemma_meeting_all_new(sc, first, taken, list, 0);
                if let Ok(met) = meeting_all_new(sc, taken, list, 0) {
                    lemma_unlisting(sc, first, met, 0);
                    let unlisted = unlisting(sc, met, 0);
                    lemma_recording_skips(
                        sc,
                        first,
                        RunModel { skipped: Seq::empty(), ..unlisted },
                        unlisted.skipped,
                        0,
                    );
                }
            }
        }
    }
}

proof fn lemma_holding_rows(w: WorldModel, run: RunModel, k: int)
    requires
        0 <= k,
    ensures
        ({
            let next = holding_rows(w, run, k);
            &&& next.detections == run.detections
            &&& next.decided == run.decided
            &&& next.out == (ExaminedModel { ops: next.out.ops, ..run.out })
            &&& run.out.ops.len() <= next.out.ops.len()
            &&& next.out.ops.subrange(0, run.out.ops.len() as int) == run.out.ops
            &&& forall|m: int|
                run.out.ops.len() <= m < next.out.ops.len() ==> #[trigger] next.out.ops[m] is Hold
            &&& forall|r: int|
                k <= r < w.rows.len() && is_waiting_removal(run.decided, #[trigger] w.rows[r])
                    && w.rows[r].state != OutboxState::Held ==> next.out.ops.contains(
                    OpModel::Hold { seq: w.rows[r].seq, reason: mass_delete() },
                )
        }),
    decreases w.rows.len() - k,
{
    let next = holding_rows(w, run, k);
    if k < w.rows.len() {
        let row = w.rows[k];
        let op = OpModel::Hold { seq: row.seq, reason: mass_delete() };
        if is_waiting_removal(run.decided, row) && row.state != OutboxState::Held {
            lemma_holding_rows(w, with_op(run, op), k + 1);
            let n = run.out.ops.len() as int;
            assert(next.out.ops.subrange(0, n + 1)[n] == op);
            assert(next.out.ops[n] == op);
            assert(next.out.ops.subrange(0, n) =~= run.out.ops) by {
                assert forall|m: int| 0 <= m < n implies next.out.ops[m] == run.out.ops[m] by {
                    assert(next.out.ops.subrange(0, n + 1)[m] == with_op(run, op).out.ops[m]);
                }
            }
        } else {
            lemma_holding_rows(w, run, k + 1);
        }
    } else {
        assert(next.out.ops.subrange(0, run.out.ops.len() as int) =~= run.out.ops);
    }
}

proof fn lemma_guarding(sc: SceneModel, first: Seq<EntryModel>, run: RunModel)
    requires
        is_sound(sc, first, run),
    ensures
        is_sound(sc, first, guarding(sc.w, run)),
{
    let marked = RunModel {
        detections: Seq::new(run.detections.len(), |k: int| held(sc.w, run.detections[k])),
        ..run
    };
    assert(is_sound(sc, first, marked)) by {
        assert forall|k: int| 0 <= k < marked.detections.len() implies is_proved(
            sc,
            #[trigger] marked.detections[k],
        ) && is_of_an_entry(sc, first, marked.detections[k]) by {
            assert(is_proved(sc, run.detections[k]));
        }
    }
    lemma_holding_sound(sc, first, marked, 0);
}

proof fn lemma_holding_sound(sc: SceneModel, first: Seq<EntryModel>, run: RunModel, k: int)
    requires
        is_sound(sc, first, run),
    ensures
        is_sound(sc, first, holding_rows(sc.w, run, k)),
    decreases sc.w.rows.len() - k,
{
    if k < sc.w.rows.len() {
        let op = OpModel::Hold { seq: sc.w.rows[k].seq, reason: mass_delete() };
        lemma_op(sc, first, run, op);
        lemma_holding_sound(sc, first, with_op(run, op), k + 1);
        lemma_holding_sound(sc, first, run, k + 1);
    }
}

/// What is recorded is what the run noted and what it detected.
proof fn lemma_recorded(run: RunModel, k: int)
    requires
        0 <= k < recorded(run).len(),
    ensures
        run.out.ops.contains(recorded(run)[k]) || exists|m: int|
            0 <= m < run.detections.len() && recorded(run)[k] == OpModel::Record(
                #[trigger] run.detections[m],
            ),
{
    let ds = in_order(run.detections);
    let early = run.out.ops.filter(|op: OpModel| comes_first(op));
    let late = run.out.ops.filter(|op: OpModel| !comes_first(op));
    law_order_is_a_permutation(run.detections);
    if k < early.len() {
        lemma_filtered(run.out.ops, |op: OpModel| comes_first(op), k);
    } else if k < early.len() + ds.len() {
        let m = k - early.len();
        let at = written_order(slots_of(run.detections))[m];
        assert(recorded(run)[k] == OpModel::Record(ds[m]));
        assert(ds[m] == run.detections[at]);
    } else {
        lemma_filtered(
            run.out.ops,
            |op: OpModel| !comes_first(op),
            k - early.len() - ds.len(),
        );
    }
}

proof fn lemma_filtered(s: Seq<OpModel>, keep: spec_fn(OpModel) -> bool, k: int)
    requires
        0 <= k < s.filter(keep).len(),
    ensures
        s.contains(s.filter(keep)[k]),
    decreases s.len(),
{
    reveal(Seq::filter);
    if s.len() > 0 {
        let rest = s.drop_last();
        if k < rest.filter(keep).len() {
            lemma_filtered(rest, keep, k);
            let at = choose|m: int| 0 <= m < rest.len() && rest[m] == rest.filter(keep)[k];
            assert(s[at] == s.filter(keep)[k]);
        } else {
            assert(s[s.len() - 1] == s.filter(keep)[k]);
        }
    }
}

proof fn lemma_examining(sc: SceneModel, entries: Seq<EntryModel>, renewed: bool)
    requires
        entries.len() <= usize::MAX,
    ensures
        match examining(sc, entries, renewed) {
            Err(stop) => asks_openly(sc, stop) && reads_downloaded(entries, stop) && walks_to_the_end(
                sc,
                stop,
            ),
            Ok(out) => forall|k: int| #![trigger out.ops[k]]
                0 <= k < out.ops.len() ==> match out.ops[k] {
                    OpModel::Remove(seq) => is_removable(sc.w, seq),
                    OpModel::Record(d) => is_proved(sc, d) && is_of_an_entry(sc, entries, d),
                    _ => true,
                },
        },
{
    let start = starting(entries, sc.unreadable, renewed);
    lemma_classifying(sc, entries, start);
    if let Ok(run) = classifying(sc, start) {
        lemma_guarding(sc, entries, run);
        let guarded = guarding(sc.w, run);
        let out = finishing(sc.w, run);
        assert forall|k: int| #![trigger out.ops[k]] 0 <= k < out.ops.len() implies match out.ops[k] {
            OpModel::Remove(seq) => is_removable(sc.w, seq),
            OpModel::Record(d) => is_proved(sc, d) && is_of_an_entry(sc, entries, d),
            _ => true,
        } by {
            lemma_recorded(guarded, k);
        }
    }
}

/// A row the worker is sending is never removed: whatever an examination finds,
/// a row it removes is not being sent.
pub proof fn law_rows_being_sent_stay(sc: SceneModel, entries: Seq<EntryModel>, renewed: bool, seq: i64)
    requires
        entries.len() <= usize::MAX,
        examining(sc, entries, renewed) matches Ok(out) && out.ops.contains(OpModel::Remove(seq)),
    ensures
        is_removable(sc.w, seq),
{
    lemma_examining(sc, entries, renewed);
}

/// Nothing is deleted on a guess: an item is deleted from OneDrive only when
/// its recorded object is told gone by a handle of this filesystem and is
/// absent from its place, and moved out of the folder only when it is alive at
/// a sure path outside it.
pub proof fn law_removals_are_proved(
    sc: SceneModel,
    entries: Seq<EntryModel>,
    renewed: bool,
    d: DetectionModel,
)
    requires
        entries.len() <= usize::MAX,
        examining(sc, entries, renewed) matches Ok(out) && out.ops.contains(OpModel::Record(d)),
    ensures
        d.kind == OutboxKind::Delete && d.item_id is Some ==> proved_deleted(
            sc,
            d.item_id->0,
            d.rel,
        ),
        d.kind == OutboxKind::MoveOut ==> d.item_id is Some && proved_out(sc, d.item_id->0),
{
    lemma_examining(sc, entries, renewed);
}

/// An item without a recorded handle is never removed from OneDrive: nothing
/// can prove it gone.
pub proof fn law_unproven_items_stay(
    sc: SceneModel,
    entries: Seq<EntryModel>,
    renewed: bool,
    d: DetectionModel,
    id: Seq<char>,
)
    requires
        entries.len() <= usize::MAX,
        examining(sc, entries, renewed) matches Ok(out) && out.ops.contains(OpModel::Record(d)),
        d.item_id == Some(id),
        recorded_handle(sc.w, id) is None,
    ensures
        !kind_removes(d.kind),
{
    lemma_examining(sc, entries, renewed);
}

/// Handles of another filesystem delete nothing: while the recorded handles are
/// not of this one, no item is deleted from OneDrive.
pub proof fn law_handles_of_another_filesystem_delete_nothing(
    sc: SceneModel,
    entries: Seq<EntryModel>,
    renewed: bool,
    d: DetectionModel,
)
    requires
        entries.len() <= usize::MAX,
        !sc.w.handles_current,
        examining(sc, entries, renewed) matches Ok(out) && out.ops.contains(OpModel::Record(d)),
    ensures
        !(d.kind == OutboxKind::Delete && d.item_id is Some),
{
    lemma_examining(sc, entries, renewed);
}

/// Only what may be a OneDrive object is created there: a file or directory of
/// the folder's filesystem, under no name the daemon keeps for itself; no
/// ignored name, nor anything in an ignored directory; and what OneDrive
/// refuses is blocked, never sent.
pub proof fn law_only_the_users_entries_are_created(
    sc: SceneModel,
    entries: Seq<EntryModel>,
    renewed: bool,
    d: DetectionModel,
)
    requires
        entries.len() <= usize::MAX,
        examining(sc, entries, renewed) matches Ok(out) && out.ops.contains(OpModel::Record(d)),
        d.kind == OutboxKind::Create || d.kind == OutboxKind::Mkdir,
    ensures
        exists|i: int| 0 <= i < entries.len() && creates(sc, #[trigger] entries[i], d),
{
    lemma_examining(sc, entries, renewed);
}

/// Every change sent goes where its entry stands. Whatever is created, updated
/// or moved in OneDrive is an entry of the folder, named there by the path it is
/// at, under the very name it has on disk, and into the item that its own
/// directory is: the root for an entry of the root, and for any other the item
/// whose id its directory carries, or none while that is new itself.
pub proof fn law_every_change_goes_where_its_entry_stands(
    sc: SceneModel,
    entries: Seq<EntryModel>,
    renewed: bool,
    d: DetectionModel,
)
    requires
        entries.len() <= usize::MAX,
        examining(sc, entries, renewed) matches Ok(out) && out.ops.contains(OpModel::Record(d)),
        d.kind == OutboxKind::Create || d.kind == OutboxKind::Mkdir || d.kind == OutboxKind::Update
            || d.kind == OutboxKind::Move,
    ensures
        exists|i: int| 0 <= i < entries.len() && stands_for(sc, entries, #[trigger] entries[i], d),
{
    lemma_examining(sc, entries, renewed);
}

/// A stopped examination asks only what has no answer yet, so every answer
/// brings it further.
pub proof fn law_no_question_is_put_twice(
    sc: SceneModel,
    entries: Seq<EntryModel>,
    renewed: bool,
    ask: AskModel,
)
    requires
        entries.len() <= usize::MAX,
        examining(sc, entries, renewed) == Err::<ExaminedModel, StopModel>(StopModel::Ask(ask)),
    ensures
        is_open(sc.f, ask),
{
    lemma_examining(sc, entries, renewed);
}

/// The content check never fills a placeholder: only a downloaded file is asked
/// to be read, and only a placeholder cut short is given its size back.
pub proof fn law_only_downloaded_files_are_read(
    sc: SceneModel,
    entries: Seq<EntryModel>,
    renewed: bool,
    i: usize,
)
    requires
        i < entries.len() <= usize::MAX,
    ensures
        examining(sc, entries, renewed) == Err::<ExaminedModel, StopModel>(
            StopModel::Ask(AskModel::Hash(i)),
        ) ==> entries[i as int].state == StateAttr::Known(State::Hydrated),
        examining(sc, entries, renewed) == Err::<ExaminedModel, StopModel>(
            StopModel::Ask(AskModel::Restore(i)),
        ) ==> entries[i as int].state == StateAttr::Known(State::OnlineOnly),
{
    lemma_examining(sc, entries, renewed);
}

/// In a base that is a tree no examination loses its way: it stops only to ask,
/// or when what it was told is a failure.
pub proof fn law_an_examination_of_a_tree_ends(
    sc: SceneModel,
    entries: Seq<EntryModel>,
    renewed: bool,
)
    requires
        entries.len() <= usize::MAX,
        is_tree(sc.w),
    ensures
        examining(sc, entries, renewed) matches Err(stop) ==> !(stop is NoTree),
{
    lemma_examining(sc, entries, renewed);
}

/// When the guard trips, every removal of an item that the user has not
/// confirmed is recorded as held, every one that waits is held too, and so
/// many items are reported.
pub proof fn law_a_tripped_guard_holds_every_removal(w: WorldModel, run: RunModel)
    requires
        trips(w, run),
        forall|k: int| 0 <= k < run.out.ops.len() ==> !((#[trigger] run.out.ops[k]) is Record),
        all_removed(w, run).len() <= u64::MAX,
    ensures
        finishing(w, run).held == all_removed(w, run).len(),
        forall|d: DetectionModel|
            is_new_removal(w, d) && #[trigger] finishing(w, run).ops.contains(OpModel::Record(d))
                ==> d.state == OutboxState::Held && d.reason == Some(mass_delete()),
        forall|r: int|
            0 <= r < w.rows.len() && is_waiting_removal(run.decided, #[trigger] w.rows[r])
                && w.rows[r].state != OutboxState::Held ==> finishing(w, run).ops.contains(
                OpModel::Hold { seq: w.rows[r].seq, reason: mass_delete() },
            ),
{
    let marked = RunModel {
        detections: Seq::new(run.detections.len(), |k: int| held(w, run.detections[k])),
        ..run
    };
    lemma_holding_rows(w, marked, 0);
    let guarded = guarding(w, run);
    let out = finishing(w, run);
    assert forall|d: DetectionModel|
        is_new_removal(w, d) && #[trigger] out.ops.contains(OpModel::Record(d)) implies d.state
        == OutboxState::Held && d.reason == Some(mass_delete()) by {
        let k = choose|k: int| 0 <= k < out.ops.len() && out.ops[k] == OpModel::Record(d);
        lemma_recorded(guarded, k);
        if guarded.out.ops.contains(out.ops[k]) {
            let m = choose|m: int| 0 <= m < guarded.out.ops.len() && guarded.out.ops[m] == out.ops[k];
            if m < run.out.ops.len() {
                assert(guarded.out.ops.subrange(0, run.out.ops.len() as int)[m] == run.out.ops[m]);
            }
            assert(false);
        }
        let m = choose|m: int|
            0 <= m < guarded.detections.len() && out.ops[k] == OpModel::Record(
                #[trigger] guarded.detections[m],
            );
        assert(d == held(w, run.detections[m]));
    }
    assert forall|r: int|
        0 <= r < w.rows.len() && is_waiting_removal(run.decided, #[trigger] w.rows[r])
            && w.rows[r].state != OutboxState::Held implies out.ops.contains(
        OpModel::Hold { seq: w.rows[r].seq, reason: mass_delete() },
    ) by {
        let op = OpModel::Hold { seq: w.rows[r].seq, reason: mass_delete() };
        let late = guarded.out.ops.filter(|op: OpModel| !comes_first(op));
        let n = choose|n: int| 0 <= n < guarded.out.ops.len() && guarded.out.ops[n] == op;
        guarded.out.ops.lemma_filter_contains(|op: OpModel| !comes_first(op), n);
        let m = choose|m: int| 0 <= m < late.len() && late[m] == op;
        assert(out.ops[out.ops.len() - late.len() + m] == op);
    }
}

/// Without a mass removal the guard changes nothing: everything is recorded as
/// it was found.
pub proof fn law_an_untripped_guard_changes_nothing(w: WorldModel, run: RunModel)
    requires
        !trips(w, run),
    ensures
        guarding(w, run) == run,
{
}

} // verus!
