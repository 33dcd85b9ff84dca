//! How the steps of an examination follow each other, and what each leaves alone.

use vstd::prelude::*;
use crate::local::content::{
    backing_up, estranging, keeping_backup, saving_by_rename, stripping,
};
use crate::local::entry::{inode_of, EntryModel, StateAttr};
use crate::local::examine::{
    by_depth, classifying, finding_all, found_by_depth, ids_carried, listing_all, meeting_all_new,
    resolving_all, tidying, without_id,
};
use crate::local::finish::{holding_rows, is_waiting_removal, mass_delete};
use crate::local::missing::{losing_inside, losing_new, missing_from};
use crate::local::removal::{enough, losing, losing_pending, newcomer};
use crate::local::run::{
    choosing, consuming, index_at, index_from, rechecking_tree, with_op, RunModel, SceneModel,
};
use crate::local::facts::StopModel;
use crate::local::unnamed::{appearing, deleted_at, replaces};
use crate::local::world::{being_created, item_of, pending_of, row_is_of, WorldModel};
use crate::os::Type;
use crate::path::{dir_of, is_beneath, PathModel};
use crate::tree::{
    same_inode, InodeModel, Kind, OpModel, OutboxKind, OutboxRowModel, OutboxState, RowModel,
};

verus! {

proof fn lemma_first(entries: Seq<EntryModel>, rel: PathModel, i: int, s: usize)
    requires
        0 <= i <= s < entries.len() <= usize::MAX,
        entries[s as int].rel == rel,
        forall|j: int| 0 <= j < s ==> (#[trigger] entries[j]).rel != rel,
    ensures
        index_from(entries, rel, i) == Some(s),
    decreases s - i,
{
    if i < s {
        assert(entries[i].rel != rel);
        lemma_first(entries, rel, i + 1, s);
    }
}

/// Which entry takes the place of a file item that is missing: the one at its
/// name, where that is a file without an id, that nothing took and that is not
/// being created; and none for a folder.
pub proof fn law_which_file_takes_a_missing_items_place(
    sc: SceneModel,
    run: RunModel,
    base: RowModel,
    rel: PathModel,
    s: usize,
)
    requires
        s < run.entries.len() <= usize::MAX,
        run.entries[s as int].rel == rel,
        forall|j: int| 0 <= j < s ==> (#[trigger] run.entries[j]).rel != rel,
    ensures
        ({
            let e = run.entries[s as int];
            newcomer(sc, run, base, rel) == if base.kind == Kind::File && e.ty == Type::File && e.id is None
                && !run.consumed[s as int] && !being_created(sc.w, e) {
                Some(s)
            } else {
                None
            }
        }),
{
    lemma_first(run.entries, rel, 0, s);
    assert(index_at(run.entries, rel) == Some(s));
}

/// Something is being created where a row without an item yet, of that very
/// object, is being sent; one that only waits does not count.
pub proof fn law_what_is_being_created(w: WorldModel, e: EntryModel)
    ensures
        being_created(w, e) <==> exists|i: int|
            0 <= i < w.rows.len() && (#[trigger] w.rows[i]).item_id is None && w.rows[i].state
                == OutboxState::Running && (w.rows[i].inode matches Some(o) && same_inode(
                o,
                InodeModel { dev: e.dev, ino: e.ino, handle: e.handle },
            )),
{
    let own = InodeModel { dev: e.dev, ino: e.ino, handle: e.handle };
    assert(inode_of(e) == own);
    if exists|i: int|
        0 <= i < w.rows.len() && (#[trigger] w.rows[i]).item_id is None && w.rows[i].state
            == OutboxState::Running && (w.rows[i].inode matches Some(o) && same_inode(o, own)) {
        let i = choose|i: int|
            0 <= i < w.rows.len() && (#[trigger] w.rows[i]).item_id is None && w.rows[i].state
                == OutboxState::Running && (w.rows[i].inode matches Some(o) && same_inode(o, own));
        assert(row_is_of(w.rows[i], e));
    }
}

/// A new directory that is gone takes along what waited inside it, and nothing
/// else does: what never reached OneDrive goes, an item moved in is looked for by
/// its own object, unless it is settled or its row says that it left.
pub proof fn law_what_waited_inside_a_new_directory(
    sc: SceneModel,
    run: RunModel,
    row: OutboxRowModel,
    rel: PathModel,
)
    ensures
        row.kind != OutboxKind::Mkdir ==> losing_new(sc, run, row) == Ok::<RunModel, StopModel>(
            losing_pending(run, row),
        ),
        row.kind == OutboxKind::Mkdir ==> losing_new(sc, run, row) == losing_inside(
            sc,
            losing_pending(run, row),
            row.rel,
            0,
        ),
        sc.w.rows.len() > 0 ==> {
            let k = sc.w.rows.len() - 1;
            let last = sc.w.rows[k];
            let r = losing_inside(sc, run, rel, k);
            let leaves = last.kind == OutboxKind::Delete || last.kind == OutboxKind::MoveOut;
            if !is_beneath(last.rel, rel) {
                r == Ok::<RunModel, StopModel>(run)
            } else {
                match last.item_id {
                    None => r == Ok::<RunModel, StopModel>(losing_pending(run, last)),
                    Some(id) => r == if leaves || run.chosen.contains_key(id) || run.decided.contains(id) {
                        Ok::<RunModel, StopModel>(run)
                    } else {
                        losing(sc, run, id, last.rel, enough(sc.w))
                    },
                }
            }
        },
{
    if sc.w.rows.len() > 0 {
        let k = sc.w.rows.len() - 1;
        let last = sc.w.rows[k];
        let lost = losing_pending(run, last);
        assert(losing_inside(sc, run, rel, k + 1) == Ok::<RunModel, StopModel>(run));
        assert(losing_inside(sc, lost, rel, k + 1) == Ok::<RunModel, StopModel>(lost));
        if let Some(id) = last.item_id {
            if let Ok(next) = losing(sc, run, id, last.rel, enough(sc.w)) {
                assert(losing_inside(sc, next, rel, k + 1) == Ok::<RunModel, StopModel>(next));
            }
        }
    }
}

/// Something new that has moved since its row was written takes the rows inside
/// along only where it is a directory; nothing else is noted of it.
pub proof fn law_only_a_directory_takes_rows_along(sc: SceneModel, run: RunModel, i: usize)
    ensures
        appearing(sc, run, i) matches Ok(next) ==> {
            let e = run.entries[i as int];
            next.out.ops == match pending_of(sc.w, e) {
                Some(row) => if e.ty == Type::Dir && row.rel != e.rel {
                    run.out.ops.push(OpModel::Rebase { from: row.rel, to: e.rel })
                } else {
                    run.out.ops
                },
                None => run.out.ops,
            }
        },
{
}

/// A new file is a deleted item's new content only where it is a file that no row
/// waits for, and the delete at its place is of a file.
pub proof fn law_which_new_file_is_a_deleted_items(w: WorldModel, e: EntryModel)
    ensures
        replaces(w, e) matches Some(id) ==> e.ty != Type::Dir && pending_of(w, e) is None && deleted_at(
            w,
            e.rel,
            0,
        ) == Some(id) && (item_of(w, id) matches Some(item) && item.row.kind == Kind::File),
        e.ty != Type::Dir && pending_of(w, e) is None && (deleted_at(w, e.rel, 0) matches Some(id) && (
        item_of(w, id) matches Some(item) && item.row.kind == Kind::File)) ==> replaces(w, e) == deleted_at(
            w,
            e.rel,
            0,
        ),
{
}

/// A directory that is no item's is stripped, and what is in it is looked at later
/// where it was not read whole now.
pub proof fn law_what_is_in_a_stripped_directory_is_looked_at(sc: SceneModel, run: RunModel, i: usize)
    requires
        i < run.entries.len(),
        run.entries[i as int].ty == Type::Dir,
        sc.f.dir_of(dir_of(run.entries[i as int].rel)) == Some(None::<i32>),
    ensures
        ({
            let rel = run.entries[i as int].rel;
            estranging(sc, run, i) == if sc.whole.contains(rel) {
                stripping(sc, run, i)
            } else {
                stripping(sc, rechecking_tree(run, rel), i)
            }
        }),
        estranging(sc, run, i) matches Ok(next) ==> !sc.whole.contains(run.entries[i as int].rel)
            ==> next.out.recheck == rechecking_tree(run, run.entries[i as int].rel).out.recheck,
{
}

/// A file saved over a backup is the item's entry from then on, with nothing known
/// of the state it copied; and the backup is kept first.
pub proof fn law_a_file_saved_over_a_backup_is_the_item(
    sc: SceneModel,
    run: RunModel,
    id: Seq<char>,
    base: RowModel,
    group: Seq<usize>,
    s: usize,
)
    ensures
        match keeping_backup(sc, run, group, 0) {
            Err(stop) => backing_up(sc, run, id, base, group, s) == Err::<RunModel, StopModel>(stop),
            Ok(kept) => {
                let taken = choosing(consuming(kept, s), id, s);
                let e = taken.entries[s as int];
                let known = if e.id is Some {
                    RunModel {
                        entries: taken.entries.update(
                            s as int,
                            EntryModel { state: StateAttr::Absent, ..e },
                        ),
                        ..taken
                    }
                } else {
                    taken
                };
                backing_up(sc, run, id, base, group, s) == saving_by_rename(sc, known, id, base, s)
            },
        },
{
}

proof fn lemma_holding(w: WorldModel, run: RunModel, k: int, op: OpModel)
    requires
        0 <= k,
    ensures
        holding_rows(w, run, k).out.ops.contains(op) ==> run.out.ops.contains(op) || exists|m: int|
            k <= m < w.rows.len() && #[trigger] is_held_by(run, w.rows[m], op),
    decreases w.rows.len() - k,
{
    if k < w.rows.len() {
        lemma_holding(w, run, k + 1, op);
        if is_waiting_removal(run.decided, w.rows[k]) && w.rows[k].state != OutboxState::Held {
            let hold = OpModel::Hold { seq: w.rows[k].seq, reason: mass_delete() };
            let with = with_op(run, hold);
            lemma_holding(w, with, k + 1, op);
            vstd::seq_lib::lemma_seq_contains_after_push(run.out.ops, hold, op);
            if op == hold {
                assert(is_held_by(run, w.rows[k], op));
            }
            assert forall|m: int| #[trigger] is_held_by(with, w.rows[m], op) implies is_held_by(
                run,
                w.rows[m],
                op,
            ) by {}
        }
    }
}

/// `op` holds the removal `row`, which waits and was not held.
pub open spec fn is_held_by(run: RunModel, row: OutboxRowModel, op: OpModel) -> bool {
    &&& row.kind == OutboxKind::Delete || row.kind == OutboxKind::MoveOut
    &&& !row.confirmed
    &&& row.state != OutboxState::Running && row.state != OutboxState::Held
    &&& row.item_id matches Some(id) ==> !run.decided.contains(id)
    &&& op == (OpModel::Hold { seq: row.seq, reason: "mass-delete"@ })
}

/// A tripped guard holds only removals that wait, that are not confirmed, sent or
/// held already, and that this batch did not decide anew.
pub proof fn law_only_waiting_removals_are_held(w: WorldModel, run: RunModel, op: OpModel)
    requires
        !run.out.ops.contains(op),
    ensures
        holding_rows(w, run, 0).out.ops.contains(op) ==> exists|m: int|
            0 <= m < w.rows.len() && #[trigger] is_held_by(run, w.rows[m], op),
{
    lemma_holding(w, run, 0, op);
}

/// An examination decides in this order: who each entry with an id is; then where
/// each item found is and what it holds, from the top down; then, of every
/// directory read, what is missing; and last what is new, from the top down: every
/// entry that came without an id, and every one that lost its id on the way. A
/// step that has to stop stops it all.
pub proof fn law_in_which_order_everything_is_decided(
    sc: SceneModel,
    run: RunModel,
    known: RunModel,
    found: Seq<(Seq<char>, usize)>,
    placed: RunModel,
    missed: RunModel,
)
    requires
        resolving_all(
            sc,
            listing_all(sc, run, 0),
            run.entries,
            ids_carried(sc, run.entries, 0, Seq::empty()),
            0,
            Seq::empty(),
        ) == Ok::<(RunModel, Seq<(Seq<char>, usize)>), StopModel>((known, found)),
        finding_all(sc, known, found_by_depth(known.entries, found, found.len() as int), 0) == Ok::<
            RunModel,
            StopModel,
        >(placed),
        missing_from(sc, placed, 0) == Ok::<RunModel, StopModel>(missed),
    ensures
        ({
            let new = without_id(sc, run.entries, 0, Seq::empty()) + missed.fresh;
            match meeting_all_new(
                sc,
                RunModel { fresh: Seq::empty(), ..missed },
                by_depth(missed.entries, new, new.len() as int),
                0,
            ) {
                Err(stop) => classifying(sc, run) == Err::<RunModel, StopModel>(stop),
                Ok(met) => classifying(sc, run) == Ok::<RunModel, StopModel>(tidying(sc, met)),
            }
        }),
{
}

} // verus!
