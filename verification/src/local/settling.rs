//! What each step of an examination does with the one thing it looks at.

use vstd::prelude::*;
use vstd::utf8::encode_utf8;
use crate::local::batching::{law_a_name_touched_is_looked_at, names_it};
use crate::local::entry::{inode_of, EntryModel, StateAttr};
use crate::local::facts::{place_of, AskModel, PlaceModel, StopModel};
use crate::local::finish::{comes_first, recorded};
use crate::local::missing::{is_seen, losing_items, losing_new, losing_rows, missing_from, missing_in, row_in};
use crate::local::order::in_order;
use crate::local::removal::{clearing, enough, leaving, losing, losing_pending, object_of, removing};
use crate::local::run::{
    choosing, consuming, freed, holding_back, is_settled, less_settled, rechecking, rechecking_at,
    rechecking_tree, settled_as, skip_from, with_op, with_skip, RunModel, SceneModel, Settle,
};
use crate::local::unnamed::{any_making, being_made, deleted_at, dropping_inside, ignoring, is_making, making};
use crate::local::world::{
    being_created, descends, expected_at, expected_of, expected_rel, is_inside, item_of, pending_of,
    recorded_handle, row_of, ExpectModel, WorldModel,
};
use crate::local::{replaced_at, snapshot_text};
use crate::os::Type;
use crate::path::{is_beneath, parts_of, starts_with, PathModel, RelPath};
use crate::sorted::lemma_inserted_holds;
use crate::text::laws::{law_a_number_is_read_back, law_no_two_numbers_are_written_the_same};
use crate::text::{decimal, signed_decimal};
use crate::tree::{
    same_inode, InodeModel, Kind, OpModel, OutboxKind, OutboxRowModel, OutboxState, Placement,
};

verus! {

proof fn lemma_expected_sooner(w: WorldModel, id: Seq<char>, depth: nat)
    ensures
        expected_at(w, id, depth + 1) is At ==> expected_at(w, id, depth) == expected_at(w, id, depth + 1),
    decreases w.max_depth + 1 - depth,
{
    if row_of(w, id) is None {
        if let Some(item) = item_of(w, id) {
            if let Some(parent) = item.row.parent_id {
                if parent != w.root_id && depth <= w.max_depth {
                    lemma_expected_sooner(w, parent, depth + 1);
                }
            }
        }
    }
}

/// Where an item is expected: where its newest row last saw it, and nowhere once
/// that removes it; without a row, and where it is placed, under its base name
/// where its parent is expected, the root's own items in the folder itself. What
/// the base does not have is unknown.
pub proof fn law_where_an_item_is_expected(w: WorldModel, id: Seq<char>)
    ensures
        match row_of(w, id) {
            Some(row) => expected_of(w, id) == if row.kind == OutboxKind::Delete || row.kind
                == OutboxKind::MoveOut {
                ExpectModel::Nowhere
            } else {
                ExpectModel::At(row.rel)
            },
            None => match item_of(w, id) {
                None => expected_of(w, id) is Unknown,
                Some(item) => {
                    &&& item.row.placement != Placement::Placed ==> expected_of(w, id) is Nowhere
                    &&& item.row.placement == Placement::Placed && item.row.parent_id is None
                        ==> expected_of(w, id) == ExpectModel::At(Seq::empty())
                    &&& item.row.placement == Placement::Placed && item.row.parent_id == Some(w.root_id)
                        ==> expected_of(w, id) == ExpectModel::At(seq![encode_utf8(item.row.name)])
                    &&& expected_rel(w, id) matches Some(rel) ==> item.row.placement == Placement::Placed
                        && (item.row.parent_id matches Some(parent) ==> rel.len() > 0 && rel[rel.len() - 1]
                        == encode_utf8(item.row.name) && (parent != w.root_id ==> expected_rel(w, parent)
                        == Some(rel.drop_last())))
                },
            },
        },
        expected_rel(w, id) == match expected_of(w, id) {
            ExpectModel::At(rel) => Some(rel),
            _ => None,
        },
{
    if row_of(w, id) is None {
        if let Some(item) = item_of(w, id) {
            if let Some(parent) = item.row.parent_id {
                lemma_expected_sooner(w, parent, 0);
                if let ExpectModel::At(dir) = expected_at(w, parent, 1) {
                    assert(dir.push(encode_utf8(item.row.name)).drop_last() =~= dir);
                }
            }
        }
    }
}

/// What is inside what is inside a folder is inside it too: a child is, and being
/// inside goes on from one to the next.
pub proof fn law_what_is_inside_what_is_inside(
    w: WorldModel,
    a: Seq<char>,
    b: Seq<char>,
    c: Seq<char>,
    m: nat,
    n: nat,
)
    ensures
        m > 0 && (item_of(w, a) matches Some(item) && item.row.parent_id == Some(b)) ==> is_inside(w, a, b, m),
        is_inside(w, a, b, m) && is_inside(w, b, c, n) ==> is_inside(w, a, c, m + n),
        is_inside(w, a, b, m) ==> (item_of(w, a) matches Some(item) && item.row.parent_id is Some),
        !is_inside(w, a, b, 0),
        descends(w, a, b) == is_inside(w, a, b, w.items.len()),
    decreases m,
{
    if m > 0 {
        if let Some(item) = item_of(w, a) {
            if let Some(parent) = item.row.parent_id {
                law_what_is_inside_what_is_inside(w, parent, b, c, (m - 1) as nat, n);
                if parent == b && is_inside(w, b, c, n) {
                    lemma_inside_more(w, b, c, n, (m + n - 1) as nat);
                }
            }
        }
    }
}

proof fn lemma_inside_more(w: WorldModel, a: Seq<char>, b: Seq<char>, m: nat, n: nat)
    requires
        m <= n,
    ensures
        is_inside(w, a, b, m) ==> is_inside(w, a, b, n),
    decreases m,
{
    if m > 0 {
        if let Some(item) = item_of(w, a) {
            if let Some(parent) = item.row.parent_id {
                lemma_inside_more(w, parent, b, (m - 1) as nat, (n - 1) as nat);
            }
        }
    }
}

/// What becomes of the row of something that never reached OneDrive and is gone: it
/// is removed; but while it is being sent a delete of the very object waits behind
/// it.
pub proof fn law_what_was_never_sent_goes(run: RunModel, row: OutboxRowModel)
    ensures
        ({
            let next = losing_pending(run, row);
            &&& row.state != OutboxState::Running ==> next.out.ops == run.out.ops.push(
                OpModel::Remove(row.seq),
            ) && next.detections == run.detections
            &&& row.state == OutboxState::Running ==> next.out.ops == run.out.ops && next.detections.len()
                == run.detections.len() + 1 && {
                let d = next.detections.last();
                d.kind == OutboxKind::Delete && d.item_id is None && d.inode == row.inode && d.rel
                    == row.rel && d.base is None && d.target_parent is None && d.target_name is None
                    && d.state == OutboxState::Ready
            }
            &&& next.entries == run.entries && next.chosen == run.chosen && next.decided == run.decided
        }),
{
}

/// A row of something beneath a folder that leaves, or of something the base has
/// in it: what never reached OneDrive goes; what this batch settled stays; what
/// the base has inside goes with the folder where it is beneath it, or was to be
/// deleted; what was moved in from elsewhere is looked for by its own object,
/// unless its row says already that it left; and a row being sent stays.
pub proof fn law_what_becomes_of_a_row_in_a_leaving_folder(
    sc: SceneModel,
    run: RunModel,
    folder: Seq<char>,
    rel: PathModel,
    fuel: nat,
)
    requires
        fuel > 0,
        sc.w.rows.len() > 0,
    ensures
        ({
            let k = sc.w.rows.len() - 1;
            let row = sc.w.rows[k];
            let r = clearing(sc, run, folder, rel, k, fuel);
            let under = is_beneath(row.rel, rel);
            let same = Ok::<RunModel, StopModel>(run);
            match row.item_id {
                None => r == if under {
                    Ok::<RunModel, StopModel>(losing_pending(run, row))
                } else {
                    same
                },
                Some(item) => {
                    let inside = is_inside(sc.w, item, folder, sc.w.items.len());
                    let settled = run.chosen.contains_key(item) || run.decided.contains(item);
                    let sending = row.state == OutboxState::Running;
                    let leaves = row.kind == OutboxKind::MoveOut || row.kind == OutboxKind::Delete;
                    if settled || (!under && !inside) {
                        r == same
                    } else if inside {
                        if !sending && row.kind == OutboxKind::Delete {
                            r == Ok::<RunModel, StopModel>(with_op(run, OpModel::Remove(row.seq)))
                        } else if !sending && under && row.kind != OutboxKind::MoveOut {
                            r == Ok::<RunModel, StopModel>(with_op(run, OpModel::Remove(row.seq)))
                        } else {
                            r == same
                        }
                    } else if leaves && !sending {
                        r == same
                    } else {
                        r == losing(sc, run, item, row.rel, (fuel - 1) as nat)
                    }
                },
            }
        }),
{
    let k = sc.w.rows.len() - 1;
    let row = sc.w.rows[k];
    assert(clearing(sc, run, folder, rel, k + 1, fuel) == Ok::<RunModel, StopModel>(run));
    let lost = losing_pending(run, row);
    assert(clearing(sc, lost, folder, rel, k + 1, fuel) == Ok::<RunModel, StopModel>(lost));
    let gone = with_op(run, OpModel::Remove(row.seq));
    assert(clearing(sc, gone, folder, rel, k + 1, fuel) == Ok::<RunModel, StopModel>(gone));
    if let Some(item) = row.item_id {
        if let Ok(next) = losing(sc, run, item, row.rel, (fuel - 1) as nat) {
            assert(clearing(sc, next, folder, rel, k + 1, fuel) == Ok::<RunModel, StopModel>(next));
        }
    }
}

/// An item the base has in a folder that leaves, and which is found elsewhere
/// outside: where it went with the folder it needs nothing of its own; and else it
/// left first, and moves out on its own, from where it is expected to where it is.
pub proof fn law_what_left_a_folder_first_leaves_on_its_own(
    sc: SceneModel,
    run: RunModel,
    folder: Seq<char>,
    rel: PathModel,
    went: Option<Seq<u8>>,
    settled: Settle,
    steps: nat,
    fuel: nat,
    at: PathModel,
    handle: Seq<u8>,
    to: Seq<u8>,
)
    requires
        steps > 0,
        fuel > 0,
        sc.w.items.len() > 0,
        ({
            let child = sc.w.items[sc.w.items.len() - 1].row;
            &&& child.parent_id == Some(folder)
            &&& child.placement == Placement::Placed
            &&& child.kind == Kind::File
            &&& !run.chosen.contains_key(child.id)
            &&& !run.decided.contains(child.id)
            &&& expected_rel(sc.w, child.id) == Some(at)
            &&& is_beneath(at, rel)
            &&& recorded_handle(sc.w, child.id) == Some(handle)
            &&& place_of(sc.w, sc.f, handle) == Ok::<PlaceModel, StopModel>(PlaceModel::Outside(to))
        }),
    ensures
        ({
            let c = sc.w.items.len() - 1;
            let child = sc.w.items[c].row;
            let r = leaving(sc, run, seq![folder], c, rel, went, settled, steps, fuel);
            let along = went matches Some(p) && starts_with(parts_of(to), parts_of(p));
            if along {
                r == Ok::<(RunModel, Settle), StopModel>((run, settled))
            } else {
                match removing(
                    sc,
                    run,
                    OutboxKind::MoveOut,
                    child.id,
                    child,
                    at,
                    Some(InodeModel { dev: 0, ino: 0, handle: Some(handle) }),
                    Some(to),
                    (fuel - 1) as nat,
                ) {
                    Err(stop) => r == Err::<(RunModel, Settle), StopModel>(stop),
                    Ok((next, left)) => r matches Ok((end, how)) && end == next && how == less_settled(
                        settled,
                        left,
                    ),
                }
            }
        }),
{
    let c = sc.w.items.len() - 1;
    let child = sc.w.items[c].row;
    let queue = seq![folder];
    let none = queue.drop_first();
    assert(none.len() == 0);
    let fewer = (steps - 1) as nat;
    assert(leaving(sc, run, none, 0, rel, went, settled, fewer, fuel) == Ok::<(RunModel, Settle), StopModel>(
        (run, settled),
    ));
    assert(leaving(sc, run, queue, c + 1, rel, went, settled, steps, fuel) == Ok::<
        (RunModel, Settle),
        StopModel,
    >((run, settled)));
    if let Ok((next, left)) = removing(
        sc,
        run,
        OutboxKind::MoveOut,
        child.id,
        child,
        at,
        Some(object_of(handle)),
        Some(to),
        (fuel - 1) as nat,
    ) {
        let how = less_settled(settled, left);
        assert(leaving(sc, next, none, 0, rel, went, how, fewer, fuel) == Ok::<
            (RunModel, Settle),
            StopModel,
        >((next, how)));
        assert(leaving(sc, next, queue, c + 1, rel, went, how, steps, fuel) == Ok::<
            (RunModel, Settle),
            StopModel,
        >((next, how)));
    }
}

/// Of two settlements the less settled counts: unproven before waiting, and that
/// before done. One without an entry is done; and an item is settled once it has an
/// entry or a decision.
pub proof fn law_the_less_settled_counts(a: Settle, b: Settle, run: RunModel, id: Seq<char>)
    ensures
        less_settled(a, b) == less_settled(b, a),
        less_settled(a, b) == a || less_settled(a, b) == b,
        less_settled(a, Settle::Done) == a,
        less_settled(a, Settle::Unproven) == Settle::Unproven,
        less_settled(Settle::Wait, Settle::Done) == Settle::Wait,
        run.deferred.contains_key(id) ==> settled_as(run, id) == run.deferred[id],
        !run.deferred.contains_key(id) ==> settled_as(run, id) == Settle::Done,
        is_settled(run, id) <==> run.chosen.contains_key(id) || run.decided.contains(id),
{
}

/// An item held back is decided without a row, remembered as it was settled, and
/// listed where that is asked for: waiting as undecided, unproven as unproven.
pub proof fn law_an_item_held_back_is_remembered(run: RunModel, id: Seq<char>, settle: Settle, report: bool)
    ensures
        ({
            let next = holding_back(run, id, settle, report);
            &&& next.decided.contains(id) && settled_as(next, id) == settle
            &&& next.detections == run.detections && next.out.ops == run.out.ops
            &&& next.out.undecided == if report && settle == Settle::Wait {
                run.out.undecided.push(id)
            } else {
                run.out.undecided
            }
            &&& next.out.unproven == if report && settle == Settle::Unproven {
                run.out.unproven.push(id)
            } else {
                run.out.unproven
            }
            &&& next.out.recheck == run.out.recheck
        }),
{
}

/// What is to be examined again later is looked at then: an entry and a place by
/// its name, a tree with everything below it; and nothing that was to be is
/// forgotten.
pub proof fn law_what_is_busy_is_looked_at_again(
    run: RunModel,
    e: EntryModel,
    rel: PathModel,
    other: PathModel,
    also: Seq<u8>,
)
    requires
        e.rel.len() > 0,
        rel.len() > 0,
        e.name != seq![46u8],
        rel.last() != seq![46u8],
    ensures
        names_it(rechecking(run, e).out.recheck, e.rel.drop_last(), e.name),
        names_it(rechecking_at(run, rel).out.recheck, rel.drop_last(), rel.last()),
        rechecking_tree(run, rel).out.recheck.trees.contains(rel),
        names_it(run.out.recheck, other, also) ==> names_it(rechecking(run, e).out.recheck, other, also)
            && names_it(rechecking_at(run, rel).out.recheck, other, also) && names_it(
            rechecking_tree(run, rel).out.recheck,
            other,
            also,
        ),
        run.out.recheck.trees.contains(other) ==> rechecking_tree(run, rel).out.recheck.trees.contains(other)
            && rechecking(run, e).out.recheck.trees.contains(other),
        rechecking(run, e).detections == run.detections && rechecking(run, e).out.ops == run.out.ops,
{
    law_a_name_touched_is_looked_at(run.out.recheck, e.rel.drop_last(), e.name, other, also);
    law_a_name_touched_is_looked_at(run.out.recheck, rel.drop_last(), rel.last(), other, also);
    lemma_inserted_holds::<RelPath>(run.out.recheck.trees, rel, rel);
    lemma_inserted_holds::<RelPath>(run.out.recheck.trees, rel, other);
}

/// An entry that is taken, chosen or freed is that entry: no other is touched. A
/// freed one has no id and no state any more, is new, and was stripped.
pub proof fn law_only_the_entry_itself_is_touched(run: RunModel, i: usize, j: int, id: Seq<char>, other: Seq<char>)
    requires
        i < run.entries.len(),
        run.consumed.len() == run.entries.len(),
        0 <= j < run.entries.len(),
        j != i,
        id != other,
    ensures
        consuming(run, i).consumed[i as int],
        consuming(run, i).consumed[j] == run.consumed[j],
        choosing(run, id, i).chosen[id] == i && choosing(run, id, i).chosen.contains_key(id),
        choosing(run, id, i).chosen.contains_key(other) == run.chosen.contains_key(other),
        choosing(run, id, i).chosen[other] == run.chosen[other],
        freed(run, i).entries[j] == run.entries[j],
        ({
            let was = run.entries[i as int];
            let now = freed(run, i).entries[i as int];
            &&& now.id is None && now.state == StateAttr::Absent
            &&& now.rel == was.rel && now.name == was.name && now.ty == was.ty
            &&& now.dev == was.dev && now.ino == was.ino && now.handle == was.handle
            &&& now.size == was.size && now.mtime_sec == was.mtime_sec && now.mtime_nsec == was.mtime_nsec
            &&& freed(run, i).fresh == run.fresh.push(i)
            &&& freed(run, i).out.stripped == run.out.stripped.push(was.rel)
        }),
{
}

proof fn lemma_skip(s: Seq<(PathModel, Seq<char>)>, rel: PathModel, i: int)
    requires
        0 <= i <= s.len(),
    ensures
        i <= skip_from(s, rel, i) <= s.len(),
        skip_from(s, rel, i) < s.len() ==> s[skip_from(s, rel, i)].0 == rel,
        forall|k: int| i <= k < skip_from(s, rel, i) ==> (#[trigger] s[k]).0 != rel,
    decreases s.len() - i,
{
    if i < s.len() && s[i].0 != rel {
        lemma_skip(s, rel, i + 1);
    }
}

/// What is skipped is listed with its reason, once; and everything else that is
/// listed stays so.
pub proof fn law_what_is_skipped_is_listed(
    s: Seq<(PathModel, Seq<char>)>,
    rel: PathModel,
    reason: Seq<char>,
    k: int,
)
    ensures
        with_skip(s, rel, reason).contains((rel, reason)),
        0 <= k < s.len() && s[k].0 != rel ==> with_skip(s, rel, reason)[k] == s[k],
        (forall|j: int| 0 <= j < s.len() ==> (#[trigger] s[j]).0 != rel) ==> with_skip(s, rel, reason)
            == s.push((rel, reason)),
        (exists|j: int| 0 <= j < s.len() && (#[trigger] s[j]).0 == rel) ==> with_skip(s, rel, reason).len()
            == s.len(),
{
    lemma_skip(s, rel, 0);
    let at = skip_from(s, rel, 0);
    let now = with_skip(s, rel, reason);
    assert(now[at] == (rel, reason));
}

proof fn lemma_dropping(w: WorldModel, run: RunModel, rel: PathModel, k: int, op: OpModel)
    requires
        0 <= k,
    ensures
        dropping_inside(w, run, rel, k).out.ops.contains(op) <==> run.out.ops.contains(op) || exists|m: int|
            k <= m < w.rows.len() && #[trigger] is_dropped(w.rows[m], rel, op),
        dropping_inside(w, run, rel, k).detections == run.detections,
        dropping_inside(w, run, rel, k).entries == run.entries,
    decreases w.rows.len() - k,
{
    if k < w.rows.len() {
        let gone = OpModel::Remove(w.rows[k].seq);
        let with = with_op(run, gone);
        lemma_dropping(w, run, rel, k + 1, op);
        lemma_dropping(w, with, rel, k + 1, op);
        vstd::seq_lib::lemma_seq_contains_after_push(run.out.ops, gone, op);
        let later = exists|m: int| k + 1 <= m < w.rows.len() && #[trigger] is_dropped(w.rows[m], rel, op);
        assert((exists|m: int| k <= m < w.rows.len() && #[trigger] is_dropped(w.rows[m], rel, op))
            <==> later || is_dropped(w.rows[k], rel, op));
    }
}

/// The row waits, not being sent, for something new beneath `rel`, and `op`
/// removes it.
pub open spec fn is_dropped(row: OutboxRowModel, rel: PathModel, op: OpModel) -> bool {
    &&& row.item_id is None
    &&& row.state != OutboxState::Running
    &&& is_beneath(row.rel, rel)
    &&& op == OpModel::Remove(row.seq)
}

/// What stays local takes the rows along that would send it: its own create or
/// mkdir, and, for a directory, every one that waits beneath it; and no other row
/// goes. What is being created right now is an item already: its rename is
/// recorded, and nothing goes.
pub proof fn law_what_stays_local_is_not_sent(sc: SceneModel, run: RunModel, i: usize, op: OpModel)
    ensures
        ({
            let e = run.entries[i as int];
            let next = ignoring(sc, run, i);
            let own = pending_of(sc.w, e) matches Some(row) && (row.kind == OutboxKind::Create || row.kind
                == OutboxKind::Mkdir) && op == OpModel::Remove(row.seq);
            let below = e.ty == Type::Dir && exists|m: int|
                0 <= m < sc.w.rows.len() && #[trigger] is_dropped(sc.w.rows[m], e.rel, op);
            if being_created(sc.w, e) {
                &&& next.out.ops == run.out.ops
                &&& next.detections.len() == run.detections.len() + 1
                &&& next.detections.last().kind == OutboxKind::Move && next.detections.last().item_id is None
                    && next.detections.last().rel == e.rel
            } else {
                &&& next.out.ops.contains(op) <==> run.out.ops.contains(op) || own || below
                &&& next.detections == run.detections
            }
        }),
{
    let e = run.entries[i as int];
    let dropped = match pending_of(sc.w, e) {
        Some(row) => if row.kind == OutboxKind::Create || row.kind == OutboxKind::Mkdir {
            with_op(run, OpModel::Remove(row.seq))
        } else {
            run
        },
        None => run,
    };
    if let Some(row) = pending_of(sc.w, e) {
        vstd::seq_lib::lemma_seq_contains_after_push(run.out.ops, OpModel::Remove(row.seq), op);
    }
    lemma_dropping(sc.w, dropped, e.rel, 0, op);
}

/// The row is a delete at `rel`, of an item, that is not being sent.
pub open spec fn is_delete_at(row: OutboxRowModel, rel: PathModel) -> bool {
    &&& row.kind == OutboxKind::Delete
    &&& row.state != OutboxState::Running
    &&& row.rel == rel
    &&& row.item_id is Some
}

proof fn lemma_deleted(w: WorldModel, rel: PathModel, k: int)
    requires
        0 <= k,
    ensures
        match deleted_at(w, rel, k) {
            Some(id) => exists|m: int|
                k <= m < w.rows.len() && #[trigger] is_delete_at(w.rows[m], rel) && w.rows[m].item_id
                    == Some(id) && forall|j: int| k <= j < m ==> !(#[trigger] is_delete_at(w.rows[j], rel)),
            None => forall|j: int| k <= j < w.rows.len() ==> !(#[trigger] is_delete_at(w.rows[j], rel)),
        },
    decreases w.rows.len() - k,
{
    if k < w.rows.len() {
        if is_delete_at(w.rows[k], rel) {
            assert(is_delete_at(w.rows[k], rel));
        } else {
            lemma_deleted(w, rel, k + 1);
        }
    }
}

/// The item deleted at a place is that of the first delete there that still waits;
/// one being sent counts no more.
pub proof fn law_which_item_is_deleted_at_a_place(w: WorldModel, rel: PathModel, m: int)
    ensures
        0 <= m < w.rows.len() && is_delete_at(w.rows[m], rel) && (forall|j: int|
            0 <= j < m ==> !(#[trigger] is_delete_at(w.rows[j], rel))) ==> deleted_at(w, rel, 0)
            == w.rows[m].item_id,
        (forall|j: int| 0 <= j < w.rows.len() ==> !(#[trigger] is_delete_at(w.rows[j], rel)))
            ==> deleted_at(w, rel, 0) is None,
{
    lemma_deleted(w, rel, 0);
}

/// A directory is being made right now where a row that makes one, without an item
/// yet, is being sent for that very object; what cannot be told is asked, but only
/// while anything is being made at all.
pub proof fn law_which_directory_is_being_made(sc: SceneModel, rel: PathModel, dev: u64, ino: u64)
    ensures
        making(sc.w, dev, ino) <==> exists|k: int|
            0 <= k < sc.w.rows.len() && (#[trigger] sc.w.rows[k]).kind == OutboxKind::Mkdir
                && sc.w.rows[k].item_id is None && sc.w.rows[k].state == OutboxState::Running && (
            sc.w.rows[k].inode matches Some(o) && o.dev == dev && o.ino == ino),
        sc.f.dir_inode_of(rel) == Some(Some((dev, ino))) ==> being_made(sc, rel) == Ok::<bool, StopModel>(
            making(sc.w, dev, ino),
        ),
        sc.f.dir_inode_of(rel) == Some(None::<(u64, u64)>) ==> being_made(sc, rel) == Ok::<bool, StopModel>(
            false,
        ),
        sc.f.dir_inode_of(rel) is None ==> being_made(sc, rel) == if any_making(sc.w) {
            Err::<bool, StopModel>(StopModel::Ask(AskModel::DirInode(rel)))
        } else {
            Ok(false)
        },
        any_making(sc.w) <==> exists|k: int|
            0 <= k < sc.w.rows.len() && (#[trigger] sc.w.rows[k]).kind == OutboxKind::Mkdir
                && sc.w.rows[k].item_id is None && sc.w.rows[k].state == OutboxState::Running,
{
    if making(sc.w, dev, ino) {
        let k = choose|k: int|
            0 <= k < sc.w.rows.len() && is_making(#[trigger] sc.w.rows[k]) && (
            sc.w.rows[k].inode matches Some(i) && i.dev == dev && i.ino == ino);
        assert(is_making(sc.w.rows[k]));
        assert(any_making(sc.w));
    }
}

/// An object was seen where an entry of the batch is it.
pub proof fn law_an_object_was_seen_where_an_entry_is_it(
    entries: Seq<EntryModel>,
    inode: InodeModel,
    k: int,
)
    ensures
        !is_seen(entries, None),
        0 <= k < entries.len() && same_inode(
            InodeModel { dev: entries[k].dev, ino: entries[k].ino, handle: entries[k].handle },
            inode,
        ) ==> is_seen(entries, Some(inode)),
        (forall|j: int| 0 <= j < entries.len() ==> !same_inode(inode_of(#[trigger] entries[j]), inode))
            ==> !is_seen(entries, Some(inode)),
{
    if 0 <= k < entries.len() {
        assert(inode_of(entries[k]) == InodeModel {
            dev: entries[k].dev,
            ino: entries[k].ino,
            handle: entries[k].handle,
        });
    }
}

/// What was looked for in a directory and not found is lost: an item that is not
/// settled is decided by its object, and a row of something new there, whose
/// object was not seen, goes; what is settled, or was seen, is left as it is.
pub proof fn law_what_is_not_found_is_lost(
    sc: SceneModel,
    run: RunModel,
    id: Seq<char>,
    at: PathModel,
    dir: PathModel,
    names: Option<Seq<Seq<u8>>>,
)
    ensures
        losing_items(sc, run, seq![(id, at)], 0) == if run.chosen.contains_key(id) || run.decided.contains(id) {
            Ok::<RunModel, StopModel>(run)
        } else {
            losing(sc, run, id, at, enough(sc.w))
        },
        sc.w.rows.len() > 0 ==> {
            let k = sc.w.rows.len() - 1;
            let row = sc.w.rows[k];
            losing_rows(sc, run, dir, names, k) == if row.item_id is None && row_in(sc, row, dir, names)
                && !is_seen(run.entries, row.inode) {
                losing_new(sc, run, row)
            } else {
                Ok::<RunModel, StopModel>(run)
            }
        },
        enough(sc.w) > 2 * sc.w.items.len(),
{
    let found = seq![(id, at)];
    assert(losing_items(sc, run, found, 1) == Ok::<RunModel, StopModel>(run));
    if let Ok(next) = losing(sc, run, id, at, enough(sc.w)) {
        assert(losing_items(sc, next, found, 1) == Ok::<RunModel, StopModel>(next));
    }
    if sc.w.rows.len() > 0 {
        let k = sc.w.rows.len() - 1;
        let row = sc.w.rows[k];
        assert(losing_rows(sc, run, dir, names, k + 1) == Ok::<RunModel, StopModel>(run));
        if let Ok(next) = losing_new(sc, run, row) {
            assert(losing_rows(sc, next, dir, names, k + 1) == Ok::<RunModel, StopModel>(next));
        }
    }
}

/// Each directory that was read is gone through for what is missing: one read
/// whole for everything, one read by name for those names alone.
pub proof fn law_every_directory_read_is_gone_through(sc: SceneModel, run: RunModel, p: int)
    requires
        0 <= p < sc.whole.len() + sc.named_dirs.len(),
    ensures
        ({
            let (dir, names) = if p < sc.whole.len() {
                (sc.whole[p], None)
            } else {
                (
                    sc.named_dirs[p - sc.whole.len()],
                    Some(sc.named[sc.named_dirs[p - sc.whole.len()]]),
                )
            };
            match missing_in(sc, run, dir, names) {
                Err(stop) => missing_from(sc, run, p) == Err::<RunModel, StopModel>(stop),
                Ok(next) => missing_from(sc, run, p) == missing_from(sc, next, p + 1),
            }
        }),
{
}

/// Rows that follow a directory and rows that go are recorded before every change,
/// and everything else after.
pub proof fn law_rows_that_go_make_way_for_changes(run: RunModel, i: int, j: int)
    requires
        forall|k: int| 0 <= k < run.out.ops.len() ==> !((#[trigger] run.out.ops[k]) is Record),
        0 <= i < recorded(run).len(),
        0 <= j < recorded(run).len(),
        recorded(run)[i] is Record,
    ensures
        recorded(run)[j] is Rebase || recorded(run)[j] is Remove ==> j < i,
        recorded(run)[j] is SetHandle || recorded(run)[j] is Skip || recorded(run)[j] is Unskip
            || recorded(run)[j] is Hold ==> i < j,
{
    let early = run.out.ops.filter(|op: OpModel| comes_first(op));
    let late = run.out.ops.filter(|op: OpModel| !comes_first(op));
    let ds = in_order(run.detections);
    let all = recorded(run);
    lemma_filtered(run.out.ops);
    assert forall|k: int| 0 <= k < all.len() implies {
        if k < early.len() {
            all[k] == early[k]
        } else if k < early.len() + ds.len() {
            #[trigger] all[k] is Record
        } else {
            all[k] == late[k - early.len() - ds.len()]
        }
    } by {}
    assert(early.len() <= i < early.len() + ds.len()) by {
        if i < early.len() {
            assert(comes_first(early[i]));
        } else if i >= early.len() + ds.len() {
            let k = i - early.len() - ds.len();
            assert(run.out.ops.contains(late[k]));
        }
    }
    if j >= early.len() + ds.len() {
        assert(!comes_first(late[j - early.len() - ds.len()]));
    } else if j < early.len() {
        assert(comes_first(early[j]));
    }
}

proof fn lemma_filtered(ops: Seq<OpModel>)
    ensures
        ({
            let early = ops.filter(|op: OpModel| comes_first(op));
            let late = ops.filter(|op: OpModel| !comes_first(op));
            &&& forall|k: int| 0 <= k < early.len() ==> comes_first(#[trigger] early[k])
            &&& forall|k: int|
                0 <= k < late.len() ==> !comes_first(#[trigger] late[k]) && ops.contains(late[k])
        }),
    decreases ops.len(),
{
    reveal(Seq::filter);
    if ops.len() > 0 {
        let rest = ops.drop_last();
        lemma_filtered(rest);
        let late = ops.filter(|op: OpModel| !comes_first(op));
        let before = rest.filter(|op: OpModel| !comes_first(op));
        assert forall|k: int| 0 <= k < late.len() implies !comes_first(#[trigger] late[k]) && ops.contains(
            late[k],
        ) by {
            if k < before.len() {
                assert(late[k] == before[k]);
                assert(rest.contains(before[k]));
                let m = choose|m: int| 0 <= m < rest.len() && rest[m] == before[k];
                assert(ops[m] == late[k]);
            } else {
                assert(late[k] == ops.last());
                assert(ops[ops.len() - 1] == late[k]);
            }
        }
    }
}

/// Two snapshots read the same only where the size and the time are: what was sent
/// is told from everything else.
pub proof fn law_a_snapshot_tells_contents_apart(
    size: u64,
    sec: i64,
    nsec: i64,
    other: u64,
    other_sec: i64,
    other_nsec: i64,
)
    ensures
        snapshot_text(size, sec, nsec) == snapshot_text(other, other_sec, other_nsec) ==> size == other
            && sec * 1_000_000_000 + nsec == other_sec * 1_000_000_000 + other_nsec,
{
    let s = snapshot_text(size, sec, nsec);
    let t = snapshot_text(other, other_sec, other_nsec);
    let a = decimal(size as nat);
    let b = decimal(other as nat);
    let x = sec * 1_000_000_000 + nsec;
    let y = other_sec * 1_000_000_000 + other_nsec;
    law_a_number_is_read_back(size as nat);
    law_a_number_is_read_back(other as nat);
    law_no_two_numbers_are_written_the_same(x, y);
    if s == t {
        assert(s[a.len() as int] == ' ');
        assert(t[b.len() as int] == ' ');
        if a.len() < b.len() {
            assert(t[a.len() as int] == b[a.len() as int]);
        } else if b.len() < a.len() {
            assert(s[b.len() as int] == a[b.len() as int]);
        }
        let n = a.len() as int;
        assert(s.subrange(0, n) =~= a);
        assert(t.subrange(0, n) =~= b);
        assert(s.subrange(n + 1, s.len() as int) =~= signed_decimal(x));
        assert(t.subrange(n + 1, t.len() as int) =~= signed_decimal(y));
    }
}

/// A replaced object is recorded where it stands, and only where what stands there
/// still is the item.
pub proof fn law_a_replaced_object_is_recorded_where_it_stands(id: Seq<u8>, rel: PathModel, there: Option<Seq<u8>>)
    ensures
        replaced_at(id, rel, there) is Some <==> there == Some(id) && rel.len() > 0,
        replaced_at(id, rel, there) matches Some((dir, name)) ==> dir.push(name) == rel,
{
    if rel.len() > 0 {
        assert(rel.drop_last().push(rel.last()) =~= rel);
    }
}

} // verus!
