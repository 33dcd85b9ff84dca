//! A base that is a tree is walked to its end.

use vstd::prelude::*;
use crate::local::facts::{place_of, PlaceModel, StopModel};
use crate::local::removal::{clearing, enough, leaving, losing, losing_pending, object_of, removing};
use crate::local::run::{
    less_settled, rechecking_at, settled_as, with_op, RunModel, SceneModel, Settle,
};
use crate::local::world::{expected_rel, item_from, item_of, recorded_handle, ItemModel, WorldModel};
use crate::path::PathModel;
use crate::tree::{InodeModel, Kind, OpModel, OutboxKind, RowModel};

verus! {

/// The ids of the base's items.
pub open spec fn ids_of(w: WorldModel) -> Seq<Seq<char>> {
    Seq::new(w.items.len(), |k: int| w.items[k].row.id)
}

/// Every item stands lower than the folder it is in.
pub open spec fn is_ranked(w: WorldModel, rank: spec_fn(Seq<char>) -> nat) -> bool {
    forall|k: int|
        0 <= k < w.items.len() ==> ((#[trigger] w.items[k]).row.parent_id matches Some(p)
            ==> rank(p) < rank(w.items[k].row.id))
}

/// The base is a tree: no id occurs twice, and no item is inside itself.
pub open spec fn is_tree(w: WorldModel) -> bool {
    &&& ids_of(w).no_duplicates()
    &&& exists|rank: spec_fn(Seq<char>) -> nat| is_ranked(w, rank)
}

/// How many items are not decided yet.
spec fn left(w: WorldModel, decided: Set<Seq<char>>) -> nat {
    ids_of(w).to_set().difference(decided).len()
}

/// The step neither runs out of the tree nor takes back what was decided.
spec fn ends(run: RunModel, r: Result<RunModel, StopModel>) -> bool {
    match r {
        Ok(next) => run.decided.subset_of(next.decided),
        Err(stop) => !(stop is NoTree),
    }
}

/// So does one that gives a value.
spec fn ends_with<T>(run: RunModel, r: Result<(RunModel, T), StopModel>) -> bool {
    match r {
        Ok((next, _)) => run.decided.subset_of(next.decided),
        Err(stop) => !(stop is NoTree),
    }
}

proof fn lemma_left_grows(w: WorldModel, a: Set<Seq<char>>, b: Set<Seq<char>>)
    requires
        a.subset_of(b),
    ensures
        left(w, b) <= left(w, a),
{
    let ids = ids_of(w).to_set();
    vstd::seq_lib::seq_to_set_is_finite(ids_of(w));
    vstd::set_lib::lemma_len_subset(ids.difference(b), ids.difference(a));
}

proof fn lemma_left_bound(w: WorldModel, decided: Set<Seq<char>>)
    ensures
        left(w, decided) <= w.items.len(),
{
    vstd::seq_lib::seq_to_set_is_finite(ids_of(w));
    vstd::set_lib::lemma_len_difference(ids_of(w).to_set(), decided);
    ids_of(w).lemma_cardinality_of_set();
}

proof fn lemma_one_less(w: WorldModel, decided: Set<Seq<char>>, id: Seq<char>)
    requires
        ids_of(w).contains(id),
        !decided.contains(id),
    ensures
        left(w, decided.insert(id)) + 1 == left(w, decided),
{
    let ids = ids_of(w).to_set();
    vstd::seq_lib::seq_to_set_is_finite(ids_of(w));
    assert(ids.difference(decided).contains(id));
    assert(ids.difference(decided.insert(id)) =~= ids.difference(decided).remove(id));
}

proof fn lemma_item(items: Seq<ItemModel>, id: Seq<char>, i: int)
    requires
        0 <= i,
        item_from(items, id, i) is Some,
    ensures
        exists|k: int| i <= k < items.len() && (#[trigger] items[k]).row.id == id,
    decreases items.len() - i,
{
    if items[i].row.id != id {
        lemma_item(items, id, i + 1);
    } else {
        assert(items[i].row.id == id);
    }
}

proof fn lemma_is_an_id(w: WorldModel, id: Seq<char>)
    requires
        item_of(w, id) is Some,
    ensures
        ids_of(w).contains(id),
{
    lemma_item(w.items, id, 0);
    let k = choose|k: int| 0 <= k < w.items.len() && (#[trigger] w.items[k]).row.id == id;
    assert(ids_of(w)[k] == id);
}

/// The folder queued `k`th was put there below one walked before it: of the
/// one being walked, only up to its `c`th item.
spec fn came_from(w: WorldModel, seen: Seq<Seq<char>>, p: int, c: int, k: int) -> bool {
    exists|a: int, j: int| #![trigger w.items[a], seen[j]]
        0 <= a < w.items.len() && 0 <= j <= p && j < seen.len() && w.items[a].row.id == seen[k]
            && w.items[a].row.parent_id == Some(seen[j]) && (j < p || a < c)
}

/// Where a walk from `seen[0]` stands: the folders queued so far are all
/// different, `p` of them are done, and each was put there once.
spec fn walks(
    w: WorldModel,
    rank: spec_fn(Seq<char>) -> nat,
    seen: Seq<Seq<char>>,
    p: int,
    c: int,
    queue: Seq<Seq<char>>,
    steps: nat,
) -> bool {
    &&& is_ranked(w, rank)
    &&& 0 <= p <= seen.len()
    &&& 0 < seen.len()
    &&& 0 <= c
    &&& queue == seen.subrange(p, seen.len() as int)
    &&& seen.no_duplicates()
    &&& forall|k: int| 0 <= k < seen.len() ==> ids_of(w).contains(#[trigger] seen[k])
    &&& forall|k: int| 0 <= k < seen.len() ==> rank(seen[0]) <= rank(#[trigger] seen[k])
    &&& forall|k: int| 1 <= k < seen.len() ==> #[trigger] came_from(w, seen, p, c, k)
    &&& steps + p == w.items.len() + 1
}

proof fn lemma_walk_starts(w: WorldModel, rank: spec_fn(Seq<char>) -> nat, id: Seq<char>)
    requires
        is_ranked(w, rank),
        ids_of(w).contains(id),
    ensures
        walks(w, rank, seq![id], 0, 0, seq![id], w.items.len() + 1),
{
    assert(seq![id].subrange(0, 1) =~= seq![id]);
}

/// A walk has steps left while a folder is queued.
proof fn lemma_walk_has_steps(
    w: WorldModel,
    rank: spec_fn(Seq<char>) -> nat,
    seen: Seq<Seq<char>>,
    p: int,
    c: int,
    queue: Seq<Seq<char>>,
    steps: nat,
)
    requires
        walks(w, rank, seen, p, c, queue, steps),
        queue.len() > 0,
    ensures
        steps > 0,
{
    seen.unique_seq_to_set();
    ids_of(w).lemma_cardinality_of_set();
    vstd::seq_lib::seq_to_set_is_finite(ids_of(w));
    assert(seen.to_set().subset_of(ids_of(w).to_set())) by {
        assert forall|x: Seq<char>| seen.to_set().contains(x) implies ids_of(w).to_set().contains(
            x,
        ) by {
            let k = choose|k: int| 0 <= k < seen.len() && seen[k] == x;
            assert(ids_of(w).contains(seen[k]));
        }
    }
    vstd::set_lib::lemma_len_subset(seen.to_set(), ids_of(w).to_set());
}

proof fn lemma_walk_goes_on(
    w: WorldModel,
    rank: spec_fn(Seq<char>) -> nat,
    seen: Seq<Seq<char>>,
    p: int,
    c: int,
    queue: Seq<Seq<char>>,
    steps: nat,
)
    requires
        walks(w, rank, seen, p, c, queue, steps),
    ensures
        walks(w, rank, seen, p, c + 1, queue, steps),
{
    assert forall|k: int| 1 <= k < seen.len() implies #[trigger] came_from(w, seen, p, c + 1, k) by {
        assert(came_from(w, seen, p, c, k));
    }
}

proof fn lemma_walk_next(
    w: WorldModel,
    rank: spec_fn(Seq<char>) -> nat,
    seen: Seq<Seq<char>>,
    p: int,
    c: int,
    queue: Seq<Seq<char>>,
    steps: nat,
)
    requires
        walks(w, rank, seen, p, c, queue, steps),
        queue.len() > 0,
        steps > 0,
    ensures
        walks(w, rank, seen, p + 1, 0, queue.drop_first(), (steps - 1) as nat),
{
    assert(queue.drop_first() =~= seen.subrange(p + 1, seen.len() as int));
    assert forall|k: int| 1 <= k < seen.len() implies #[trigger] came_from(w, seen, p + 1, 0, k) by {
        assert(came_from(w, seen, p, c, k));
    }
}

proof fn lemma_walk_enters(
    w: WorldModel,
    rank: spec_fn(Seq<char>) -> nat,
    seen: Seq<Seq<char>>,
    p: int,
    c: int,
    queue: Seq<Seq<char>>,
    steps: nat,
)
    requires
        walks(w, rank, seen, p, c, queue, steps),
        ids_of(w).no_duplicates(),
        queue.len() > 0,
        c < w.items.len(),
        w.items[c].row.parent_id == Some(queue[0]),
    ensures
        walks(
            w,
            rank,
            seen.push(w.items[c].row.id),
            p,
            c + 1,
            queue.push(w.items[c].row.id),
            steps,
        ),
{
    let id = w.items[c].row.id;
    let more = seen.push(id);
    assert(queue[0] == seen[p]);
    assert(rank(seen[p]) < rank(id));
    assert(rank(seen[0]) <= rank(seen[p]));
    assert(ids_of(w)[c] == id);
    assert forall|k: int| 0 <= k < seen.len() implies seen[k] != id by {
        if k > 0 && seen[k] == id {
            assert(came_from(w, seen, p, c, k));
            let (a, j) = choose|a: int, j: int| #![trigger w.items[a], seen[j]]
                0 <= a < w.items.len() && 0 <= j <= p && j < seen.len() && w.items[a].row.id
                    == seen[k] && w.items[a].row.parent_id == Some(seen[j]) && (j < p || a < c);
            assert(ids_of(w)[a] == ids_of(w)[c]);
            assert(a == c);
            assert(seen[j] == seen[p]);
        }
    }
    assert(queue.push(id) =~= more.subrange(p, more.len() as int));
    assert(more.no_duplicates()) by {
        assert forall|x: int, y: int| 0 <= x < more.len() && 0 <= y < more.len() && x != y implies more[x]
            != more[y] by {
            if x < seen.len() {
                assert(more[x] == seen[x]);
            }
            if y < seen.len() {
                assert(more[y] == seen[y]);
            }
        }
    }
    assert forall|k: int| 0 <= k < more.len() implies ids_of(w).contains(#[trigger] more[k]) && rank(
        more[0],
    ) <= rank(more[k]) by {
        if k < seen.len() {
            assert(more[k] == seen[k]);
        }
    }
    assert forall|k: int| 1 <= k < more.len() implies #[trigger] came_from(w, more, p, c + 1, k) by {
        if k < seen.len() {
            assert(came_from(w, seen, p, c, k));
            let (a, j) = choose|a: int, j: int| #![trigger w.items[a], seen[j]]
                0 <= a < w.items.len() && 0 <= j <= p && j < seen.len() && w.items[a].row.id
                    == seen[k] && w.items[a].row.parent_id == Some(seen[j]) && (j < p || a < c);
            assert(more[j] == seen[j] && more[k] == seen[k]);
            assert(w.items[a].row.id == more[k] && w.items[a].row.parent_id == Some(more[j]));
        } else {
            assert(w.items[c].row.id == more[k] && w.items[c].row.parent_id == Some(more[p]));
        }
    }
}

proof fn lemma_losing_ends(sc: SceneModel, run: RunModel, id: Seq<char>, rel: PathModel, fuel: nat)
    requires
        is_tree(sc.w),
        fuel >= 3 * left(sc.w, run.decided) + 2,
    ensures
        ends(run, losing(sc, run, id, rel, fuel)),
    decreases fuel, 0nat, 0nat,
{
    match item_of(sc.w, id) {
        None => {},
        Some(item) => {
            lemma_is_an_id(sc.w, id);
            match item.handle {
                None => {},
                Some(handle) => match place_of(sc.w, sc.f, handle) {
                    Ok(PlaceModel::Gone) => {
                        lemma_removing_ends(
                            sc,
                            run,
                            OutboxKind::Delete,
                            id,
                            item.row,
                            rel,
                            None,
                            None,
                            (fuel - 1) as nat,
                        );
                    },
                    Ok(PlaceModel::Outside(to)) => {
                        lemma_removing_ends(
                            sc,
                            run,
                            OutboxKind::MoveOut,
                            id,
                            item.row,
                            rel,
                            Some(object_of(handle)),
                            Some(to),
                            (fuel - 1) as nat,
                        );
                    },
                    _ => {},
                },
            }
        },
    }
}

proof fn lemma_removing_ends(
    sc: SceneModel,
    run: RunModel,
    kind: OutboxKind,
    id: Seq<char>,
    base: RowModel,
    rel: PathModel,
    inode: Option<InodeModel>,
    went: Option<Seq<u8>>,
    fuel: nat,
)
    requires
        is_tree(sc.w),
        ids_of(sc.w).contains(id),
        fuel >= 3 * left(sc.w, run.decided) + 1,
    ensures
        ends_with(run, removing(sc, run, kind, id, base, rel, inode, went, fuel)),
    decreases fuel, 0nat, 0nat,
{
    if !run.decided.contains(id) && base.kind == Kind::Folder {
        let marked = RunModel { decided: run.decided.insert(id), ..run };
        let rank = choose|rank: spec_fn(Seq<char>) -> nat| is_ranked(sc.w, rank);
        lemma_one_less(sc.w, run.decided, id);
        lemma_walk_starts(sc.w, rank, id);
        lemma_leaving_ends(
            sc,
            marked,
            rank,
            seq![id],
            0,
            seq![id],
            0,
            rel,
            went,
            Settle::Done,
            sc.w.items.len() + 1,
            (fuel - 1) as nat,
        );
        if let Ok((next, Settle::Done)) = leaving(
            sc,
            marked,
            seq![id],
            0,
            rel,
            went,
            Settle::Done,
            sc.w.items.len() + 1,
            (fuel - 1) as nat,
        ) {
            lemma_left_grows(sc.w, marked.decided, next.decided);
            lemma_clearing_ends(sc, next, id, rel, 0, (fuel - 1) as nat);
        }
    }
}

proof fn lemma_clearing_ends(
    sc: SceneModel,
    run: RunModel,
    folder: Seq<char>,
    rel: PathModel,
    k: int,
    fuel: nat,
)
    requires
        is_tree(sc.w),
        0 <= k,
        fuel >= 3 * left(sc.w, run.decided) + 3,
    ensures
        ends(run, clearing(sc, run, folder, rel, k, fuel)),
    decreases fuel, sc.w.rows.len() - k, 0nat,
{
    if k < sc.w.rows.len() {
        let row = sc.w.rows[k];
        lemma_clearing_ends(sc, run, folder, rel, k + 1, fuel);
        lemma_clearing_ends(sc, losing_pending(run, row), folder, rel, k + 1, fuel);
        lemma_clearing_ends(sc, with_op(run, OpModel::Remove(row.seq)), folder, rel, k + 1, fuel);
        if let Some(item) = row.item_id {
            lemma_losing_ends(sc, run, item, row.rel, (fuel - 1) as nat);
            if let Ok(next) = losing(sc, run, item, row.rel, (fuel - 1) as nat) {
                lemma_left_grows(sc.w, run.decided, next.decided);
                lemma_clearing_ends(sc, next, folder, rel, k + 1, fuel);
            }
        }
    }
}

proof fn lemma_leaving_ends(
    sc: SceneModel,
    run: RunModel,
    rank: spec_fn(Seq<char>) -> nat,
    seen: Seq<Seq<char>>,
    p: int,
    queue: Seq<Seq<char>>,
    c: int,
    rel: PathModel,
    went: Option<Seq<u8>>,
    settled: Settle,
    steps: nat,
    fuel: nat,
)
    requires
        is_tree(sc.w),
        walks(sc.w, rank, seen, p, c, queue, steps),
        fuel >= 3 * left(sc.w, run.decided) + 2,
    ensures
        ends_with(run, leaving(sc, run, queue, c, rel, went, settled, steps, fuel)),
    decreases fuel, steps, sc.w.items.len() - c,
{
    if queue.len() > 0 {
        lemma_walk_has_steps(sc.w, rank, seen, p, c, queue, steps);
        if c >= sc.w.items.len() {
            lemma_walk_next(sc.w, rank, seen, p, c, queue, steps);
            lemma_leaving_ends(
                sc,
                run,
                rank,
                seen,
                p + 1,
                queue.drop_first(),
                0,
                rel,
                went,
                settled,
                (steps - 1) as nat,
                fuel,
            );
        } else {
            let child = sc.w.items[c].row;
            let id = child.id;
            let wait = less_settled(settled, Settle::Wait);
            let unproven = less_settled(settled, Settle::Unproven);
            let before = less_settled(settled, settled_as(run, id));
            lemma_walk_goes_on(sc.w, rank, seen, p, c, queue, steps);
            lemma_leaving_ends(sc, run, rank, seen, p, queue, c + 1, rel, went, settled, steps, fuel);
            lemma_leaving_ends(sc, run, rank, seen, p, queue, c + 1, rel, went, wait, steps, fuel);
            lemma_leaving_ends(sc, run, rank, seen, p, queue, c + 1, rel, went, unproven, steps, fuel);
            lemma_leaving_ends(sc, run, rank, seen, p, queue, c + 1, rel, went, before, steps, fuel);
            if child.parent_id == Some(queue[0]) {
                lemma_walk_enters(sc.w, rank, seen, p, c, queue, steps);
                lemma_leaving_ends(
                    sc,
                    run,
                    rank,
                    seen.push(id),
                    p,
                    queue.push(id),
                    c + 1,
                    rel,
                    went,
                    settled,
                    steps,
                    fuel,
                );
            }
            if let Some(handle) = recorded_handle(sc.w, id) {
                match place_of(sc.w, sc.f, handle) {
                    Ok(PlaceModel::Outside(to)) => if let Some(at) = expected_rel(sc.w, id) {
                        assert(ids_of(sc.w)[c] == id);
                        lemma_removing_ends(
                            sc,
                            run,
                            OutboxKind::MoveOut,
                            id,
                            child,
                            at,
                            Some(object_of(handle)),
                            Some(to),
                            (fuel - 1) as nat,
                        );
                        if let Ok((next, out)) = removing(
                            sc,
                            run,
                            OutboxKind::MoveOut,
                            id,
                            child,
                            at,
                            Some(object_of(handle)),
                            Some(to),
                            (fuel - 1) as nat,
                        ) {
                            lemma_left_grows(sc.w, run.decided, next.decided);
                            lemma_leaving_ends(
                                sc,
                                next,
                                rank,
                                seen,
                                p,
                                queue,
                                c + 1,
                                rel,
                                went,
                                less_settled(settled, out),
                                steps,
                                fuel,
                            );
                        }
                    },
                    Ok(PlaceModel::Inside(now)) => {
                        lemma_leaving_ends(
                            sc,
                            rechecking_at(run, now),
                            rank,
                            seen,
                            p,
                            queue,
                            c + 1,
                            rel,
                            went,
                            wait,
                            steps,
                            fuel,
                        );
                    },
                    _ => {},
                }
            }
        }
    }
}

/// In a base that is a tree the search for what left with an item comes to its
/// end.
pub proof fn lemma_losing_reaches_its_end(sc: SceneModel, run: RunModel, id: Seq<char>, rel: PathModel)
    requires
        is_tree(sc.w),
    ensures
        losing(sc, run, id, rel, enough(sc.w)) matches Err(stop) ==> !(stop is NoTree),
{
    lemma_left_bound(sc.w, run.decided);
    lemma_losing_ends(sc, run, id, rel, enough(sc.w));
}

/// So does the one for what leaves with an item that is out of the folder.
pub proof fn lemma_removing_reaches_its_end(
    sc: SceneModel,
    run: RunModel,
    kind: OutboxKind,
    id: Seq<char>,
    base: RowModel,
    rel: PathModel,
    inode: Option<InodeModel>,
    went: Option<Seq<u8>>,
)
    requires
        is_tree(sc.w),
        item_of(sc.w, id) is Some,
    ensures
        removing(sc, run, kind, id, base, rel, inode, went, enough(sc.w)) matches Err(stop)
            ==> !(stop is NoTree),
{
    lemma_is_an_id(sc.w, id);
    lemma_left_bound(sc.w, run.decided);
    lemma_removing_ends(sc, run, kind, id, base, rel, inode, went, enough(sc.w));
}

} // verus!
