//! What the order of a batch's rows goes by.

use vstd::prelude::*;
use crate::local::order::{
    frees_place, is_candidate, next_written, shallowest, slot_of, takes_place, SlotModel,
};
use crate::text::lowercase_of;
use crate::tree::{DetectionModel, OutboxKind};

verus! {

/// The row takes its item to another place than its base: it moves or updates an
/// item whose base is in another folder, or has another name.
pub open spec fn goes_elsewhere(d: DetectionModel) -> bool {
    &&& d.kind == OutboxKind::Move || d.kind == OutboxKind::Update
    &&& d.base is Some
    &&& d.base->0.parent != d.target_parent || d.base->0.name != d.target_name
}

/// Which place a row frees: where its base was, whatever the case of its name, for
/// a row that removes or goes elsewhere; and none for any other.
pub proof fn law_which_place_a_row_frees(d: DetectionModel)
    ensures
        ({
            let frees = d.kind == OutboxKind::Delete || d.kind == OutboxKind::MoveOut || goes_elsewhere(d);
            &&& !frees || d.base is None ==> frees_place(d) is None
            &&& frees && d.base is Some ==> match (d.base->0.parent, d.base->0.name) {
                (Some(parent), Some(name)) => frees_place(d) == Some((parent, lowercase_of(name))),
                _ => frees_place(d) is None,
            }
            &&& slot_of(d).frees == frees_place(d)
        }),
{
}

/// Which place a row takes: where it goes, whatever the case of its name, for a
/// row that makes something or goes elsewhere; and none for any other.
pub proof fn law_which_place_a_row_takes(d: DetectionModel)
    ensures
        ({
            let takes = d.kind == OutboxKind::Mkdir || d.kind == OutboxKind::Create || goes_elsewhere(d);
            &&& !takes ==> takes_place(d) is None
            &&& takes ==> match (d.target_parent, d.target_name) {
                (Some(parent), Some(name)) => takes_place(d) == Some((parent, lowercase_of(name))),
                _ => takes_place(d) is None,
            }
            &&& slot_of(d).takes == takes_place(d)
            &&& slot_of(d).depth == d.rel.len()
        }),
{
}

proof fn lemma_shallowest_of_all(ds: Seq<SlotModel>, order: Seq<int>, free: bool, i: int, best: Option<int>)
    requires
        0 <= i,
        best matches Some(b) ==> 0 <= b < i && b < ds.len(),
    ensures
        match shallowest(ds, order, free, i, best) {
            Some(r) => {
                &&& 0 <= r < ds.len() && (Some(r) == best || (i <= r && is_candidate(ds, order, free, r)))
                &&& forall|j: int|
                    i <= j < ds.len() && #[trigger] is_candidate(ds, order, free, j) ==> ds[r].depth < ds[j].depth
                        || (ds[r].depth == ds[j].depth && r <= j)
                &&& best matches Some(b) ==> ds[r].depth < ds[b].depth || r == b
            },
            None => best is None && forall|j: int|
                i <= j < ds.len() ==> !#[trigger] is_candidate(ds, order, free, j),
        },
    decreases ds.len() - i,
{
    if i < ds.len() {
        let takes = is_candidate(ds, order, free, i) && (best is None || ds[i].depth < ds[best->0].depth);
        let next = if takes {
            Some(i)
        } else {
            best
        };
        lemma_shallowest_of_all(ds, order, free, i + 1, next);
        match shallowest(ds, order, free, i, best) {
            Some(r) => {
                assert forall|j: int| i <= j < ds.len() && #[trigger] is_candidate(ds, order, free, j) implies ds[r].depth
                    < ds[j].depth || (ds[r].depth == ds[j].depth && r <= j) by {
                    if j == i && !takes {
                        assert(best is Some);
                    }
                }
            },
            None => {
                assert(!is_candidate(ds, order, free, i));
            },
        }
    }
}

/// Of the rows that nothing blocks the shallowest is written next, and of those as
/// shallow the one found first; only where every row is blocked is it the
/// shallowest, and first found, of all that are left.
pub proof fn law_the_shallowest_row_is_written_next(ds: Seq<SlotModel>, order: Seq<int>, j: int)
    requires
        0 <= j < ds.len(),
    ensures
        ({
            let r = next_written(ds, order);
            let some_free = exists|k: int| 0 <= k < ds.len() && #[trigger] is_candidate(ds, order, true, k);
            &&& is_candidate(ds, order, true, j) ==> is_candidate(ds, order, true, r) && (ds[r].depth
                < ds[j].depth || (ds[r].depth == ds[j].depth && r <= j))
            &&& !some_free && is_candidate(ds, order, false, j) ==> !order.contains(r) && (ds[r].depth
                < ds[j].depth || (ds[r].depth == ds[j].depth && r <= j))
        }),
{
    lemma_shallowest_of_all(ds, order, true, 0, None);
    lemma_shallowest_of_all(ds, order, false, 0, None);
    if let Some(r) = shallowest(ds, order, true, 0, None) {
        assert(is_candidate(ds, order, true, r));
    }
}

} // verus!
