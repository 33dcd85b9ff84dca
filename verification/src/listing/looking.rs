//! What a cycle looks at, and what it makes of trouble.

use vstd::prelude::*;
use crate::listing::feed::{change_id, ChangeModel};
use crate::listing::reconcile::{nothing_applied, LookModel};
use crate::listing::rw::{looked_at, looks_batch, with_look};
use crate::listing::{
    apply_trouble, can_be_kept, drive_trouble, ApplyKind, CycleErrorModel, DriveKind,
};
use crate::local::batch::BatchModel;
use crate::local::batching::{law_a_name_touched_is_looked_at, names_it};
use crate::path::RelPath;
use crate::sorted::{lemma_inserted_all_holds, lemma_inserted_holds};
use crate::tree::RowModel;

verus! {

/// A signed-out account is that; any other trouble with the drive is being
/// offline, for the reason it gives.
pub proof fn law_what_trouble_with_the_drive_is(kind: DriveKind, text: Seq<char>)
    ensures
        drive_trouble(kind, text) == CycleErrorModel::SignedOut <==> kind == DriveKind::SignedOut,
        kind != DriveKind::SignedOut ==> drive_trouble(kind, text) == CycleErrorModel::Offline(text),
{
}

/// A reconcile that was cancelled is that; any other trouble is told as it is.
pub proof fn law_what_trouble_with_the_folder_is(kind: ApplyKind, text: Seq<char>)
    ensures
        apply_trouble(kind, text) == CycleErrorModel::Cancelled <==> kind == ApplyKind::Cancelled,
        kind != ApplyKind::Cancelled ==> apply_trouble(kind, text) == CycleErrorModel::Apply(text),
{
}

/// A folder is kept in step with both interception and a helper, and with neither
/// alone.
pub proof fn law_a_folder_needs_interception_and_a_helper()
    ensures
        can_be_kept(true, true),
        !can_be_kept(true, false),
        !can_be_kept(false, true),
        !can_be_kept(false, false),
{
}

/// A read-write cycle looks at every item that changed, was committed since, or
/// has no object, and at no other.
pub proof fn law_which_items_a_cycle_looks_at(
    changed: Seq<Seq<char>>,
    revisit: Seq<Seq<char>>,
    unplaced: Seq<Seq<char>>,
    id: Seq<char>,
)
    ensures
        looked_at(changed, revisit, unplaced).contains(id) <==> changed.contains(id) || revisit.contains(
            id,
        ) || unplaced.contains(id),
{
    let none = Seq::<Seq<char>>::empty();
    let one = crate::sorted::inserted_all::<String>(none, changed);
    let two = crate::sorted::inserted_all::<String>(one, revisit);
    lemma_inserted_all_holds::<String>(none, changed, id);
    lemma_inserted_all_holds::<String>(one, revisit, id);
    lemma_inserted_all_holds::<String>(two, unplaced, id);
}

/// The batch looks at the place `look` names.
pub open spec fn looks_there(b: BatchModel, look: LookModel) -> bool {
    if look.below {
        b.trees.contains(look.rel)
    } else {
        look.rel.len() > 0 ==> names_it(b, look.rel.drop_last(), look.rel.last())
    }
}

proof fn lemma_look_kept(b: BatchModel, look: LookModel, other: LookModel)
    requires
        look.rel.len() == 0 || look.rel.last() != seq![46u8],
        looks_there(b, other),
    ensures
        looks_there(with_look(b, look), other),
{
    if look.below {
        lemma_inserted_holds::<RelPath>(b.trees, look.rel, other.rel);
    } else if look.rel.len() > 0 && !other.below && other.rel.len() > 0 {
        law_a_name_touched_is_looked_at(
            b,
            look.rel.drop_last(),
            look.rel.last(),
            other.rel.drop_last(),
            other.rel.last(),
        );
    }
}

/// The watcher is to examine every place a reconcile kept, copied or made local:
/// each by its name, or with everything below it.
pub proof fn law_every_place_is_examined(looks: Seq<LookModel>, n: int, k: int)
    requires
        0 <= k < n <= looks.len(),
        forall|j: int|
            0 <= j < looks.len() ==> (#[trigger] looks[j]).rel.len() == 0 || looks[j].rel.last() != seq![46u8],
    ensures
        looks_there(looks_batch(looks, n), looks[k]),
    decreases n,
{
    let before = looks_batch(looks, n - 1);
    let look = looks[n - 1];
    if k < n - 1 {
        law_every_place_is_examined(looks, n - 1, k);
        lemma_look_kept(before, look, looks[k]);
    } else if look.below {
        lemma_inserted_holds::<RelPath>(before.trees, look.rel, look.rel);
    } else if look.rel.len() > 0 {
        law_a_name_touched_is_looked_at(
            before,
            look.rel.drop_last(),
            look.rel.last(),
            look.rel.drop_last(),
            look.rel.last(),
        );
    }
}

/// A change is about the item it names, and a reconcile that has done nothing has
/// done nothing of any kind.
pub proof fn law_a_change_is_about_its_item(id: Seq<char>, row: RowModel)
    ensures
        change_id(ChangeModel::Root(id)) == id,
        change_id(ChangeModel::Delete(id)) == id,
        change_id(ChangeModel::Upsert(row)) == row.id,
        nothing_applied().created == 0 && nothing_applied().moved == 0 && nothing_applied().deleted == 0
            && nothing_applied().updated == 0 && nothing_applied().deferred == 0,
        nothing_applied().rescued.len() == 0 && nothing_applied().changes.len() == 0
            && nothing_applied().replacements.len() == 0,
        nothing_applied().copies.len() == 0 && nothing_applied().examine.len() == 0
            && nothing_applied().recreated.len() == 0,
{
}

} // verus!
