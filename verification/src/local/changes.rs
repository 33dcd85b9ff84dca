//! What is recorded of an entry: of an item found, of something new, and of what
//! is gone.

use vstd::prelude::*;
use vstd::string::*;
use vstd::utf8::*;
use crate::local::content::{
    checking, dir_id, found_change, finding, noting, saving_by_rename, Content,
};
use crate::local::entry::{EntryModel, State, StateAttr};
use crate::local::facts::{AskModel, Checked, HashedModel, Restored, StopModel};
use crate::local::ignore::ignored;
use crate::local::names::{refusal, refused_code};
use crate::local::removal::{losing_pending, removal_of};
use crate::local::run::{index_at, index_from, rechecking, with_op, RunModel, SceneModel};
use crate::local::unnamed::{appearing, dropping_inside, in_ignored_dir, meeting_new, replaces};
use crate::local::world::{
    being_created, expected_rel, item_from, item_of, pending_of, pending_upto, recorded_handle,
    row_of, row_of_upto, ItemModel, WorldModel,
};
use crate::os::Type;
use crate::path::{dir_of, PathModel};
use crate::text::{decimal, signed_decimal, text_of};
use crate::tree::{
    same_inode, DetectionModel, InodeModel, OpModel, OutboxKind, OutboxRowModel, OutboxState, RowModel,
};

verus! {

/// The first entry at `rel` is the one numbered `j`.
pub open spec fn is_first_at(entries: Seq<EntryModel>, rel: PathModel, j: int) -> bool {
    &&& 0 <= j < entries.len()
    &&& entries[j].rel == rel
    &&& forall|k: int| 0 <= k < j ==> (#[trigger] entries[k]).rel != rel
}

/// `home` is the item of the directory that what is at `rel` is in: the root for
/// what is in the root; otherwise the id its directory carries, if this batch
/// took that directory for the item, and none if it did not.
pub open spec fn is_home(sc: SceneModel, run: RunModel, rel: PathModel, home: Option<Seq<char>>) -> bool {
    if rel.len() <= 1 {
        home == Some(sc.w.root_id)
    } else {
        forall|p: Seq<char>| #[trigger] is_some_of(home, p) <==> exists|j: int| #[trigger]
            is_first_at(run.entries, rel.drop_last(), j) && run.entries[j].id == Some(p)
                && run.chosen.contains_key(p) && run.chosen[p] == j
    }
}

/// `x` is `p`.
pub open spec fn is_some_of(x: Option<Seq<char>>, p: Seq<char>) -> bool {
    x == Some(p)
}

proof fn lemma_first_at(entries: Seq<EntryModel>, rel: PathModel, i: int)
    requires
        entries.len() <= usize::MAX,
        0 <= i <= entries.len(),
        forall|k: int| 0 <= k < i ==> (#[trigger] entries[k]).rel != rel,
    ensures
        index_from(entries, rel, i) matches Some(j) ==> is_first_at(entries, rel, j as int),
        index_from(entries, rel, i) is None ==> forall|k: int|
            0 <= k < entries.len() ==> (#[trigger] entries[k]).rel != rel,
    decreases entries.len() - i,
{
    if i < entries.len() && entries[i].rel != rel {
        lemma_first_at(entries, rel, i + 1);
    }
}

proof fn lemma_home(sc: SceneModel, run: RunModel, rel: PathModel)
    requires
        run.entries.len() <= usize::MAX,
    ensures
        is_home(sc, run, rel, dir_id(sc, run, dir_of(rel))),
{
    if rel.len() > 1 {
        let dir = rel.drop_last();
        let home = dir_id(sc, run, dir_of(rel));
        lemma_first_at(run.entries, dir, 0);
        assert forall|p: Seq<char>| #[trigger] is_some_of(home, p) <==> exists|j: int| #[trigger]
            is_first_at(run.entries, dir, j) && run.entries[j].id == Some(p)
                && run.chosen.contains_key(p) && run.chosen[p] == j by {
            if home == Some(p) {
                let j = index_at(run.entries, dir)->0 as int;
                assert(is_first_at(run.entries, dir, j));
            }
            if exists|j: int| #[trigger]
                is_first_at(run.entries, dir, j) && run.entries[j].id == Some(p)
                    && run.chosen.contains_key(p) && run.chosen[p] == j {
                let j = choose|j: int| #[trigger]
                    is_first_at(run.entries, dir, j) && run.entries[j].id == Some(p)
                        && run.chosen.contains_key(p) && run.chosen[p] == j;
                let k = index_at(run.entries, dir)->0 as int;
                assert(is_first_at(run.entries, dir, k));
                assert(j == k);
            }
        }
    }
}

/// `d` says what is to become of entry `e` of the batch: which object it is, and
/// the place and name it is to have in OneDrive, which are those it has on disk.
pub open spec fn is_of(sc: SceneModel, run: RunModel, e: EntryModel, d: DetectionModel) -> bool {
    &&& d.rel == e.rel
    &&& d.inode == Some(InodeModel { dev: e.dev, ino: e.ino, handle: e.handle })
    &&& d.target_name == Some(text_of(e.name))
    &&& is_home(sc, run, e.rel, d.target_parent)
}

/// `d` starts from the version of the base that the content comes from: the
/// base's own, or, where the content comes from another, that one and no guard.
pub open spec fn starts_from(base: RowModel, ctag: Option<Seq<char>>, d: DetectionModel) -> bool {
    d.base matches Some(b) && {
        &&& b.parent == base.parent_id
        &&& b.name == Some(base.name)
        &&& ctag is None || ctag == base.ctag ==> b.etag == base.etag && b.ctag == base.ctag
        &&& ctag is Some && ctag != base.ctag ==> b.etag is None && b.ctag == ctag
    }
}

/// What an item found as entry `i` records, if anything, is a change of that
/// item as the entry stands: whatever its content is, its target is the name the
/// entry has and the item its own directory is, and its start the base's version
/// and place. New content is an update, anything else a move; and a name that
/// changed to one OneDrive refuses blocks it, and nothing else does.
pub proof fn law_a_change_of_an_item_is_to_where_it_stands(
    sc: SceneModel,
    run: RunModel,
    id: Seq<char>,
    base: RowModel,
    i: usize,
    content: Content,
)
    requires
        run.entries.len() <= usize::MAX,
        sc.w.now <= i64::MAX - 30,
    ensures
        ({
            let e = run.entries[i as int];
            let d = found_change(sc, run, id, base, i, content);
            let renamed = e.name != encode_utf8(base.name);
            &&& d.item_id == Some(id)
            &&& is_of(sc, run, e, d)
            &&& starts_from(base, e.ctag, d)
            &&& d.kind == if content == Content::Changed || content == Content::Waiting {
                OutboxKind::Update
            } else {
                OutboxKind::Move
            }
            &&& d.same_content == (content == Content::Same)
            &&& if renamed && refusal(e.name) is Some {
                d.state == OutboxState::Blocked && d.reason == Some(refused_code(refusal(e.name)->0))
                    && d.next_try is None
            } else if content == Content::Waiting {
                d.state == OutboxState::Waiting && d.reason == Some("open-for-writing"@)
                    && d.next_try == Some((sc.w.now + 30) as i64)
            } else {
                d.state == OutboxState::Ready && d.reason is None && d.next_try is None
            }
        }),
{
    lemma_home(sc, run, run.entries[i as int].rel);
}

/// The content check of entry `i` as finding the item makes it.
pub open spec fn checked_content(
    sc: SceneModel,
    run: RunModel,
    id: Seq<char>,
    base: RowModel,
    i: usize,
) -> Result<(RunModel, Content), StopModel> {
    if run.entries[i as int].ty == Type::File {
        checking(sc, noting(sc, run, id, i), id, base, i)
    } else {
        Ok((noting(sc, run, id, i), Content::Same))
    }
}

/// Neither what is noted of an item nor the check of its content says anything
/// of another entry or item.
proof fn lemma_checked(sc: SceneModel, run: RunModel, id: Seq<char>, base: RowModel, i: usize)
    ensures
        checked_content(sc, run, id, base, i) matches Ok((next, _)) ==> next.entries == run.entries
            && next.chosen == run.chosen && next.detections == run.detections && next.decided
            == run.decided,
{
}

proof fn lemma_no_row(rows: Seq<OutboxRowModel>, id: Seq<char>, n: int)
    requires
        0 <= n <= rows.len(),
    ensures
        row_of_upto(rows, id, n) is None <==> forall|k: int|
            0 <= k < n ==> (#[trigger] rows[k]).item_id != Some(id),
    decreases n,
{
    if n > 0 {
        lemma_no_row(rows, id, n - 1);
    }
}

/// Finding an item records one change of it and nothing of any other; and none
/// only where its content is not new, it stands in the folder and under the name
/// the base has, and no row of it waits.
pub proof fn law_an_item_out_of_place_or_changed_is_recorded(
    sc: SceneModel,
    run: RunModel,
    id: Seq<char>,
    base: RowModel,
    i: usize,
)
    requires
        run.entries.len() <= usize::MAX,
    ensures
        match (checked_content(sc, run, id, base, i), finding(sc, run, id, base, i)) {
            (Err(stop), r) => r == Err::<RunModel, StopModel>(stop),
            (Ok((_, content)), Ok(next)) => {
                let e = run.entries[i as int];
                let d = found_change(sc, run, id, base, i, content);
                let in_place = is_home(sc, run, e.rel, base.parent_id) && text_of(e.name) == base.name;
                let waits = exists|k: int|
                    0 <= k < sc.w.rows.len() && (#[trigger] sc.w.rows[k]).item_id == Some(id);
                if (content == Content::Same || content == Content::Unknown) && in_place && !waits {
                    next.detections == run.detections
                } else {
                    next.detections == run.detections.push(d)
                }
            },
            _ => false,
        },
{
    let e = run.entries[i as int];
    lemma_checked(sc, run, id, base, i);
    lemma_home(sc, run, e.rel);
    lemma_no_row(sc.w.rows, id, sc.w.rows.len() as int);
    if let Ok((next, content)) = checked_content(sc, run, id, base, i) {
        assert(found_change(sc, next, id, base, i, content) == found_change(
            sc,
            run,
            id,
            base,
            i,
            content,
        ));
        let home = dir_id(sc, run, dir_of(e.rel));
        assert(is_home(sc, run, e.rel, base.parent_id) <==> home == base.parent_id) by {
            if e.rel.len() > 1 && is_home(sc, run, e.rel, base.parent_id) {
                if let Some(p) = home {
                    assert(is_some_of(home, p));
                    assert(is_some_of(base.parent_id, p));
                }
                if let Some(p) = base.parent_id {
                    assert(is_some_of(base.parent_id, p));
                    assert(is_some_of(home, p));
                }
            }
        }
    }
}

/// A row of item `id` is sending the file as it is now: its size, a space, and
/// its time in nanoseconds.
pub open spec fn is_sending(w: WorldModel, id: Seq<char>, e: EntryModel) -> bool {
    exists|k: int|
        0 <= k < w.rows.len() && (#[trigger] w.rows[k]).item_id == Some(id) && w.rows[k].state
            == OutboxState::Running && w.rows[k].snapshot == Some(
            decimal(e.size as nat) + seq![' '] + signed_decimal(
                e.mtime_sec * 1_000_000_000 + e.mtime_nsec,
            ),
        )
}

/// The file is as it was stamped, and no event said that it was written.
pub open spec fn is_untouched(sc: SceneModel, e: EntryModel) -> bool {
    &&& e.stamp matches Some(s) && s.size == e.size && s.mtime_sec == e.mtime_sec && s.mtime_nsec
        == e.mtime_nsec
    &&& !sc.batch.written_rels.contains(e.rel)
    &&& !(e.handle matches Some(h) && sc.batch.written_handles.contains(h))
}

/// What the content check of a downloaded file comes to. One being sent as it is
/// cannot be told; one as it was stamped is the same, and nothing is asked. Any
/// other is opened again; where it is still that file and downloaded, it waits
/// while a writer has it open, is changed where its size is not its stamp's, it
/// comes from another version, or the base has no hash; and else its hash says.
/// A file written while it was read cannot be told.
pub proof fn law_a_downloaded_file_is_sent_when_its_content_is_new(
    sc: SceneModel,
    run: RunModel,
    id: Seq<char>,
    base: RowModel,
    i: usize,
)
    requires
        run.entries[i as int].state == StateAttr::Known(State::Hydrated),
    ensures
        ({
            let e = run.entries[i as int];
            let r = checking(sc, run, id, base, i);
            let sized = e.stamp matches Some(s) && s.size != e.size;
            let other = e.ctag is Some && e.ctag != base.ctag;
            if is_sending(sc.w, id, e) {
                r == Ok::<_, StopModel>((run, Content::Unknown))
            } else if is_untouched(sc, e) {
                r == Ok::<_, StopModel>((run, Content::Same))
            } else {
                match sc.f.checked_of(i) {
                    None => r == Err::<(RunModel, Content), _>(StopModel::Ask(AskModel::Check(i))),
                    Some(Checked::Failed(errno)) => r == Err::<(RunModel, Content), _>(
                        StopModel::Failed(errno),
                    ),
                    Some(Checked::Other) => r == Ok::<_, StopModel>(
                        (rechecking(run, e), Content::Unknown),
                    ),
                    Some(Checked::Same { state, writing }) => if state != Some(State::Hydrated) {
                        r == Ok::<_, StopModel>((rechecking(run, e), Content::Unknown))
                    } else if writing == Some(true) {
                        r == Ok::<_, StopModel>((rechecking(run, e), Content::Waiting))
                    } else if sized || other || base.quickxor is None {
                        r == Ok::<_, StopModel>((run, Content::Changed))
                    } else {
                        match sc.f.hashed_of(i) {
                            None => r == Err::<(RunModel, Content), _>(
                                StopModel::Ask(AskModel::Hash(i)),
                            ),
                            Some(HashedModel::Failed(errno)) => r == Err::<(RunModel, Content), _>(
                                StopModel::Failed(errno),
                            ),
                            Some(HashedModel::Read(d)) => if base.quickxor != Some(d.hash) {
                                r == Ok::<_, StopModel>((run, Content::Changed))
                            } else if d.before != d.after {
                                r == Ok::<_, StopModel>((rechecking(run, e), Content::Unknown))
                            } else {
                                r matches Ok((next, content)) && content == Content::Same
                                    && next.out.restamp == run.out.restamp.push(e.rel)
                            },
                        }
                    },
                }
            }
        }),
{
}

/// A file that is no downloaded one is never read: a placeholder of the base's
/// size is the same, one of another is given its size back, one being filled or
/// freed is looked at again, and of one without a state nothing can be told.
pub proof fn law_only_a_downloaded_file_is_compared(
    sc: SceneModel,
    run: RunModel,
    id: Seq<char>,
    base: RowModel,
    i: usize,
)
    ensures
        ({
            let e = run.entries[i as int];
            let r = checking(sc, run, id, base, i);
            match e.state {
                StateAttr::Known(State::Hydrated) => true,
                StateAttr::Known(State::OnlineOnly) => if e.size == base.size {
                    r == Ok::<_, StopModel>((run, Content::Same))
                } else {
                    match sc.f.restored_of(i) {
                        None => r == Err::<(RunModel, Content), _>(
                            StopModel::Ask(AskModel::Restore(i)),
                        ),
                        Some(Restored::Failed(errno)) => r == Err::<(RunModel, Content), _>(
                            StopModel::Failed(errno),
                        ),
                        Some(Restored::Busy) => r == Ok::<_, StopModel>(
                            (rechecking(run, e), Content::Same),
                        ),
                        Some(Restored::Done) => r matches Ok((next, content)) && content
                            == Content::Same && next.out.restored == run.out.restored.push(e.rel)
                            && next.detections == run.detections,
                    }
                },
                StateAttr::Known(State::Hydrating) | StateAttr::Known(State::Dehydrating) => r
                    == Ok::<_, StopModel>((rechecking(run, e), Content::Unknown)),
                StateAttr::Absent | StateAttr::Corrupt => r == Ok::<_, StopModel>(
                    (run, Content::Unknown),
                ),
            }
        }),
{
}

/// What an item found as an entry notes of the object: its handle where that is
/// not the one recorded, and where a directory was, if elsewhere.
pub proof fn law_what_is_noted_of_an_item_found(sc: SceneModel, run: RunModel, id: Seq<char>, i: usize)
    ensures
        ({
            let e = run.entries[i as int];
            let next = noting(sc, run, id, i);
            let handled = if e.handle is Some && e.handle != recorded_handle(sc.w, id) {
                run.out.ops.push(OpModel::SetHandle { item_id: id, handle: e.handle })
            } else {
                run.out.ops
            };
            &&& next.detections == run.detections
            &&& next.out.ops == match expected_rel(sc.w, id) {
                Some(was) => if e.ty == Type::Dir && was != e.rel {
                    handled.push(OpModel::Rebase { from: was, to: e.rel })
                } else {
                    handled
                },
                None => handled,
            }
            &&& next.out.mark_files == if e.ty == Type::File && e.nlink > 1 && (e.state
                == StateAttr::Known(State::OnlineOnly) || e.state == StateAttr::Known(
                State::Hydrating,
            ) || e.state == StateAttr::Known(State::Dehydrating)) {
                run.out.mark_files.push(e.rel)
            } else {
                run.out.mark_files
            }
        }),
{
}

/// A row waits for the local object `e`, which has no item id yet.
pub open spec fn is_row_of(row: OutboxRowModel, e: EntryModel) -> bool {
    row.item_id is None && (row.inode matches Some(o) && same_inode(
        o,
        InodeModel { dev: e.dev, ino: e.ino, handle: e.handle },
    ))
}

proof fn lemma_pending(rows: Seq<OutboxRowModel>, e: EntryModel, n: int)
    requires
        0 <= n <= rows.len(),
    ensures
        pending_upto(rows, e, n) is None <==> forall|k: int|
            0 <= k < n ==> !is_row_of(#[trigger] rows[k], e),
        pending_upto(rows, e, n) matches Some(row) ==> exists|k: int|
            0 <= k < n && #[trigger] rows[k] == row && is_row_of(row, e) && forall|m: int|
                k < m < n ==> !is_row_of(#[trigger] rows[m], e),
    decreases n,
{
    if n > 0 {
        lemma_pending(rows, e, n - 1);
        if is_row_of(rows[n - 1], e) {
            assert(rows[n - 1] == pending_upto(rows, e, n)->0);
        } else if let Some(row) = pending_upto(rows, e, n - 1) {
            let k = choose|k: int|
                0 <= k < n - 1 && #[trigger] rows[k] == row && is_row_of(row, e) && forall|m: int|
                    k < m < n - 1 ==> !is_row_of(#[trigger] rows[m], e);
            assert(rows[k] == row);
        }
    }
}

proof fn lemma_item(items: Seq<ItemModel>, id: Seq<char>, i: int)
    requires
        0 <= i <= items.len(),
    ensures
        item_from(items, id, i) is None <==> forall|k: int|
            i <= k < items.len() ==> (#[trigger] items[k]).row.id != id,
        item_from(items, id, i) matches Some(item) ==> item.row.id == id && exists|k: int|
            i <= k < items.len() && #[trigger] items[k] == item,
    decreases items.len() - i,
{
    if i < items.len() {
        lemma_item(items, id, i + 1);
        if items[i].row.id == id {
            assert(items[i] == item_from(items, id, i)->0);
        }
    }
}

proof fn lemma_row(rows: Seq<OutboxRowModel>, id: Seq<char>, n: int)
    requires
        0 <= n <= rows.len(),
    ensures
        row_of_upto(rows, id, n) matches Some(row) ==> exists|k: int|
            0 <= k < n && #[trigger] rows[k] == row && row.item_id == Some(id) && forall|m: int|
                k < m < n ==> (#[trigger] rows[m]).item_id != Some(id),
    decreases n,
{
    if n > 0 {
        lemma_row(rows, id, n - 1);
        if rows[n - 1].item_id == Some(id) {
            assert(rows[n - 1] == row_of_upto(rows, id, n)->0);
        } else if let Some(row) = row_of_upto(rows, id, n - 1) {
            let k = choose|k: int|
                0 <= k < n - 1 && #[trigger] rows[k] == row && row.item_id == Some(id) && forall|m: int|
                    k < m < n - 1 ==> (#[trigger] rows[m]).item_id != Some(id);
            assert(rows[k] == row);
        }
    }
}

/// An item is found by its id, and the row of an item, or of an object that has
/// no item yet, is the newest there is of it.
pub proof fn law_items_and_rows_are_found_by_what_they_are_of(w: WorldModel, id: Seq<char>, e: EntryModel)
    ensures
        item_of(w, id) is None <==> forall|k: int|
            0 <= k < w.items.len() ==> (#[trigger] w.items[k]).row.id != id,
        item_of(w, id) matches Some(item) ==> item.row.id == id && w.items.contains(item),
        row_of(w, id) is None <==> forall|k: int|
            0 <= k < w.rows.len() ==> (#[trigger] w.rows[k]).item_id != Some(id),
        row_of(w, id) matches Some(row) ==> exists|k: int|
            0 <= k < w.rows.len() && #[trigger] w.rows[k] == row && row.item_id == Some(id)
                && forall|m: int| k < m < w.rows.len() ==> (#[trigger] w.rows[m]).item_id != Some(id),
        pending_of(w, e) is None <==> forall|k: int|
            0 <= k < w.rows.len() ==> !is_row_of(#[trigger] w.rows[k], e),
        pending_of(w, e) matches Some(row) ==> exists|k: int|
            0 <= k < w.rows.len() && #[trigger] w.rows[k] == row && is_row_of(row, e) && forall|m: int|
                k < m < w.rows.len() ==> !is_row_of(#[trigger] w.rows[m], e),
        recorded_handle(w, id) == match item_of(w, id) {
            Some(item) => item.handle,
            None => None,
        },
{
    lemma_item(w.items, id, 0);
    lemma_no_row(w.rows, id, w.rows.len() as int);
    lemma_row(w.rows, id, w.rows.len() as int);
    lemma_pending(w.rows, e, w.rows.len() as int);
}

/// Something new is recorded as what it is: a directory is made, a file created,
/// or only moved where the very content is being sent already. It goes where it
/// stands: under its own name into the item its own directory is, the root's
/// only for an entry of the root, and none while that directory is new itself.
/// What OneDrive refuses for its name, or a file of more than 250 GiB, is
/// blocked and never sent; a file that a writer has open waits.
pub proof fn law_something_new_goes_where_it_stands(
    sc: SceneModel,
    run: RunModel,
    i: usize,
)
    requires
        run.entries.len() <= usize::MAX,
        sc.w.now <= i64::MAX - 30,
    ensures
        appearing(sc, run, i) matches Ok(next) ==> {
            let e = run.entries[i as int];
            let d = next.detections.last();
            let too_large = e.ty != Type::Dir && e.size > 250 * 1024 * 1024 * 1024;
            let sent = pending_of(sc.w, e) matches Some(row) && row.state == OutboxState::Running
                && row.snapshot == Some(
                decimal(e.size as nat) + seq![' '] + signed_decimal(
                    e.mtime_sec * 1_000_000_000 + e.mtime_nsec,
                ),
            );
            &&& next.detections == run.detections.push(d)
            &&& d.item_id is None
            &&& d.base is None
            &&& !d.same_content
            &&& is_of(sc, run, e, d)
            &&& d.kind == if e.ty == Type::Dir {
                OutboxKind::Mkdir
            } else if sent {
                OutboxKind::Move
            } else {
                OutboxKind::Create
            }
            &&& if refusal(e.name) is Some {
                d.state == OutboxState::Blocked && d.reason == Some(refused_code(refusal(e.name)->0))
            } else if too_large {
                d.state == OutboxState::Blocked && d.reason == Some("too-large"@)
            } else if e.ty != Type::Dir && (sc.f.checked_of(i) matches Some(
                Checked::Same { writing, .. },
            ) && writing == Some(true)) {
                d.state == OutboxState::Waiting && d.reason == Some("open-for-writing"@)
                    && d.next_try == Some((sc.w.now + 30) as i64)
            } else {
                d.state == OutboxState::Ready && d.reason is None
            }
        },
        appearing(sc, run, i) matches Err(stop) ==> {
            let e = run.entries[i as int];
            &&& e.ty != Type::Dir
            &&& refusal(e.name) is None
            &&& stop == StopModel::Ask(AskModel::Check(i)) || sc.f.checked_of(i) matches Some(
                Checked::Failed(_),
            )
        },
{
    lemma_home(sc, run, run.entries[i as int].rel);
}

/// An entry whose name is ignored, or that is in a directory of the user's own
/// that is, stays local: it is not created, and a create of it that waits goes,
/// unless it is being sent. Over a name whose delete still waits it is that
/// item's new content; and anything else is new.
pub proof fn law_what_is_ignored_stays_local(sc: SceneModel, run: RunModel, i: usize)
    ensures
        ({
            let e = run.entries[i as int];
            let r = meeting_new(sc, run, i);
            let stays = ignored(sc.w.ignore, e.name) || in_ignored_dir(sc, dir_of(e.rel)) == Ok::<
                bool,
                StopModel,
            >(true);
            let goes = !ignored(sc.w.ignore, e.name) && in_ignored_dir(sc, dir_of(e.rel)) == Ok::<
                bool,
                StopModel,
            >(false);
            &&& stays ==> (r matches Ok(next) && (!being_created(sc.w, e) ==> next.detections
                == run.detections && (pending_of(sc.w, e) matches Some(row) ==> (row.kind
                == OutboxKind::Create || row.kind == OutboxKind::Mkdir) && e.ty != Type::Dir
                ==> next.out.ops == run.out.ops.push(OpModel::Remove(row.seq)))))
            &&& goes && replaces(sc.w, e) is None ==> r == appearing(sc, run, i)
            &&& goes ==> (replaces(sc.w, e) matches Some(id) ==> (r matches Ok(next) ==> {
                let d = next.detections.last();
                d.kind == OutboxKind::Update && d.item_id == Some(id) && d.rel == e.rel
            }))
        }),
{
    let e = run.entries[i as int];
    if e.ty == Type::Dir && !being_created(sc.w, e) {
        let dropped = match pending_of(sc.w, e) {
            Some(row) => if row.kind == OutboxKind::Create || row.kind == OutboxKind::Mkdir {
                with_op(run, OpModel::Remove(row.seq))
            } else {
                run
            },
            None => run,
        };
        lemma_dropping(sc.w, dropped, e.rel, 0);
    }
}

proof fn lemma_dropping(w: WorldModel, run: RunModel, rel: PathModel, k: int)
    ensures
        dropping_inside(w, run, rel, k).detections == run.detections,
    decreases w.rows.len() - k,
{
    if k < w.rows.len() {
        lemma_dropping(w, run, rel, k + 1);
        lemma_dropping(
            w,
            with_op(run, OpModel::Remove(w.rows[k].seq)),
            rel,
            k + 1,
        );
    }
}

/// A file saved by renaming a new one over the item's place is new content of
/// the item, from the new object as it stands; and the create of that object
/// that waits goes, unless it is being sent.
pub proof fn law_a_file_saved_by_rename_is_the_items_new_content(
    sc: SceneModel,
    run: RunModel,
    id: Seq<char>,
    base: RowModel,
    s: usize,
)
    requires
        run.entries.len() <= usize::MAX,
        sc.w.now <= i64::MAX - 30,
    ensures
        saving_by_rename(sc, run, id, base, s) matches Ok(next) ==> {
            let e = run.entries[s as int];
            let d = next.detections.last();
            let busy = sc.f.checked_of(s) matches Some(Checked::Same { writing, .. }) && writing
                == Some(true);
            &&& next.detections == run.detections.push(d)
            &&& d.kind == OutboxKind::Update
            &&& d.item_id == Some(id)
            &&& is_of(sc, run, e, d)
            &&& starts_from(base, None, d)
            &&& busy ==> d.state == OutboxState::Waiting && d.next_try == Some(
                (sc.w.now + 30) as i64,
            )
            &&& !busy ==> d.state == OutboxState::Ready && d.next_try is None
            &&& next.out.ops == match pending_of(sc.w, e) {
                Some(row) => if row.state == OutboxState::Running {
                    run.out.ops
                } else {
                    run.out.ops.push(OpModel::Remove(row.seq))
                },
                None => run.out.ops,
            }
        },
{
    lemma_home(sc, run, run.entries[s as int].rel);
}

/// A removal is of the item, from the place it was at, and starts from the
/// base's version and place; a move out says where it went, where that can be
/// written. One being sent is not taken back: its delete waits behind it, while
/// a row that was not sent simply goes.
pub proof fn law_a_removal_names_what_is_removed(
    run: RunModel,
    kind: OutboxKind,
    id: Seq<char>,
    base: RowModel,
    rel: PathModel,
    inode: Option<InodeModel>,
    to: Seq<u8>,
    row: OutboxRowModel,
)
    ensures
        ({
            let d = removal_of(kind, id, base, rel, inode, Some(to));
            &&& d.kind == kind
            &&& d.item_id == Some(id)
            &&& d.rel == rel
            &&& d.inode == inode
            &&& d.base matches Some(b) && b.etag == base.etag && b.ctag == base.ctag && b.parent
                == base.parent_id && b.name == Some(base.name)
            &&& d.state == OutboxState::Ready
            &&& d.target_name == if kind == OutboxKind::MoveOut && valid_utf8(to) {
                Some(decode_utf8(to))
            } else {
                None
            }
        }),
        removal_of(kind, id, base, rel, inode, None).target_name is None,
        ({
            let next = losing_pending(run, row);
            if row.state == OutboxState::Running {
                &&& next.out.ops == run.out.ops
                &&& next.detections.len() == run.detections.len() + 1
                &&& next.detections.last().kind == OutboxKind::Delete
                &&& next.detections.last().item_id is None
                &&& next.detections.last().inode == row.inode
                &&& next.detections.last().rel == row.rel
            } else {
                next.out.ops == run.out.ops.push(OpModel::Remove(row.seq)) && next.detections
                    == run.detections
            }
        }),
{
}

} // verus!
