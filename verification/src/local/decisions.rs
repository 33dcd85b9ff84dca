//! What is decided of an entry and of an item that is missing, case by case.

use vstd::prelude::*;
use vstd::string::*;
use vstd::utf8::encode_utf8;
use crate::local::batch::BatchModel;
use crate::local::begin::{batch_for, begun, ExamineError, Root};
use crate::local::content::estranging;
use crate::local::entry::{EntryModel, State, StateAttr};
use crate::local::examine::{class_of, recording_skips, skip_examined, tidying, unlisting, Class};
use crate::local::facts::{absent_of, beneath, place_of, AskModel, Facts, PlaceModel, StopModel, Stripped};
use crate::local::finish::{
    all_removed, comes_first, goes_with, is_new_removal, mass_delete, newly_removed, recorded,
    still_removed, trips,
};
use crate::local::ignore::ignored;
use crate::local::liveness::{
    handles_on, may_tell, said_by, Answer, HandlesModel, StandingModel, Unanswered,
    WhereaboutsModel,
};
use crate::local::order::{in_order, law_order_is_a_permutation, slots_of, written_order};
use crate::local::removal::{leaving, losing, object_of, removal_of, removing};
use crate::local::resolve::{evident, group_at, group_of_handle, is_at};
use crate::local::run::{
    index_from, less_settled, rechecking_at, settled_as, skip_from, with_op, with_skip, RunModel,
    SceneModel, Settle,
};
use crate::local::world::{expected_rel, item_of, recorded_handle, ItemModel, WorldModel};
use crate::os::Type;
use crate::path::{dir_of, is_beneath, is_sure, AbsPath, PathModel};
use crate::tree::{
    DetectionModel, InodeModel, Kind, OpModel, OutboxKind, OutboxRowModel, OutboxState, Placement,
    RowModel,
};

verus! {

/// `name` begins with the text `word`.
pub open spec fn begins_with(name: Seq<u8>, word: Seq<char>) -> bool {
    let bytes = encode_utf8(word);
    name.len() >= bytes.len() && name.subrange(0, bytes.len() as int) == bytes
}

/// What an entry is. The daemon's own names are passed over, and every other
/// name that begins like them is listed; what is neither a file nor a directory
/// is listed as what it is, unless its name is ignored; what is on another
/// device is; and anything else is the item it carries the id of, or new.
pub proof fn law_what_an_entry_is(sc: SceneModel, e: EntryModel)
    ensures
        ({
            let own = e.name == encode_utf8(".konedrive-holding"@) || begins_with(
                e.name,
                ".konedrive-new-"@,
            );
            let kept = begins_with(e.name, ".konedrive-"@);
            let plain = e.ty == Type::File || e.ty == Type::Dir;
            let class = class_of(sc, e);
            &&& own ==> class is Passed
            &&& !own && kept ==> class == Class::Listed("reserved-name"@)
            &&& !own && !kept && !plain && ignored(sc.w.ignore, e.name) ==> class is Passed
            &&& !own && !kept && !plain && !ignored(sc.w.ignore, e.name) ==> class == Class::Listed(
                if e.ty == Type::Symlink {
                    "symlink"@
                } else if e.ty == Type::Fifo {
                    "fifo"@
                } else if e.ty == Type::Socket {
                    "socket"@
                } else {
                    "device"@
                },
            )
            &&& !own && !kept && plain && e.dev != sc.w.root_dev ==> class == Class::Listed(
                "other-device"@,
            )
            &&& !own && !kept && plain && e.dev == sc.w.root_dev ==> match e.id {
                Some(id) => class == Class::Item(id),
                None => class is New,
            }
        }),
{
}

/// An examination begins only with a base: the root's item is known, a listing
/// has completed and none is under way; and only while the root is there and
/// still carries its mark.
pub proof fn law_nothing_is_examined_without_a_base_and_a_root(
    root_id: Option<String>,
    has_link: bool,
    listing: bool,
    root: Result<Root, i32>,
    handles: HandlesModel,
    batch: BatchModel,
)
    ensures
        match begun(root_id, has_link, listing, root) {
            Ok(id) => root_id == Some(id) && has_link && !listing && (root matches Ok(r) && r.links > 0
                && r.marked),
            Err(ExamineError::NoBase) => root_id is None || !has_link || listing,
            Err(ExamineError::RootGone) => root_id is Some && has_link && !listing && (root matches Ok(r)
                && (r.links == 0 || !r.marked)),
            Err(ExamineError::Io(e)) => root_id is Some && has_link && !listing && root == Err::<
                Root,
                i32,
            >(e),
            Err(ExamineError::Tree(_)) => false,
        },
        handles is Changed ==> batch_for(handles, batch).0.full && batch_for(handles, batch).1,
        !(handles is Changed) ==> batch_for(handles, batch) == (batch, false),
{
}

/// What the helper says of an object: gone only where the handle is stale, which
/// is error 116 and no other; at a place only where that, opened again, is the
/// object; and nothing else decides anything.
pub proof fn law_an_object_is_gone_only_where_its_handle_is_stale(
    e: i32,
    path: AbsPath,
    same_place: bool,
)
    ensures
        said_by(Answer::Refused(e)) == Ok::<WhereaboutsModel, Unanswered>(WhereaboutsModel::Gone)
            <==> e == 116,
        e != 116 ==> said_by(Answer::Refused(e)) is Err,
        said_by(Answer::Object { path, same_place: true }) == Ok::<WhereaboutsModel, Unanswered>(
            WhereaboutsModel::At(path@),
        ),
        said_by(Answer::Object { path, same_place: false }) is Err,
        said_by(Answer::Failed) is Err,
{
}

/// Handles tell of a deletion only where they were recorded for the very
/// filesystem the folder is on, or where none was recorded and that has been
/// recorded now.
pub proof fn law_handles_tell_only_on_their_own_filesystem(
    now: Seq<char>,
    was: Seq<char>,
    recorded: Option<Option<Seq<char>>>,
    stored: bool,
)
    ensures
        handles_on(Some(now), Some(Some(was))) is Current <==> was == now,
        was != now ==> handles_on(Some(now), Some(Some(was))) == HandlesModel::Changed(now),
        handles_on(Some(now), Some(None)) == HandlesModel::Unrecorded(now),
        handles_on(Some(now), None) is Unknown,
        handles_on(None, recorded) is Unknown,
        may_tell(handles_on(Some(now), Some(Some(was))), stored) <==> was == now,
        may_tell(handles_on(Some(now), Some(None)), stored) == stored,
        !may_tell(handles_on(Some(now), None), stored),
        !may_tell(handles_on(None, recorded), stored),
{
}

/// Where an object is: gone only where its handle is stale and of this
/// filesystem; outside only where its path is sure and not beneath the root;
/// inside only where its own handle stands at its place there; and otherwise
/// unknown, which decides nothing. It is absent from a place only where neither
/// the directory nor the name is there, or another object is.
pub proof fn law_where_an_object_is(w: WorldModel, f: Facts, handle: Seq<u8>, rel: PathModel)
    ensures
        f.told_of(handle) is None ==> place_of(w, f, handle) == Err::<PlaceModel, StopModel>(
            StopModel::Ask(AskModel::Whereabouts(handle)),
        ),
        match place_of(w, f, handle) {
            Ok(PlaceModel::Gone) => w.handles_current && f.told_of(handle) == Some(
                Some(WhereaboutsModel::Gone),
            ),
            Ok(PlaceModel::Outside(path)) => f.told_of(handle) == Some(
                Some(WhereaboutsModel::At(path)),
            ) && is_sure(path) && (w.root_path matches Some(root) && beneath(path, root) is None),
            Ok(PlaceModel::Inside(at)) => f.standing_of(at) == Some(StandingModel::There(handle))
                && at.len() > 0 && (f.told_of(handle) matches Some(Some(WhereaboutsModel::At(path)))
                && (w.root_path matches Some(root) && beneath(path, root) == Some(at))),
            _ => true,
        },
        f.told_of(handle) == Some(Some(WhereaboutsModel::Gone)) && w.handles_current ==> place_of(
            w,
            f,
            handle,
        ) == Ok::<PlaceModel, StopModel>(PlaceModel::Gone),
        absent_of(f, rel, handle) == Ok::<bool, StopModel>(true) <==> rel.len() > 0 && match f.standing_of(
            rel,
        ) {
            Some(StandingModel::NoDir(e)) => e == 2 || e == 20,
            Some(StandingModel::NoHandle(e)) => e == 2 || e == 20,
            Some(StandingModel::There(there)) => there != handle,
            None => false,
        },
{
}

/// An item that is not found, by where its object is. A new file that stands at
/// its name, which no item and no create has, is its new content. Else, without
/// a recorded handle it is unproven; told gone and absent from its place it is
/// deleted, outside the folder it moved out; elsewhere in the folder it is looked
/// for there; and where nothing is sure it waits.
pub proof fn law_what_becomes_of_a_missing_item(
    sc: SceneModel,
    run: RunModel,
    id: Seq<char>,
    rel: PathModel,
    fuel: nat,
    item: ItemModel,
)
    requires
        fuel > 1,
        item_of(sc.w, id) == Some(item),
        item.row.kind == Kind::File,
        !run.decided.contains(id),
        run.entries.len() <= usize::MAX,
        forall|j: int| 0 <= j < run.entries.len() ==> (#[trigger] run.entries[j]).rel != rel,
    ensures
        ({
            let r = losing(sc, run, id, rel, fuel);
            match item.handle {
                None => r matches Ok(next) && next.detections == run.detections
                    && next.out.unproven == run.out.unproven.push(id) && next.decided.contains(id),
                Some(h) => match place_of(sc.w, sc.f, h) {
                    Err(stop) => r == Err::<RunModel, StopModel>(stop),
                    Ok(PlaceModel::Gone) => match absent_of(sc.f, rel, h) {
                        Err(stop) => r == Err::<RunModel, StopModel>(stop),
                        Ok(false) => r matches Ok(next) && next.detections == run.detections
                            && next.out.undecided == run.out.undecided.push(id)
                            && next.decided.contains(id),
                        Ok(true) => r matches Ok(next) && next.decided.contains(id)
                            && next.detections.len() == run.detections.len() + 1 && {
                            let d = next.detections.last();
                            d.kind == OutboxKind::Delete && d.item_id == Some(id) && d.rel == rel
                                && d.state == OutboxState::Ready
                        },
                    },
                    Ok(PlaceModel::Outside(to)) => r matches Ok(next) && next.decided.contains(id)
                        && next.detections.len() == run.detections.len() + 1 && {
                        let d = next.detections.last();
                        d.kind == OutboxKind::MoveOut && d.item_id == Some(id) && d.rel == rel && (
                        d.inode matches Some(o) && o.handle == Some(h)) && d
                            == removal_of(OutboxKind::MoveOut, id, item.row, rel, d.inode, Some(to))
                    },
                    Ok(PlaceModel::Inside(now)) => r matches Ok(next) && next.detections
                        == run.detections && next.out.recheck == rechecking_at(run, now).out.recheck
                        && next.decided.contains(id),
                    Ok(PlaceModel::Unknown) => r matches Ok(next) && next.detections
                        == run.detections && next.out.undecided == run.out.undecided.push(id)
                        && next.decided.contains(id),
                },
            }
        }),
{
    lemma_nothing_at(run.entries, rel, 0);
}

proof fn lemma_nothing_at(entries: Seq<EntryModel>, rel: PathModel, i: int)
    requires
        0 <= i,
        forall|j: int| 0 <= j < entries.len() ==> (#[trigger] entries[j]).rel != rel,
    ensures
        index_from(entries, rel, i) is None,
    decreases entries.len() - i,
{
    if i < entries.len() {
        lemma_nothing_at(entries, rel, i + 1);
    }
}

proof fn lemma_leaving_never_settles(
    sc: SceneModel,
    run: RunModel,
    queue: Seq<Seq<char>>,
    c: int,
    rel: PathModel,
    went: Option<Seq<u8>>,
    settled: Settle,
    steps: nat,
    fuel: nat,
)
    ensures
        leaving(sc, run, queue, c, rel, went, settled, steps, fuel) matches Ok((_, s))
            ==> settled != Settle::Done ==> s != Settle::Done,
    decreases fuel, steps, sc.w.items.len() - c,
{
    if queue.len() > 0 && steps > 0 && fuel > 0 {
        if c >= sc.w.items.len() {
            lemma_leaving_never_settles(
                sc,
                run,
                queue.drop_first(),
                0,
                rel,
                went,
                settled,
                (steps - 1) as nat,
                fuel,
            );
        } else {
            let child = sc.w.items[c].row;
            let id = child.id;
            let inside = queue.push(id);
            let wait = less_settled(settled, Settle::Wait);
            let unproven = less_settled(settled, Settle::Unproven);
            let before = less_settled(settled, settled_as(run, id));
            lemma_leaving_never_settles(sc, run, queue, c + 1, rel, went, settled, steps, fuel);
            lemma_leaving_never_settles(sc, run, inside, c + 1, rel, went, settled, steps, fuel);
            lemma_leaving_never_settles(sc, run, queue, c + 1, rel, went, wait, steps, fuel);
            lemma_leaving_never_settles(sc, run, queue, c + 1, rel, went, unproven, steps, fuel);
            lemma_leaving_never_settles(sc, run, queue, c + 1, rel, went, before, steps, fuel);
            if let Some(handle) = recorded_handle(sc.w, id) {
                match place_of(sc.w, sc.f, handle) {
                    Ok(PlaceModel::Outside(to)) => if let Some(at) = expected_rel(sc.w, id) {
                        if let Ok((next, left)) = removing(
                            sc,
                            run,
                            OutboxKind::MoveOut,
                            id,
                            child,
                            at,
                            Some(object_of(handle)),
                            Some(to),
                            (fuel - 1) as nat,
                        ) {
                            lemma_leaving_never_settles(
                                sc,
                                next,
                                queue,
                                c + 1,
                                rel,
                                went,
                                less_settled(settled, left),
                                steps,
                                fuel,
                            );
                        }
                    },
                    Ok(PlaceModel::Inside(now)) => {
                        lemma_leaving_never_settles(
                            sc,
                            rechecking_at(run, now),
                            queue,
                            c + 1,
                            rel,
                            went,
                            wait,
                            steps,
                            fuel,
                        );
                    },
                    _ => {},
                }
            }
        }
    }
}

/// A folder does not leave OneDrive while something inside it cannot be proved
/// to have left: an item the base places in it, expected beneath it and neither
/// found nor decided, that has no recorded handle, or whose object is elsewhere
/// in the folder or nowhere sure, keeps it from being removed.
pub proof fn law_a_folder_waits_for_what_is_in_it(
    sc: SceneModel,
    run: RunModel,
    queue: Seq<Seq<char>>,
    c: int,
    rel: PathModel,
    went: Option<Seq<u8>>,
    settled: Settle,
    steps: nat,
    fuel: nat,
    at: PathModel,
)
    requires
        queue.len() > 0,
        0 <= c < sc.w.items.len(),
        sc.w.items[c].row.parent_id == Some(queue[0]),
        sc.w.items[c].row.placement == Placement::Placed,
        !run.chosen.contains_key(sc.w.items[c].row.id),
        !run.decided.contains(sc.w.items[c].row.id),
        expected_rel(sc.w, sc.w.items[c].row.id) == Some(at),
        is_beneath(at, rel),
        match recorded_handle(sc.w, sc.w.items[c].row.id) {
            None => true,
            Some(h) => match place_of(sc.w, sc.f, h) {
                Ok(PlaceModel::Inside(_)) | Ok(PlaceModel::Unknown) => true,
                _ => false,
            },
        },
    ensures
        leaving(sc, run, queue, c, rel, went, settled, steps, fuel) matches Ok((_, s)) ==> s
            != Settle::Done,
{
    if steps > 0 && fuel > 0 {
        let id = sc.w.items[c].row.id;
        let wait = less_settled(settled, Settle::Wait);
        let unproven = less_settled(settled, Settle::Unproven);
        match recorded_handle(sc.w, id) {
            None => lemma_leaving_never_settles(
                sc,
                run,
                queue,
                c + 1,
                rel,
                went,
                unproven,
                steps,
                fuel,
            ),
            Some(h) => {
                lemma_leaving_never_settles(sc, run, queue, c + 1, rel, went, wait, steps, fuel);
                if let Ok(PlaceModel::Inside(now)) = place_of(sc.w, sc.f, h) {
                    lemma_leaving_never_settles(
                        sc,
                        rechecking_at(run, now),
                        queue,
                        c + 1,
                        rel,
                        went,
                        wait,
                        steps,
                        fuel,
                    );
                }
            },
        }
    }
}

/// A folder that waits or is unproven is not removed, and what is inside it is
/// not removed with it.
pub proof fn law_only_a_folder_whose_contents_are_settled_is_removed(
    sc: SceneModel,
    run: RunModel,
    kind: OutboxKind,
    id: Seq<char>,
    base: RowModel,
    rel: PathModel,
    inode: Option<InodeModel>,
    went: Option<Seq<u8>>,
    fuel: nat,
)
    requires
        fuel > 1,
        !run.decided.contains(id),
        base.kind == Kind::Folder,
    ensures
        removing(sc, run, kind, id, base, rel, inode, went, fuel) matches Ok((next, s)) ==> {
            let first = RunModel { decided: run.decided.insert(id), ..run };
            leaving(
                sc,
                first,
                seq![id],
                0,
                rel,
                went,
                Settle::Done,
                sc.w.items.len() + 1,
                (fuel - 1) as nat,
            ) matches Ok((left, how)) && {
                &&& s == how
                &&& how == Settle::Done ==> next.detections.len() > 0 && next.detections.last()
                    == removal_of(kind, id, base, rel, inode, went)
                &&& how != Settle::Done ==> next.detections == left.detections
                &&& how == Settle::Wait ==> next.out.undecided == left.out.undecided.push(id)
                &&& how == Settle::Unproven ==> next.out.unproven == left.out.unproven.push(id)
            }
        },
{
}

/// The object of group `g` is the one of which `handle` is recorded.
pub open spec fn is_recorded(
    entries: Seq<EntryModel>,
    groups: Seq<Seq<usize>>,
    handle: Option<Seq<u8>>,
    g: int,
) -> bool {
    0 <= g < groups.len() && handle is Some && entries[groups[g][0] as int].handle == handle
}

/// The object of group `g` has a name at `rel`.
pub open spec fn has_name_at(
    entries: Seq<EntryModel>,
    groups: Seq<Seq<usize>>,
    rel: Option<PathModel>,
    g: int,
) -> bool {
    0 <= g < groups.len() && (rel matches Some(r) && exists|k: int|
        0 <= k < groups[g].len() && entries[#[trigger] groups[g][k] as int].rel == r)
}

/// Which object is taken for an item with several carrying its id: the one whose
/// handle is recorded; else one that stands where the item is expected; else one
/// where it was placed last; and none on a guess.
pub proof fn law_an_item_is_its_recorded_object_first(
    entries: Seq<EntryModel>,
    groups: Seq<Seq<usize>>,
    handle: Option<Seq<u8>>,
    expected: Option<PathModel>,
    located: Option<PathModel>,
)
    ensures
        ({
            let none_recorded = forall|g: int| !(#[trigger] is_recorded(entries, groups, handle, g));
            let none_expected = forall|g: int| !(#[trigger] has_name_at(entries, groups, expected, g));
            let none_located = forall|g: int| !(#[trigger] has_name_at(entries, groups, located, g));
            match evident(entries, groups, handle, expected, located) {
                Some(pick) => {
                    ||| is_recorded(entries, groups, handle, pick)
                    ||| none_recorded && has_name_at(entries, groups, expected, pick)
                    ||| none_recorded && none_expected && has_name_at(entries, groups, located, pick)
                },
                None => none_recorded && none_expected && none_located,
            }
        }),
{
    if let Some(h) = handle {
        lemma_of_handle(entries, groups, h, 0);
        assert forall|g: int| #[trigger] is_recorded(entries, groups, handle, g) implies group_of_handle(
            entries,
            groups,
            h,
            0,
        ) is Some by {
            if group_of_handle(entries, groups, h, 0) is None {
                assert(entries[groups[g][0] as int].handle != Some(h));
            }
        }
    }
    lemma_group_at(entries, groups, expected, 0);
    lemma_group_at(entries, groups, located, 0);
    assert forall|g: int| #[trigger] has_name_at(entries, groups, expected, g) implies group_at(
        entries,
        groups,
        expected,
        0,
    ) is Some by {
        assert(is_at(entries, groups[g], expected));
    }
    assert forall|g: int| #[trigger] has_name_at(entries, groups, located, g) implies group_at(
        entries,
        groups,
        located,
        0,
    ) is Some by {
        assert(is_at(entries, groups[g], located));
    }
}

proof fn lemma_of_handle(entries: Seq<EntryModel>, groups: Seq<Seq<usize>>, handle: Seq<u8>, g: int)
    requires
        0 <= g,
    ensures
        match group_of_handle(entries, groups, handle, g) {
            Some(h) => g <= h < groups.len() && entries[groups[h][0] as int].handle == Some(handle),
            None => forall|h: int|
                g <= h < groups.len() ==> entries[#[trigger] groups[h][0] as int].handle != Some(handle),
        },
    decreases groups.len() - g,
{
    if g < groups.len() {
        lemma_of_handle(entries, groups, handle, g + 1);
    }
}

proof fn lemma_group_at(entries: Seq<EntryModel>, groups: Seq<Seq<usize>>, rel: Option<PathModel>, g: int)
    requires
        0 <= g,
    ensures
        match group_at(entries, groups, rel, g) {
            Some(h) => g <= h < groups.len() && is_at(entries, groups[h], rel),
            None => forall|h: int| g <= h < groups.len() ==> !is_at(entries, #[trigger] groups[h], rel),
        },
    decreases groups.len() - g,
{
    if g < groups.len() {
        lemma_group_at(entries, groups, rel, g + 1);
    }
}

/// An entry with an id it has no right to, in a directory that is there: a
/// directory is stripped and looked through again; a downloaded file is
/// stripped, unless other links of it would be changed too; and a file that is
/// not downloaded is listed and stays as it is. What is stripped is new.
pub proof fn law_what_becomes_of_a_copy(sc: SceneModel, run: RunModel, i: usize)
    requires
        i < run.entries.len(),
        sc.f.dir_of(dir_of(run.entries[i as int].rel)) == Some(None::<i32>),
    ensures
        ({
            let e = run.entries[i as int];
            let r = estranging(sc, run, i);
            let downloaded = e.state == StateAttr::Known(State::Hydrated);
            let stripped = e.ty == Type::Dir || (e.ty == Type::File && downloaded && e.nlink <= 1);
            &&& stripped && sc.f.stripped_of(i) is None ==> r == Err::<RunModel, StopModel>(
                StopModel::Ask(AskModel::Strip(i)),
            )
            &&& stripped && sc.f.stripped_of(i) == Some(Stripped::Done) ==> (r matches Ok(next) && {
                &&& next.entries[i as int].id is None
                &&& next.fresh == run.fresh.push(i)
                &&& next.out.stripped == run.out.stripped.push(e.rel)
                &&& next.detections == run.detections
            })
            &&& !stripped ==> (r matches Ok(next) && {
                &&& next.entries == run.entries
                &&& next.fresh == run.fresh
                &&& next.consumed[i as int] || i >= run.consumed.len()
                &&& ignored(sc.w.ignore, e.name) ==> next.skipped == run.skipped
                &&& !ignored(sc.w.ignore, e.name) ==> next.skipped.contains(
                    (
                        e.rel,
                        if e.ty == Type::File && downloaded {
                            "hard-link"@
                        } else {
                            "not-downloaded"@
                        },
                    ),
                )
            })
        }),
{
    let e = run.entries[i as int];
    lemma_skip_slot(run.skipped, e.rel, 0);
    let at = skip_from(run.skipped, e.rel, 0);
    let reason = if e.ty == Type::File && e.state == StateAttr::Known(State::Hydrated) {
        "hard-link"@
    } else {
        "not-downloaded"@
    };
    let listed = with_skip(run.skipped, e.rel, reason);
    assert(listed[if at < run.skipped.len() { at } else { run.skipped.len() as int }] == (e.rel, reason));
}

proof fn lemma_skip_slot(s: Seq<(PathModel, Seq<char>)>, rel: PathModel, i: int)
    requires
        0 <= i <= s.len(),
    ensures
        i <= skip_from(s, rel, i) <= s.len(),
        skip_from(s, rel, i) >= s.len() <==> forall|k: int|
            i <= k < s.len() ==> (#[trigger] s[k]).0 != rel,
    decreases s.len() - i,
{
    if i < s.len() && s[i].0 != rel {
        lemma_skip_slot(s, rel, i + 1);
    }
}

proof fn lemma_unlisting(sc: SceneModel, run: RunModel, k: int)
    requires
        0 <= k,
    ensures
        unlisting(sc, run, k).skipped == run.skipped,
        unlisting(sc, run, k).detections == run.detections,
        forall|op: OpModel| #[trigger]
            unlisting(sc, run, k).out.ops.contains(op) <==> run.out.ops.contains(op) || exists|m: int|
                k <= m < sc.w.skipped.len() && op == OpModel::Unskip(#[trigger] sc.w.skipped[m])
                    && skip_examined(sc, sc.w.skipped[m]) && skip_from(
                    run.skipped,
                    sc.w.skipped[m],
                    0,
                ) >= run.skipped.len(),
    decreases sc.w.skipped.len() - k,
{
    if k < sc.w.skipped.len() {
        let op = OpModel::Unskip(sc.w.skipped[k]);
        let with = with_op(run, op);
        lemma_unlisting(sc, run, k + 1);
        lemma_unlisting(sc, with, k + 1);
        assert forall|o: OpModel| #[trigger] with.out.ops.contains(o) <==> run.out.ops.contains(o) || o
            == op by {
            vstd::seq_lib::lemma_seq_contains_after_push(run.out.ops, op, o);
        }
    }
}

proof fn lemma_recording(run: RunModel, skips: Seq<(PathModel, Seq<char>)>, k: int)
    requires
        0 <= k,
    ensures
        recording_skips(run, skips, k).detections == run.detections,
        forall|op: OpModel| #[trigger]
            recording_skips(run, skips, k).out.ops.contains(op) <==> run.out.ops.contains(op)
                || exists|m: int|
                k <= m < skips.len() && op == (OpModel::Skip {
                    rel: (#[trigger] skips[m]).0,
                    reason: skips[m].1,
                }),
    decreases skips.len() - k,
{
    if k < skips.len() {
        let op = OpModel::Skip { rel: skips[k].0, reason: skips[k].1 };
        let with = with_op(run, op);
        lemma_recording(with, skips, k + 1);
        assert forall|o: OpModel| #[trigger] with.out.ops.contains(o) <==> run.out.ops.contains(o) || o
            == op by {
            vstd::seq_lib::lemma_seq_contains_after_push(run.out.ops, op, o);
        }
    }
}

/// What is listed as not uploaded is what is there now: each thing met that
/// cannot be is recorded with its reason, and what was listed before is taken off
/// exactly where it was looked at and is no longer met.
pub proof fn law_what_is_listed_is_what_is_there_now(sc: SceneModel, run: RunModel, op: OpModel)
    ensures
        tidying(sc, run).out.ops.contains(op) <==> {
            ||| run.out.ops.contains(op)
            ||| exists|m: int|
                0 <= m < run.skipped.len() && op == (OpModel::Skip {
                    rel: (#[trigger] run.skipped[m]).0,
                    reason: run.skipped[m].1,
                })
            ||| exists|m: int|
                0 <= m < sc.w.skipped.len() && op == OpModel::Unskip(#[trigger] sc.w.skipped[m]) && (
                forall|k: int|
                    0 <= k < run.skipped.len() ==> (#[trigger] run.skipped[k]).0 != sc.w.skipped[m])
                    && !sc.unreadable.contains(sc.w.skipped[m]) && (sc.batch.full || sc.whole.contains(
                    dir_of(sc.w.skipped[m]),
                ) || (sc.named.contains_key(dir_of(sc.w.skipped[m])) && sc.w.skipped[m].len() > 0
                    && sc.named[dir_of(sc.w.skipped[m])].contains(sc.w.skipped[m].last())))
        },
        tidying(sc, run).detections == run.detections,
{
    let unlisted = unlisting(sc, run, 0);
    lemma_unlisting(sc, run, 0);
    lemma_recording(RunModel { skipped: Seq::empty(), ..unlisted }, unlisted.skipped, 0);
    assert forall|m: int| 0 <= m < sc.w.skipped.len() implies (skip_from(
        run.skipped,
        #[trigger] sc.w.skipped[m],
        0,
    ) >= run.skipped.len() <==> forall|k: int|
        0 <= k < run.skipped.len() ==> (#[trigger] run.skipped[k]).0 != sc.w.skipped[m]) by {
        lemma_skip_slot(run.skipped, sc.w.skipped[m], 0);
    }
}

/// A removal of an item that nobody has confirmed.
pub open spec fn is_unconfirmed_removal(w: WorldModel, d: DetectionModel, id: Seq<char>) -> bool {
    &&& d.kind == OutboxKind::Delete || d.kind == OutboxKind::MoveOut
    &&& d.item_id == Some(id)
    &&& forall|k: int|
        0 <= k < w.rows.len() ==> !((#[trigger] w.rows[k]).item_id == Some(id) && w.rows[k].confirmed && (
        w.rows[k].kind == OutboxKind::Delete || w.rows[k].kind == OutboxKind::MoveOut))
}

/// A removal that waits, neither confirmed nor being sent, of nothing this batch
/// has decided.
pub open spec fn is_removal_that_waits(decided: Set<Seq<char>>, row: OutboxRowModel) -> bool {
    &&& row.kind == OutboxKind::Delete || row.kind == OutboxKind::MoveOut
    &&& !row.confirmed
    &&& row.state != OutboxState::Running
    &&& row.item_id matches Some(id) ==> !decided.contains(id)
}

proof fn lemma_newly(w: WorldModel, ds: Seq<DetectionModel>, k: int, ids: Seq<Seq<char>>, id: Seq<char>)
    requires
        0 <= k,
    ensures
        newly_removed(w, ds, k, ids).contains(id) <==> ids.contains(id) || exists|m: int|
            k <= m < ds.len() && is_unconfirmed_removal(w, #[trigger] ds[m], id),
    decreases ds.len() - k,
{
    if k < ds.len() {
        lemma_newly(w, ds, k + 1, ids, id);
        if let Some(own) = ds[k].item_id {
            lemma_newly(w, ds, k + 1, ids.push(own), id);
            vstd::seq_lib::lemma_seq_contains_after_push(ids, own, id);
        }
        assert(is_unconfirmed_removal(w, ds[k], id) <==> is_new_removal(w, ds[k])
            && ds[k].item_id == Some(id));
    }
}

proof fn lemma_still(w: WorldModel, decided: Set<Seq<char>>, k: int, ids: Seq<Seq<char>>, id: Seq<char>)
    requires
        0 <= k,
    ensures
        still_removed(w, decided, k, ids).contains(id) <==> ids.contains(id) || exists|m: int|
            k <= m < w.rows.len() && is_removal_that_waits(decided, #[trigger] w.rows[m])
                && w.rows[m].item_id == Some(id),
    decreases w.rows.len() - k,
{
    if k < w.rows.len() {
        lemma_still(w, decided, k + 1, ids, id);
        if let Some(own) = w.rows[k].item_id {
            lemma_still(w, decided, k + 1, ids.push(own), id);
            vstd::seq_lib::lemma_seq_contains_after_push(ids, own, id);
        }
    }
}

/// Item `id` would be removed from OneDrive: by a removal of its own in this
/// batch or one that waits.
pub open spec fn would_go(w: WorldModel, run: RunModel, id: Seq<char>) -> bool {
    ||| exists|m: int|
        0 <= m < run.detections.len() && is_unconfirmed_removal(w, #[trigger] run.detections[m], id)
    ||| exists|m: int|
        0 <= m < w.rows.len() && is_removal_that_waits(run.decided, #[trigger] w.rows[m])
            && w.rows[m].item_id == Some(id)
}

/// What the guard counts: every item that would be removed, by this batch or by
/// what waits, and with a folder every item the base has inside it. It trips when
/// something is removed that it has not held yet, and those are more than 500, or
/// ten at least and more than a fifth of what is placed.
pub proof fn law_when_removals_are_held(w: WorldModel, run: RunModel, x: Seq<char>)
    ensures
        all_removed(w, run).contains(x) <==> would_go(w, run, x) || exists|id: Seq<char>| #[trigger]
            would_go(w, run, id) && goes_with(w, x, id),
        trips(w, run) <==> {
            let n = all_removed(w, run).len();
            &&& (exists|k: int, id: Seq<char>|
                0 <= k < run.detections.len() && #[trigger] is_unconfirmed_removal(
                    w,
                    run.detections[k],
                    id,
                )) || exists|k: int|
                0 <= k < w.rows.len() && is_removal_that_waits(run.decided, #[trigger] w.rows[k])
                    && w.rows[k].state != OutboxState::Held
            &&& n > 500 || (n >= 10 && n * 100 > w.placed * 20)
        },
        mass_delete() == "mass-delete"@,
{
    let new = newly_removed(w, run.detections, 0, Seq::empty());
    let ids = still_removed(w, run.decided, 0, new);
    assert forall|id: Seq<char>| ids.contains(id) <==> #[trigger] would_go(w, run, id) by {
        lemma_newly(w, run.detections, 0, Seq::empty(), id);
        lemma_still(w, run.decided, 0, new, id);
    }
    if all_removed(w, run).contains(x) {
        let m = choose|m: int|
            0 <= m < ids.len() && (x == #[trigger] ids[m] || goes_with(w, x, ids[m]));
        assert(ids.contains(ids[m]));
        assert(would_go(w, run, ids[m]));
    }
    if would_go(w, run, x) {
        assert(ids.contains(x));
        let m = choose|m: int| 0 <= m < ids.len() && ids[m] == x;
        assert(x == ids[m]);
    }
    if exists|id: Seq<char>| #[trigger] would_go(w, run, id) && goes_with(w, x, id) {
        let id = choose|id: Seq<char>| #[trigger]
            would_go(w, run, id) && goes_with(w, x, id);
        assert(ids.contains(id));
        let m = choose|m: int| 0 <= m < ids.len() && ids[m] == id;
        assert(goes_with(w, x, ids[m]));
    }
    assert forall|k: int, id: Seq<char>|
        0 <= k < run.detections.len() && #[trigger] is_unconfirmed_removal(w, run.detections[k], id) implies
        is_new_removal(w, run.detections[k]) by {}
    assert forall|k: int|
        0 <= k < run.detections.len() && #[trigger] is_new_removal(
            w,
            run.detections[k],
        ) implies is_unconfirmed_removal(w, run.detections[k], run.detections[k].item_id->0) by {}
}

/// What an examination decided is recorded, all of it and nothing else: each
/// change it detected, and each thing it noted.
pub proof fn law_everything_decided_is_recorded(run: RunModel, m: int, n: int)
    ensures
        0 <= m < run.detections.len() ==> recorded(run).contains(OpModel::Record(run.detections[m])),
        0 <= n < run.out.ops.len() ==> recorded(run).contains(run.out.ops[n]),
        recorded(run).len() == run.detections.len() + run.out.ops.len(),
{
    let early = run.out.ops.filter(|op: OpModel| comes_first(op));
    let late = run.out.ops.filter(|op: OpModel| !comes_first(op));
    let ds = in_order(run.detections);
    law_order_is_a_permutation(run.detections);
    lemma_split(run.out.ops);
    let all = recorded(run);
    if 0 <= n < run.out.ops.len() {
        let op = run.out.ops[n];
        if comes_first(op) {
            run.out.ops.lemma_filter_contains(|op: OpModel| comes_first(op), n);
            let k = choose|k: int| 0 <= k < early.len() && early[k] == op;
            assert(all[k] == op);
        } else {
            run.out.ops.lemma_filter_contains(|op: OpModel| !comes_first(op), n);
            let k = choose|k: int| 0 <= k < late.len() && late[k] == op;
            assert(all[early.len() + ds.len() + k] == op);
        }
    }
    if 0 <= m < run.detections.len() {
        let d = run.detections[m];
        let order = written_order(slots_of(run.detections));
        assert(order.contains(m));
        let k = choose|k: int| 0 <= k < order.len() && order[k] == m;
        assert(ds[k] == d);
        assert(all[early.len() + k] == OpModel::Record(d));
    }
}

proof fn lemma_split(ops: Seq<OpModel>)
    ensures
        ops.filter(|op: OpModel| comes_first(op)).len() + ops.filter(
            |op: OpModel| !comes_first(op),
        ).len() == ops.len(),
    decreases ops.len(),
{
    reveal(Seq::filter);
    if ops.len() > 0 {
        lemma_split(ops.drop_last());
    }
}

} // verus!
