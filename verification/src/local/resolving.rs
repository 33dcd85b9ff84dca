//! Which entries are gone through, in which order, and which of them is an item.

use vstd::prelude::*;
use vstd::string::*;
use vstd::utf8::encode_utf8;
use crate::local::content::{estranging, finding, forgetting_state, keeping_backup, listing_it};
use crate::local::entry::{inode_of, is_hydrated, EntryModel, StateAttr};
use crate::local::examine::{
    by_depth, carriers, class_of, depth_of, depth_slot, finding_all, found_by_depth, ids_carried,
    meeting_all_new, without_id, Class,
};
use crate::local::facts::{
    absent_of, absent_with, by_entry_from, by_place_from, place_of, AskModel, Facts, PlaceModel,
    StopModel, Stripped,
};
use crate::local::ignore::{ignored, pattern_fault};
use crate::local::liveness::{
    dropped_upto, hex, hex_digit, namespace_text, renewal_of, uuid_of, RenewalModel, StandingModel,
};
use crate::local::removal::{enough, object_of, removing};
use crate::local::resolve::{
    asking, backup_newcomer, by_path, estranging_all, grouped, group_from, is_at, linking,
    meeting_unknown, name_in_group, of_kind, path_slot, taking,
};
use crate::local::run::{
    consuming, index_at, index_from, rechecking, rechecking_at, skip_from, skipping, with_skip,
    ExaminedModel, RunModel, SceneModel,
};
use crate::local::unnamed::meeting_new;
use crate::local::world::{being_created, item_of, pending_of};
use crate::os::Type;
use crate::path::{dir_of, path_lt, starts_with, PathModel, RelPath};
use crate::sorted::{inserted, lemma_inserted_holds, Ordered};
use crate::text::white_space;
use crate::tree::{same_inode, InodeModel, OutboxKind, OutboxRowModel, RowModel};

verus! {

/// An entry whose id the base does not know: one a reconcile is placing is looked
/// at again, one that is being created is left alone, and any other is a stranger.
/// An entry that is not of the item's kind is one too.
pub proof fn law_what_becomes_of_an_unknown_id(
    sc: SceneModel,
    run: RunModel,
    id: Seq<char>,
    i: usize,
    want: Type,
    same: Seq<usize>,
)
    ensures
        ({
            let e = run.entries[i as int];
            meeting_unknown(sc, run, id, seq![i], 0) == if sc.w.staging.contains(id) {
                Ok::<RunModel, StopModel>(rechecking(run, e))
            } else if pending_of(sc.w, e) is Some {
                Ok(run)
            } else {
                estranging(sc, run, i)
            }
        }),
        run.entries[i as int].ty == want ==> of_kind(sc, run, want, seq![i], 0, same) == Ok::<
            (RunModel, Seq<usize>),
            StopModel,
        >((run, same.push(i))),
        run.entries[i as int].ty != want ==> match estranging(sc, run, i) {
            Err(stop) => of_kind(sc, run, want, seq![i], 0, same) == Err::<
                (RunModel, Seq<usize>),
                StopModel,
            >(stop),
            Ok(next) => of_kind(sc, run, want, seq![i], 0, same) == Ok::<
                (RunModel, Seq<usize>),
                StopModel,
            >((next, same)),
        },
{
    let list = seq![i];
    let again = rechecking(run, run.entries[i as int]);
    assert(meeting_unknown(sc, again, id, list, 1) == Ok::<RunModel, StopModel>(again));
    assert(meeting_unknown(sc, run, id, list, 1) == Ok::<RunModel, StopModel>(run));
    assert(of_kind(sc, run, want, list, 1, same.push(i)) == Ok::<(RunModel, Seq<usize>), StopModel>(
        (run, same.push(i)),
    ));
    if let Ok(next) = estranging(sc, run, i) {
        assert(meeting_unknown(sc, next, id, list, 1) == Ok::<RunModel, StopModel>(next));
        assert(of_kind(sc, next, want, list, 1, same) == Ok::<(RunModel, Seq<usize>), StopModel>(
            (next, same),
        ));
    }
}

proof fn lemma_group_from(entries: Seq<EntryModel>, groups: Seq<Seq<usize>>, i: usize, g: int)
    requires
        0 <= g <= groups.len(),
    ensures
        ({
            let h = group_from(entries, groups, i, g);
            &&& g <= h <= groups.len()
            &&& h < groups.len() ==> same_inode(
                inode_of(entries[groups[h][0] as int]),
                inode_of(entries[i as int]),
            )
            &&& forall|k: int|
                g <= k < h ==> !same_inode(
                    inode_of(entries[(#[trigger] groups[k])[0] as int]),
                    inode_of(entries[i as int]),
                )
        }),
    decreases groups.len() - g,
{
    if g < groups.len() {
        lemma_group_from(entries, groups, i, g + 1);
    }
}

/// Group `k` is of entry `i`'s object.
pub open spec fn is_its_group(entries: Seq<EntryModel>, groups: Seq<Seq<usize>>, i: usize, k: int) -> bool {
    same_inode(inode_of(entries[groups[k][0] as int]), inode_of(entries[i as int]))
}

/// The names of one object are taken together: an entry joins the first group of
/// its own object, at its end, or is the first of a new one; every other group is
/// as it was.
pub proof fn law_names_of_one_object_go_together(
    entries: Seq<EntryModel>,
    groups: Seq<Seq<usize>>,
    i: usize,
    g: int,
)
    ensures
        ({
            let now = grouped(entries, groups, i);
            &&& 0 <= g < groups.len() && is_its_group(entries, groups, i, g) && (forall|k: int|
                0 <= k < g ==> !(#[trigger] is_its_group(entries, groups, i, k))) ==> now[g]
                == groups[g].push(i) && now.len() == groups.len()
            &&& 0 <= g < groups.len() && !is_its_group(entries, groups, i, g) ==> now[g] == groups[g]
            &&& (forall|k: int| 0 <= k < groups.len() ==> !(#[trigger] is_its_group(entries, groups, i, k)))
                ==> now == groups.push(seq![i])
        }),
{
    lemma_group_from(entries, groups, i, 0);
    let h = group_from(entries, groups, i, 0);
    if h < groups.len() {
        assert(is_its_group(entries, groups, i, h));
    }
    assert forall|k: int| 0 <= k < h implies !(#[trigger] is_its_group(entries, groups, i, k)) by {
        assert(!same_inode(inode_of(entries[groups[k][0] as int]), inode_of(entries[i as int])));
    }
}

/// The paths of `s` do not fall.
pub open spec fn is_by_path(entries: Seq<EntryModel>, s: Seq<usize>) -> bool {
    forall|p: int, q: int|
        0 <= p < q < s.len() ==> !path_lt(
            entries[#[trigger] s[q] as int].rel,
            entries[#[trigger] s[p] as int].rel,
        )
}

proof fn lemma_path_slot(entries: Seq<EntryModel>, s: Seq<usize>, x: usize, p: int)
    requires
        0 <= p <= s.len(),
    ensures
        ({
            let at = path_slot(entries, s, x, p);
            &&& p <= at <= s.len()
            &&& at < s.len() ==> path_lt(entries[x as int].rel, entries[s[at] as int].rel)
            &&& forall|k: int|
                p <= k < at ==> !path_lt(entries[x as int].rel, entries[#[trigger] s[k] as int].rel)
        }),
    decreases s.len() - p,
{
    if p < s.len() {
        lemma_path_slot(entries, s, x, p + 1);
    }
}

/// Entries are gone through by path: none is lost and none added, and no path
/// comes before a lesser one.
pub proof fn law_names_are_gone_through_by_path(entries: Seq<EntryModel>, s: Seq<usize>, n: int)
    requires
        0 <= n <= s.len(),
    ensures
        is_by_path(entries, by_path(entries, s, n)),
        by_path(entries, s, n).to_multiset() == s.subrange(0, n).to_multiset(),
    decreases n,
{
    broadcast use vstd::seq_lib::group_to_multiset_ensures;

    if n > 0 {
        law_names_are_gone_through_by_path(entries, s, n - 1);
        let rest = by_path(entries, s, n - 1);
        let x = s[n - 1];
        let at = path_slot(entries, rest, x, 0);
        let now = rest.insert(at, x);
        lemma_path_slot(entries, rest, x, 0);
        assert forall|p: int, q: int| 0 <= p < q < now.len() implies !path_lt(
            entries[#[trigger] now[q] as int].rel,
            entries[#[trigger] now[p] as int].rel,
        ) by {
            let a = entries[now[p] as int].rel;
            let b = entries[now[q] as int].rel;
            if q == at {
                assert(now[p] == rest[p]);
            } else if p == at {
                assert(now[q] == rest[q - 1]);
                if path_lt(b, a) {
                    let c = entries[rest[at] as int].rel;
                    <RelPath as Ordered>::lemma_transitive(b, a, c);
                    if q - 1 > at {
                        assert(!path_lt(entries[rest[q - 1] as int].rel, entries[rest[at] as int].rel));
                    } else {
                        <RelPath as Ordered>::lemma_irreflexive(b);
                    }
                }
            } else {
                let i = if p < at {
                    p
                } else {
                    p - 1
                };
                let j = if q < at {
                    q
                } else {
                    q - 1
                };
                assert(now[p] == rest[i]);
                assert(now[q] == rest[j]);
            }
        }
        assert(s.subrange(0, n) =~= s.subrange(0, n - 1).push(x));
        vstd::seq_lib::to_multiset_insert(rest, at, x);
    } else {
        assert(s.subrange(0, 0) =~= Seq::<usize>::empty());
    }
}

proof fn lemma_name_in_group(entries: Seq<EntryModel>, group: Seq<usize>, rel: Option<PathModel>, k: int)
    requires
        0 <= k,
    ensures
        ({
            let r = name_in_group(entries, group, rel, k);
            &&& (forall|j: int| k <= j < group.len() ==> Some(entries[#[trigger] group[j] as int].rel) != rel)
                ==> r == group[0]
            &&& (exists|j: int| k <= j < group.len() && Some(entries[#[trigger] group[j] as int].rel) == rel)
                ==> Some(entries[r as int].rel) == rel && group.contains(r)
        }),
    decreases group.len() - k,
{
    if k < group.len() {
        lemma_name_in_group(entries, group, rel, k + 1);
        if rel == Some(entries[group[k] as int].rel) {
            assert(group.contains(group[k]));
        }
    }
}

/// Which name of an object is the item: the one where the item is expected, where
/// the object has it; and else its first by path.
pub proof fn law_which_name_of_an_object_is_the_item(
    entries: Seq<EntryModel>,
    group: Seq<usize>,
    rel: PathModel,
    j: int,
)
    ensures
        0 <= j < group.len() && entries[group[j] as int].rel == rel ==> entries[name_in_group(
            entries,
            group,
            Some(rel),
            0,
        ) as int].rel == rel,
        (forall|k: int| 0 <= k < group.len() ==> entries[#[trigger] group[k] as int].rel != rel)
            ==> name_in_group(entries, group, Some(rel), 0) == group[0],
        name_in_group(entries, group, None, 0) == group[0],
{
    lemma_name_in_group(entries, group, Some(rel), 0);
    lemma_name_in_group(entries, group, None, 0);
}

/// `rel` is listed as a link of another name.
pub open spec fn is_listed_as_link(s: Seq<(PathModel, Seq<char>)>, rel: PathModel) -> bool {
    exists|k: int| 0 <= k < s.len() && #[trigger] s[k] == (rel, "hard-link"@)
}

proof fn lemma_link_kept(s: Seq<(PathModel, Seq<char>)>, at: PathModel, rel: PathModel)
    ensures
        is_listed_as_link(with_skip(s, at, "hard-link"@), at),
        is_listed_as_link(s, rel) ==> is_listed_as_link(with_skip(s, at, "hard-link"@), rel),
{
    let now = with_skip(s, at, "hard-link"@);
    lemma_slot(s, at, 0);
    let i = skip_from(s, at, 0);
    assert(now[i] == (at, "hard-link"@));
    if is_listed_as_link(s, rel) {
        let k = choose|k: int| 0 <= k < s.len() && #[trigger] s[k] == (rel, "hard-link"@);
        if k != i {
            assert(now[k] == (rel, "hard-link"@));
        } else {
            assert(s[i].0 == at);
            assert(now[i] == (rel, "hard-link"@));
        }
    }
}

proof fn lemma_slot(s: Seq<(PathModel, Seq<char>)>, rel: PathModel, i: int)
    requires
        0 <= i <= s.len(),
    ensures
        i <= skip_from(s, rel, i) <= s.len(),
        skip_from(s, rel, i) < s.len() ==> s[skip_from(s, rel, i)].0 == rel,
    decreases s.len() - i,
{
    if i < s.len() && s[i].0 != rel {
        lemma_slot(s, rel, i + 1);
    }
}

proof fn lemma_linking(sc: SceneModel, run: RunModel, group: Seq<usize>, chosen: usize, k: int, rel: PathModel)
    requires
        0 <= k,
        forall|j: int| 0 <= j < group.len() ==> #[trigger] group[j] < run.consumed.len(),
    ensures
        ({
            let next = linking(sc, run, group, chosen, k);
            &&& next.entries == run.entries && next.chosen == run.chosen && next.detections
                == run.detections && next.consumed.len() == run.consumed.len()
            &&& is_listed_as_link(run.skipped, rel) ==> is_listed_as_link(next.skipped, rel)
            &&& forall|j: int|
                0 <= j < run.consumed.len() && run.consumed[j] ==> #[trigger] next.consumed[j]
        }),
    decreases group.len() - k,
{
    if k < group.len() {
        if group[k] == chosen {
            lemma_linking(sc, run, group, chosen, k + 1, rel);
        } else {
            let e = run.entries[group[k] as int];
            let taken = consuming(run, group[k]);
            let next = if ignored(sc.w.ignore, e.name) {
                taken
            } else {
                skipping(taken, e.rel, "hard-link"@)
            };
            lemma_link_kept(taken.skipped, e.rel, rel);
            lemma_linking(sc, next, group, chosen, k + 1, rel);
            let last = linking(sc, run, group, chosen, k);
            assert forall|j: int| 0 <= j < run.consumed.len() && run.consumed[j] implies #[trigger] last.consumed[j] by {
                assert(next.consumed[j]);
            }
        }
    }
}

/// Every other name of an item's object is done with, and listed as a link that
/// OneDrive cannot hold, unless its name is ignored; no other entry is touched by
/// it.
pub proof fn law_other_names_of_an_object_are_links(
    sc: SceneModel,
    run: RunModel,
    group: Seq<usize>,
    chosen: usize,
    k: int,
    m: int,
)
    requires
        0 <= k <= m < group.len(),
        group[m] != chosen,
        forall|j: int| 0 <= j < group.len() ==> #[trigger] group[j] < run.consumed.len(),
    ensures
        ({
            let e = run.entries[group[m] as int];
            let next = linking(sc, run, group, chosen, k);
            &&& next.consumed[group[m] as int]
            &&& !ignored(sc.w.ignore, e.name) ==> is_listed_as_link(next.skipped, e.rel)
            &&& next.detections == run.detections && next.entries == run.entries
        }),
    decreases group.len() - k,
{
    let rel = run.entries[group[m] as int].rel;
    lemma_linking(sc, run, group, chosen, k, rel);
    if group[k] == chosen {
        law_other_names_of_an_object_are_links(sc, run, group, chosen, k + 1, m);
    } else {
        let e = run.entries[group[k] as int];
        let taken = consuming(run, group[k]);
        let next = if ignored(sc.w.ignore, e.name) {
            taken
        } else {
            skipping(taken, e.rel, "hard-link"@)
        };
        if k < m {
            law_other_names_of_an_object_are_links(sc, next, group, chosen, k + 1, m);
        } else {
            lemma_link_kept(taken.skipped, e.rel, rel);
            lemma_linking(sc, next, group, chosen, k + 1, rel);
            assert(next.consumed[group[m] as int]);
        }
    }
}

/// Which object is taken where the entries alone do not tell: where the recorded
/// one is gone, or none is recorded, the first by path; where it is outside the
/// folder none of them, they are copies, and the item moved out; and as long as it
/// is elsewhere in the folder, or cannot be placed, nothing is decided.
pub proof fn law_copies_are_told_by_where_the_recorded_object_is(
    sc: SceneModel,
    run: RunModel,
    id: Seq<char>,
    base: RowModel,
    same: Seq<usize>,
    groups: Seq<Seq<usize>>,
    h: Seq<u8>,
    expected: Option<PathModel>,
)
    ensures
        asking(sc, run, id, base, same, groups, None, expected) == taking(sc, run, id, groups, 0, expected),
        ({
            let r = asking(sc, run, id, base, same, groups, Some(h), expected);
            match place_of(sc.w, sc.f, h) {
                Err(stop) => r == Err::<(RunModel, Option<usize>), StopModel>(stop),
                Ok(PlaceModel::Gone) => r == taking(sc, run, id, groups, 0, expected),
                Ok(PlaceModel::Outside(to)) => r matches Ok((next, pick)) ==> pick is None
                    && next.decided.contains(id) && (estranging_all(sc, run, same, 0) matches Ok(copies) && (
                expected matches Some(rel) ==> (removing(
                    sc,
                    copies,
                    OutboxKind::MoveOut,
                    id,
                    base,
                    rel,
                    Some(InodeModel { dev: 0, ino: 0, handle: Some(h) }),
                    Some(to),
                    enough(sc.w),
                ) matches Ok((left, _)) && next.detections == left.detections))),
                Ok(PlaceModel::Inside(now)) => r matches Ok((next, pick)) && pick is None
                    && next.detections == run.detections && next.entries == run.entries && next.out.recheck
                    == rechecking_at(run, now).out.recheck && next.decided.contains(id),
                Ok(PlaceModel::Unknown) => r matches Ok((next, pick)) && pick is None && next.detections
                    == run.detections && next.entries == run.entries && next.out.undecided
                    == run.out.undecided.push(id),
            }
        }),
{
    assert(object_of(h) == InodeModel { dev: 0, ino: 0, handle: Some(h) });
}

proof fn lemma_index(entries: Seq<EntryModel>, rel: PathModel, i: int, s: usize)
    requires
        0 <= i <= s < entries.len() <= usize::MAX,
        entries[s as int].rel == rel,
        forall|j: int| 0 <= j < s ==> (#[trigger] entries[j]).rel != rel,
    ensures
        index_from(entries, rel, i) == Some(s),
    decreases s - i,
{
    if i < s {
        assert(entries[i].rel != rel);
        lemma_index(entries, rel, i + 1, s);
    }
}

/// A file was saved over a backup of itself exactly where its recorded object has
/// all its names in the directory it is expected in, one of them ignored and none
/// where it is expected, and there another file stands: a new one or one with the
/// same id, which is not being created.
pub proof fn law_which_file_was_saved_over_a_backup(
    sc: SceneModel,
    run: RunModel,
    id: Seq<char>,
    group: Seq<usize>,
    rel: PathModel,
    s: usize,
)
    requires
        s < run.entries.len() <= usize::MAX,
        run.entries[s as int].rel == rel,
        forall|j: int| 0 <= j < s ==> (#[trigger] run.entries[j]).rel != rel,
    ensures
        ({
            let e = run.entries[s as int];
            let beside = (forall|k: int|
                0 <= k < group.len() ==> dir_of(run.entries[#[trigger] group[k] as int].rel) == dir_of(rel))
                && (exists|k: int|
                0 <= k < group.len() && ignored(
                    sc.w.ignore,
                    run.entries[#[trigger] group[k] as int].name,
                ));
            let away = forall|k: int|
                0 <= k < group.len() ==> run.entries[#[trigger] group[k] as int].rel != rel;
            let stands = e.ty == Type::File && (e.id is None || e.id == Some(id)) && !being_created(
                sc.w,
                e,
            ) && !group.contains(s);
            backup_newcomer(sc, run, id, group, rel) == if beside && away && stands {
                Some(s)
            } else {
                None
            }
        }),
{
    lemma_index(run.entries, rel, 0, s);
    assert(index_at(run.entries, rel) == Some(s));
    let away = forall|k: int| 0 <= k < group.len() ==> run.entries[#[trigger] group[k] as int].rel != rel;
    assert(away <==> !is_at(run.entries, group, Some(rel)));
}

/// The state of a file that copied another's attributes is not its own: it is
/// forgotten where the file has an id, and nothing else of it or of any other.
pub proof fn law_a_copied_state_is_forgotten(run: RunModel, s: usize, j: int)
    requires
        s < run.entries.len(),
        0 <= j < run.entries.len(),
    ensures
        ({
            let next = forgetting_state(run, s);
            let was = run.entries[s as int];
            let now = next.entries[s as int];
            &&& j != s ==> next.entries[j] == run.entries[j]
            &&& was.id is None ==> next.entries == run.entries
            &&& was.id is Some ==> now.state == StateAttr::Absent
            &&& now.rel == was.rel && now.name == was.name && now.id == was.id && now.ty == was.ty && now.size
                == was.size && now.handle == was.handle && now.dev == was.dev && now.ino == was.ino
            &&& next.chosen == run.chosen && next.detections == run.detections
        }),
{
}

/// A backup stays the user's: each of its names is taken, and what was downloaded
/// is stripped, while a placeholder stays as it is.
pub proof fn law_a_backup_stays_the_users(sc: SceneModel, run: RunModel, i: usize)
    requires
        i < run.consumed.len(),
    ensures
        ({
            let e = run.entries[i as int];
            let r = keeping_backup(sc, run, seq![i], 0);
            if !is_hydrated(e) {
                r matches Ok(next) && next.consumed[i as int] && next.out.stripped == run.out.stripped
            } else {
                match sc.f.stripped_of(i) {
                    None => r == Err::<RunModel, StopModel>(StopModel::Ask(AskModel::Strip(i))),
                    Some(Stripped::Failed(errno)) => r == Err::<RunModel, StopModel>(
                        StopModel::Failed(errno),
                    ),
                    Some(Stripped::Done) => r matches Ok(next) && next.consumed[i as int]
                        && next.out.stripped == run.out.stripped.push(e.rel),
                }
            }
        }),
{
    let group = seq![i];
    let e = run.entries[i as int];
    let taken = consuming(run, i);
    assert(keeping_backup(sc, taken, group, 1) == Ok::<RunModel, StopModel>(taken));
    let stripped = RunModel {
        out: ExaminedModel { stripped: taken.out.stripped.push(e.rel), ..taken.out },
        ..taken
    };
    assert(keeping_backup(sc, stripped, group, 1) == Ok::<RunModel, StopModel>(stripped));
}

/// What cannot be uploaded is done with, and listed with its reason unless its
/// name is ignored.
pub proof fn law_what_cannot_be_uploaded_is_listed(sc: SceneModel, run: RunModel, i: usize, reason: Seq<char>)
    requires
        i < run.consumed.len(),
    ensures
        ({
            let e = run.entries[i as int];
            let next = listing_it(sc, run, i, reason);
            &&& next.consumed[i as int]
            &&& next.skipped == if ignored(sc.w.ignore, e.name) {
                run.skipped
            } else {
                with_skip(run.skipped, e.rel, reason)
            }
            &&& next.detections == run.detections && next.entries == run.entries
        }),
{
}

/// Whether an object is absent from a place inside a folder that left: at that
/// place, where the folder is gone; at the same place below where the folder is
/// now, where that is known; and never for a place that is not in the folder.
pub proof fn law_what_is_absent_from_a_folder_that_left(
    f: Facts,
    rest: PathModel,
    folder: PathModel,
    at: PathModel,
    to: Seq<u8>,
    handle: Seq<u8>,
)
    ensures
        absent_with(f, at, folder, None, handle) == absent_of(f, at, handle),
        f.standing_out_of(to, rest) is None ==> absent_with(f, folder + rest, folder, Some(to), handle)
            == Err::<bool, StopModel>(StopModel::Ask(AskModel::StandingOut(to, rest))),
        f.standing_out_of(to, rest) matches Some(standing) ==> absent_with(
            f,
            folder + rest,
            folder,
            Some(to),
            handle,
        ) == Ok::<bool, StopModel>(
            match standing {
                StandingModel::NoDir(e) => e == 2 || e == 20,
                StandingModel::NoHandle(e) => e == 2 || e == 20,
                StandingModel::There(there) => there != handle,
            },
        ),
        !starts_with(at, folder) ==> absent_with(f, at, folder, Some(to), handle) == Ok::<bool, StopModel>(
            false,
        ),
{
    let whole = folder + rest;
    assert(whole.subrange(0, folder.len() as int) =~= folder);
    assert(whole.subrange(folder.len() as int, whole.len() as int) =~= rest);
}

proof fn lemma_by_entry<T>(s: Seq<(usize, T)>, e: usize, i: int, k: int)
    requires
        0 <= i <= k <= s.len(),
        k < s.len() ==> s[k].0 == e,
        forall|j: int| i <= j < k ==> (#[trigger] s[j]).0 != e,
    ensures
        by_entry_from(s, e, i) == if k < s.len() {
            Some(s[k].1)
        } else {
            None
        },
    decreases k - i,
{
    if i < k {
        assert(s[i].0 != e);
        lemma_by_entry(s, e, i + 1, k);
    }
}

proof fn lemma_by_place<T>(s: Seq<(RelPath, T)>, rel: PathModel, i: int, k: int)
    requires
        0 <= i <= k <= s.len(),
        k < s.len() ==> s[k].0@ == rel,
        forall|j: int| i <= j < k ==> (#[trigger] s[j]).0@ != rel,
    ensures
        by_place_from(s, rel, i) == if k < s.len() {
            Some(s[k].1)
        } else {
            None
        },
    decreases k - i,
{
    if i < k {
        assert(s[i].0@ != rel);
        lemma_by_place(s, rel, i + 1, k);
    }
}

/// The first answer about an entry, or about a place, is the one that counts; and
/// there is none only where none is about it.
pub proof fn law_the_first_answer_counts<T>(
    s: Seq<(usize, T)>,
    e: usize,
    t: Seq<(RelPath, T)>,
    rel: PathModel,
    k: int,
)
    ensures
        0 <= k < s.len() && s[k].0 == e && (forall|j: int| 0 <= j < k ==> (#[trigger] s[j]).0 != e)
            ==> by_entry_from(s, e, 0) == Some(s[k].1),
        (forall|j: int| 0 <= j < s.len() ==> (#[trigger] s[j]).0 != e) ==> by_entry_from(s, e, 0) is None,
        0 <= k < t.len() && t[k].0@ == rel && (forall|j: int| 0 <= j < k ==> (#[trigger] t[j]).0@ != rel)
            ==> by_place_from(t, rel, 0) == Some(t[k].1),
        (forall|j: int| 0 <= j < t.len() ==> (#[trigger] t[j]).0@ != rel) ==> by_place_from(t, rel, 0)
            is None,
{
    if 0 <= k < s.len() && s[k].0 == e && (forall|j: int| 0 <= j < k ==> (#[trigger] s[j]).0 != e) {
        lemma_by_entry(s, e, 0, k);
    }
    if forall|j: int| 0 <= j < s.len() ==> (#[trigger] s[j]).0 != e {
        lemma_by_entry(s, e, 0, s.len() as int);
    }
    if 0 <= k < t.len() && t[k].0@ == rel && (forall|j: int| 0 <= j < k ==> (#[trigger] t[j]).0@ != rel) {
        lemma_by_place(t, rel, 0, k);
    }
    if forall|j: int| 0 <= j < t.len() ==> (#[trigger] t[j]).0@ != rel {
        lemma_by_place(t, rel, 0, t.len() as int);
    }
}

proof fn lemma_carriers(sc: SceneModel, entries: Seq<EntryModel>, id: Seq<char>, i: int, found: Seq<usize>, m: usize)
    requires
        0 <= i,
        entries.len() <= usize::MAX,
    ensures
        carriers(sc, entries, id, i, found).contains(m) <==> found.contains(m) || (i <= m < entries.len()
            && class_of(sc, entries[m as int]) == Class::Item(id)),
        without_id(sc, entries, i, found).contains(m) <==> found.contains(m) || (i <= m < entries.len()
            && class_of(sc, entries[m as int]) == Class::New),
    decreases entries.len() - i,
{
    if i < entries.len() {
        lemma_carriers(sc, entries, id, i + 1, found, m);
        lemma_carriers(sc, entries, id, i + 1, found.push(i as usize), m);
        vstd::seq_lib::lemma_seq_contains_after_push(found, i as usize, m);
    }
}

proof fn lemma_ids_carried(sc: SceneModel, entries: Seq<EntryModel>, i: int, ids: Seq<Seq<char>>, id: Seq<char>)
    requires
        0 <= i,
    ensures
        ids_carried(sc, entries, i, ids).contains(id) <==> ids.contains(id) || exists|m: int|
            i <= m < entries.len() && class_of(sc, #[trigger] entries[m]) == Class::Item(id),
    decreases entries.len() - i,
{
    if i < entries.len() {
        lemma_ids_carried(sc, entries, i + 1, ids, id);
        if let Class::Item(own) = class_of(sc, entries[i]) {
            lemma_ids_carried(sc, entries, i + 1, inserted::<String>(ids, own), id);
            lemma_inserted_holds::<String>(ids, own, id);
        }
        let later = exists|m: int|
            i + 1 <= m < entries.len() && class_of(sc, #[trigger] entries[m]) == Class::Item(id);
        assert((exists|m: int| i <= m < entries.len() && class_of(sc, #[trigger] entries[m]) == Class::Item(id))
            <==> later || class_of(sc, entries[i]) == Class::Item(id));
    }
}

/// Every entry is gone through as what it is: each that carries an id among those
/// that carry it, and its id among the ids; each without one among the new; and
/// nothing else is.
pub proof fn law_every_entry_is_gone_through(
    sc: SceneModel,
    entries: Seq<EntryModel>,
    id: Seq<char>,
    m: usize,
)
    requires
        m < entries.len() <= usize::MAX,
    ensures
        carriers(sc, entries, id, 0, Seq::empty()).contains(m) <==> class_of(sc, entries[m as int])
            == Class::Item(id),
        without_id(sc, entries, 0, Seq::empty()).contains(m) <==> class_of(sc, entries[m as int])
            == Class::New,
        ids_carried(sc, entries, 0, Seq::empty()).contains(id) <==> exists|k: int|
            0 <= k < entries.len() && class_of(sc, #[trigger] entries[k]) == Class::Item(id),
{
    lemma_carriers(sc, entries, id, 0, Seq::empty(), m);
    lemma_ids_carried(sc, entries, 0, Seq::empty(), id);
}

proof fn lemma_depth_slot(depths: Seq<nat>, depth: nat, p: int)
    requires
        0 <= p <= depths.len(),
    ensures
        ({
            let at = depth_slot(depths, depth, p);
            &&& p <= at <= depths.len()
            &&& at < depths.len() ==> depth < depths[at]
            &&& forall|k: int| p <= k < at ==> #[trigger] depths[k] <= depth
        }),
    decreases depths.len() - p,
{
    if p < depths.len() {
        lemma_depth_slot(depths, depth, p + 1);
    }
}

/// What is new is met from the top down: none of it is lost and none added, and
/// nothing comes before what is less deep.
pub proof fn law_what_is_new_is_met_from_the_top(entries: Seq<EntryModel>, s: Seq<usize>, n: int)
    requires
        0 <= n <= s.len(),
    ensures
        by_depth(entries, s, n).to_multiset() == s.subrange(0, n).to_multiset(),
        forall|p: int, q: int|
            0 <= p < q < by_depth(entries, s, n).len() ==> entries[#[trigger] by_depth(entries, s, n)[p] as int].rel.len()
                <= entries[#[trigger] by_depth(entries, s, n)[q] as int].rel.len(),
    decreases n,
{
    broadcast use vstd::seq_lib::group_to_multiset_ensures;

    if n > 0 {
        law_what_is_new_is_met_from_the_top(entries, s, n - 1);
        let rest = by_depth(entries, s, n - 1);
        let x = s[n - 1];
        let depths = Seq::new(rest.len(), |p: int| depth_of(entries, rest[p]));
        let at = depth_slot(depths, depth_of(entries, x), 0);
        lemma_depth_slot(depths, depth_of(entries, x), 0);
        let now = rest.insert(at, x);
        assert forall|p: int, q: int| 0 <= p < q < now.len() implies entries[#[trigger] now[p] as int].rel.len()
            <= entries[#[trigger] now[q] as int].rel.len() by {
            let i = if p < at {
                p
            } else {
                p - 1
            };
            let j = if q < at {
                q
            } else {
                q - 1
            };
            if p == at {
                assert(now[q] == rest[j]);
                assert(depths[at] == depth_of(entries, rest[at]));
                if j > at {
                    assert(entries[rest[at] as int].rel.len() <= entries[rest[j] as int].rel.len());
                }
            } else if q == at {
                assert(now[p] == rest[i]);
                assert(depths[i] == depth_of(entries, rest[i]));
            } else {
                assert(now[p] == rest[i]);
                assert(now[q] == rest[j]);
            }
        }
        assert(s.subrange(0, n) =~= s.subrange(0, n - 1).push(x));
        vstd::seq_lib::to_multiset_insert(rest, at, x);
    } else {
        assert(s.subrange(0, 0) =~= Seq::<usize>::empty());
    }
}

/// Items that were found are gone through from the top down: none is lost and none
/// added, and none comes before one that is less deep.
pub proof fn law_items_found_are_gone_through_from_the_top(
    entries: Seq<EntryModel>,
    s: Seq<(Seq<char>, usize)>,
    n: int,
)
    requires
        0 <= n <= s.len(),
    ensures
        found_by_depth(entries, s, n).to_multiset() == s.subrange(0, n).to_multiset(),
        forall|p: int, q: int|
            0 <= p < q < found_by_depth(entries, s, n).len() ==> entries[(#[trigger] found_by_depth(
                entries,
                s,
                n,
            )[p]).1 as int].rel.len() <= entries[(#[trigger] found_by_depth(entries, s, n)[q]).1 as int].rel.len(),
    decreases n,
{
    broadcast use vstd::seq_lib::group_to_multiset_ensures;

    if n > 0 {
        law_items_found_are_gone_through_from_the_top(entries, s, n - 1);
        let rest = found_by_depth(entries, s, n - 1);
        let x = s[n - 1];
        let depths = Seq::new(rest.len(), |p: int| depth_of(entries, rest[p].1));
        let at = depth_slot(depths, depth_of(entries, x.1), 0);
        lemma_depth_slot(depths, depth_of(entries, x.1), 0);
        let now = rest.insert(at, x);
        assert forall|p: int, q: int| 0 <= p < q < now.len() implies entries[(#[trigger] now[p]).1 as int].rel.len()
            <= entries[(#[trigger] now[q]).1 as int].rel.len() by {
            let i = if p < at {
                p
            } else {
                p - 1
            };
            let j = if q < at {
                q
            } else {
                q - 1
            };
            if p == at {
                assert(now[q] == rest[j]);
                assert(depths[at] == depth_of(entries, rest[at].1));
                if j > at {
                    assert(entries[rest[at].1 as int].rel.len() <= entries[rest[j].1 as int].rel.len());
                }
            } else if q == at {
                assert(now[p] == rest[i]);
                assert(depths[i] == depth_of(entries, rest[i].1));
            } else {
                assert(now[p] == rest[i]);
                assert(now[q] == rest[j]);
            }
        }
        assert(s.subrange(0, n) =~= s.subrange(0, n - 1).push(x));
        vstd::seq_lib::to_multiset_insert(rest, at, x);
    } else {
        assert(s.subrange(0, 0) =~= Seq::<(Seq<char>, usize)>::empty());
    }
}

/// Each item that was found is looked at where it was, against its own base; and
/// each entry that no item took is met as new.
pub proof fn law_each_is_decided_on_its_own(
    sc: SceneModel,
    run: RunModel,
    id: Seq<char>,
    i: usize,
)
    ensures
        finding_all(sc, run, seq![(id, i)], 0) == match item_of(sc.w, id) {
            None => Ok::<RunModel, StopModel>(run),
            Some(item) => finding(sc, run, id, item.row, i),
        },
        meeting_all_new(sc, run, seq![i], 0) == if run.consumed[i as int] {
            Ok::<RunModel, StopModel>(run)
        } else {
            meeting_new(sc, run, i)
        },
{
    let one = seq![(id, i)];
    assert(finding_all(sc, run, one, 1) == Ok::<RunModel, StopModel>(run));
    if let Some(item) = item_of(sc.w, id) {
        if let Ok(next) = finding(sc, run, id, item.row, i) {
            assert(finding_all(sc, next, one, 1) == Ok::<RunModel, StopModel>(next));
        }
    }
    let list = seq![i];
    assert(meeting_all_new(sc, run, list, 1) == Ok::<RunModel, StopModel>(run));
    if let Ok(next) = meeting_new(sc, run, i) {
        assert(meeting_all_new(sc, next, list, 1) == Ok::<RunModel, StopModel>(next));
    }
}

/// Why a pattern is none: it is blank, holds a slash or a NUL, or is longer than a
/// name; the first of these that holds is told, and no other pattern is refused.
pub proof fn law_which_patterns_are_none(pattern: &str)
    ensures
        ({
            let blank = forall|i: int| 0 <= i < pattern@.len() ==> white_space(#[trigger] pattern@[i]);
            let slash = pattern@.contains('/');
            let nul = pattern@.contains('\0');
            let long = pattern.spec_bytes().len() > 255;
            &&& pattern_fault(pattern) is None <==> !blank && !slash && !nul && !long
            &&& blank ==> pattern_fault(pattern) == Some("a pattern cannot be empty"@)
            &&& !blank && slash ==> pattern_fault(pattern) == Some(
                "a pattern matches a name, not a path: it cannot hold '/'"@,
            )
            &&& !blank && !slash && nul ==> pattern_fault(pattern) == Some("a pattern cannot hold a NUL"@)
            &&& !blank && !slash && !nul && long ==> pattern_fault(pattern) == Some(
                "a pattern cannot be longer than a name (255 bytes)"@,
            )
        }),
{
}

/// Bytes that are written in hexadecimal are told apart: two digits each, and no
/// two are written the same.
pub proof fn law_bytes_are_told_apart_in_hexadecimal(a: Seq<u8>, b: Seq<u8>)
    ensures
        hex(a).len() == 2 * a.len(),
        hex(a) == hex(b) ==> a == b,
        forall|i: int| 0 <= i < hex(a).len() ==> #[trigger] is_hex(hex(a)[i]),
    decreases a.len(),
{
    if a.len() > 0 {
        let x = a.drop_last();
        law_bytes_are_told_apart_in_hexadecimal(x, b.drop_last());
        let high = hex_digit(a.last() as int / 16);
        let low = hex_digit(a.last() as int % 16);
        assert(hex(a) == hex(x).push(high).push(low));
        assert forall|i: int| 0 <= i < hex(a).len() implies #[trigger] is_hex(hex(a)[i]) by {
            if i < hex(x).len() {
                assert(hex(a)[i] == hex(x)[i]);
            }
        }
    }
    lemma_hex_len(b);
    if hex(a) == hex(b) && a.len() > 0 {
        let x = a.drop_last();
        let y = b.drop_last();
        assert(hex(a).drop_last().drop_last() =~= hex(x));
        assert(hex(b).drop_last().drop_last() =~= hex(y));
        assert(hex(a)[hex(a).len() - 1] == hex_digit(a.last() as int % 16));
        assert(hex(b)[hex(b).len() - 1] == hex_digit(b.last() as int % 16));
        assert(hex(a)[hex(a).len() - 2] == hex_digit(a.last() as int / 16));
        assert(hex(b)[hex(b).len() - 2] == hex_digit(b.last() as int / 16));
        assert(a.last() as int / 16 == b.last() as int / 16 && a.last() as int % 16 == b.last() as int % 16);
        assert(a.last() == b.last());
        assert(a =~= x.push(a.last()));
        assert(b =~= y.push(b.last()));
    } else if hex(a) == hex(b) {
        assert(a =~= b);
    }
}

proof fn lemma_hex_len(b: Seq<u8>)
    ensures
        hex(b).len() == 2 * b.len(),
    decreases b.len(),
{
    if b.len() > 0 {
        lemma_hex_len(b.drop_last());
    }
}

/// `c` is a hexadecimal digit.
pub open spec fn is_hex(c: char) -> bool {
    ('0' <= c && c <= '9') || ('a' <= c && c <= 'f')
}

/// What names a filesystem tells it from every other: by the folder's own handle
/// on it and, where it has one, by its UUID.
pub proof fn law_filesystems_are_told_apart(
    root: Seq<u8>,
    uuid: Option<Seq<u8>>,
    other: Seq<u8>,
    also: Option<Seq<u8>>,
)
    ensures
        namespace_text(root, uuid) == namespace_text(other, also) ==> root == other && uuid == also,
{
    let s = namespace_text(root, uuid);
    let t = namespace_text(other, also);
    law_bytes_are_told_apart_in_hexadecimal(root, other);
    law_bytes_are_told_apart_in_hexadecimal(other, root);
    reveal_strlit("root:");
    reveal_strlit(";uuid:");
    let m = hex(root).len() as int;
    let n = hex(other).len() as int;
    if s == t {
        assert(s.subrange(5, 5 + m) =~= hex(root));
        assert(t.subrange(5, 5 + n) =~= hex(other));
        if uuid is Some {
            assert(s[5 + m] == ';');
        }
        if also is Some {
            assert(t[5 + n] == ';');
        }
        if m < n {
            assert(t[5 + m] == hex(other)[m]);
            assert(is_hex(hex(other)[m]));
        } else if n < m {
            assert(s[5 + n] == hex(root)[n]);
            assert(is_hex(hex(root)[n]));
        }
        assert(m == n);
        if let (Some(u), Some(v)) = (uuid, also) {
            assert(s.subrange(11 + m, s.len() as int) =~= hex(u));
            assert(t.subrange(11 + n, t.len() as int) =~= hex(v));
            law_bytes_are_told_apart_in_hexadecimal(u, v);
        }
    }
}

/// A filesystem's UUID is the bytes that follow its length, as many as that says
/// and sixteen at most; there is none where there are none, or where the call
/// failed.
pub proof fn law_which_bytes_are_the_uuid(buf: Seq<u8>)
    requires
        buf.len() == 17,
    ensures
        uuid_of(false, buf) is None,
        buf[0] == 0 ==> uuid_of(true, buf) is None,
        buf[0] > 0 ==> (uuid_of(true, buf) matches Some(uuid) && uuid.len() == if buf[0] <= 16 {
            buf[0] as int
        } else {
            16
        } && forall|i: int| 0 <= i < uuid.len() ==> #[trigger] uuid[i] == buf[i + 1]),
{
}

/// Only a move out of an item is renewed: it takes the object that stands at the
/// absolute place it last proved, where that carries the item's id, and goes
/// otherwise. Every other row stays as it is.
pub proof fn law_which_rows_are_renewed(row: OutboxRowModel, carries: Option<Seq<u8>>, inode: InodeModel)
    ensures
        row.kind != OutboxKind::MoveOut || row.item_id is None ==> renewal_of(row, Some((carries, inode)))
            is Keep && renewal_of(row, None) is Keep,
        row.kind == OutboxKind::MoveOut && row.item_id is Some ==> {
            let absolute = row.target_name matches Some(at) && at.len() > 0 && at[0] == '/';
            &&& renewal_of(row, None) is Drop
            &&& renewal_of(row, Some((carries, inode))) == if absolute && carries == Some(
                encode_utf8(row.item_id->0),
            ) {
                RenewalModel::Amend(inode)
            } else {
                RenewalModel::Drop
            }
        },
{
}

/// The rows that go are counted one by one.
pub proof fn law_rows_that_go_are_counted(renewals: Seq<RenewalModel>, n: int)
    requires
        0 <= n < renewals.len(),
    ensures
        dropped_upto(renewals, 0) == 0,
        dropped_upto(renewals, n + 1) == dropped_upto(renewals, n) + (if renewals[n] is Drop {
            1int
        } else {
            0int
        }),
{
}

} // verus!
