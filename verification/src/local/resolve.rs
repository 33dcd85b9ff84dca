//! Which of the entries carrying an item id is the item, and what the others
//! are.

use vstd::prelude::*;
use vstd::string::*;
use crate::local::content::{backing_up, estranging};
use crate::local::entry::{inode_of, Entry, EntryModel};
use crate::local::facts::{place_of, Place, PlaceModel, Stop, StopModel};
use crate::local::ignore::ignored;
use crate::local::removal::{enough, object_of, removing};
use crate::local::run::{
    choosing, consuming, entry_at, gave, holding_back, index_at, rechecking, rechecking_at,
    skipping, went, Run, RunModel, Examiner, SceneModel, Settle,
};
use crate::local::world::{being_created, expected_rel, item_of, pending_of, Item};
use crate::os::Type;
use crate::path::{dir_of, path_lt, PathModel, RelPath};
use crate::tree::{same_inode, FileHandle, Inode, Kind, OutboxKind, RowModel};

verus! {

/// All of `list` from `k` on are strangers.
pub open spec fn estranging_all(sc: SceneModel, run: RunModel, list: Seq<usize>, k: int) -> Result<
    RunModel,
    StopModel,
>
    decreases list.len() - k,
{
    if k >= list.len() {
        Ok(run)
    } else {
        match estranging(sc, run, list[k]) {
            Err(stop) => Err(stop),
            Ok(next) => estranging_all(sc, next, list, k + 1),
        }
    }
}

/// Entries from `k` on whose id the base does not know: one a reconcile is
/// placing is looked at again, one being created is its replay's, any other is
/// a stranger.
pub open spec fn meeting_unknown(
    sc: SceneModel,
    run: RunModel,
    id: Seq<char>,
    list: Seq<usize>,
    k: int,
) -> Result<RunModel, StopModel>
    decreases list.len() - k,
{
    if k >= list.len() {
        Ok(run)
    } else {
        let e = run.entries[list[k] as int];
        if sc.w.staging.contains(id) {
            meeting_unknown(sc, rechecking(run, e), id, list, k + 1)
        } else if pending_of(sc.w, e) is Some {
            meeting_unknown(sc, run, id, list, k + 1)
        } else {
            match estranging(sc, run, list[k]) {
                Err(stop) => Err(stop),
                Ok(next) => meeting_unknown(sc, next, id, list, k + 1),
            }
        }
    }
}

/// The entries of `list` from `k` on that are of the item's kind, added to
/// `same`; the others are not the item.
pub open spec fn of_kind(
    sc: SceneModel,
    run: RunModel,
    want: Type,
    list: Seq<usize>,
    k: int,
    same: Seq<usize>,
) -> Result<(RunModel, Seq<usize>), StopModel>
    decreases list.len() - k,
{
    if k >= list.len() {
        Ok((run, same))
    } else if run.entries[list[k] as int].ty == want {
        of_kind(sc, run, want, list, k + 1, same.push(list[k]))
    } else {
        match estranging(sc, run, list[k]) {
            Err(stop) => Err(stop),
            Ok(next) => of_kind(sc, next, want, list, k + 1, same),
        }
    }
}

/// The group of entry `i`'s object, from `g` on.
pub open spec fn group_from(entries: Seq<EntryModel>, groups: Seq<Seq<usize>>, i: usize, g: int) -> int
    decreases groups.len() - g,
{
    if g >= groups.len() {
        groups.len() as int
    } else if same_inode(inode_of(entries[groups[g][0] as int]), inode_of(entries[i as int])) {
        g
    } else {
        group_from(entries, groups, i, g + 1)
    }
}

/// `groups` with entry `i` in the group of its object.
pub open spec fn grouped(entries: Seq<EntryModel>, groups: Seq<Seq<usize>>, i: usize) -> Seq<Seq<usize>> {
    let g = group_from(entries, groups, i, 0);
    if g < groups.len() {
        groups.update(g, groups[g].push(i))
    } else {
        groups.push(seq![i])
    }
}

/// The entries of `same` from `k` on, by object: one inode may have several
/// names.
pub open spec fn grouping(
    entries: Seq<EntryModel>,
    same: Seq<usize>,
    k: int,
    groups: Seq<Seq<usize>>,
) -> Seq<Seq<usize>>
    decreases same.len() - k,
{
    if k >= same.len() {
        groups
    } else {
        grouping(entries, same, k + 1, grouped(entries, groups, same[k]))
    }
}

/// Where entry `x` goes among `s`, sorted by path, from `p` on.
pub open spec fn path_slot(entries: Seq<EntryModel>, s: Seq<usize>, x: usize, p: int) -> int
    decreases s.len() - p,
{
    if p >= s.len() {
        s.len() as int
    } else if path_lt(entries[x as int].rel, entries[s[p] as int].rel) {
        p
    } else {
        path_slot(entries, s, x, p + 1)
    }
}

/// The first `n` of `s`, by path.
pub open spec fn by_path(entries: Seq<EntryModel>, s: Seq<usize>, n: int) -> Seq<usize>
    decreases n,
{
    if n <= 0 {
        Seq::empty()
    } else {
        let rest = by_path(entries, s, n - 1);
        rest.insert(path_slot(entries, rest, s[n - 1], 0), s[n - 1])
    }
}

/// The groups of the entries `same`, each by path.
pub open spec fn groups_of(entries: Seq<EntryModel>, same: Seq<usize>) -> Seq<Seq<usize>> {
    let groups = grouping(entries, same, 0, Seq::empty());
    Seq::new(groups.len(), |g: int| by_path(entries, groups[g], groups[g].len() as int))
}

/// Some name of the group is at `rel`.
pub open spec fn is_at(entries: Seq<EntryModel>, group: Seq<usize>, rel: Option<PathModel>) -> bool {
    rel matches Some(r) && exists|k: int|
        0 <= k < group.len() && entries[#[trigger] group[k] as int].rel == r
}

/// The first group with a name at `rel`, from `g` on.
pub open spec fn group_at(
    entries: Seq<EntryModel>,
    groups: Seq<Seq<usize>>,
    rel: Option<PathModel>,
    g: int,
) -> Option<int>
    decreases groups.len() - g,
{
    if g >= groups.len() {
        None
    } else if is_at(entries, groups[g], rel) {
        Some(g)
    } else {
        group_at(entries, groups, rel, g + 1)
    }
}

/// The first group whose object is `handle`, from `g` on.
pub open spec fn group_of_handle(
    entries: Seq<EntryModel>,
    groups: Seq<Seq<usize>>,
    handle: Seq<u8>,
    g: int,
) -> Option<int>
    decreases groups.len() - g,
{
    if g >= groups.len() {
        None
    } else if entries[groups[g][0] as int].handle == Some(handle) {
        Some(g)
    } else {
        group_of_handle(entries, groups, handle, g + 1)
    }
}

/// Every name of the group is in `dir`, and one of them is ignored.
pub open spec fn is_beside(sc: SceneModel, entries: Seq<EntryModel>, group: Seq<usize>, dir: PathModel) -> bool {
    &&& forall|k: int| 0 <= k < group.len() ==> dir_of(entries[#[trigger] group[k] as int].rel) == dir
    &&& exists|k: int|
        0 <= k < group.len() && ignored(sc.w.ignore, entries[#[trigger] group[k] as int].name)
}

/// Rename to a backup, write new (vim's `file~`): the recorded inode, `group`,
/// sits under an ignored name beside where the item is expected, and another
/// file stands there — a new one, or one that copied the old one's attributes,
/// and not one the worker is creating right now.
pub open spec fn backup_newcomer(
    sc: SceneModel,
    run: RunModel,
    id: Seq<char>,
    group: Seq<usize>,
    rel: PathModel,
) -> Option<usize> {
    match index_at(run.entries, rel) {
        None => None,
        Some(s) => {
            let e = run.entries[s as int];
            if is_beside(sc, run.entries, group, dir_of(rel)) && !is_at(run.entries, group, Some(rel))
                && !group.contains(s) && e.ty == Type::File && (e.id is None || e.id == Some(id))
                && !being_created(sc.w, e) {
                Some(s)
            } else {
                None
            }
        },
    }
}

/// The group that is taken for the item, when the entries alone tell: the one
/// whose inode is recorded, or the one that stands where the item is.
pub open spec fn evident(
    entries: Seq<EntryModel>,
    groups: Seq<Seq<usize>>,
    handle: Option<Seq<u8>>,
    expected: Option<PathModel>,
    located: Option<PathModel>,
) -> Option<int> {
    let original = match handle {
        Some(h) => group_of_handle(entries, groups, h, 0),
        None => None,
    };
    match original {
        Some(g) => Some(g),
        None => match group_at(entries, groups, expected, 0) {
            Some(g) => Some(g),
            None => group_at(entries, groups, located, 0),
        },
    }
}

/// The entry of the group that is at `rel`, from `k` on; else its first.
pub open spec fn name_in_group(
    entries: Seq<EntryModel>,
    group: Seq<usize>,
    rel: Option<PathModel>,
    k: int,
) -> usize
    decreases group.len() - k,
{
    if k >= group.len() {
        group[0]
    } else if rel == Some(entries[group[k] as int].rel) {
        group[k]
    } else {
        name_in_group(entries, group, rel, k + 1)
    }
}

/// The other names of the item's object, from `k` on: a hard link OneDrive
/// cannot hold.
pub open spec fn linking(sc: SceneModel, run: RunModel, group: Seq<usize>, chosen: usize, k: int) -> RunModel
    decreases group.len() - k,
{
    if k >= group.len() {
        run
    } else if group[k] == chosen {
        linking(sc, run, group, chosen, k + 1)
    } else {
        let e = run.entries[group[k] as int];
        let taken = consuming(run, group[k]);
        linking(
            sc,
            if ignored(sc.w.ignore, e.name) {
                taken
            } else {
                skipping(taken, e.rel, "hard-link"@)
            },
            group,
            chosen,
            k + 1,
        )
    }
}

/// The other objects with its id, from group `g` on: copies that kept its
/// attributes.
pub open spec fn estranging_others(
    sc: SceneModel,
    run: RunModel,
    groups: Seq<Seq<usize>>,
    pick: int,
    g: int,
) -> Result<RunModel, StopModel>
    decreases groups.len() - g,
{
    if g >= groups.len() {
        Ok(run)
    } else if g == pick {
        estranging_others(sc, run, groups, pick, g + 1)
    } else {
        match estranging_all(sc, run, groups[g], 0) {
            Err(stop) => Err(stop),
            Ok(next) => estranging_others(sc, next, groups, pick, g + 1),
        }
    }
}

/// Group `pick` is the item: its name where the item is expected is the item's
/// entry, its other names are links, and the other groups copies.
pub open spec fn taking(
    sc: SceneModel,
    run: RunModel,
    id: Seq<char>,
    groups: Seq<Seq<usize>>,
    pick: int,
    expected: Option<PathModel>,
) -> Result<(RunModel, Option<usize>), StopModel> {
    let group = groups[pick];
    let chosen = name_in_group(run.entries, group, expected, 0);
    let linked = linking(sc, consuming(choosing(run, id, chosen), chosen), group, chosen, 0);
    match estranging_others(sc, linked, groups, pick, 0) {
        Err(stop) => Err(stop),
        Ok(next) => Ok((next, Some(chosen))),
    }
}

/// None of the groups is the inode the base records, and none stands where the
/// item is: where is the recorded one? Gone, or none recorded, the first by
/// path is taken; outside the folder, these are copies it left behind; and as
/// long as it is elsewhere in the folder or cannot be placed, nothing is
/// decided.
pub open spec fn asking(
    sc: SceneModel,
    run: RunModel,
    id: Seq<char>,
    base: RowModel,
    same: Seq<usize>,
    groups: Seq<Seq<usize>>,
    handle: Option<Seq<u8>>,
    expected: Option<PathModel>,
) -> Result<(RunModel, Option<usize>), StopModel> {
    match handle {
        None => taking(sc, run, id, groups, 0, expected),
        Some(h) => match place_of(sc.w, sc.f, h) {
            Err(stop) => Err(stop),
            Ok(PlaceModel::Gone) => taking(sc, run, id, groups, 0, expected),
            Ok(PlaceModel::Outside(to)) => match estranging_all(sc, run, same, 0) {
                Err(stop) => Err(stop),
                Ok(copies) => match expected {
                    None => Ok((RunModel { decided: copies.decided.insert(id), ..copies }, None)),
                    Some(rel) => match removing(
                        sc,
                        copies,
                        OutboxKind::MoveOut,
                        id,
                        base,
                        rel,
                        Some(object_of(h)),
                        Some(to),
                        enough(sc.w),
                    ) {
                        Err(stop) => Err(stop),
                        Ok((next, _)) => Ok(
                            (RunModel { decided: next.decided.insert(id), ..next }, None),
                        ),
                    },
                },
            },
            Ok(PlaceModel::Inside(now)) => Ok(
                (holding_back(rechecking_at(run, now), id, Settle::Wait, false), None),
            ),
            Ok(PlaceModel::Unknown) => Ok((holding_back(run, id, Settle::Wait, true), None)),
        },
    }
}

/// Which of the entries `list`, all carrying item `id`'s id, is the item.
pub open spec fn resolving(sc: SceneModel, run: RunModel, id: Seq<char>, list: Seq<usize>) -> Result<
    (RunModel, Option<usize>),
    StopModel,
> {
    match item_of(sc.w, id) {
        None => match meeting_unknown(sc, run, id, list, 0) {
            Err(stop) => Err(stop),
            Ok(next) => Ok((next, None)),
        },
        Some(item) => {
            let base = item.row;
            let want = if base.kind == Kind::Folder {
                Type::Dir
            } else {
                Type::File
            };
            match of_kind(sc, run, want, list, 0, Seq::empty()) {
                Err(stop) => Err(stop),
                Ok((run, same)) => if same.len() == 0 {
                    Ok((run, None))
                } else {
                    let groups = groups_of(run.entries, same);
                    let expected = expected_rel(sc.w, id);
                    let original = match item.handle {
                        Some(h) => group_of_handle(run.entries, groups, h, 0),
                        None => None,
                    };
                    let backup = match (original, expected) {
                        (Some(g), Some(rel)) => if base.kind == Kind::File {
                            backup_newcomer(sc, run, id, groups[g], rel)
                        } else {
                            None
                        },
                        _ => None,
                    };
                    match backup {
                        Some(s) => match backing_up(sc, run, id, base, groups[original->0], s) {
                            Err(stop) => Err(stop),
                            Ok(next) => Ok((next, None)),
                        },
                        None => match evident(
                            run.entries,
                            groups,
                            item.handle,
                            expected,
                            item.located,
                        ) {
                            Some(pick) => taking(sc, run, id, groups, pick, expected),
                            None => asking(
                                sc,
                                run,
                                id,
                                base,
                                same,
                                groups,
                                item.handle,
                                expected,
                            ),
                        },
                    }
                },
            }
        },
    }
}

/// All of `list` number entries.
pub open spec fn in_range(list: Seq<usize>, n: nat) -> bool {
    forall|k: int| 0 <= k < list.len() ==> #[trigger] list[k] < n
}

/// The groups, as lists of entries.
pub open spec fn lists(groups: Seq<Vec<usize>>) -> Seq<Seq<usize>> {
    Seq::new(groups.len(), |g: int| groups[g]@)
}

/// Every group has an entry, and all number entries.
pub open spec fn groups_in_range(groups: Seq<Seq<usize>>, n: nat) -> bool {
    forall|g: int| 0 <= g < groups.len() ==> (#[trigger] groups[g]).len() > 0 && in_range(groups[g], n)
}

fn group(entries: &Vec<Entry>, same: &Vec<usize>) -> (r: Vec<Vec<usize>>)
    requires
        in_range(same@, entries@.len()),
    ensures
        lists(r@) == grouping(entries.deep_view(), same@, 0, Seq::empty()),
        groups_in_range(lists(r@), entries@.len()),
        same@.len() > 0 ==> r@.len() > 0,
{
    let ghost es = entries.deep_view();
    let mut groups: Vec<Vec<usize>> = Vec::new();
    assert(lists(groups@) =~= Seq::<Seq<usize>>::empty());
    let mut k: usize = 0;
    while k < same.len()
        invariant
            k <= same@.len(),
            es == entries.deep_view(),
            in_range(same@, entries@.len()),
            groups_in_range(lists(groups@), entries@.len()),
            grouping(es, same@, 0, Seq::empty()) == grouping(es, same@, k as int, lists(groups@)),
            k > 0 ==> groups@.len() > 0,
        decreases same@.len() - k,
    {
        let i = same[k];
        let ghost before = lists(groups@);
        let mut g: usize = 0;
        while g < groups.len() && !entries[groups[g][0]].same_object(&entries[i])
            invariant
                es == entries.deep_view(),
                i < entries@.len(),
                g <= groups@.len(),
                before == lists(groups@),
                groups_in_range(before, entries@.len()),
                group_from(es, before, i, 0) == group_from(es, before, i, g as int),
                forall|h: int| 0 <= h < groups@.len() ==> (#[trigger] groups@[h])@ == before[h],
            decreases groups@.len() - g,
        {
            assert(groups@[g as int]@ == before[g as int]);
            g += 1;
        }
        proof {
            if g < groups@.len() {
                assert(groups@[g as int]@ == before[g as int]);
            }
        }
        if g < groups.len() {
            let mut one: Vec<usize> = Vec::new();
            std::mem::swap(&mut one, &mut groups[g]);
            one.push(i);
            groups.set(g, one);
            assert(lists(groups@) =~= before.update(g as int, before[g as int].push(i)));
        } else {
            let mut one: Vec<usize> = Vec::new();
            one.push(i);
            assert(one@ =~= seq![i]);
            groups.push(one);
            assert(lists(groups@) =~= before.push(seq![i]));
        }
        proof {
            let now = lists(groups@);
            assert(now == grouped(es, before, i));
            assert forall|h: int| 0 <= h < now.len() implies (#[trigger] now[h]).len() > 0 && in_range(
                now[h],
                entries@.len(),
            ) by {
                if h < before.len() {
                    assert(in_range(before[h], entries@.len()));
                    assert(before[h].len() > 0);
                }
                assert forall|m: int| 0 <= m < now[h].len() implies #[trigger] now[h][m]
                    < entries@.len() by {
                    if h < before.len() && m < before[h].len() {
                        assert(now[h][m] == before[h][m]);
                    }
                }
            }
        }
        k += 1;
    }
    groups
}

fn sort_by_path(entries: &Vec<Entry>, list: &Vec<usize>) -> (r: Vec<usize>)
    requires
        in_range(list@, entries@.len()),
    ensures
        r@ == by_path(entries.deep_view(), list@, list@.len() as int),
        in_range(r@, entries@.len()),
        r@.len() == list@.len(),
{
    let ghost es = entries.deep_view();
    let mut out: Vec<usize> = Vec::new();
    let mut n: usize = 0;
    while n < list.len()
        invariant
            n <= list@.len(),
            es == entries.deep_view(),
            in_range(list@, entries@.len()),
            in_range(out@, entries@.len()),
            out@.len() == n,
            out@ == by_path(es, list@, n as int),
        decreases list@.len() - n,
    {
        let x = list[n];
        let mut p: usize = 0;
        while p < out.len() && !entries[x].rel.before(&entries[out[p]].rel)
            invariant
                es == entries.deep_view(),
                x < entries@.len(),
                p <= out@.len(),
                in_range(out@, entries@.len()),
                path_slot(es, out@, x, 0) == path_slot(es, out@, x, p as int),
            decreases out@.len() - p,
        {
            assert(es[x as int] == entries@[x as int]@);
            assert(es[out@[p as int] as int] == entries@[out@[p as int] as int]@);
            p += 1;
        }
        proof {
            if p < out@.len() {
                assert(es[x as int] == entries@[x as int]@);
                assert(es[out@[p as int] as int] == entries@[out@[p as int] as int]@);
            }
        }
        let ghost before = out@;
        out.insert(p, x);
        proof {
            assert forall|m: int| 0 <= m < out@.len() implies #[trigger] out@[m] < entries@.len() by {
                if m < p {
                    assert(out@[m] == before[m]);
                } else if m > p {
                    assert(out@[m] == before[m - 1]);
                }
            }
        }
        n += 1;
    }
    out
}

fn sorted_groups(entries: &Vec<Entry>, same: &Vec<usize>) -> (r: Vec<Vec<usize>>)
    requires
        in_range(same@, entries@.len()),
    ensures
        lists(r@) == groups_of(entries.deep_view(), same@),
        groups_in_range(lists(r@), entries@.len()),
        same@.len() > 0 ==> r@.len() > 0,
{
    let groups = group(entries, same);
    let ghost plain = lists(groups@);
    let mut out: Vec<Vec<usize>> = Vec::new();
    let mut g: usize = 0;
    while g < groups.len()
        invariant
            g <= groups@.len(),
            out@.len() == g,
            plain == lists(groups@),
            groups_in_range(plain, entries@.len()),
            forall|h: int|
                0 <= h < g ==> (#[trigger] out@[h])@ == by_path(
                    entries.deep_view(),
                    plain[h],
                    plain[h].len() as int,
                ) && out@[h]@.len() > 0 && in_range(out@[h]@, entries@.len()),
        decreases groups@.len() - g,
    {
        assert(plain[g as int] == groups@[g as int]@);
        out.push(sort_by_path(entries, &groups[g]));
        g += 1;
    }
    proof {
        assert(lists(out@) =~= groups_of(entries.deep_view(), same@));
        let now = lists(out@);
        assert forall|h: int| 0 <= h < now.len() implies (#[trigger] now[h]).len() > 0 && in_range(
            now[h],
            entries@.len(),
        ) by {
            assert(now[h] == out@[h]@);
        }
    }
    out
}

fn entry_in_group(entries: &Vec<Entry>, group: &Vec<usize>, rel: &Option<RelPath>) -> (r: usize)
    requires
        in_range(group@, entries@.len()),
        group@.len() > 0,
    ensures
        r == name_in_group(entries.deep_view(), group@, rel.deep_view(), 0),
        r < entries@.len(),
{
    let at = match rel {
        None => {
            proof {
                lemma_no_name(entries.deep_view(), group@, 0);
            }
            return group[0];
        },
        Some(at) => at,
    };
    let mut k: usize = 0;
    while k < group.len()
        invariant
            k <= group@.len(),
            in_range(group@, entries@.len()),
            rel.deep_view() == Some(at@),
            name_in_group(entries.deep_view(), group@, rel.deep_view(), 0) == name_in_group(
                entries.deep_view(),
                group@,
                rel.deep_view(),
                k as int,
            ),
        decreases group@.len() - k,
    {
        let i = group[k];
        assert(entries.deep_view()[i as int] == entries@[i as int]@);
        if entries[i].rel.same(at) {
            return i;
        }
        k += 1;
    }
    group[0]
}

/// With no place to look for, a group's entry is its first.
proof fn lemma_no_name(entries: Seq<EntryModel>, group: Seq<usize>, k: int)
    ensures
        name_in_group(entries, group, None, k) == group[0],
    decreases group.len() - k,
{
    if k < group.len() {
        lemma_no_name(entries, group, k + 1);
    }
}

fn group_is_at(entries: &Vec<Entry>, group: &Vec<usize>, rel: &Option<RelPath>) -> (r: bool)
    requires
        in_range(group@, entries@.len()),
    ensures
        r == is_at(entries.deep_view(), group@, rel.deep_view()),
{
    let at = match rel {
        None => return false,
        Some(at) => at,
    };
    let mut k: usize = 0;
    while k < group.len()
        invariant
            k <= group@.len(),
            in_range(group@, entries@.len()),
            rel.deep_view() == Some(at@),
            forall|m: int| 0 <= m < k ==> entries.deep_view()[#[trigger] group@[m] as int].rel != at@,
        decreases group@.len() - k,
    {
        assert(entries.deep_view()[group@[k as int] as int] == entries@[group@[k as int] as int]@);
        if entries[group[k]].rel.same(at) {
            return true;
        }
        k += 1;
    }
    false
}

fn find_group_at(entries: &Vec<Entry>, groups: &Vec<Vec<usize>>, rel: &Option<RelPath>) -> (r: Option<usize>)
    requires
        groups_in_range(lists(groups@), entries@.len()),
    ensures
        match r {
            Some(g) => group_at(entries.deep_view(), lists(groups@), rel.deep_view(), 0) == Some(
                g as int,
            ) && g < groups@.len(),
            None => group_at(entries.deep_view(), lists(groups@), rel.deep_view(), 0) is None,
        },
{
    let mut g: usize = 0;
    while g < groups.len()
        invariant
            g <= groups@.len(),
            groups_in_range(lists(groups@), entries@.len()),
            group_at(entries.deep_view(), lists(groups@), rel.deep_view(), 0) == group_at(
                entries.deep_view(),
                lists(groups@),
                rel.deep_view(),
                g as int,
            ),
        decreases groups@.len() - g,
    {
        assert(lists(groups@)[g as int] == groups@[g as int]@);
        if group_is_at(entries, &groups[g], rel) {
            return Some(g);
        }
        g += 1;
    }
    None
}

fn find_group_of_handle(entries: &Vec<Entry>, groups: &Vec<Vec<usize>>, handle: &FileHandle) -> (r: Option<
    usize,
>)
    requires
        groups_in_range(lists(groups@), entries@.len()),
    ensures
        match r {
            Some(g) => group_of_handle(entries.deep_view(), lists(groups@), handle@, 0) == Some(
                g as int,
            ) && g < groups@.len(),
            None => group_of_handle(entries.deep_view(), lists(groups@), handle@, 0) is None,
        },
{
    let mut g: usize = 0;
    while g < groups.len()
        invariant
            g <= groups@.len(),
            groups_in_range(lists(groups@), entries@.len()),
            group_of_handle(entries.deep_view(), lists(groups@), handle@, 0) == group_of_handle(
                entries.deep_view(),
                lists(groups@),
                handle@,
                g as int,
            ),
        decreases groups@.len() - g,
    {
        assert(lists(groups@)[g as int] == groups@[g as int]@);
        let first = groups[g][0];
        assert(entries.deep_view()[first as int] == entries@[first as int]@);
        if let Some(h) = &entries[first].handle {
            if h.same(handle) {
                return Some(g);
            }
        }
        g += 1;
    }
    None
}

impl<'a> Examiner<'a> {
    fn strangers(&self, run: &mut Run, list: &Vec<usize>) -> (r: Result<(), Stop>)
        requires
            old(run).wf(),
            in_range(list@, old(run).entries@.len()),
        ensures
            final(run).wf(),
            final(run).entries@.len() == old(run).entries@.len(),
            went(r, final(run)@) == estranging_all(self@, old(run)@, list@, 0),
    {
        let ghost first = run@;
        let mut k: usize = 0;
        while k < list.len()
            invariant
                k <= list@.len(),
                run.wf(),
                run.entries@.len() == old(run).entries@.len(),
                in_range(list@, run.entries@.len()),
                first == old(run)@,
                estranging_all(self@, first, list@, 0) == estranging_all(
                    self@,
                    run@,
                    list@,
                    k as int,
                ),
            decreases list@.len() - k,
        {
            match self.stranger(run, list[k]) {
                Err(stop) => return Err(stop),
                Ok(_) => {},
            }
            k += 1;
        }
        Ok(())
    }

    fn unknown(&self, run: &mut Run, id: &str, list: &Vec<usize>) -> (r: Result<(), Stop>)
        requires
            old(run).wf(),
            in_range(list@, old(run).entries@.len()),
        ensures
            final(run).wf(),
            final(run).entries@.len() == old(run).entries@.len(),
            went(r, final(run)@) == meeting_unknown(self@, old(run)@, id@, list@, 0),
    {
        let ghost first = run@;
        let placing = self.world.placing(id);
        let mut k: usize = 0;
        while k < list.len()
            invariant
                k <= list@.len(),
                run.wf(),
                run.entries@.len() == old(run).entries@.len(),
                in_range(list@, run.entries@.len()),
                first == old(run)@,
                placing == self@.w.staging.contains(id@),
                meeting_unknown(self@, first, id@, list@, 0) == meeting_unknown(
                    self@,
                    run@,
                    id@,
                    list@,
                    k as int,
                ),
            decreases list@.len() - k,
        {
            let i = list[k];
            assert(run@.entries[i as int] == run.entries@[i as int]@);
            if placing {
                // A reconcile is placing it right now; its swap follows.
                run.recheck(i);
            } else if self.world.pending(&run.entries[i]).is_some() {
                // A create or mkdir between its two commit steps: its replay
                // adopts it.
            } else {
                match self.stranger(run, i) {
                    Err(stop) => return Err(stop),
                    Ok(_) => {},
                }
            }
            k += 1;
        }
        Ok(())
    }

    fn of_kind(&self, run: &mut Run, want: Type, list: &Vec<usize>) -> (r: Result<Vec<usize>, Stop>)
        requires
            old(run).wf(),
            in_range(list@, old(run).entries@.len()),
        ensures
            final(run).wf(),
            final(run).entries@.len() == old(run).entries@.len(),
            match r {
                Ok(same) => of_kind(self@, old(run)@, want, list@, 0, Seq::empty()) == Ok::<
                    (RunModel, Seq<usize>),
                    StopModel,
                >((final(run)@, same@)) && in_range(same@, final(run).entries@.len()),
                Err(stop) => of_kind(self@, old(run)@, want, list@, 0, Seq::empty()) == Err::<
                    (RunModel, Seq<usize>),
                    StopModel,
                >(stop@),
            },
    {
        let ghost first = run@;
        let mut same: Vec<usize> = Vec::new();
        let mut k: usize = 0;
        while k < list.len()
            invariant
                k <= list@.len(),
                run.wf(),
                run.entries@.len() == old(run).entries@.len(),
                in_range(list@, run.entries@.len()),
                in_range(same@, run.entries@.len()),
                first == old(run)@,
                of_kind(self@, first, want, list@, 0, Seq::empty()) == of_kind(
                    self@,
                    run@,
                    want,
                    list@,
                    k as int,
                    same@,
                ),
            decreases list@.len() - k,
        {
            let i = list[k];
            assert(run@.entries[i as int] == run.entries@[i as int]@);
            if run.entries[i].ty == want {
                same.push(i);
            } else {
                // Its own id with the other kind: not the item.
                match self.stranger(run, i) {
                    Err(stop) => return Err(stop),
                    Ok(_) => {},
                }
            }
            k += 1;
        }
        Ok(same)
    }

    fn beside(&self, entries: &Vec<Entry>, group: &Vec<usize>, dir: &RelPath) -> (r: bool)
        requires
            in_range(group@, entries@.len()),
        ensures
            r == is_beside(self@, entries.deep_view(), group@, dir@),
    {
        let ghost es = entries.deep_view();
        let mut any = false;
        let mut k: usize = 0;
        while k < group.len()
            invariant
                k <= group@.len(),
                es == entries.deep_view(),
                in_range(group@, entries@.len()),
                forall|m: int| 0 <= m < k ==> dir_of(es[#[trigger] group@[m] as int].rel) == dir@,
                any == exists|m: int|
                    0 <= m < k && ignored(self@.w.ignore, es[#[trigger] group@[m] as int].name),
            decreases group@.len() - k,
        {
            let e = &entries[group[k]];
            assert(es[group@[k as int] as int] == e@);
            if !e.dir_rel().same(dir) {
                return false;
            }
            if self.world.ignore.matches(&e.name) {
                any = true;
            }
            k += 1;
        }
        any
    }

    fn backup_newcomer(&self, run: &Run, id: &str, group: &Vec<usize>, rel: &RelPath) -> (r: Option<usize>)
        requires
            in_range(group@, run.entries@.len()),
        ensures
            r == backup_newcomer(self@, run@, id@, group@, rel@),
            r matches Some(s) ==> s < run.entries@.len(),
    {
        let s = match entry_at(&run.entries, rel) {
            None => return None,
            Some(s) => s,
        };
        let e = &run.entries[s];
        assert(run@.entries[s as int] == e@);
        let mut inside = false;
        let mut k: usize = 0;
        while k < group.len()
            invariant
                k <= group@.len(),
                inside == exists|m: int| 0 <= m < k && group@[m] == s,
            decreases group@.len() - k,
        {
            if group[k] == s {
                inside = true;
            }
            k += 1;
        }
        let at = Some(rel.clone());
        let carries = match &e.id {
            None => true,
            Some(own) => crate::text::same_text(own.as_str(), id),
        };
        if self.beside(&run.entries, group, &rel.dir()) && !group_is_at(&run.entries, group, &at)
            && !inside && e.ty == Type::File && carries && !self.world.being_created(e) {
            Some(s)
        } else {
            None
        }
    }

    /// Group `pick` is the item.
    fn take(
        &self,
        run: &mut Run,
        id: &str,
        groups: &Vec<Vec<usize>>,
        pick: usize,
        expected: &Option<RelPath>,
    ) -> (r: Result<Option<usize>, Stop>)
        requires
            old(run).wf(),
            groups_in_range(lists(groups@), old(run).entries@.len()),
            pick < groups@.len(),
        ensures
            final(run).wf(),
            final(run).entries@.len() == old(run).entries@.len(),
            gave(r, final(run)@) == taking(
                self@,
                old(run)@,
                id@,
                lists(groups@),
                pick as int,
                expected.deep_view(),
            ),
            r matches Ok(Some(i)) ==> i < final(run).entries@.len(),
    {
        let ghost gs = lists(groups@);
        let ghost es = run@.entries;
        let group = &groups[pick];
        assert(gs[pick as int] == group@);
        let chosen = entry_in_group(&run.entries, group, expected);
        run.choose_entry(id, chosen);
        run.consume(chosen);
        let ghost first = run@;
        let mut m: usize = 0;
        while m < group.len()
            invariant
                m <= group@.len(),
                run.wf(),
                run.entries@.len() == old(run).entries@.len(),
                in_range(group@, run.entries@.len()),
                linking(self@, first, group@, chosen, 0) == linking(
                    self@,
                    run@,
                    group@,
                    chosen,
                    m as int,
                ),
            decreases group@.len() - m,
        {
            let i = group[m];
            if i != chosen {
                assert(run@.entries[i as int] == run.entries@[i as int]@);
                let ignored_name = self.world.ignore.matches(&run.entries[i].name);
                let rel = run.entries[i].rel.clone();
                run.consume(i);
                if !ignored_name {
                    run.skip(&rel, "hard-link");
                }
            }
            m += 1;
        }
        let ghost linked = run@;
        let mut g: usize = 0;
        while g < groups.len()
            invariant
                g <= groups@.len(),
                run.wf(),
                run.entries@.len() == old(run).entries@.len(),
                gs == lists(groups@),
                groups_in_range(gs, run.entries@.len()),
                taking(self@, old(run)@, id@, gs, pick as int, expected.deep_view())
                    == match estranging_others(self@, linked, gs, pick as int, 0) {
                    Err(stop) => Err(stop),
                    Ok(next) => Ok((next, Some(chosen))),
                },
                estranging_others(self@, linked, gs, pick as int, 0) == estranging_others(
                    self@,
                    run@,
                    gs,
                    pick as int,
                    g as int,
                ),
            decreases groups@.len() - g,
        {
            assert(gs[g as int] == groups@[g as int]@);
            if g != pick {
                match self.strangers(run, &groups[g]) {
                    Err(stop) => return Err(stop),
                    Ok(_) => {},
                }
            }
            g += 1;
        }
        Ok(Some(chosen))
    }

    /// Where is the recorded object of an item none of whose entries is it?
    fn ask(
        &self,
        run: &mut Run,
        id: &str,
        item: &Item,
        same: &Vec<usize>,
        groups: &Vec<Vec<usize>>,
        expected: &Option<RelPath>,
    ) -> (r: Result<Option<usize>, Stop>)
        requires
            self.wf(),
            old(run).wf(),
            groups_in_range(lists(groups@), old(run).entries@.len()),
            in_range(same@, old(run).entries@.len()),
            groups@.len() > 0,
        ensures
            final(run).wf(),
            final(run).entries@.len() == old(run).entries@.len(),
            gave(r, final(run)@) == asking(
                self@,
                old(run)@,
                id@,
                item@.row,
                same@,
                lists(groups@),
                item@.handle,
                expected.deep_view(),
            ),
            r matches Ok(Some(i)) ==> i < final(run).entries@.len(),
    {
        let handle = match &item.handle {
            None => return self.take(run, id, groups, 0, expected),
            Some(handle) => handle,
        };
        match self.world.place_of(self.facts, handle) {
            Err(stop) => Err(stop),
            Ok(Place::Gone) => self.take(run, id, groups, 0, expected),
            Ok(Place::Outside(to)) => {
                // It left the folder: these are copies it left behind.
                match self.strangers(run, same) {
                    Err(stop) => return Err(stop),
                    Ok(_) => {},
                }
                if let Some(rel) = expected {
                    let inode = Inode { dev: 0, ino: 0, handle: Some(handle.clone()) };
                    let fuel: u128 = 3 * self.world.items.len() as u128 + 4;
                    match self.removal(
                        run,
                        OutboxKind::MoveOut,
                        id,
                        &item.row,
                        rel,
                        Some(inode),
                        Some(&to),
                        fuel,
                    ) {
                        Err(stop) => return Err(stop),
                        Ok(_) => {},
                    }
                }
                run.decided.insert(id.to_owned());
                Ok(None)
            },
            Ok(Place::Inside(now)) => {
                run.recheck_at(&now);
                run.hold_back(id, Settle::Wait, false);
                Ok(None)
            },
            Ok(Place::Unknown) => {
                run.hold_back(id, Settle::Wait, true);
                Ok(None)
            },
        }
    }

    /// Decides which of the entries carrying `id` is the item, and what the
    /// others are. The item's entry, if one is.
    pub fn resolve(&self, run: &mut Run, id: &str, list: &Vec<usize>) -> (r: Result<Option<usize>, Stop>)
        requires
            self.wf(),
            old(run).wf(),
            in_range(list@, old(run).entries@.len()),
        ensures
            final(run).wf(),
            final(run).entries@.len() == old(run).entries@.len(),
            gave(r, final(run)@) == resolving(self@, old(run)@, id@, list@),
            r matches Ok(Some(i)) ==> i < final(run).entries@.len(),
    {
        let item = match self.world.item(id) {
            None => return match self.unknown(run, id, list) {
                Err(stop) => Err(stop),
                Ok(_) => Ok(None),
            },
            Some(item) => item,
        };
        let want = if item.row.kind == Kind::Folder {
            Type::Dir
        } else {
            Type::File
        };
        let same = match self.of_kind(run, want, list) {
            Err(stop) => return Err(stop),
            Ok(same) => same,
        };
        if same.len() == 0 {
            return Ok(None);
        }
        let groups = sorted_groups(&run.entries, &same);
        let expected = self.world.expected_rel(id);
        let original = match &item.handle {
            Some(h) => find_group_of_handle(&run.entries, &groups, h),
            None => None,
        };
        if item.row.kind == Kind::File {
            if let Some(g) = original {
                if let Some(rel) = &expected {
                    assert(lists(groups@)[g as int] == groups@[g as int]@);
                    if let Some(s) = self.backup_newcomer(run, id, &groups[g], rel) {
                        return match self.backup(run, id, &item.row, &groups[g], s) {
                            Err(stop) => Err(stop),
                            Ok(_) => Ok(None),
                        };
                    }
                }
            }
        }
        let pick = match original {
            Some(g) => Some(g),
            None => match find_group_at(&run.entries, &groups, &expected) {
                Some(g) => Some(g),
                None => find_group_at(&run.entries, &groups, &item.located),
            },
        };
        match pick {
            Some(pick) => self.take(run, id, &groups, pick, &expected),
            None => self.ask(run, id, item, &same, &groups, &expected),
        }
    }
}

} // verus!
