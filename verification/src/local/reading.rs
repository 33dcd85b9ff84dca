//! What is read of the folder for a batch, and what is looked for in it.

use vstd::prelude::*;
use vstd::utf8::encode_utf8;
use crate::local::batch::{BatchModel, ScopeModel};
use crate::local::content::dir_id;
use crate::local::decisions::begins_with;
use crate::local::entry::EntryModel;
use crate::local::facts::{Probed, StopModel};
use crate::local::ignore::ignored;
use crate::local::missing::{expected_in, in_scope, items_in, lists_item, row_in, with_rows_in};
use crate::local::run::{index_at, index_from, RunModel, SceneModel};
use crate::local::survey::{
    adding, barring, beginning, descends_into, ids_read, expected_of_handle, is_idle, looking,
    next_step, peeking_at, probing_ids, reading_all, seeded, seeding_dirs, seeding_objects,
    seeding_trees, seeds_of, taking_in, task_slot, with_own, Looked, Peeked, PeekedModel, Reading,
    ReadingModel, StepModel, SurveyModel, TaskModel,
};
use crate::local::unnamed::{being_made, in_ignored_dir};
use crate::local::world::{expected_rel, item_of, row_of, WorldModel};
use crate::os::Type;
use crate::path::{parent_of, PathModel, RelPath};
use crate::sorted::{inserted, lemma_inserted_all_holds, lemma_inserted_holds, without};
use crate::tree::{Kind, OutboxKind, Placement};

verus! {

/// Some task looks at `name` in the directory `rel`.
pub open spec fn looks_at(tasks: Seq<TaskModel>, rel: PathModel, name: Seq<u8>) -> bool {
    exists|t: int| 0 <= t < tasks.len() && #[trigger] task_looks_at(tasks[t], rel, name)
}

/// The task looks at `name` in the directory `rel`.
pub open spec fn task_looks_at(task: TaskModel, rel: PathModel, name: Seq<u8>) -> bool {
    task.rel == rel && match task.scope {
        ScopeModel::Whole => true,
        ScopeModel::Names(names) => names.contains(name),
    }
}

/// Some task looks at the whole directory `rel`, and at everything below it
/// where `below`.
pub open spec fn looks_whole(tasks: Seq<TaskModel>, rel: PathModel, below: bool) -> bool {
    exists|t: int| 0 <= t < tasks.len() && #[trigger] task_looks_whole(tasks[t], rel, below)
}

/// The task looks at the whole directory `rel`, and at everything below it where
/// `below`.
pub open spec fn task_looks_whole(task: TaskModel, rel: PathModel, below: bool) -> bool {
    task.rel == rel && task.scope is Whole && (below ==> task.recurse)
}

/// `next` looks at everything that `tasks` look at.
pub open spec fn looks_no_less(tasks: Seq<TaskModel>, next: Seq<TaskModel>) -> bool {
    &&& forall|at: PathModel, name: Seq<u8>|
        looks_at(tasks, at, name) ==> #[trigger] looks_at(next, at, name)
    &&& forall|at: PathModel, below: bool|
        looks_whole(tasks, at, below) ==> #[trigger] looks_whole(next, at, below)
}

proof fn lemma_kept(tasks: Seq<TaskModel>, mid: Seq<TaskModel>, next: Seq<TaskModel>)
    requires
        looks_no_less(tasks, mid),
        looks_no_less(mid, next),
    ensures
        looks_no_less(tasks, next),
{
    assert forall|at: PathModel, name: Seq<u8>| looks_at(tasks, at, name) implies #[trigger] looks_at(
        next,
        at,
        name,
    ) by {
        assert(looks_at(mid, at, name));
    }
    assert forall|at: PathModel, below: bool| looks_whole(tasks, at, below) implies #[trigger] looks_whole(
        next,
        at,
        below,
    ) by {
        assert(looks_whole(mid, at, below));
    }
}

proof fn lemma_slot(tasks: Seq<TaskModel>, rel: PathModel, p: int)
    requires
        0 <= p <= tasks.len(),
    ensures
        p <= task_slot(tasks, rel, p) <= tasks.len(),
    decreases tasks.len() - p,
{
    if p < tasks.len() {
        lemma_slot(tasks, rel, p + 1);
    }
}

/// One more place to look at leaves every other in the tasks.
proof fn lemma_seeded(tasks: Seq<TaskModel>, rel: PathModel, scope: ScopeModel, recurse: bool)
    ensures
        looks_no_less(tasks, seeded(tasks, rel, scope, recurse)),
        scope is Whole ==> looks_whole(seeded(tasks, rel, scope, recurse), rel, recurse),
        forall|name: Seq<u8>|
            (scope is Whole || (scope matches ScopeModel::Names(names) && names.contains(name)))
                ==> #[trigger] looks_at(seeded(tasks, rel, scope, recurse), rel, name),
{
    let p = task_slot(tasks, rel, 0);
    lemma_slot(tasks, rel, 0);
    let next = seeded(tasks, rel, scope, recurse);
    let merges = p < tasks.len() && tasks[p].rel == rel;
    assert forall|name: Seq<u8>| #[trigger] task_looks_at(next[p], rel, name) <==> scope is Whole || (
    scope matches ScopeModel::Names(names) && names.contains(name)) || (merges && task_looks_at(
        tasks[p],
        rel,
        name,
    )) by {
        if merges {
            if let (ScopeModel::Names(x), ScopeModel::Names(y)) = (tasks[p].scope, scope) {
                lemma_inserted_all_holds::<Vec<u8>>(x, y, name);
            }
        } else if let ScopeModel::Names(y) = scope {
            lemma_inserted_all_holds::<Vec<u8>>(Seq::empty(), y, name);
        }
    }
    assert forall|at: PathModel, name: Seq<u8>| looks_at(tasks, at, name) implies #[trigger] looks_at(
        next,
        at,
        name,
    ) by {
        let t = choose|t: int| 0 <= t < tasks.len() && #[trigger] task_looks_at(tasks[t], at, name);
        if merges {
            if t == p {
                assert(task_looks_at(next[p], rel, name));
            } else {
                assert(task_looks_at(next[t], at, name));
            }
        } else if t < p {
            assert(task_looks_at(next[t], at, name));
        } else {
            assert(next[t + 1] == tasks[t]);
            assert(task_looks_at(next[t + 1], at, name));
        }
    }
    assert forall|at: PathModel, below: bool| looks_whole(tasks, at, below) implies #[trigger] looks_whole(
        next,
        at,
        below,
    ) by {
        let t = choose|t: int| 0 <= t < tasks.len() && #[trigger] task_looks_whole(tasks[t], at, below);
        if merges || t < p {
            assert(task_looks_whole(next[t], at, below));
        } else {
            assert(next[t + 1] == tasks[t]);
            assert(task_looks_whole(next[t + 1], at, below));
        }
    }
    if scope is Whole {
        assert(task_looks_whole(next[p], rel, recurse));
    }
    assert forall|name: Seq<u8>|
        (scope is Whole || (scope matches ScopeModel::Names(names) && names.contains(name))) implies
        #[trigger] looks_at(next, rel, name) by {
        assert(task_looks_at(next[p], rel, name));
    }
}

proof fn lemma_seeding_dirs(
    tasks: Seq<TaskModel>,
    dirs: Map<PathModel, ScopeModel>,
    keys: Seq<PathModel>,
    k: int,
)
    requires
        0 <= k,
    ensures
        looks_no_less(tasks, seeding_dirs(tasks, dirs, keys, k)),
        forall|m: int|
            k <= m < keys.len() ==> match dirs[#[trigger] keys[m]] {
                ScopeModel::Whole => looks_whole(
                    seeding_dirs(tasks, dirs, keys, k),
                    keys[m],
                    false,
                ),
                ScopeModel::Names(names) => forall|name: Seq<u8>|
                    names.contains(name) ==> #[trigger] looks_at(
                        seeding_dirs(tasks, dirs, keys, k),
                        keys[m],
                        name,
                    ),
            },
    decreases keys.len() - k,
{
    if k < keys.len() {
        let mid = seeded(tasks, keys[k], dirs[keys[k]], false);
        let next = seeding_dirs(tasks, dirs, keys, k);
        lemma_seeded(tasks, keys[k], dirs[keys[k]], false);
        lemma_seeding_dirs(mid, dirs, keys, k + 1);
        lemma_kept(tasks, mid, next);
        assert(dirs[keys[k]] is Whole ==> looks_whole(next, keys[k], false));
        assert forall|name: Seq<u8>| dirs[keys[k]] matches ScopeModel::Names(names) && names.contains(
            name,
        ) implies #[trigger] looks_at(next, keys[k], name) by {
            assert(looks_at(mid, keys[k], name));
        }
    }
}

proof fn lemma_seeding_trees(tasks: Seq<TaskModel>, trees: Seq<PathModel>, k: int)
    requires
        0 <= k,
    ensures
        looks_no_less(tasks, seeding_trees(tasks, trees, k)),
        forall|m: int|
            k <= m < trees.len() ==> looks_whole(
                seeding_trees(tasks, trees, k),
                #[trigger] trees[m],
                true,
            ),
    decreases trees.len() - k,
{
    if k < trees.len() {
        let mid = seeded(tasks, trees[k], ScopeModel::Whole, true);
        lemma_seeded(tasks, trees[k], ScopeModel::Whole, true);
        lemma_seeding_trees(mid, trees, k + 1);
        lemma_kept(tasks, mid, seeding_trees(tasks, trees, k));
    }
}

proof fn lemma_seeding_objects(w: WorldModel, tasks: Seq<TaskModel>, objects: Seq<Seq<u8>>, k: int)
    requires
        0 <= k,
    ensures
        looks_no_less(tasks, seeding_objects(w, tasks, objects, k)),
        forall|m: int|
            k <= m < objects.len() ==> (expected_of_handle(w, #[trigger] objects[m]) matches Some(rel)
                ==> rel.len() > 0 ==> looks_at(
                seeding_objects(w, tasks, objects, k),
                rel.drop_last(),
                rel.last(),
            )),
    decreases objects.len() - k,
{
    if k < objects.len() {
        match expected_of_handle(w, objects[k]) {
            Some(rel) => if rel.len() > 0 {
                let one = ScopeModel::Names(seq![rel.last()]);
                lemma_seeded(tasks, rel.drop_last(), one, false);
                assert(seq![rel.last()][0] == rel.last());
                assert(seq![rel.last()].contains(rel.last()));
                let mid = seeded(tasks, rel.drop_last(), one, false);
                lemma_seeding_objects(w, mid, objects, k + 1);
                assert(looks_at(mid, rel.drop_last(), rel.last()));
                lemma_kept(tasks, mid, seeding_objects(w, tasks, objects, k));
            } else {
                lemma_seeding_objects(w, tasks, objects, k + 1);
            },
            None => lemma_seeding_objects(w, tasks, objects, k + 1),
        }
    }
}

/// Nothing of a batch is left out: a full one looks at the whole folder with
/// everything below; each directory it names is looked at, whole or at the names
/// it gives, each tree with everything below, and each object where it is
/// expected.
pub proof fn law_everything_a_batch_names_is_looked_at(
    w: WorldModel,
    batch: BatchModel,
    keys: Seq<PathModel>,
    m: int,
    name: Seq<u8>,
)
    ensures
        ({
            let tasks = seeds_of(w, batch, keys);
            &&& batch.full ==> looks_whole(tasks, Seq::empty(), true)
            &&& 0 <= m < keys.len() && batch.dirs[keys[m]] is Whole ==> looks_whole(
                tasks,
                keys[m],
                false,
            )
            &&& 0 <= m < keys.len() ==> (batch.dirs[keys[m]] matches ScopeModel::Names(names)
                ==> names.contains(name) ==> looks_at(tasks, keys[m], name))
            &&& 0 <= m < batch.trees.len() ==> looks_whole(tasks, batch.trees[m], true)
            &&& 0 <= m < batch.objects.len() ==> (expected_of_handle(w, batch.objects[m]) matches Some(rel)
                ==> rel.len() > 0 ==> looks_at(tasks, rel.drop_last(), rel.last()))
        }),
{
    let whole = if batch.full {
        seeded(Seq::empty(), Seq::empty(), ScopeModel::Whole, true)
    } else {
        Seq::empty()
    };
    lemma_seeded(Seq::empty(), Seq::empty(), ScopeModel::Whole, true);
    let dirs = seeding_dirs(whole, batch.dirs, keys, 0);
    lemma_seeding_dirs(whole, batch.dirs, keys, 0);
    let trees = seeding_trees(dirs, batch.trees, 0);
    lemma_seeding_trees(dirs, batch.trees, 0);
    lemma_seeding_objects(w, trees, batch.objects, 0);
}

/// Which directory is looked into in turn: one of the folder's own filesystem,
/// none of the daemon's and none of the user's own that stays local; with
/// everything below where that was asked for, and otherwise only where it is new:
/// without an id, with one that is no folder's of the base, or with a folder's
/// that is on record as another object.
pub proof fn law_which_directories_are_looked_into(w: WorldModel, e: EntryModel, recurse: bool)
    ensures
        descends_into(w, e, recurse) <==> {
            &&& e.ty == Type::Dir
            &&& e.dev == w.root_dev
            &&& e.name != encode_utf8(".konedrive-holding"@) && !begins_with(
                e.name,
                ".konedrive-new-"@,
            )
            &&& e.id is Some || !ignored(w.ignore, e.name)
            &&& recurse || match e.id {
                None => true,
                Some(id) => match item_of(w, id) {
                    None => true,
                    Some(item) => item.row.kind != Kind::Folder || (item.handle is Some && e.handle is Some
                        && item.handle != e.handle),
                },
            }
        },
{
}

/// What reading one place gives: an entry where there is one; nothing where it or
/// its directory is gone; a place that may not be read where it, or its
/// directory, is denied; and any other error ends the survey.
pub proof fn law_what_reading_a_place_gives(s: SurveyModel, rel: PathModel, errno: i32, e: EntryModel)
    ensures
        peeking_at(s, rel, PeekedModel::Nothing) == Ok::<SurveyModel, i32>(s),
        peeking_at(s, rel, PeekedModel::Found(e)) == Ok::<SurveyModel, i32>(adding(s, e)),
        match peeking_at(s, rel, PeekedModel::NoDir(errno)) {
            Ok(next) => if errno == 2 || errno == 20 || errno == 40 {
                next == s
            } else {
                (errno == 13 || errno == 1) && next.unreadable.contains(rel.drop_last())
            },
            Err(e) => e == errno && errno != 2 && errno != 20 && errno != 40 && errno != 13 && errno
                != 1,
        },
        match peeking_at(s, rel, PeekedModel::Failed(errno)) {
            Ok(next) => (errno == 13 || errno == 1) && next.unreadable.contains(rel),
            Err(e) => e == errno && errno != 13 && errno != 1,
        },
{
    lemma_barred(s, rel);
    lemma_barred(s, rel.drop_last());
}

proof fn lemma_barred(s: SurveyModel, rel: PathModel)
    ensures
        barring(s, rel).unreadable.contains(rel),
        forall|at: PathModel|
            s.unreadable.contains(at) ==> #[trigger] barring(s, rel).unreadable.contains(at),
        barring(s, rel).entries == s.entries,
        barring(s, rel).queue == s.queue,
{
    let next = s.unreadable.push(rel);
    assert(next[s.unreadable.len() as int] == rel);
    assert forall|at: PathModel| s.unreadable.contains(at) implies #[trigger] barring(
        s,
        rel,
    ).unreadable.contains(at) by {
        vstd::seq_lib::lemma_seq_contains_after_push(s.unreadable, rel, at);
    }
}

/// An entry was read at `rel`.
pub open spec fn has_entry_at(entries: Seq<EntryModel>, rel: PathModel) -> bool {
    exists|j: int| 0 <= j < entries.len() && (#[trigger] entries[j]).rel == rel
}

/// `e` is what was read last at its place.
pub open spec fn is_read(entries: Seq<EntryModel>, e: EntryModel) -> bool {
    exists|j: int| 0 <= j < entries.len() && #[trigger] entries[j] == e
}

proof fn lemma_index(entries: Seq<EntryModel>, rel: PathModel, i: int)
    requires
        entries.len() <= usize::MAX,
        0 <= i,
    ensures
        index_from(entries, rel, i) matches Some(j) ==> j < entries.len() && entries[j as int].rel
            == rel,
    decreases entries.len() - i,
{
    if i < entries.len() {
        lemma_index(entries, rel, i + 1);
    }
}

proof fn lemma_adding(s: SurveyModel, e: EntryModel)
    requires
        s.entries.len() < usize::MAX,
    ensures
        is_read(adding(s, e).entries, e),
        forall|at: PathModel|
            has_entry_at(s.entries, at) ==> #[trigger] has_entry_at(adding(s, e).entries, at),
        adding(s, e).entries.len() <= s.entries.len() + 1,
        adding(s, e).queue == s.queue,
        adding(s, e).unreadable == s.unreadable,
        adding(s, e).whole == s.whole,
        adding(s, e).named == s.named,
{
    let next = adding(s, e).entries;
    lemma_index(s.entries, e.rel, 0);
    match index_at(s.entries, e.rel) {
        Some(i) => {
            assert(next[i as int] == e);
        },
        None => {
            assert(next[s.entries.len() as int] == e);
        },
    }
    assert forall|at: PathModel| has_entry_at(s.entries, at) implies #[trigger] has_entry_at(next, at) by {
        let j = choose|j: int| 0 <= j < s.entries.len() && (#[trigger] s.entries[j]).rel == at;
        assert(next[j].rel == at);
    }
}

pub proof fn lemma_taking_in(w: WorldModel, s: SurveyModel, read: Seq<EntryModel>, recurse: bool, k: int)
    requires
        0 <= k <= read.len(),
        s.entries.len() + read.len() - k <= usize::MAX,
    ensures
        ({
            let next = taking_in(w, s, read, recurse, k);
            &&& forall|m: int|
                k <= m < read.len() ==> has_entry_at(next.entries, (#[trigger] read[m]).rel)
            &&& forall|at: PathModel|
                has_entry_at(s.entries, at) ==> #[trigger] has_entry_at(next.entries, at)
            &&& forall|m: int|
                k <= m < read.len() && descends_into(w, #[trigger] read[m], recurse)
                    ==> next.queue.contains(
                    TaskModel { rel: read[m].rel, scope: ScopeModel::Whole, recurse: true },
                )
            &&& forall|t: TaskModel| s.queue.contains(t) ==> #[trigger] next.queue.contains(t)
            &&& next.whole == s.whole
            &&& next.named == s.named
            &&& next.unreadable == s.unreadable
        }),
    decreases read.len() - k,
{
    if k < read.len() {
        let e = read[k];
        let task = TaskModel { rel: e.rel, scope: ScopeModel::Whole, recurse: true };
        let queued = if descends_into(w, e, recurse) {
            SurveyModel { queue: s.queue.push(task), ..s }
        } else {
            s
        };
        lemma_adding(queued, e);
        assert forall|t: TaskModel| s.queue.contains(t) implies #[trigger] queued.queue.contains(t) by {
            vstd::seq_lib::lemma_seq_contains_after_push(s.queue, task, t);
        }
        if descends_into(w, e, recurse) {
            vstd::seq_lib::lemma_seq_contains_after_push(s.queue, task, task);
        }
        let then = adding(queued, e);
        assert(has_entry_at(then.entries, e.rel)) by {
            let j = choose|j: int| 0 <= j < then.entries.len() && #[trigger] then.entries[j] == e;
            assert(then.entries[j].rel == e.rel);
        }
        lemma_taking_in(w, then, read, recurse, k + 1);
    }
}

proof fn lemma_reading_all(
    s: SurveyModel,
    rel: PathModel,
    names: Seq<(Seq<u8>, ReadingModel)>,
    k: int,
    found: Seq<EntryModel>,
)
    requires
        0 <= k <= names.len(),
    ensures
        reading_all(s, rel, names, k, found) matches Ok((next, all)) ==> {
            &&& next.entries == s.entries
            &&& next.queue == s.queue
            &&& all.len() <= found.len() + names.len() - k
            &&& forall|e: EntryModel| found.contains(e) ==> #[trigger] all.contains(e)
            &&& forall|m: int|
                k <= m < names.len() ==> match (#[trigger] names[m]).1 {
                    ReadingModel::Found(e) => all.contains(e),
                    ReadingModel::Failed(errno) => (errno == 13 || errno == 1)
                        && next.unreadable.contains(rel.push(names[m].0)),
                    ReadingModel::Nothing => true,
                }
            &&& forall|at: PathModel|
                s.unreadable.contains(at) ==> #[trigger] next.unreadable.contains(at)
        },
    decreases names.len() - k,
{
    if k < names.len() {
        match names[k].1 {
            ReadingModel::Found(e) => {
                assert forall|x: EntryModel| #[trigger] found.push(e).contains(x) <==> found.contains(x)
                    || x == e by {
                    vstd::seq_lib::lemma_seq_contains_after_push(found, e, x);
                }
                lemma_reading_all(s, rel, names, k + 1, found.push(e));
                if let Ok((next, all)) = reading_all(s, rel, names, k, found) {
                    assert(found.push(e).contains(e));
                    assert forall|x: EntryModel| found.contains(x) implies #[trigger] all.contains(x) by {
                        assert(found.push(e).contains(x));
                    }
                }
            },
            ReadingModel::Failed(errno) => {
                lemma_barred(s, rel.push(names[k].0));
                lemma_reading_all(barring(s, rel.push(names[k].0)), rel, names, k + 1, found);
            },
            ReadingModel::Nothing => lemma_reading_all(s, rel, names, k + 1, found),
        }
    }
}

proof fn lemma_own(s: SurveyModel, task: TaskModel, own: PeekedModel)
    requires
        s.entries.len() < usize::MAX,
    ensures
        with_own(s, task, own) matches Ok(known) ==> known.entries.len() <= s.entries.len() + 1,
{
    if let PeekedModel::Found(e) = own {
        lemma_adding(s, e);
    }
}

/// Everything read of a whole directory is taken in: each thing found is an entry
/// of the survey, each directory to look into in turn is one of its tasks, each
/// name that may not be read is known to be unreadable; and the directory counts
/// as read whole.
pub proof fn law_a_directory_read_whole_is_taken_in_whole(
    w: WorldModel,
    s: SurveyModel,
    task: TaskModel,
    own: Peeked,
    names: Vec<(Vec<u8>, Reading)>,
    m: int,
)
    requires
        task.scope is Whole,
        s.entries.len() + names@.len() + 1 < usize::MAX,
        0 <= m < names@.len(),
    ensures
        looking(w, s, task, Looked::Read { own, dev: w.root_dev, names }) matches Ok(next) ==> {
            let all = names.deep_view();
            &&& next.current is None
            &&& next.whole.contains(task.rel)
            &&& match all[m].1 {
                ReadingModel::Found(e) => has_entry_at(next.entries, e.rel) && (descends_into(
                    w,
                    e,
                    task.recurse,
                ) ==> next.queue.contains(
                    TaskModel { rel: e.rel, scope: ScopeModel::Whole, recurse: true },
                )),
                ReadingModel::Failed(errno) => (errno == 13 || errno == 1)
                    && next.unreadable.contains(task.rel.push(all[m].0)),
                ReadingModel::Nothing => true,
            }
        },
{
    let all = names.deep_view();
    lemma_own(s, task, own@);
    if let Ok(known) = with_own(s, task, own@) {
        lemma_reading_all(known, task.rel, all, 0, Seq::empty());
        if let Ok((read, found)) = reading_all(known, task.rel, all, 0, Seq::empty()) {
            let with = SurveyModel {
                whole: inserted::<RelPath>(read.whole, task.rel),
                named: read.named.remove(task.rel),
                named_dirs: without(read.named_dirs, task.rel),
                ..read
            };
            lemma_inserted_holds::<RelPath>(read.whole, task.rel, task.rel);
            lemma_taking_in(w, with, found, task.recurse, 0);
            if let ReadingModel::Found(e) = all[m].1 {
                assert(found.contains(e));
                let k = choose|k: int| 0 <= k < found.len() && found[k] == e;
                assert(has_entry_at(
                    taking_in(w, with, found, task.recurse, 0).entries,
                    found[k].rel,
                ));
            }
        }
    }
}

/// A directory of another device is not looked into; one that may not be read is
/// known to be unreadable; one that is gone is looked for in its parent by its
/// name; and any other error ends the survey.
pub proof fn law_a_directory_that_cannot_be_read(w: WorldModel, s: SurveyModel, task: TaskModel, errno: i32)
    ensures
        match looking(w, s, task, Looked::Failed(errno)) {
            Ok(next) => {
                &&& next.current is None
                &&& next.entries == s.entries
                &&& errno == 13 || errno == 1 ==> next.unreadable.contains(task.rel)
                &&& errno == 2 || errno == 20 || errno == 40 ==> next.unreadable == s.unreadable && (
                task.rel.len() > 0 ==> next.queue == s.queue.push(
                    TaskModel {
                        rel: task.rel.drop_last(),
                        scope: ScopeModel::Names(seq![task.rel.last()]),
                        recurse: false,
                    },
                ))
                &&& errno == 13 || errno == 1 || errno == 2 || errno == 20 || errno == 40
            },
            Err(e) => e == errno,
        },
{
    lemma_barred(s, task.rel);
}

/// The survey takes its tasks in turn; it leaves one out only where that is done
/// already, too deep, or inside a directory of the daemon's own.
pub proof fn law_a_task_is_left_out_only_when_it_is_done(w: WorldModel, s: SurveyModel)
    requires
        s.current is None,
        s.queue.len() > 0,
    ensures
        ({
            let task = s.queue[0];
            let done = (task.recurse && s.recursed.contains(task.rel)) || (!task.recurse
                && s.whole.contains(task.rel));
            let deep = task.rel.len() >= w.max_depth;
            let own = exists|k: int|
                0 <= k < task.rel.len() && ((#[trigger] task.rel[k]) == encode_utf8(
                    ".konedrive-holding"@,
                ) || begins_with(task.rel[k], ".konedrive-new-"@));
            !done && !deep && !own ==> next_step(w, s).1 == (StepModel::Look {
                rel: task.rel,
                scope: task.scope,
                own: true,
            }) && next_step(w, s).0.current == Some(task)
        }),
{
}

proof fn lemma_probing(w: WorldModel, s: SurveyModel, ids: Seq<Seq<char>>)
    ensures
        probing_ids(w, s, ids).0.queue == s.queue,
        probing_ids(w, s, ids).0.current == s.current,
    decreases ids.len() - s.probed,
{
    if s.probed < ids.len() {
        lemma_probing(w, SurveyModel { probed: s.probed + 1, ..s }, ids);
    }
}

/// The survey is done only once nothing is left to look at.
pub proof fn law_a_survey_is_done_when_nothing_is_left(w: WorldModel, s: SurveyModel)
    ensures
        next_step(w, s).1 is Done ==> next_step(w, s).0.queue.len() == 0 && next_step(w, s).0.current is None,
    decreases s.queue.len(),
{
    if s.current is None {
        if s.queue.len() > 0 {
            let task = s.queue[0];
            let popped = SurveyModel { queue: s.queue.drop_first(), ..s };
            if is_idle(w, s, task) {
                law_a_survey_is_done_when_nothing_is_left(
                    w,
                    beginning(popped, task),
                );
            }
        } else {
            let ids = match s.ids {
                Some(ids) => ids,
                None => ids_read(s.entries, 0, Seq::empty()),
            };
            let with = SurveyModel { ids: Some(ids), ..s };
            lemma_probing(w, with, ids);
            lemma_probing(w, SurveyModel { dir_next: None, ..with }, ids);
        }
    }
}

/// Whether something is in a directory that stays local: some directory on the
/// way to it has an ignored name, is the user's own, and is not being made in
/// OneDrive right now.
pub proof fn law_what_is_in_an_ignored_directory(sc: SceneModel, dir: PathModel)
    ensures
        in_ignored_dir(sc, dir) == Ok::<bool, StopModel>(true) ==> exists|n: int|
            0 < n <= dir.len() && #[trigger] stays_local(sc, dir.subrange(0, n)),
        in_ignored_dir(sc, dir) == Ok::<bool, StopModel>(false) ==> forall|n: int|
            0 < n <= dir.len() ==> !(#[trigger] stays_local(sc, dir.subrange(0, n))),
    decreases dir.len(),
{
    if dir.len() > 0 {
        let up = dir.drop_last();
        law_what_is_in_an_ignored_directory(sc, up);
        assert(dir.subrange(0, dir.len() as int) =~= dir);
        assert forall|n: int| 0 < n < dir.len() implies #[trigger] dir.subrange(0, n) == up.subrange(0, n) by {
            assert(dir.subrange(0, n) =~= up.subrange(0, n));
        }
        if in_ignored_dir(sc, dir) == Ok::<bool, StopModel>(true) {
            if stays_local(sc, dir) {
                assert(stays_local(sc, dir.subrange(0, dir.len() as int)));
            } else {
                let n = choose|n: int| 0 < n <= up.len() && #[trigger] stays_local(sc, up.subrange(0, n));
                assert(stays_local(sc, dir.subrange(0, n)));
            }
        }
        if in_ignored_dir(sc, dir) == Ok::<bool, StopModel>(false) {
            assert forall|n: int| 0 < n <= dir.len() implies !(#[trigger] stays_local(
                sc,
                dir.subrange(0, n),
            )) by {
                if n < dir.len() {
                    assert(!stays_local(sc, up.subrange(0, n)));
                }
            }
        }
    }
}

/// The directory `dir` stays local with what is in it.
pub open spec fn stays_local(sc: SceneModel, dir: PathModel) -> bool {
    &&& dir.len() > 0
    &&& ignored(sc.w.ignore, dir[dir.len() - 1])
    &&& sc.f.probed_of(dir) == Some(Probed::Own)
    &&& being_made(sc, dir) == Ok::<bool, StopModel>(false)
}

/// `rel` was looked at in its directory, whole or by these names, and could be
/// read.
pub open spec fn was_looked_at(sc: SceneModel, names: Option<Seq<Seq<u8>>>, rel: PathModel) -> bool {
    &&& !sc.unreadable.contains(rel)
    &&& names is None || (rel.len() > 0 && names->0.contains(rel[rel.len() - 1]))
}

/// The base places `rel` in the directory `dir`.
pub open spec fn is_in(rel: PathModel, dir: PathModel) -> bool {
    rel.len() == dir.len() + 1 && rel.drop_last() == dir
}

/// Item `c` of the base is placed in the folder `parent`, and expected at `rel`
/// in `dir`, which was looked at.
pub open spec fn is_expected_here(
    sc: SceneModel,
    parent: Seq<char>,
    dir: PathModel,
    names: Option<Seq<Seq<u8>>>,
    c: int,
    id: Seq<char>,
    rel: PathModel,
) -> bool {
    let row = sc.w.items[c].row;
    &&& row.id == id
    &&& row.parent_id == Some(parent)
    &&& row.placement == Placement::Placed
    &&& expected_rel(sc.w, id) == Some(rel)
    &&& is_in(rel, dir)
    &&& was_looked_at(sc, names, rel)
}

proof fn lemma_expected_in(
    sc: SceneModel,
    parent: Seq<char>,
    dir: PathModel,
    names: Option<Seq<Seq<u8>>>,
    c: int,
    found: Seq<(Seq<char>, PathModel)>,
    id: Seq<char>,
    rel: PathModel,
)
    requires
        0 <= c,
    ensures
        expected_in(sc, parent, dir, names, c, found).contains((id, rel)) <==> found.contains((id, rel))
            || exists|m: int|
            c <= m < sc.w.items.len() && #[trigger] is_expected_here(
                sc,
                parent,
                dir,
                names,
                m,
                id,
                rel,
            ),
    decreases sc.w.items.len() - c,
{
    if c < sc.w.items.len() {
        let row = sc.w.items[c].row;
        lemma_expected_in(sc, parent, dir, names, c + 1, found, id, rel);
        if let Some(at) = expected_rel(sc.w, row.id) {
            lemma_expected_in(sc, parent, dir, names, c + 1, found.push((row.id, at)), id, rel);
            vstd::seq_lib::lemma_seq_contains_after_push(found, (row.id, at), (id, rel));
            assert(parent_of(at) == Some(dir) <==> is_in(at, dir));
        }
        assert(is_expected_here(sc, parent, dir, names, c, id, rel) <==> row.id == id && row.parent_id
            == Some(parent) && row.placement == Placement::Placed && expected_rel(sc.w, row.id) == Some(
            rel,
        ) && parent_of(rel) == Some(dir) && in_scope(sc, names, rel));
    }
}

/// Row `k` is the newest of item `id`, and says that it is at `rel` in `dir`,
/// which was looked at.
pub open spec fn is_said_here(
    sc: SceneModel,
    dir: PathModel,
    names: Option<Seq<Seq<u8>>>,
    k: int,
    id: Seq<char>,
) -> bool {
    let row = sc.w.rows[k];
    &&& row.item_id == Some(id)
    &&& row.kind != OutboxKind::Delete && row.kind != OutboxKind::MoveOut
    &&& is_in(row.rel, dir)
    &&& was_looked_at(sc, names, row.rel)
    &&& row_of(sc.w, id) matches Some(newest) && newest.seq == row.seq
}

proof fn lemma_rows_in(
    sc: SceneModel,
    dir: PathModel,
    names: Option<Seq<Seq<u8>>>,
    k: int,
    found: Seq<(Seq<char>, PathModel)>,
    id: Seq<char>,
)
    requires
        0 <= k,
    ensures
        lists_item(with_rows_in(sc, dir, names, k, found), id) <==> lists_item(found, id) || exists|m: int|
            k <= m < sc.w.rows.len() && #[trigger] is_said_here(sc, dir, names, m, id),
        forall|x: (Seq<char>, PathModel)|
            found.contains(x) ==> #[trigger] with_rows_in(sc, dir, names, k, found).contains(x),
    decreases sc.w.rows.len() - k,
{
    if k < sc.w.rows.len() {
        let row = sc.w.rows[k];
        lemma_rows_in(sc, dir, names, k + 1, found, id);
        assert(row_in(sc, row, dir, names) <==> row.kind != OutboxKind::Delete && row.kind
            != OutboxKind::MoveOut && is_in(row.rel, dir) && was_looked_at(sc, names, row.rel));
        if let Some(own) = row.item_id {
            let more = found.push((own, row.rel));
            lemma_rows_in(sc, dir, names, k + 1, more, id);
            assert(lists_item(more, id) <==> lists_item(found, id) || own == id) by {
                if lists_item(found, id) {
                    let j = choose|j: int| 0 <= j < found.len() && (#[trigger] found[j]).0 == id;
                    assert(more[j].0 == id);
                }
                if own == id {
                    assert(more[found.len() as int].0 == id);
                }
                if lists_item(more, id) {
                    let j = choose|j: int| 0 <= j < more.len() && (#[trigger] more[j]).0 == id;
                    if j < found.len() {
                        assert(found[j].0 == id);
                    }
                }
            }
            assert forall|x: (Seq<char>, PathModel)| found.contains(x) implies #[trigger] more.contains(
                x,
            ) by {
                vstd::seq_lib::lemma_seq_contains_after_push(found, (own, row.rel), x);
            }
        }
        let said = exists|m: int|
            k <= m < sc.w.rows.len() && #[trigger] is_said_here(sc, dir, names, m, id);
        let later = exists|m: int|
            k < m < sc.w.rows.len() && #[trigger] is_said_here(sc, dir, names, m, id);
        assert(said <==> later || is_said_here(sc, dir, names, k, id));
        assert((exists|m: int|
            k + 1 <= m < sc.w.rows.len() && #[trigger] is_said_here(sc, dir, names, m, id)) <==> later);
    }
}

/// What is looked for in a directory that was read: every item the base places in
/// it that is expected there, and every item whose newest row says so; each only
/// where its very name was looked at and could be read.
pub proof fn law_what_is_looked_for_in_a_directory(
    sc: SceneModel,
    run: RunModel,
    dir: PathModel,
    names: Option<Seq<Seq<u8>>>,
    id: Seq<char>,
)
    ensures
        lists_item(items_in(sc, run, dir, names), id) <==> {
            ||| dir_id(sc, run, dir) matches Some(parent) && exists|m: int, rel: PathModel|
                0 <= m < sc.w.items.len() && #[trigger] is_expected_here(
                    sc,
                    parent,
                    dir,
                    names,
                    m,
                    id,
                    rel,
                )
            ||| exists|m: int|
                0 <= m < sc.w.rows.len() && #[trigger] is_said_here(sc, dir, names, m, id)
        },
{
    let none = Seq::<(Seq<char>, PathModel)>::empty();
    let listed = match dir_id(sc, run, dir) {
        Some(parent) => expected_in(sc, parent, dir, names, 0, none),
        None => none,
    };
    lemma_rows_in(sc, dir, names, 0, listed, id);
    if let Some(parent) = dir_id(sc, run, dir) {
        if lists_item(listed, id) {
            let j = choose|j: int| 0 <= j < listed.len() && (#[trigger] listed[j]).0 == id;
            let rel = listed[j].1;
            assert(listed[j] == (id, rel));
            lemma_expected_in(sc, parent, dir, names, 0, none, id, rel);
            assert(listed.contains((id, rel)));
            assert(!none.contains((id, rel)));
        }
        if exists|m: int, rel: PathModel|
            0 <= m < sc.w.items.len() && #[trigger] is_expected_here(
                sc,
                parent,
                dir,
                names,
                m,
                id,
                rel,
            ) {
            let (m, rel) = choose|m: int, rel: PathModel|
                0 <= m < sc.w.items.len() && #[trigger] is_expected_here(
                    sc,
                    parent,
                    dir,
                    names,
                    m,
                    id,
                    rel,
                );
            lemma_expected_in(sc, parent, dir, names, 0, none, id, rel);
            assert(listed.contains((id, rel)));
            let j = choose|j: int| 0 <= j < listed.len() && listed[j] == (id, rel);
            assert(listed[j].0 == id);
        }
    }
}

} // verus!
