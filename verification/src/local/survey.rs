//! Reading the folder: which places a batch makes the examination look at.
//!
//! The places a batch names are read shallowest first, and a new directory's
//! contents with it; a name that is not there makes the whole directory read.
//! Then an item seen away from where it is expected is looked for there too: a
//! copy that kept its attributes must meet its original. Each look is one step
//! ([`Survey::next`]); what it found goes back in ([`Survey::looked`],
//! [`Survey::peeked`]).

use vstd::prelude::*;
use vstd::string::*;
use crate::local::batch::{
    copy_names, insert_names, join_scopes, merged_scope, Batch, BatchModel, DirScope, ScopeModel,
};
use crate::local::entry::{Entry, EntryModel};
use crate::local::examine::{daemon_owned, is_daemon_owned};
use crate::local::ignore::ignored;
use crate::local::run::{entry_at, index_at, push_to, Surveyed};
use crate::local::world::{expected_rel, item_of, World, WorldModel};
use crate::os::{denied, errno_denied, errno_gone, gone, Type};
use crate::path::{path_lt, PathModel, RelPath};
use crate::sorted::{contains, insert, inserted, inserted_all, without, SortedMap};
use crate::tree::{same_handle, FileHandle, Kind};

verus! {

/// A directory to look into.
#[derive(Debug)]
pub struct Task {
    pub rel: RelPath,
    pub scope: DirScope,
    /// Everything below it too.
    pub recurse: bool,
}

#[verifier::ext_equal]
pub struct TaskModel {
    pub rel: PathModel,
    pub scope: ScopeModel,
    pub recurse: bool,
}

impl View for Task {
    type V = TaskModel;

    open spec fn view(&self) -> TaskModel {
        TaskModel { rel: self.rel@, scope: self.scope@, recurse: self.recurse }
    }
}

impl DeepView for Task {
    type V = TaskModel;

    open spec fn deep_view(&self) -> TaskModel {
        self.view()
    }
}

/// `a` is looked into before `b`: the shallower first, then by path.
pub open spec fn sooner(a: PathModel, b: PathModel) -> bool {
    a.len() < b.len() || (a.len() == b.len() && path_lt(a, b))
}

/// Where `rel` stands among the tasks, from `p` on.
pub open spec fn task_slot(tasks: Seq<TaskModel>, rel: PathModel, p: int) -> int
    decreases tasks.len() - p,
{
    if p >= tasks.len() || !sooner(tasks[p].rel, rel) {
        p
    } else {
        task_slot(tasks, rel, p + 1)
    }
}

/// The tasks with one more; two for one directory are one.
pub open spec fn seeded(tasks: Seq<TaskModel>, rel: PathModel, scope: ScopeModel, recurse: bool) -> Seq<TaskModel> {
    let p = task_slot(tasks, rel, 0);
    if p < tasks.len() && tasks[p].rel == rel {
        tasks.update(
            p,
            TaskModel {
                rel,
                scope: merged_scope(Some(tasks[p].scope), Some(scope))->0,
                recurse: tasks[p].recurse || recurse,
            },
        )
    } else {
        tasks.insert(p, TaskModel { rel, scope: merged_scope(None, Some(scope))->0, recurse })
    }
}

/// The directories `keys` of a batch, from `k` on.
pub open spec fn seeding_dirs(
    tasks: Seq<TaskModel>,
    dirs: Map<PathModel, ScopeModel>,
    keys: Seq<PathModel>,
    k: int,
) -> Seq<TaskModel>
    decreases keys.len() - k,
{
    if k >= keys.len() {
        tasks
    } else {
        seeding_dirs(seeded(tasks, keys[k], dirs[keys[k]], false), dirs, keys, k + 1)
    }
}

/// The trees of a batch, from `k` on.
pub open spec fn seeding_trees(tasks: Seq<TaskModel>, trees: Seq<PathModel>, k: int) -> Seq<TaskModel>
    decreases trees.len() - k,
{
    if k >= trees.len() {
        tasks
    } else {
        seeding_trees(seeded(tasks, trees[k], ScopeModel::Whole, true), trees, k + 1)
    }
}

/// The first item placed as the object `h`, from `c` on.
pub open spec fn item_by_handle(w: WorldModel, h: Seq<u8>, c: int) -> Option<Seq<char>>
    decreases w.items.len() - c,
{
    if c >= w.items.len() {
        None
    } else if w.items[c].handle == Some(h) {
        Some(w.items[c].row.id)
    } else {
        item_by_handle(w, h, c + 1)
    }
}

/// Where the first row of the object `h`, from `k` on, last saw it.
pub open spec fn row_by_handle(w: WorldModel, h: Seq<u8>, k: int) -> Option<PathModel>
    decreases w.rows.len() - k,
{
    if k >= w.rows.len() {
        None
    } else if w.rows[k].inode matches Some(i) && i.handle == Some(h) {
        Some(w.rows[k].rel)
    } else {
        row_by_handle(w, h, k + 1)
    }
}

/// Where the item or pending row an event's object handle names is expected:
/// the place to look.
pub open spec fn expected_of_handle(w: WorldModel, h: Seq<u8>) -> Option<PathModel> {
    let by_item = match item_by_handle(w, h, 0) {
        Some(id) => expected_rel(w, id),
        None => None,
    };
    match by_item {
        Some(rel) => Some(rel),
        None => row_by_handle(w, h, 0),
    }
}

/// The objects of a batch, from `k` on: each by its name where it is expected.
pub open spec fn seeding_objects(w: WorldModel, tasks: Seq<TaskModel>, objects: Seq<Seq<u8>>, k: int) -> Seq<
    TaskModel,
>
    decreases objects.len() - k,
{
    if k >= objects.len() {
        tasks
    } else {
        let next = match expected_of_handle(w, objects[k]) {
            Some(rel) => if rel.len() > 0 {
                seeded(tasks, rel.drop_last(), ScopeModel::Names(seq![rel.last()]), false)
            } else {
                tasks
            },
            None => tasks,
        };
        seeding_objects(w, next, objects, k + 1)
    }
}

/// Where a batch begins to look.
pub open spec fn seeds_of(w: WorldModel, batch: BatchModel, keys: Seq<PathModel>) -> Seq<TaskModel> {
    let whole = if batch.full {
        seeded(Seq::empty(), Seq::empty(), ScopeModel::Whole, true)
    } else {
        Seq::empty()
    };
    seeding_objects(
        w,
        seeding_trees(seeding_dirs(whole, batch.dirs, keys, 0), batch.trees, 0),
        batch.objects,
        0,
    )
}

/// What was read at a name: the error its directory gave, or its own, or what
/// is there.
#[derive(Debug)]
pub enum Peeked {
    NoDir(i32),
    Failed(i32),
    Nothing,
    Found(Entry),
}

#[verifier::ext_equal]
pub enum PeekedModel {
    NoDir(i32),
    Failed(i32),
    Nothing,
    Found(EntryModel),
}

impl View for Peeked {
    type V = PeekedModel;

    open spec fn view(&self) -> PeekedModel {
        match self {
            Peeked::NoDir(e) => PeekedModel::NoDir(*e),
            Peeked::Failed(e) => PeekedModel::Failed(*e),
            Peeked::Nothing => PeekedModel::Nothing,
            Peeked::Found(entry) => PeekedModel::Found(entry@),
        }
    }
}

/// One name of a directory, as it was read.
#[derive(Debug)]
pub enum Reading {
    Failed(i32),
    Nothing,
    Found(Entry),
}

#[verifier::ext_equal]
pub enum ReadingModel {
    Failed(i32),
    Nothing,
    Found(EntryModel),
}

impl View for Reading {
    type V = ReadingModel;

    open spec fn view(&self) -> ReadingModel {
        match self {
            Reading::Failed(e) => ReadingModel::Failed(*e),
            Reading::Nothing => ReadingModel::Nothing,
            Reading::Found(entry) => ReadingModel::Found(entry@),
        }
    }
}

impl DeepView for Reading {
    type V = ReadingModel;

    open spec fn deep_view(&self) -> ReadingModel {
        self.view()
    }
}

/// What looking into a directory gave.
#[derive(Debug)]
pub enum Looked {
    /// It could not be opened.
    Failed(i32),
    /// It is open, but could not be listed.
    Unlisted { own: Peeked, dev: u64, errno: i32 },
    /// What was asked for of it: its own entry in its parent, its device, and
    /// the names, each as it was read.
    Read { own: Peeked, dev: u64, names: Vec<(Vec<u8>, Reading)> },
}

/// What to do next.
#[derive(Debug)]
pub enum Step {
    /// Look into this directory; `own` asks for its own entry too.
    Look { rel: RelPath, scope: DirScope, own: bool },
    /// Read this one place.
    Peek(RelPath),
    Done,
}

#[verifier::ext_equal]
pub enum StepModel {
    Look { rel: PathModel, scope: ScopeModel, own: bool },
    Peek(PathModel),
    Done,
}

impl View for Step {
    type V = StepModel;

    open spec fn view(&self) -> StepModel {
        match self {
            Step::Look { rel, scope, own } => StepModel::Look {
                rel: rel@,
                scope: scope@,
                own: *own,
            },
            Step::Peek(rel) => StepModel::Peek(rel@),
            Step::Done => StepModel::Done,
        }
    }
}

/// What is being read.
#[derive(Debug)]
pub struct Survey {
    pub seen: Surveyed,
    pub queue: Vec<Task>,
    /// Directories read with everything below them.
    pub recursed: Vec<RelPath>,
    /// The directory being looked into.
    pub current: Option<Task>,
    /// Its own entry was read.
    pub own_read: bool,
    /// The places seen to, once the queue is empty: the ids of what was read.
    pub ids: Option<Vec<String>>,
    /// How many of them were looked for.
    pub probed: usize,
    /// The place being peeked at.
    pub peeking: Option<RelPath>,
    /// The directory of the last place looked for, whose own entry is next.
    pub dir_next: Option<RelPath>,
}

#[verifier::ext_equal]
pub struct SurveyModel {
    pub entries: Seq<EntryModel>,
    pub whole: Seq<PathModel>,
    pub named: Map<PathModel, Seq<Seq<u8>>>,
    pub named_dirs: Seq<PathModel>,
    pub unreadable: Seq<PathModel>,
    pub queue: Seq<TaskModel>,
    pub recursed: Seq<PathModel>,
    pub current: Option<TaskModel>,
    pub own_read: bool,
    pub ids: Option<Seq<Seq<char>>>,
    pub probed: nat,
    pub peeking: Option<PathModel>,
    pub dir_next: Option<PathModel>,
}

impl View for Survey {
    type V = SurveyModel;

    open spec fn view(&self) -> SurveyModel {
        SurveyModel {
            entries: self.seen.entries.deep_view(),
            whole: self.seen.whole.deep_view(),
            named: self.seen.named@,
            named_dirs: self.seen.named.keys(),
            unreadable: self.seen.unreadable.deep_view(),
            queue: self.queue.deep_view(),
            recursed: self.recursed.deep_view(),
            current: self.current.deep_view(),
            own_read: self.own_read,
            ids: self.ids.deep_view(),
            probed: self.probed as nat,
            peeking: self.peeking.deep_view(),
            dir_next: self.dir_next.deep_view(),
        }
    }
}

/// Nothing read yet.
pub open spec fn unread(seeds: Seq<TaskModel>) -> SurveyModel {
    SurveyModel {
        entries: Seq::empty(),
        whole: Seq::empty(),
        named: Map::empty(),
        named_dirs: Seq::empty(),
        unreadable: Seq::empty(),
        queue: seeds,
        recursed: Seq::empty(),
        current: None,
        own_read: false,
        ids: None,
        probed: 0,
        peeking: None,
        dir_next: None,
    }
}

/// `rel` may not be read.
pub open spec fn barring(s: SurveyModel, rel: PathModel) -> SurveyModel {
    if s.unreadable.contains(rel) {
        s
    } else {
        SurveyModel { unreadable: s.unreadable.push(rel), ..s }
    }
}

/// `e` was read: it is the entry at its place.
pub open spec fn adding(s: SurveyModel, e: EntryModel) -> SurveyModel {
    match index_at(s.entries, e.rel) {
        Some(i) => SurveyModel { entries: s.entries.update(i as int, e), ..s },
        None => SurveyModel { entries: s.entries.push(e), ..s },
    }
}

/// What reading the one place `rel` gave.
pub open spec fn peeking_at(s: SurveyModel, rel: PathModel, got: PeekedModel) -> Result<SurveyModel, i32> {
    match got {
        PeekedModel::NoDir(e) => if errno_gone(e) {
            Ok(s)
        } else if errno_denied(e) {
            Ok(barring(s, rel.drop_last()))
        } else {
            Err(e)
        },
        PeekedModel::Failed(e) => if errno_denied(e) {
            Ok(barring(s, rel))
        } else {
            Err(e)
        },
        PeekedModel::Nothing => Ok(s),
        PeekedModel::Found(e) => Ok(adding(s, e)),
    }
}

/// A directory's contents are new to the folder: no id, an id the base does
/// not have as a folder, or a folder's id on another inode than the one
/// recorded (a copy that kept its attributes).
pub open spec fn is_new_dir(w: WorldModel, e: EntryModel) -> bool {
    match e.id {
        None => true,
        Some(id) => match item_of(w, id) {
            Some(item) => item.row.kind != Kind::Folder || (item.handle is Some && e.handle is Some
                && item.handle != e.handle),
            None => true,
        },
    }
}

/// `e` is a directory to look into in turn. A directory of the user's own
/// whose name is ignored stays local with everything in it, and what is on
/// another device is not looked into.
pub open spec fn descends_into(w: WorldModel, e: EntryModel, recurse: bool) -> bool {
    &&& e.ty == Type::Dir
    &&& e.dev == w.root_dev
    &&& !daemon_owned(e.name)
    &&& !(e.id is None && ignored(w.ignore, e.name))
    &&& (recurse || is_new_dir(w, e))
}

/// The entries of `read` from `k` on, and the directories to look into in
/// turn.
pub open spec fn taking_in(w: WorldModel, s: SurveyModel, read: Seq<EntryModel>, recurse: bool, k: int) -> SurveyModel
    decreases read.len() - k,
{
    if k >= read.len() {
        s
    } else {
        let e = read[k];
        let queued = if descends_into(w, e, recurse) {
            SurveyModel {
                queue: s.queue.push(
                    TaskModel { rel: e.rel, scope: ScopeModel::Whole, recurse: true },
                ),
                ..s
            }
        } else {
            s
        };
        taking_in(w, adding(queued, e), read, recurse, k + 1)
    }
}

/// What was read of a directory by name, from `k` on: the entries after
/// `found`, and nothing when a name was not there — then the whole directory
/// is read.
pub open spec fn reading_names(
    s: SurveyModel,
    rel: PathModel,
    names: Seq<(Seq<u8>, ReadingModel)>,
    k: int,
    found: Seq<EntryModel>,
) -> Result<(SurveyModel, Option<Seq<EntryModel>>), i32>
    decreases names.len() - k,
{
    if k >= names.len() {
        Ok((s, Some(found)))
    } else {
        let at = rel.push(names[k].0);
        match names[k].1 {
            ReadingModel::Found(e) => reading_names(s, rel, names, k + 1, found.push(e)),
            ReadingModel::Failed(e) => if errno_denied(e) {
                reading_names(barring(s, at), rel, names, k + 1, found)
            } else {
                Err(e)
            },
            ReadingModel::Nothing => if s.unreadable.contains(at) {
                reading_names(s, rel, names, k + 1, found)
            } else {
                Ok((s, None))
            },
        }
    }
}

/// What was read of a whole directory, from `k` on: the entries after
/// `found`.
pub open spec fn reading_all(
    s: SurveyModel,
    rel: PathModel,
    names: Seq<(Seq<u8>, ReadingModel)>,
    k: int,
    found: Seq<EntryModel>,
) -> Result<(SurveyModel, Seq<EntryModel>), i32>
    decreases names.len() - k,
{
    if k >= names.len() {
        Ok((s, found))
    } else {
        match names[k].1 {
            ReadingModel::Found(e) => reading_all(s, rel, names, k + 1, found.push(e)),
            ReadingModel::Failed(e) => if errno_denied(e) {
                reading_all(barring(s, rel.push(names[k].0)), rel, names, k + 1, found)
            } else {
                Err(e)
            },
            ReadingModel::Nothing => reading_all(s, rel, names, k + 1, found),
        }
    }
}

/// What was read is what was asked for: where names were, those, in their
/// order.
pub open spec fn answers(task: TaskModel, got: Looked) -> bool {
    match (task.scope, got) {
        (ScopeModel::Names(asked), Looked::Read { names, .. }) => names_only(names.deep_view())
            == asked,
        _ => true,
    }
}

/// Names, as a reading gives them.
pub open spec fn names_only(names: Seq<(Seq<u8>, ReadingModel)>) -> Seq<Seq<u8>> {
    Seq::new(names.len(), |k: int| names[k].0)
}

/// The own entry of the directory being looked into, read once.
pub open spec fn with_own(s: SurveyModel, task: TaskModel, own: PeekedModel) -> Result<SurveyModel, i32> {
    if s.own_read || task.rel.len() == 0 || index_at(s.entries, task.rel) is Some {
        Ok(SurveyModel { own_read: true, ..s })
    } else {
        match peeking_at(s, task.rel, own) {
            Err(e) => Err(e),
            Ok(next) => Ok(SurveyModel { own_read: true, ..next }),
        }
    }
}

/// The directory being looked into is done with.
pub open spec fn leaving_dir(s: SurveyModel) -> SurveyModel {
    SurveyModel { current: None, ..s }
}

/// What looking into the directory of `task` gave. One gone since the event is
/// looked for in its parent; one that may not be read is passed over; one on
/// another device is not looked into.
pub open spec fn looking(
    w: WorldModel,
    s: SurveyModel,
    task: TaskModel,
    got: Looked,
) -> Result<SurveyModel, i32> {
    match got {
        Looked::Failed(e) => if errno_gone(e) {
            if task.rel.len() == 0 {
                Ok(leaving_dir(s))
            } else {
                Ok(
                    leaving_dir(
                        SurveyModel {
                            queue: s.queue.push(
                                TaskModel {
                                    rel: task.rel.drop_last(),
                                    scope: ScopeModel::Names(seq![task.rel.last()]),
                                    recurse: false,
                                },
                            ),
                            ..s
                        },
                    ),
                )
            }
        } else if errno_denied(e) {
            Ok(leaving_dir(barring(s, task.rel)))
        } else {
            Err(e)
        },
        Looked::Unlisted { own, dev, errno } => match with_own(s, task, own@) {
            Err(e) => Err(e),
            Ok(known) => if dev != w.root_dev {
                Ok(leaving_dir(known))
            } else if errno_denied(errno) {
                Ok(leaving_dir(barring(known, task.rel)))
            } else {
                Err(errno)
            },
        },
        Looked::Read { own, dev, names } => match with_own(s, task, own@) {
            Err(e) => Err(e),
            Ok(known) => if dev != w.root_dev {
                Ok(leaving_dir(known))
            } else {
                match task.scope {
                    ScopeModel::Names(asked) => match reading_names(
                        known,
                        task.rel,
                        names.deep_view(),
                        0,
                        Seq::empty(),
                    ) {
                        Err(e) => Err(e),
                        // Not there: the whole directory.
                        Ok((next, None)) => Ok(
                            SurveyModel {
                                current: Some(TaskModel { scope: ScopeModel::Whole, ..task }),
                                ..next
                            },
                        ),
                        Ok((next, Some(found))) => {
                            let were = if next.named.contains_key(task.rel) {
                                next.named[task.rel]
                            } else {
                                Seq::empty()
                            };
                            Ok(
                                leaving_dir(
                                    taking_in(
                                        w,
                                        SurveyModel {
                                            named: next.named.insert(
                                                task.rel,
                                                inserted_all::<Vec<u8>>(were, asked),
                                            ),
                                            named_dirs: inserted::<RelPath>(
                                                next.named_dirs,
                                                task.rel,
                                            ),
                                            ..next
                                        },
                                        found,
                                        task.recurse,
                                        0,
                                    ),
                                ),
                            )
                        },
                    },
                    ScopeModel::Whole => match reading_all(
                        known,
                        task.rel,
                        names.deep_view(),
                        0,
                        Seq::empty(),
                    ) {
                        Err(e) => Err(e),
                        Ok((next, found)) => Ok(
                            leaving_dir(
                                taking_in(
                                    w,
                                    SurveyModel {
                                        whole: inserted::<RelPath>(next.whole, task.rel),
                                        named: next.named.remove(task.rel),
                                        named_dirs: without(next.named_dirs, task.rel),
                                        ..next
                                    },
                                    found,
                                    task.recurse,
                                    0,
                                ),
                            ),
                        ),
                    },
                }
            },
        },
    }
}

/// The task need not be done: done already, too deep, or the daemon's own.
pub open spec fn is_idle(w: WorldModel, s: SurveyModel, task: TaskModel) -> bool {
    ||| task.recurse && s.recursed.contains(task.rel)
    ||| !task.recurse && s.whole.contains(task.rel)
    ||| task.rel.len() >= w.max_depth
    ||| exists|k: int| 0 <= k < task.rel.len() && daemon_owned(#[trigger] task.rel[k])
}

/// A task begun: with everything below it, only once.
pub open spec fn beginning(s: SurveyModel, task: TaskModel) -> SurveyModel {
    if task.recurse && !s.recursed.contains(task.rel) {
        SurveyModel { recursed: s.recursed.push(task.rel), ..s }
    } else {
        s
    }
}

/// The ids of what was read, from `i` on, with `ids`.
pub open spec fn ids_read(entries: Seq<EntryModel>, i: int, ids: Seq<Seq<char>>) -> Seq<Seq<char>>
    decreases entries.len() - i,
{
    if i >= entries.len() {
        ids
    } else {
        match entries[i].id {
            Some(id) => ids_read(entries, i + 1, inserted::<String>(ids, id)),
            None => ids_read(entries, i + 1, ids),
        }
    }
}

/// Where the next item seen away from where it is expected is looked for.
pub open spec fn probing_next(w: WorldModel, s: SurveyModel, ids: Seq<Seq<char>>) -> (SurveyModel, StepModel)
    decreases ids.len() - s.probed,
{
    match s.dir_next {
        Some(dir) => {
            let next = SurveyModel { dir_next: None, ..s };
            if index_at(s.entries, dir) is Some {
                probing_ids(w, next, ids)
            } else {
                (SurveyModel { peeking: Some(dir), ..next }, StepModel::Peek(dir))
            }
        },
        None => probing_ids(w, s, ids),
    }
}

/// The items from the next one on.
pub open spec fn probing_ids(w: WorldModel, s: SurveyModel, ids: Seq<Seq<char>>) -> (SurveyModel, StepModel)
    decreases ids.len() - s.probed,
{
    if s.probed >= ids.len() {
        (s, StepModel::Done)
    } else {
        let next = SurveyModel { probed: s.probed + 1, ..s };
        match expected_rel(w, ids[s.probed as int]) {
            Some(rel) => if rel.len() == 0 || index_at(s.entries, rel) is Some || s.whole.contains(
                rel.drop_last(),
            ) {
                probing_ids(w, next, ids)
            } else {
                (
                    SurveyModel {
                        peeking: Some(rel),
                        dir_next: if rel.len() > 1 {
                            Some(rel.drop_last())
                        } else {
                            None
                        },
                        ..next
                    },
                    StepModel::Peek(rel),
                )
            },
            None => probing_ids(w, next, ids),
        }
    }
}

/// What to do next: the next task that is not idle, and after the tasks the
/// items looked for where they are expected.
pub open spec fn next_step(w: WorldModel, s: SurveyModel) -> (SurveyModel, StepModel)
    decreases s.queue.len(),
{
    match s.current {
        Some(task) => (
            s,
            StepModel::Look { rel: task.rel, scope: task.scope, own: !s.own_read },
        ),
        None => if s.queue.len() > 0 {
            let task = s.queue[0];
            let popped = SurveyModel { queue: s.queue.drop_first(), ..s };
            if is_idle(w, s, task) {
                next_step(w, beginning(popped, task))
            } else {
                (
                    SurveyModel {
                        current: Some(task),
                        own_read: false,
                        ..beginning(popped, task)
                    },
                    StepModel::Look { rel: task.rel, scope: task.scope, own: true },
                )
            }
        } else {
            let ids = match s.ids {
                Some(ids) => ids,
                None => ids_read(s.entries, 0, Seq::empty()),
            };
            probing_next(w, SurveyModel { ids: Some(ids), ..s }, ids)
        },
    }
}

fn is_sooner(a: &RelPath, b: &RelPath) -> (r: bool)
    ensures
        r == sooner(a@, b@),
{
    a.depth() < b.depth() || (a.depth() == b.depth() && a.before(b))
}

fn seed(tasks: &mut Vec<Task>, rel: RelPath, scope: &DirScope, recurse: bool)
    ensures
        final(tasks).deep_view() == seeded(old(tasks).deep_view(), rel@, scope@, recurse),
{
    let ghost before = tasks.deep_view();
    let mut p: usize = 0;
    while p < tasks.len() && is_sooner(&tasks[p].rel, &rel)
        invariant
            p <= tasks@.len(),
            before == tasks.deep_view(),
            *tasks == *old(tasks),
            task_slot(before, rel@, 0) == task_slot(before, rel@, p as int),
        decreases tasks@.len() - p,
    {
        assert(before[p as int] == tasks@[p as int]@);
        p += 1;
    }
    proof {
        if p < tasks@.len() {
            assert(before[p as int] == tasks@[p as int]@);
        }
    }
    if p < tasks.len() && tasks[p].rel.same(&rel) {
        let scope = join_scopes(Some(&tasks[p].scope), scope);
        let recurse = tasks[p].recurse || recurse;
        let ghost now = Task { rel, scope, recurse };
        tasks.set(p, Task { rel, scope, recurse });
        assert(tasks.deep_view() =~= before.update(p as int, now@));
    } else {
        let scope = join_scopes(None, scope);
        let ghost now = Task { rel, scope, recurse };
        tasks.insert(p, Task { rel, scope, recurse });
        assert(tasks.deep_view() =~= before.insert(p as int, now@));
    }
}

impl World {
    fn item_by_handle(&self, h: &FileHandle) -> (r: Option<String>)
        ensures
            r.deep_view() == item_by_handle(self@, h@, 0),
    {
        let mut c: usize = 0;
        while c < self.items.len()
            invariant
                c <= self.items@.len(),
                item_by_handle(self@, h@, 0) == item_by_handle(self@, h@, c as int),
            decreases self.items@.len() - c,
        {
            let item = &self.items[c];
            assert(self@.items[c as int] == item@);
            if let Some(own) = &item.handle {
                if own.same(h) {
                    return Some(item.row.id.clone());
                }
            }
            c += 1;
        }
        None
    }

    fn row_by_handle(&self, h: &FileHandle) -> (r: Option<RelPath>)
        ensures
            r.deep_view() == row_by_handle(self@, h@, 0),
    {
        let mut k: usize = 0;
        while k < self.rows.len()
            invariant
                k <= self.rows@.len(),
                row_by_handle(self@, h@, 0) == row_by_handle(self@, h@, k as int),
            decreases self.rows@.len() - k,
        {
            let row = &self.rows[k];
            assert(self@.rows[k as int] == row@);
            if let Some(inode) = &row.inode {
                if let Some(own) = &inode.handle {
                    if own.same(h) {
                        return Some(row.rel.clone());
                    }
                }
            }
            k += 1;
        }
        None
    }

    /// Where the item or pending row an event's object handle names is
    /// expected.
    fn expected_of_handle(&self, h: &FileHandle) -> (r: Option<RelPath>)
        ensures
            r.deep_view() == expected_of_handle(self@, h@),
    {
        if let Some(id) = self.item_by_handle(h) {
            if let Some(rel) = self.expected_rel(id.as_str()) {
                return Some(rel);
            }
        }
        self.row_by_handle(h)
    }

    fn is_new_dir(&self, e: &Entry) -> (r: bool)
        ensures
            r == is_new_dir(self@, e@),
    {
        let id = match &e.id {
            None => return true,
            Some(id) => id,
        };
        match self.item(id.as_str()) {
            None => true,
            Some(item) => item.row.kind != Kind::Folder || (item.handle.is_some() && e.handle.is_some()
                && !same_handle(&item.handle, &e.handle)),
        }
    }

    fn descends_into(&self, e: &Entry, recurse: bool) -> (r: bool)
        ensures
            r == descends_into(self@, e@, recurse),
    {
        e.ty == Type::Dir && e.dev == self.root_dev && !is_daemon_owned(&e.name) && !(e.id.is_none()
            && self.ignore.matches(&e.name)) && (recurse || self.is_new_dir(e))
    }

    fn seeds(&self, batch: &Batch) -> (r: Vec<Task>)
        requires
            batch.wf(),
        ensures
            r.deep_view() == seeds_of(self@, batch@, batch.dirs.keys()),
    {
        let mut tasks: Vec<Task> = Vec::new();
        assert(tasks.deep_view() =~= Seq::<TaskModel>::empty());
        if batch.full {
            seed(&mut tasks, RelPath::root(), &DirScope::Whole, true);
        }
        let ghost first = tasks.deep_view();
        let ghost keys = batch.dirs.keys();
        let mut k: usize = 0;
        while k < batch.dirs.len()
            invariant
                batch.wf(),
                keys == batch.dirs.keys(),
                k <= keys.len(),
                seeding_dirs(first, batch@.dirs, keys, 0) == seeding_dirs(
                    tasks.deep_view(),
                    batch@.dirs,
                    keys,
                    k as int,
                ),
            decreases keys.len() - k,
        {
            seed(&mut tasks, batch.dirs.key(k).clone(), batch.dirs.val(k), false);
            k += 1;
        }
        let ghost dirs = tasks.deep_view();
        let mut t: usize = 0;
        while t < batch.trees.len()
            invariant
                t <= batch.trees@.len(),
                seeding_trees(dirs, batch@.trees, 0) == seeding_trees(
                    tasks.deep_view(),
                    batch@.trees,
                    t as int,
                ),
            decreases batch.trees@.len() - t,
        {
            assert(batch@.trees[t as int] == batch.trees@[t as int]@);
            seed(&mut tasks, batch.trees[t].clone(), &DirScope::Whole, true);
            t += 1;
        }
        let ghost trees = tasks.deep_view();
        let mut o: usize = 0;
        while o < batch.objects.len()
            invariant
                o <= batch.objects@.len(),
                seeding_objects(self@, trees, batch@.objects, 0) == seeding_objects(
                    self@,
                    tasks.deep_view(),
                    batch@.objects,
                    o as int,
                ),
            decreases batch.objects@.len() - o,
        {
            assert(batch@.objects[o as int] == batch.objects@[o as int]@);
            if let Some(rel) = self.expected_of_handle(&batch.objects[o]) {
                if let Some(parent) = rel.parent() {
                    if let Some(name) = rel.file_name() {
                        let scope = one_name(name);
                        seed(&mut tasks, parent, &scope, false);
                    }
                }
            }
            o += 1;
        }
        tasks
    }
}

/// A scope of one name.
fn one_name(name: &Vec<u8>) -> (r: DirScope)
    ensures
        r@ == ScopeModel::Names(seq![name@]),
{
    let mut names: Vec<Vec<u8>> = Vec::new();
    let one = crate::path::copy_bytes(name);
    proof {
        crate::path::lemma_deep_bytes(one);
    }
    names.push(one);
    assert(names.deep_view() =~= seq![name@]);
    DirScope::Names(names)
}

impl Survey {
    pub open spec fn wf(&self) -> bool {
        &&& self.seen.named.wf()
        &&& self.ids matches Some(ids) ==> self.probed <= ids@.len()
        &&& self.ids is None ==> self.probed == 0
    }

    /// Where `batch` begins to look.
    pub fn new(w: &World, batch: &Batch) -> (r: Survey)
        requires
            batch.wf(),
        ensures
            r.wf(),
            r@ == unread(seeds_of(w@, batch@, batch.dirs.keys())),
    {
        let seeds = w.seeds(batch);
        let r = Survey {
            seen: Surveyed {
                entries: Vec::new(),
                whole: Vec::new(),
                named: SortedMap::new(),
                unreadable: Vec::new(),
            },
            queue: seeds,
            recursed: Vec::new(),
            current: None,
            own_read: false,
            ids: None,
            probed: 0,
            peeking: None,
            dir_next: None,
        };
        assert(r@ =~= unread(seeds_of(w@, batch@, batch.dirs.keys())));
        r
    }

    fn mark_unreadable(&mut self, rel: &RelPath)
        requires
            old(self).wf(),
        ensures
            final(self).wf(),
            final(self)@ == barring(old(self)@, rel@),
    {
        if !contains(&self.seen.unreadable, rel) {
            push_to(&mut self.seen.unreadable, rel.clone());
        }
    }

    fn push(&mut self, e: Entry)
        requires
            old(self).wf(),
        ensures
            final(self).wf(),
            final(self)@ == adding(old(self)@, e@),
    {
        let ghost before = self@;
        match entry_at(&self.seen.entries, &e.rel) {
            Some(i) => {
                self.seen.entries.set(i, e);
                assert(self@.entries =~= before.entries.update(i as int, e@));
            },
            None => push_to(&mut self.seen.entries, e),
        }
    }

    fn take_peek(&mut self, rel: &RelPath, got: Peeked) -> (r: Result<(), i32>)
        requires
            old(self).wf(),
            rel@.len() > 0,
        ensures
            final(self).wf(),
            match r {
                Ok(_) => peeking_at(old(self)@, rel@, got@) == Ok::<SurveyModel, i32>(final(self)@),
                Err(e) => peeking_at(old(self)@, rel@, got@) == Err::<SurveyModel, i32>(e),
            },
    {
        match got {
            Peeked::NoDir(e) => {
                if gone(e) {
                    return Ok(());
                }
                if denied(e) {
                    self.mark_unreadable(&rel.dir());
                    return Ok(());
                }
                Err(e)
            },
            Peeked::Failed(e) => {
                if denied(e) {
                    self.mark_unreadable(rel);
                    return Ok(());
                }
                Err(e)
            },
            Peeked::Nothing => Ok(()),
            Peeked::Found(e) => {
                self.push(e);
                Ok(())
            },
        }
    }

    fn take_own(&mut self, task: &Task, own: Peeked) -> (r: Result<(), i32>)
        requires
            old(self).wf(),
        ensures
            final(self).wf(),
            match r {
                Ok(_) => with_own(old(self)@, task@, own@) == Ok::<SurveyModel, i32>(final(self)@),
                Err(e) => with_own(old(self)@, task@, own@) == Err::<SurveyModel, i32>(e),
            },
    {
        if !self.own_read && task.rel.depth() > 0 && entry_at(&self.seen.entries, &task.rel).is_none() {
            match self.take_peek(&task.rel, own) {
                Err(e) => return Err(e),
                Ok(_) => {},
            }
        }
        self.own_read = true;
        Ok(())
    }

    fn take_in(&mut self, w: &World, read: Vec<Entry>, recurse: bool)
        requires
            old(self).wf(),
        ensures
            final(self).wf(),
            final(self)@ == taking_in(w@, old(self)@, read.deep_view(), recurse, 0),
    {
        let ghost first = self@;
        let ghost rs = read.deep_view();
        let ghost all = read@;
        for e in it: read
            invariant
                self.wf(),
                it.seq() == all,
                rs == Seq::new(all.len(), |i: int| all[i]@),
                taking_in(w@, first, rs, recurse, 0) == taking_in(
                    w@,
                    self@,
                    rs,
                    recurse,
                    it.index(),
                ),
        {
            assert(rs[it.index()] == e@);
            if w.descends_into(&e, recurse) {
                push_to(
                    &mut self.queue,
                    Task { rel: e.rel.clone(), scope: DirScope::Whole, recurse: true },
                );
            }
            self.push(e);
        }
    }

    /// What was read by name; nothing when a name was not there.
    fn take_names(&mut self, rel: &RelPath, names: Vec<(Vec<u8>, Reading)>) -> (r: Result<
        Option<Vec<Entry>>,
        i32,
    >)
        requires
            old(self).wf(),
        ensures
            final(self).wf(),
            match r {
                Ok(found) => reading_names(
                    old(self)@,
                    rel@,
                    names.deep_view(),
                    0,
                    Seq::empty(),
                ) == Ok::<(SurveyModel, Option<Seq<EntryModel>>), i32>(
                    (final(self)@, found.deep_view()),
                ),
                Err(e) => reading_names(old(self)@, rel@, names.deep_view(), 0, Seq::empty())
                    == Err::<(SurveyModel, Option<Seq<EntryModel>>), i32>(e),
            },
    {
        let ghost first = self@;
        let ghost ns = names.deep_view();
        let ghost all = names@;
        let mut found: Vec<Entry> = Vec::new();
        assert(found.deep_view() =~= Seq::<EntryModel>::empty());
        for one in it: names
            invariant
                self.wf(),
                it.seq() == all,
                ns == names.deep_view(),
                first == old(self)@,
                ns == Seq::new(all.len(), |i: int| all[i].deep_view()),
                reading_names(first, rel@, ns, 0, Seq::empty()) == reading_names(
                    self@,
                    rel@,
                    ns,
                    it.index(),
                    found.deep_view(),
                ),
        {
            let (name, reading) = one;
            proof {
                crate::path::lemma_deep_bytes(name);
                assert(ns[it.index()] == (name@, reading@));
            }
            match reading {
                Reading::Found(e) => push_to(&mut found, e),
                Reading::Failed(e) => {
                    if !denied(e) {
                        return Err(e);
                    }
                    self.mark_unreadable(&rel.join(&name));
                },
                Reading::Nothing => {
                    if !contains(&self.seen.unreadable, &rel.join(&name)) {
                        return Ok(None);
                    }
                },
            }
        }
        Ok(Some(found))
    }

    /// What was read of a whole directory.
    fn take_all(&mut self, rel: &RelPath, names: Vec<(Vec<u8>, Reading)>) -> (r: Result<Vec<Entry>, i32>)
        requires
            old(self).wf(),
        ensures
            final(self).wf(),
            match r {
                Ok(found) => reading_all(old(self)@, rel@, names.deep_view(), 0, Seq::empty()) == Ok::<
                    (SurveyModel, Seq<EntryModel>),
                    i32,
                >((final(self)@, found.deep_view())),
                Err(e) => reading_all(old(self)@, rel@, names.deep_view(), 0, Seq::empty()) == Err::<
                    (SurveyModel, Seq<EntryModel>),
                    i32,
                >(e),
            },
    {
        let ghost first = self@;
        let ghost ns = names.deep_view();
        let ghost all = names@;
        let mut found: Vec<Entry> = Vec::new();
        assert(found.deep_view() =~= Seq::<EntryModel>::empty());
        for one in it: names
            invariant
                self.wf(),
                it.seq() == all,
                ns == names.deep_view(),
                first == old(self)@,
                ns == Seq::new(all.len(), |i: int| all[i].deep_view()),
                reading_all(first, rel@, ns, 0, Seq::empty()) == reading_all(
                    self@,
                    rel@,
                    ns,
                    it.index(),
                    found.deep_view(),
                ),
        {
            let (name, reading) = one;
            proof {
                crate::path::lemma_deep_bytes(name);
                assert(ns[it.index()] == (name@, reading@));
            }
            match reading {
                Reading::Found(e) => push_to(&mut found, e),
                Reading::Failed(e) => {
                    if !denied(e) {
                        return Err(e);
                    }
                    self.mark_unreadable(&rel.join(&name));
                },
                Reading::Nothing => {},
            }
        }
        Ok(found)
    }

    /// What looking into the directory of the last step gave.
    pub fn looked(&mut self, w: &World, got: Looked) -> (r: Result<(), i32>)
        requires
            old(self).wf(),
            old(self)@.current matches Some(task) ==> answers(task, got),
        ensures
            final(self).wf(),
            match old(self)@.current {
                None => r is Ok && final(self)@ == old(self)@,
                Some(task) => match r {
                    Ok(_) => looking(w@, old(self)@, task, got) == Ok::<SurveyModel, i32>(
                        final(self)@,
                    ),
                    Err(e) => looking(w@, old(self)@, task, got) == Err::<SurveyModel, i32>(e),
                },
            },
    {
        let task = match &self.current {
            None => return Ok(()),
            Some(task) => Task {
                rel: task.rel.clone(),
                scope: task.scope.clone(),
                recurse: task.recurse,
            },
        };
        match got {
            Looked::Failed(e) => {
                if gone(e) {
                    // Gone since the event: what matters is that it is missing
                    // from its parent.
                    if let Some(parent) = task.rel.parent() {
                        if let Some(name) = task.rel.file_name() {
                            let scope = one_name(name);
                            push_to(&mut self.queue, Task { rel: parent, scope, recurse: false });
                        }
                    }
                    self.current = None;
                    return Ok(());
                }
                if denied(e) {
                    self.mark_unreadable(&task.rel);
                    self.current = None;
                    return Ok(());
                }
                Err(e)
            },
            Looked::Unlisted { own, dev, errno } => {
                match self.take_own(&task, own) {
                    Err(e) => return Err(e),
                    Ok(_) => {},
                }
                if dev != w.root_dev {
                    self.current = None;
                    return Ok(());
                }
                if denied(errno) {
                    self.mark_unreadable(&task.rel);
                    self.current = None;
                    return Ok(());
                }
                Err(errno)
            },
            Looked::Read { own, dev, names } => {
                match self.take_own(&task, own) {
                    Err(e) => return Err(e),
                    Ok(_) => {},
                }
                if dev != w.root_dev {
                    self.current = None;
                    return Ok(());
                }
                match &task.scope {
                    DirScope::Names(asked) => match self.take_names(&task.rel, names) {
                        Err(e) => Err(e),
                        Ok(None) => {
                            self.current = Some(
                                Task { rel: task.rel, scope: DirScope::Whole, recurse: task.recurse },
                            );
                            Ok(())
                        },
                        Ok(Some(found)) => {
                            let mut were: Vec<Vec<u8>> = match self.seen.named.get(&task.rel) {
                                Some(were) => copy_names(were),
                                None => {
                                    let none: Vec<Vec<u8>> = Vec::new();
                                    assert(none.deep_view() =~= Seq::<Seq<u8>>::empty());
                                    none
                                },
                            };
                            insert_names(&mut were, asked);
                            self.seen.named.set(task.rel.clone(), were);
                            self.take_in(w, found, task.recurse);
                            self.current = None;
                            Ok(())
                        },
                    },
                    DirScope::Whole => match self.take_all(&task.rel, names) {
                        Err(e) => Err(e),
                        Ok(found) => {
                            insert(&mut self.seen.whole, task.rel.clone());
                            self.seen.named.unset(&task.rel);
                            self.take_in(w, found, task.recurse);
                            self.current = None;
                            Ok(())
                        },
                    },
                }
            },
        }
    }

    /// What reading the place of the last step gave.
    pub fn peeked(&mut self, got: Peeked) -> (r: Result<(), i32>)
        requires
            old(self).wf(),
        ensures
            final(self).wf(),
            match old(self)@.peeking {
                None => r is Ok && final(self)@ == old(self)@,
                Some(rel) => {
                    let left = SurveyModel { peeking: None, ..old(self)@ };
                    if rel.len() == 0 {
                        r is Ok && final(self)@ == left
                    } else {
                        match r {
                            Ok(_) => peeking_at(left, rel, got@) == Ok::<SurveyModel, i32>(final(self)@),
                            Err(e) => peeking_at(left, rel, got@) == Err::<SurveyModel, i32>(e),
                        }
                    }
                },
            },
    {
        let rel = match self.peeking.take() {
            None => return Ok(()),
            Some(rel) => rel,
        };
        if rel.depth() == 0 {
            return Ok(());
        }
        self.take_peek(&rel, got)
    }

    fn idle(&self, w: &World, task: &Task) -> (r: bool)
        ensures
            r == is_idle(w@, self@, task@),
    {
        if task.recurse {
            if contains(&self.recursed, &task.rel) {
                return true;
            }
        } else if contains(&self.seen.whole, &task.rel) {
            return true;
        }
        if task.rel.depth() as u64 >= w.max_depth as u64 {
            return true;
        }
        let parts = &task.rel.parts;
        let mut k: usize = 0;
        while k < parts.len()
            invariant
                parts == task.rel.parts,
                k <= parts@.len(),
                forall|j: int| 0 <= j < k ==> !daemon_owned(#[trigger] task@.rel[j]),
            decreases parts@.len() - k,
        {
            proof {
                crate::path::lemma_deep_bytes(parts@[k as int]);
                assert(task@.rel[k as int] == parts@[k as int]@);
            }
            if is_daemon_owned(&parts[k]) {
                return true;
            }
            k += 1;
        }
        false
    }

    fn probe_ids(&mut self, w: &World) -> (r: Step)
        requires
            old(self).wf(),
            old(self).ids is Some,
        ensures
            final(self).wf(),
            (final(self)@, r@) == probing_ids(w@, old(self)@, old(self)@.ids->0),
    {
        let ghost first = self@;
        let ghost is = self@.ids->0;
        loop
            invariant
                self.wf(),
                self.ids is Some,
                is == self@.ids->0,
                first == old(self)@,
                is == first.ids->0,
                probing_ids(w@, first, is) == probing_ids(w@, self@, is),
            decreases is.len() - self.probed,
        {
            let id: String = match &self.ids {
                None => return Step::Done,
                Some(ids) => {
                    if self.probed >= ids.len() {
                        return Step::Done;
                    }
                    assert(is[self.probed as int] == ids@[self.probed as int]@);
                    ids[self.probed].clone()
                },
            };
            self.probed += 1;
            if let Some(rel) = w.expected_rel(id.as_str()) {
                if rel.depth() > 0 && entry_at(&self.seen.entries, &rel).is_none() && !contains(
                    &self.seen.whole,
                    &rel.dir(),
                ) {
                    self.dir_next = if rel.depth() > 1 {
                        rel.parent()
                    } else {
                        None
                    };
                    self.peeking = Some(rel.clone());
                    return Step::Peek(rel);
                }
            }
        }
    }

    /// What to do next.
    pub fn next(&mut self, w: &World) -> (r: Step)
        requires
            old(self).wf(),
        ensures
            final(self).wf(),
            (final(self)@, r@) == next_step(w@, old(self)@),
    {
        let ghost first = self@;
        if let Some(task) = &self.current {
            return Step::Look {
                rel: task.rel.clone(),
                scope: task.scope.clone(),
                own: !self.own_read,
            };
        }
        while self.queue.len() > 0
            invariant
                self.wf(),
                first == old(self)@,
                self@.current is None,
                next_step(w@, first) == next_step(w@, self@),
            decreases self.queue@.len(),
        {
            let ghost before = self@;
            let task = self.queue.remove(0);
            assert(self@.queue =~= before.queue.drop_first());
            assert(before.queue[0] == task@);
            let idle = self.idle(w, &task);
            if task.recurse && !contains(&self.recursed, &task.rel) {
                push_to(&mut self.recursed, task.rel.clone());
            }
            if !idle {
                let step = Step::Look {
                    rel: task.rel.clone(),
                    scope: task.scope.clone(),
                    own: true,
                };
                self.current = Some(task);
                self.own_read = false;
                return step;
            }
        }
        if self.ids.is_none() {
            let mut ids: Vec<String> = Vec::new();
            assert(ids.deep_view() =~= Seq::<Seq<char>>::empty());
            let ghost es = self@.entries;
            let mut i: usize = 0;
            while i < self.seen.entries.len()
                invariant
                    i <= self.seen.entries@.len(),
                    es == self.seen.entries.deep_view(),
                    ids_read(es, 0, Seq::empty()) == ids_read(es, i as int, ids.deep_view()),
                decreases self.seen.entries@.len() - i,
            {
                assert(es[i as int] == self.seen.entries@[i as int]@);
                if let Some(id) = &self.seen.entries[i].id {
                    insert(&mut ids, id.clone());
                }
                i += 1;
            }
            self.ids = Some(ids);
        }
        if let Some(dir) = self.dir_next.take() {
            if entry_at(&self.seen.entries, &dir).is_none() {
                self.peeking = Some(dir.clone());
                return Step::Peek(dir);
            }
        }
        self.probe_ids(w)
    }
}

} // verus!
