//! How a survey goes on from what it has read.

use vstd::prelude::*;
use crate::local::batch::ScopeModel;
use crate::local::entry::EntryModel;
use crate::local::reading::{has_entry_at, lemma_taking_in};
use crate::local::run::index_at;
use crate::local::survey::{
    adding, barring, beginning, descends_into, expected_of_handle, ids_read, item_by_handle, looking, peeking_at, probing_ids,
    probing_next, reading_names, row_by_handle, sooner, taking_in, unread, with_own, Looked, Peeked,
    PeekedModel, Reading, ReadingModel, StepModel, SurveyModel, TaskModel,
};
use crate::local::world::{expected_rel, WorldModel};
use crate::path::{path_lt, PathModel, RelPath};
use crate::sorted::{inserted, inserted_all, lemma_inserted_all_holds, lemma_inserted_holds};
use crate::tree::InodeModel;

verus! {

/// A directory's own entry is read once, when it is looked into first; the root has
/// none, and one that was read already stays as it was.
pub proof fn law_a_directorys_own_entry_is_read_once(s: SurveyModel, task: TaskModel, own: PeekedModel)
    ensures
        s.own_read || task.rel.len() == 0 || index_at(s.entries, task.rel) is Some ==> (with_own(
            s,
            task,
            own,
        ) matches Ok(next) && next.entries == s.entries && next.unreadable == s.unreadable && next.own_read),
        !s.own_read && task.rel.len() > 0 && index_at(s.entries, task.rel) is None ==> match peeking_at(
            s,
            task.rel,
            own,
        ) {
            Err(e) => with_own(s, task, own) == Err::<SurveyModel, i32>(e),
            Ok(peeked) => with_own(s, task, own) matches Ok(next) && next.entries == peeked.entries
                && next.unreadable == peeked.unreadable && next.own_read,
        },
{
}

/// Nothing of a directory on another filesystem is read, nor of one that may not
/// be listed: that is known to be unreadable; neither counts as read.
pub proof fn law_what_is_not_read(
    w: WorldModel,
    s: SurveyModel,
    task: TaskModel,
    own: Peeked,
    dev: u64,
    names: Vec<(Vec<u8>, Reading)>,
    errno: i32,
)
    requires
        s.own_read,
    ensures
        dev != w.root_dev ==> {
            &&& looking(w, s, task, Looked::Read { own, dev, names }) matches Ok(next) && next.current is None
                && next.entries == s.entries && next.whole == s.whole && next.named == s.named && next.queue
                == s.queue
            &&& looking(w, s, task, Looked::Unlisted { own, dev, errno }) matches Ok(next)
                && next.current is None && next.entries == s.entries && next.whole == s.whole
                && next.unreadable == s.unreadable
        },
        dev == w.root_dev ==> match looking(w, s, task, Looked::Unlisted { own, dev, errno }) {
            Ok(next) => (errno == 13 || errno == 1) && next.unreadable.contains(task.rel) && next.current
                is None && next.entries == s.entries && next.whole == s.whole,
            Err(e) => e == errno && errno != 13 && errno != 1,
        },
{
    let barred = s.unreadable.push(task.rel);
    assert(barred[s.unreadable.len() as int] == task.rel);
}

proof fn lemma_reading_names(
    s: SurveyModel,
    rel: PathModel,
    names: Seq<(Seq<u8>, ReadingModel)>,
    k: int,
    found: Seq<EntryModel>,
)
    requires
        0 <= k <= names.len(),
    ensures
        reading_names(s, rel, names, k, found) matches Ok((next, all)) ==> {
            &&& next.entries == s.entries && next.queue == s.queue && next.whole == s.whole && next.named
                == s.named && next.named_dirs == s.named_dirs
            &&& all is None ==> exists|m: int| k <= m < names.len() && (#[trigger] names[m]).1 is Nothing
            &&& all matches Some(read) ==> {
                &&& read.len() <= found.len() + names.len() - k
                &&& forall|e: EntryModel| found.contains(e) ==> #[trigger] read.contains(e)
                &&& forall|m: int|
                    k <= m < names.len() ==> ((#[trigger] names[m]).1 matches ReadingModel::Found(e)
                        ==> read.contains(e))
            }
        },
    decreases names.len() - k,
{
    if k < names.len() {
        let at = rel.push(names[k].0);
        match names[k].1 {
            ReadingModel::Found(e) => {
                let more = found.push(e);
                lemma_reading_names(s, rel, names, k + 1, more);
                assert(more[found.len() as int] == e);
                assert forall|x: EntryModel| found.contains(x) implies #[trigger] more.contains(x) by {
                    vstd::seq_lib::lemma_seq_contains_after_push(found, e, x);
                }
            },
            ReadingModel::Failed(_) => {
                let barred = barring(s, at);
                lemma_reading_names(barred, rel, names, k + 1, found);
            },
            ReadingModel::Nothing => {
                lemma_reading_names(s, rel, names, k + 1, found);
                assert(names[k].1 is Nothing);
            },
        }
    }
}

/// A directory looked at by name: where a name is not there the whole directory is
/// looked at next; and else everything found is taken in, and the directory counts
/// as read for every name asked for.
pub proof fn law_a_directory_read_by_name(
    w: WorldModel,
    s: SurveyModel,
    task: TaskModel,
    own: Peeked,
    names: Vec<(Vec<u8>, Reading)>,
    asked: Seq<Seq<u8>>,
    m: int,
    name: Seq<u8>,
)
    requires
        s.own_read,
        task.scope == ScopeModel::Names(asked),
        s.entries.len() + names@.len() < usize::MAX,
        0 <= m < names@.len(),
    ensures
        looking(w, s, task, Looked::Read { own, dev: w.root_dev, names }) matches Ok(next) ==> {
            let all = names.deep_view();
            &&& next.current matches Some(again) ==> again.rel == task.rel && again.scope is Whole
                && again.recurse == task.recurse && next.entries == s.entries && (exists|k: int|
                0 <= k < all.len() && (#[trigger] all[k]).1 is Nothing)
            &&& next.current is None ==> {
                &&& next.named.contains_key(task.rel) && next.named_dirs.contains(task.rel)
                &&& asked.contains(name) ==> next.named[task.rel].contains(name)
                &&& all[m].1 matches ReadingModel::Found(e) ==> has_entry_at(next.entries, e.rel)
            }
        },
        names.deep_view()[0].1 is Nothing && !s.unreadable.contains(
            task.rel.push(names.deep_view()[0].0),
        ) ==> (looking(w, s, task, Looked::Read { own, dev: w.root_dev, names }) matches Ok(next)
            && next.current is Some),
{
    let all = names.deep_view();
    let known = SurveyModel { own_read: true, ..s };
    lemma_reading_names(known, task.rel, all, 0, Seq::empty());
    if let Ok((read, Some(found))) = reading_names(known, task.rel, all, 0, Seq::empty()) {
        let were = if read.named.contains_key(task.rel) {
            read.named[task.rel]
        } else {
            Seq::empty()
        };
        let with = SurveyModel {
            named: read.named.insert(task.rel, inserted_all::<Vec<u8>>(were, asked)),
            named_dirs: inserted::<RelPath>(read.named_dirs, task.rel),
            ..read
        };
        lemma_inserted_all_holds::<Vec<u8>>(were, asked, name);
        lemma_inserted_holds::<RelPath>(read.named_dirs, task.rel, task.rel);
        lemma_taking_in(w, with, found, task.recurse, 0);
        lemma_dirs_kept(w, with, found, task.recurse, 0);
        if let ReadingModel::Found(e) = all[m].1 {
            assert(found.contains(e));
            let k = choose|k: int| 0 <= k < found.len() && found[k] == e;
            assert(has_entry_at(taking_in(w, with, found, task.recurse, 0).entries, found[k].rel));
        }
    }
}

proof fn lemma_dirs_kept(w: WorldModel, s: SurveyModel, read: Seq<EntryModel>, recurse: bool, k: int)
    requires
        0 <= k,
    ensures
        taking_in(w, s, read, recurse, k).named_dirs == s.named_dirs,
    decreases read.len() - k,
{
    if k < read.len() {
        let e = read[k];
        let queued = if descends_into(w, e, recurse) {
            SurveyModel {
                queue: s.queue.push(
                    TaskModel { rel: e.rel, scope: ScopeModel::Whole, recurse: true },
                ),
                ..s
            }
        } else {
            s
        };
        lemma_dirs_kept(w, adding(queued, e), read, recurse, k + 1);
    }
}

/// The item at `rel` needs no look of its own: it is the root, was read there, or
/// its directory was read whole.
pub open spec fn was_met(s: SurveyModel, rel: PathModel) -> bool {
    rel.len() == 0 || index_at(s.entries, rel) is Some || s.whole.contains(rel.drop_last())
}

/// Every item seen away from where it is expected is looked for there, in turn, and
/// its directory after it; the survey is done only when none is left.
pub proof fn law_items_seen_elsewhere_are_looked_for(w: WorldModel, s: SurveyModel, ids: Seq<Seq<char>>)
    ensures
        match probing_ids(w, s, ids).1 {
            StepModel::Done => forall|j: int|
                s.probed <= j < ids.len() ==> (expected_rel(w, #[trigger] ids[j]) matches Some(rel)
                    ==> was_met(s, rel)),
            StepModel::Peek(at) => {
                let next = probing_ids(w, s, ids).0;
                &&& s.probed < next.probed <= ids.len()
                &&& expected_rel(w, ids[next.probed - 1]) == Some(at) && !was_met(s, at)
                &&& next.peeking == Some(at)
                &&& next.dir_next == if at.len() > 1 {
                    Some(at.drop_last())
                } else {
                    None
                }
                &&& forall|j: int|
                    s.probed <= j < next.probed - 1 ==> (expected_rel(w, #[trigger] ids[j]) matches Some(rel)
                        ==> was_met(s, rel))
            },
            StepModel::Look { .. } => false,
        },
        s.dir_next matches Some(dir) ==> index_at(s.entries, dir) is None ==> probing_next(w, s, ids).1
            == StepModel::Peek(dir) && probing_next(w, s, ids).0.peeking == Some(dir),
        s.dir_next is None ==> probing_next(w, s, ids) == probing_ids(w, s, ids),
    decreases ids.len() - s.probed,
{
    if s.probed < ids.len() {
        law_items_seen_elsewhere_are_looked_for(w, SurveyModel { probed: s.probed + 1, ..s }, ids);
    }
}

proof fn lemma_ids_read(entries: Seq<EntryModel>, i: int, ids: Seq<Seq<char>>, id: Seq<char>)
    requires
        0 <= i,
    ensures
        ids_read(entries, i, ids).contains(id) <==> ids.contains(id) || exists|m: int|
            i <= m < entries.len() && (#[trigger] entries[m]).id == Some(id),
    decreases entries.len() - i,
{
    if i < entries.len() {
        lemma_ids_read(entries, i + 1, ids, id);
        if let Some(own) = entries[i].id {
            lemma_ids_read(entries, i + 1, inserted::<String>(ids, own), id);
            lemma_inserted_holds::<String>(ids, own, id);
        }
        let later = exists|m: int| i + 1 <= m < entries.len() && (#[trigger] entries[m]).id == Some(id);
        assert((exists|m: int| i <= m < entries.len() && (#[trigger] entries[m]).id == Some(id)) <==> later
            || entries[i].id == Some(id));
    }
}

/// The ids looked for are those that were read, all of them and no other.
pub proof fn law_which_ids_are_looked_for(entries: Seq<EntryModel>, id: Seq<char>)
    ensures
        ids_read(entries, 0, Seq::empty()).contains(id) <==> exists|m: int|
            0 <= m < entries.len() && (#[trigger] entries[m]).id == Some(id),
{
    lemma_ids_read(entries, 0, Seq::empty(), id);
}

proof fn lemma_item_by_handle(w: WorldModel, h: Seq<u8>, c: int)
    requires
        0 <= c,
    ensures
        match item_by_handle(w, h, c) {
            Some(id) => exists|m: int|
                c <= m < w.items.len() && (#[trigger] w.items[m]).handle == Some(h) && w.items[m].row.id == id
                    && forall|j: int| c <= j < m ==> (#[trigger] w.items[j]).handle != Some(h),
            None => forall|j: int| c <= j < w.items.len() ==> (#[trigger] w.items[j]).handle != Some(h),
        },
    decreases w.items.len() - c,
{
    if c < w.items.len() {
        lemma_item_by_handle(w, h, c + 1);
        if w.items[c].handle == Some(h) {
            assert(w.items[c].handle == Some(h));
        }
    }
}

/// The row is of the object `h`.
pub open spec fn is_row_of_handle(inode: Option<InodeModel>, h: Seq<u8>) -> bool {
    inode matches Some(o) && o.handle == Some(h)
}

proof fn lemma_row_by_handle(w: WorldModel, h: Seq<u8>, k: int)
    requires
        0 <= k,
    ensures
        match row_by_handle(w, h, k) {
            Some(rel) => exists|m: int|
                k <= m < w.rows.len() && is_row_of_handle((#[trigger] w.rows[m]).inode, h) && w.rows[m].rel
                    == rel && forall|j: int|
                    k <= j < m ==> !is_row_of_handle((#[trigger] w.rows[j]).inode, h),
            None => forall|j: int|
                k <= j < w.rows.len() ==> !is_row_of_handle((#[trigger] w.rows[j]).inode, h),
        },
    decreases w.rows.len() - k,
{
    if k < w.rows.len() {
        lemma_row_by_handle(w, h, k + 1);
        if is_row_of_handle(w.rows[k].inode, h) {
            assert(is_row_of_handle(w.rows[k].inode, h));
        }
    }
}

/// An object an event names is looked for where its item is expected; where it is
/// no item's, or that is expected nowhere, where the first row of it last saw it;
/// and nowhere where there is neither.
pub proof fn law_where_an_events_object_is_looked_for(w: WorldModel, h: Seq<u8>, c: int, k: int)
    ensures
        ({
            let own = 0 <= c < w.items.len() && w.items[c].handle == Some(h) && (forall|j: int|
                0 <= j < c ==> (#[trigger] w.items[j]).handle != Some(h));
            let none = forall|j: int| 0 <= j < w.items.len() ==> (#[trigger] w.items[j]).handle != Some(h);
            let row = 0 <= k < w.rows.len() && is_row_of_handle(w.rows[k].inode, h) && (forall|j: int|
                0 <= j < k ==> !is_row_of_handle((#[trigger] w.rows[j]).inode, h));
            let no_row = forall|j: int|
                0 <= j < w.rows.len() ==> !is_row_of_handle((#[trigger] w.rows[j]).inode, h);
            &&& own && expected_rel(w, w.items[c].row.id) is Some ==> expected_of_handle(w, h)
                == expected_rel(w, w.items[c].row.id)
            &&& (none || (own && expected_rel(w, w.items[c].row.id) is None)) && row ==> expected_of_handle(
                w,
                h,
            ) == Some(w.rows[k].rel)
            &&& (none || (own && expected_rel(w, w.items[c].row.id) is None)) && no_row
                ==> expected_of_handle(w, h) is None
        }),
{
    lemma_item_by_handle(w, h, 0);
    lemma_row_by_handle(w, h, 0);
}

/// The shallower directory is looked into first, and of two as deep the lesser
/// path; a survey begins with its tasks and nothing read, and a task taken with
/// everything below is not taken so again.
pub proof fn law_a_survey_goes_from_the_top(
    a: PathModel,
    b: PathModel,
    tasks: Seq<TaskModel>,
    s: SurveyModel,
    task: TaskModel,
)
    ensures
        a.len() < b.len() ==> sooner(a, b) && !sooner(b, a),
        a.len() == b.len() ==> (sooner(a, b) <==> path_lt(a, b)),
        unread(tasks).queue == tasks && unread(tasks).entries.len() == 0 && unread(tasks).whole.len() == 0
            && unread(tasks).current is None && unread(tasks).probed == 0,
        task.recurse ==> beginning(s, task).recursed.contains(task.rel),
        !task.recurse ==> beginning(s, task) == s,
        beginning(s, task).queue == s.queue && beginning(s, task).entries == s.entries,
{
    let more = s.recursed.push(task.rel);
    assert(more[s.recursed.len() as int] == task.rel);
}

} // verus!
