//! What an entry with an item id is: the item, a copy, an editor's backup —
//! and whether its content is the base's.

use vstd::prelude::*;
use vstd::string::*;
use vstd::utf8::encode_utf8;
use crate::local::entry::{inode_of, is_hydrated, Entry, EntryModel, State, StateAttr};
use crate::local::facts::{
    Ask, AskModel, Checked, Hashed, HashedModel, Restored, Stop, StopModel, Stripped,
};
use crate::local::ignore::ignored;
use crate::local::names::{refusal, refused, refused_code};
use crate::local::run::{
    choosing, consuming, entry_at, freed, gave, index_at, push_to, rechecking, rechecking_tree,
    skipping, went, with_detection, with_op, ExaminedModel, Run, RunModel, Examiner, SceneModel,
};
use crate::local::world::{expected_rel, pending_of, recorded_handle, row_of, Item, WorldModel};
use crate::local::{snapshot, snapshot_text, RECHECK};
use crate::os::{errno_gone, gone, Type};
use crate::path::{dir_of, same_bytes, PathModel, RelPath};
use crate::sorted::contains;
use crate::text::{lossy, same_text, text_of};
use crate::tree::{
    copy_handle, copy_opt, opt_is, same_handle, same_opt, Base, BaseModel, Detection,
    DetectionModel, OpModel, OutboxKind, OutboxOp, OutboxState, Row, RowModel,
};

verus! {

/// A row's reason while a writer has the file open.
pub open spec fn open_for_writing() -> Seq<char> {
    "open-for-writing"@
}

/// What a content check found.
#[derive(Debug, Clone, Copy, PartialEq, Eq, Structural)]
pub enum Content {
    Changed,
    /// Checked and the base's.
    Same,
    /// Could not tell (busy, not ours to read, an upload of it running).
    Unknown,
    /// Changed or not, a writer has it open.
    Waiting,
}

/// The item id of the directory at `rel` as this batch decided it: nothing
/// for a directory new to OneDrive.
pub open spec fn dir_id(sc: SceneModel, run: RunModel, rel: PathModel) -> Option<Seq<char>> {
    if rel.len() == 0 {
        Some(sc.w.root_id)
    } else {
        match index_at(run.entries, rel) {
            None => None,
            Some(i) => match run.entries[i as int].id {
                None => None,
                Some(id) => if run.chosen.contains_key(id) && run.chosen[id] == i {
                    Some(id)
                } else {
                    None
                },
            },
        }
    }
}

/// The local content derives from the base's version: its own cTag, where it
/// has one, is the base's.
pub open spec fn same_version(base: RowModel, ctag: Option<Seq<char>>) -> bool {
    ctag is None || ctag == base.ctag
}

/// A change of item `id`, found as `e`. It starts from the base's version, or
/// from the file's own when that is another; the eTag guards only the base's.
pub open spec fn detection(
    sc: SceneModel,
    run: RunModel,
    kind: OutboxKind,
    id: Seq<char>,
    base: RowModel,
    e: EntryModel,
    ctag: Option<Seq<char>>,
) -> DetectionModel {
    DetectionModel {
        kind,
        item_id: Some(id),
        inode: Some(inode_of(e)),
        rel: e.rel,
        base: Some(
            BaseModel {
                etag: if same_version(base, ctag) {
                    base.etag
                } else {
                    None
                },
                ctag: if same_version(base, ctag) {
                    base.ctag
                } else {
                    ctag
                },
                parent: base.parent_id,
                name: Some(base.name),
            },
        ),
        target_parent: dir_id(sc, run, dir_of(e.rel)),
        target_name: Some(text_of(e.name)),
        same_content: false,
        state: OutboxState::Ready,
        reason: None,
        next_try: None,
    }
}

/// `d`, waiting for a writer to close the file.
pub open spec fn waiting(d: DetectionModel, now: i64) -> DetectionModel {
    DetectionModel {
        state: OutboxState::Waiting,
        reason: Some(open_for_writing()),
        next_try: Some((now + RECHECK) as i64),
        ..d
    }
}

/// Whether a writer holds the new file `i`; it is then examined again.
pub open spec fn probing(sc: SceneModel, run: RunModel, i: usize) -> Result<(RunModel, bool), StopModel> {
    match sc.f.checked_of(i) {
        None => Err(StopModel::Ask(AskModel::Check(i))),
        Some(Checked::Failed(e)) => Err(StopModel::Failed(e)),
        Some(Checked::Other) => Ok((run, false)),
        Some(Checked::Same { state, writing }) => if writing == Some(true) {
            Ok((rechecking(run, run.entries[i as int]), true))
        } else {
            Ok((run, false))
        },
    }
}

/// Item `id`'s content is now the file `s` at its place: an `update` from the
/// new inode, which takes over the item at commit. A pending create of that
/// file goes, unless it is being sent.
pub open spec fn saving_by_rename(
    sc: SceneModel,
    run: RunModel,
    id: Seq<char>,
    base: RowModel,
    s: usize,
) -> Result<RunModel, StopModel> {
    let e = run.entries[s as int];
    let removed = match pending_of(sc.w, e) {
        Some(row) => if row.state != OutboxState::Running {
            with_op(run, OpModel::Remove(row.seq))
        } else {
            run
        },
        None => run,
    };
    match probing(sc, removed, s) {
        Err(stop) => Err(stop),
        Ok((next, busy)) => {
            let d = detection(sc, next, OutboxKind::Update, id, base, e, None);
            Ok(
                with_detection(
                    next,
                    if busy {
                        waiting(d, sc.w.now)
                    } else {
                        d
                    },
                ),
            )
        },
    }
}

/// Entry `i` cannot be uploaded, for `reason`: listed unless its name is
/// ignored, and done with.
pub open spec fn listing_it(sc: SceneModel, run: RunModel, i: usize, reason: Seq<char>) -> RunModel {
    let e = run.entries[i as int];
    consuming(
        if ignored(sc.w.ignore, e.name) {
            run
        } else {
            skipping(run, e.rel, reason)
        },
        i,
    )
}

/// Entry `i`'s attributes are taken off.
pub open spec fn stripping(sc: SceneModel, run: RunModel, i: usize) -> Result<RunModel, StopModel> {
    match sc.f.stripped_of(i) {
        None => Err(StopModel::Ask(AskModel::Strip(i))),
        Some(Stripped::Failed(e)) => Err(StopModel::Failed(e)),
        Some(Stripped::Done) => Ok(freed(run, i)),
    }
}

/// An entry with an item id that is not the item's (a copy, a file from
/// another folder or account, the wrong kind): downloaded, it is the user's
/// own file, stripped and uploaded as new; a directory likewise, with its
/// contents. A placeholder cannot be read here and is listed; so is a file
/// with other links, whose other names stripping would change too.
pub open spec fn estranging(sc: SceneModel, run: RunModel, i: usize) -> Result<RunModel, StopModel> {
    let e = run.entries[i as int];
    match sc.f.dir_of(dir_of(e.rel)) {
        None => Err(StopModel::Ask(AskModel::Dir(dir_of(e.rel)))),
        Some(Some(errno)) => if errno_gone(errno) {
            Ok(run)
        } else {
            Err(StopModel::Failed(errno))
        },
        Some(None) => if e.ty == Type::Dir {
            if sc.whole.contains(e.rel) {
                stripping(sc, run, i)
            } else {
                stripping(sc, rechecking_tree(run, e.rel), i)
            }
        } else if e.ty == Type::File && is_hydrated(e) && e.nlink > 1 {
            Ok(listing_it(sc, run, i, "hard-link"@))
        } else if e.ty == Type::File && is_hydrated(e) {
            stripping(sc, run, i)
        } else {
            Ok(listing_it(sc, run, i, "not-downloaded"@))
        },
    }
}

/// The backup's names from `k` on: each taken, and stripped if it was
/// downloaded (a placeholder stays managed and fills on open).
pub open spec fn keeping_backup(sc: SceneModel, run: RunModel, group: Seq<usize>, k: int) -> Result<
    RunModel,
    StopModel,
>
    decreases group.len() - k,
{
    if k >= group.len() {
        Ok(run)
    } else {
        let i = group[k];
        let e = run.entries[i as int];
        let taken = consuming(run, i);
        if !is_hydrated(e) {
            keeping_backup(sc, taken, group, k + 1)
        } else {
            match sc.f.stripped_of(i) {
                None => Err(StopModel::Ask(AskModel::Strip(i))),
                Some(Stripped::Failed(errno)) => Err(StopModel::Failed(errno)),
                Some(Stripped::Done) => keeping_backup(
                    sc,
                    RunModel {
                        out: ExaminedModel {
                            stripped: taken.out.stripped.push(e.rel),
                            ..taken.out
                        },
                        ..taken
                    },
                    group,
                    k + 1,
                ),
            }
        }
    }
}

/// `run` with entry `s`'s state forgotten: the stamp and cTag of a new file
/// that copied the old one's attributes are the old version's, not its own.
pub open spec fn forgetting_state(run: RunModel, s: usize) -> RunModel {
    let e = run.entries[s as int];
    if e.id is Some {
        RunModel {
            entries: run.entries.update(s as int, EntryModel { state: StateAttr::Absent, ..e }),
            ..run
        }
    } else {
        run
    }
}

/// Save-by-rename with a backup: item `id`'s inode (`group`) now sits under an
/// ignored name, and `s` stands where the item is. `s` is the item's new
/// content; the backup stays the user's.
pub open spec fn backing_up(
    sc: SceneModel,
    run: RunModel,
    id: Seq<char>,
    base: RowModel,
    group: Seq<usize>,
    s: usize,
) -> Result<RunModel, StopModel> {
    match keeping_backup(sc, run, group, 0) {
        Err(stop) => Err(stop),
        Ok(kept) => saving_by_rename(
            sc,
            forgetting_state(choosing(consuming(kept, s), id, s), s),
            id,
            base,
            s,
        ),
    }
}

/// A row of item `id` is sending the content `now`.
pub open spec fn being_sent(w: WorldModel, id: Seq<char>, now: Seq<char>) -> bool {
    exists|k: int|
        0 <= k < w.rows.len() && (#[trigger] w.rows[k]).item_id == Some(id) && w.rows[k].state
            == OutboxState::Running && w.rows[k].snapshot == Some(now)
}

/// The file's size is not its stamp's.
pub open spec fn size_changed(e: EntryModel) -> bool {
    e.stamp matches Some(s) && s.size != e.size
}

/// The file's time is not its stamp's, or it has none.
pub open spec fn time_changed(e: EntryModel) -> bool {
    match e.stamp {
        Some(s) => s.mtime_sec != e.mtime_sec || s.mtime_nsec != e.mtime_nsec,
        None => true,
    }
}

/// An event said the file was written.
pub open spec fn was_written(sc: SceneModel, e: EntryModel) -> bool {
    (e.handle matches Some(h) && sc.batch.written_handles.contains(h))
        || sc.batch.written_rels.contains(e.rel)
}

/// The content check of the downloaded file `i` of item `id`.
pub open spec fn checking_hydrated(
    sc: SceneModel,
    run: RunModel,
    id: Seq<char>,
    base: RowModel,
    i: usize,
) -> Result<(RunModel, Content), StopModel> {
    let e = run.entries[i as int];
    if being_sent(sc.w, id, snapshot_text(e.size, e.mtime_sec, e.mtime_nsec)) {
        Ok((run, Content::Unknown))
    } else if !size_changed(e) && !time_changed(e) && !was_written(sc, e) {
        Ok((run, Content::Same))
    } else {
        match sc.f.checked_of(i) {
            None => Err(StopModel::Ask(AskModel::Check(i))),
            Some(Checked::Failed(errno)) => Err(StopModel::Failed(errno)),
            Some(Checked::Other) => Ok((rechecking(run, e), Content::Unknown)),
            Some(Checked::Same { state, writing }) => if state != Some(State::Hydrated) {
                Ok((rechecking(run, e), Content::Unknown))
            } else if writing == Some(true) {
                Ok((rechecking(run, e), Content::Waiting))
            } else if size_changed(e) || !same_version(base, e.ctag) || base.quickxor is None {
                Ok((run, Content::Changed))
            } else {
                match sc.f.hashed_of(i) {
                    None => Err(StopModel::Ask(AskModel::Hash(i))),
                    Some(HashedModel::Failed(errno)) => Err(StopModel::Failed(errno)),
                    Some(HashedModel::Read(d)) => if Some(d.hash) != base.quickxor {
                        Ok((run, Content::Changed))
                    } else if d.after != d.before {
                        // Written while it was being read: the hash says
                        // nothing.
                        Ok((rechecking(run, e), Content::Unknown))
                    } else {
                        // Only the time changed: a `touch` uploads nothing.
                        Ok(
                            (
                                RunModel {
                                    out: ExaminedModel {
                                        restamp: run.out.restamp.push(e.rel),
                                        ..run.out
                                    },
                                    ..run
                                },
                                Content::Same,
                            ),
                        )
                    },
                }
            },
        }
    }
}

/// The content check of item `id`'s file `i`. It never fills a placeholder,
/// and reads only downloaded files.
pub open spec fn checking(
    sc: SceneModel,
    run: RunModel,
    id: Seq<char>,
    base: RowModel,
    i: usize,
) -> Result<(RunModel, Content), StopModel> {
    let e = run.entries[i as int];
    match e.state {
        StateAttr::Known(State::Hydrating) | StateAttr::Known(State::Dehydrating) => Ok(
            (rechecking(run, e), Content::Unknown),
        ),
        StateAttr::Known(State::OnlineOnly) => if e.size == base.size {
            Ok((run, Content::Same))
        } else {
            match sc.f.restored_of(i) {
                None => Err(StopModel::Ask(AskModel::Restore(i))),
                Some(Restored::Failed(errno)) => Err(StopModel::Failed(errno)),
                Some(Restored::Busy) => Ok((rechecking(run, e), Content::Same)),
                Some(Restored::Done) => Ok(
                    (
                        RunModel {
                            out: ExaminedModel {
                                restored: run.out.restored.push(e.rel),
                                ..run.out
                            },
                            ..run
                        },
                        Content::Same,
                    ),
                ),
            }
        },
        StateAttr::Absent | StateAttr::Corrupt => Ok((run, Content::Unknown)),
        StateAttr::Known(State::Hydrated) => checking_hydrated(sc, run, id, base, i),
    }
}

/// What finding item `id` as entry `i` records of the object itself: its
/// handle where it is another than recorded, a placeholder's second name, a
/// directory's move.
pub open spec fn noting(sc: SceneModel, run: RunModel, id: Seq<char>, i: usize) -> RunModel {
    let e = run.entries[i as int];
    let handled = if e.handle is Some && e.handle != recorded_handle(sc.w, id) {
        with_op(run, OpModel::SetHandle { item_id: id, handle: e.handle })
    } else {
        run
    };
    let marked = if e.ty == Type::File && e.nlink > 1 && (e.state == StateAttr::Known(
        State::OnlineOnly,
    ) || e.state == StateAttr::Known(State::Hydrating) || e.state == StateAttr::Known(
        State::Dehydrating,
    )) {
        RunModel {
            out: ExaminedModel { mark_files: handled.out.mark_files.push(e.rel), ..handled.out },
            ..handled
        }
    } else {
        handled
    };
    match expected_rel(sc.w, id) {
        Some(was) => if e.ty == Type::Dir && was != e.rel {
            with_op(marked, OpModel::Rebase { from: was, to: e.rel })
        } else {
            marked
        },
        None => marked,
    }
}

/// The change finding item `id` as entry `i` means, its content being
/// `content`.
pub open spec fn found_change(
    sc: SceneModel,
    run: RunModel,
    id: Seq<char>,
    base: RowModel,
    i: usize,
    content: Content,
) -> DetectionModel {
    let e = run.entries[i as int];
    let d = detection(sc, run, OutboxKind::Move, id, base, e, e.ctag);
    let d = match content {
        Content::Changed => DetectionModel { kind: OutboxKind::Update, ..d },
        Content::Waiting => waiting(DetectionModel { kind: OutboxKind::Update, ..d }, sc.w.now),
        Content::Same => DetectionModel { same_content: true, ..d },
        Content::Unknown => d,
    };
    // Renamed to a name OneDrive refuses: blocked until renamed again.
    if e.name != encode_utf8(base.name) && refusal(e.name) is Some {
        DetectionModel {
            state: OutboxState::Blocked,
            reason: Some(refused_code(refusal(e.name)->0)),
            next_try: None,
            ..d
        }
    } else {
        d
    }
}

/// Item `id` found as entry `i`: where it is, and its content. In place,
/// unchanged or unknown, and with no row, there is nothing to record.
pub open spec fn finding(sc: SceneModel, run: RunModel, id: Seq<char>, base: RowModel, i: usize) -> Result<
    RunModel,
    StopModel,
> {
    let e = run.entries[i as int];
    let noted = noting(sc, run, id, i);
    let checked = if e.ty == Type::File {
        checking(sc, noted, id, base, i)
    } else {
        Ok((noted, Content::Same))
    };
    match checked {
        Err(stop) => Err(stop),
        Ok((next, content)) => {
            let d = found_change(sc, next, id, base, i, content);
            if d.kind == OutboxKind::Move && d.target_parent == base.parent_id && d.target_name
                == Some(base.name) && row_of(sc.w, id) is None {
                Ok(next)
            } else {
                Ok(with_detection(next, d))
            }
        },
    }
}

impl<'a> Examiner<'a> {
    /// The item id of the directory at `rel` as this batch decided it.
    pub fn dir_id(&self, run: &Run, rel: &RelPath) -> (r: Option<String>)
        ensures
            r.deep_view() == dir_id(self@, run@, rel@),
    {
        if rel.depth() == 0 {
            return Some(self.world.root_id.clone());
        }
        match entry_at(&run.entries, rel) {
            None => None,
            Some(i) => {
                assert(run@.entries[i as int] == run.entries@[i as int]@);
                match &run.entries[i].id {
                    None => None,
                    Some(id) => match run.chosen.get(id.as_str()) {
                        Some(j) => if *j == i {
                            Some(id.clone())
                        } else {
                            None
                        },
                        None => None,
                    },
                }
            },
        }
    }

    /// A change of item `id`, found as entry `i`.
    fn detection(&self, run: &Run, kind: OutboxKind, id: &str, base: &Row, i: usize, own_ctag: bool) -> (r:
        Detection)
        requires
            i < run.entries@.len(),
        ensures
            r@ == detection(
                self@,
                run@,
                kind,
                id@,
                base@,
                run@.entries[i as int],
                if own_ctag {
                    run@.entries[i as int].ctag
                } else {
                    None
                },
            ),
    {
        let e = &run.entries[i];
        assert(run@.entries[i as int] == e@);
        let ctag = if own_ctag {
            copy_opt(&e.ctag)
        } else {
            None
        };
        let same = ctag.is_none() || same_opt(&ctag, &base.ctag);
        Detection {
            kind,
            item_id: Some(id.to_owned()),
            inode: Some(e.inode()),
            rel: e.rel.clone(),
            base: Some(
                Base {
                    etag: if same {
                        copy_opt(&base.etag)
                    } else {
                        None
                    },
                    ctag: if same {
                        copy_opt(&base.ctag)
                    } else {
                        ctag
                    },
                    parent: copy_opt(&base.parent_id),
                    name: Some(base.name.clone()),
                },
            ),
            target_parent: self.dir_id(run, &e.dir_rel()),
            target_name: Some(lossy(&e.name)),
            same_content: false,
            state: OutboxState::Ready,
            reason: None,
            next_try: None,
        }
    }

    /// Whether a writer holds the new file `i`.
    pub fn probe_writer(&self, run: &mut Run, i: usize) -> (r: Result<bool, Stop>)
        requires
            old(run).wf(),
            i < old(run).entries@.len(),
        ensures
            final(run).wf(),
            final(run).entries@.len() == old(run).entries@.len(),
            gave(r, final(run)@) == probing(self@, old(run)@, i),
    {
        match self.facts.checked(i) {
            None => Err(Stop::Ask(Ask::Check(i))),
            Some(Checked::Failed(e)) => Err(Stop::Failed(e)),
            Some(Checked::Other) => Ok(false),
            Some(Checked::Same { state, writing }) => match writing {
                Some(true) => {
                    run.recheck(i);
                    Ok(true)
                },
                _ => Ok(false),
            },
        }
    }

    /// `d`, waiting for a writer to close the file.
    pub fn wait_for_writer(&self, d: &mut Detection)
        requires
            self.wf(),
        ensures
            final(d)@ == waiting(old(d)@, self@.w.now),
    {
        d.state = OutboxState::Waiting;
        d.reason = Some("open-for-writing".to_owned());
        d.next_try = Some(self.world.now + RECHECK);
    }

    /// Item `id`'s content is now the file `s` at its place.
    pub fn save_by_rename(&self, run: &mut Run, id: &str, base: &Row, s: usize) -> (r: Result<(), Stop>)
        requires
            self.wf(),
            old(run).wf(),
            s < old(run).entries@.len(),
        ensures
            final(run).wf(),
            final(run).entries@.len() == old(run).entries@.len(),
            went(r, final(run)@) == saving_by_rename(self@, old(run)@, id@, base@, s),
    {
        assert(run@.entries[s as int] == run.entries@[s as int]@);
        if let Some(row) = self.world.pending(&run.entries[s]) {
            if row.state != OutboxState::Running {
                run.op(OutboxOp::Remove(row.seq));
            }
        }
        let busy = match self.probe_writer(run, s) {
            Ok(busy) => busy,
            Err(stop) => return Err(stop),
        };
        let mut d = self.detection(run, OutboxKind::Update, id, base, s, false);
        if busy {
            self.wait_for_writer(&mut d);
        }
        run.detect(d);
        Ok(())
    }

    fn list_it(&self, run: &mut Run, i: usize, reason: &str)
        requires
            old(run).wf(),
            i < old(run).entries@.len(),
        ensures
            final(run).wf(),
            final(run).entries@.len() == old(run).entries@.len(),
            final(run)@ == listing_it(self@, old(run)@, i, reason@),
    {
        assert(run@.entries[i as int] == run.entries@[i as int]@);
        if !self.world.ignore.matches(&run.entries[i].name) {
            let rel = run.entries[i].rel.clone();
            run.skip(&rel, reason);
        }
        run.consume(i);
    }

    fn strip(&self, run: &mut Run, i: usize) -> (r: Result<(), Stop>)
        requires
            old(run).wf(),
            i < old(run).entries@.len(),
        ensures
            final(run).wf(),
            final(run).entries@.len() == old(run).entries@.len(),
            went(r, final(run)@) == stripping(self@, old(run)@, i),
    {
        match self.facts.stripped(i) {
            None => Err(Stop::Ask(Ask::Strip(i))),
            Some(Stripped::Failed(e)) => Err(Stop::Failed(e)),
            Some(Stripped::Done) => {
                run.free(i);
                Ok(())
            },
        }
    }

    /// An entry with an item id that is not the item's.
    pub fn stranger(&self, run: &mut Run, i: usize) -> (r: Result<(), Stop>)
        requires
            old(run).wf(),
            i < old(run).entries@.len(),
        ensures
            final(run).wf(),
            final(run).entries@.len() == old(run).entries@.len(),
            went(r, final(run)@) == estranging(self@, old(run)@, i),
    {
        let e = run.entries[i].clone();
        assert(run@.entries[i as int] == run.entries@[i as int]@);
        let dir = e.dir_rel();
        match self.facts.dir(&dir) {
            None => return Err(Stop::Ask(Ask::Dir(dir))),
            Some(Some(errno)) => {
                if gone(errno) {
                    return Ok(());
                }
                return Err(Stop::Failed(errno));
            },
            Some(None) => {},
        }
        match e.ty {
            Type::Dir => {
                if !contains(&self.seen.whole, &e.rel) {
                    run.out.recheck.tree(&e.rel);
                }
                self.strip(run, i)
            },
            Type::File if e.hydrated() && e.nlink > 1 => {
                self.list_it(run, i, "hard-link");
                Ok(())
            },
            Type::File if e.hydrated() => self.strip(run, i),
            _ => {
                self.list_it(run, i, "not-downloaded");
                Ok(())
            },
        }
    }

    /// Save-by-rename with a backup.
    pub fn backup(&self, run: &mut Run, id: &str, base: &Row, group: &Vec<usize>, s: usize) -> (r: Result<
        (),
        Stop,
    >)
        requires
            self.wf(),
            old(run).wf(),
            s < old(run).entries@.len(),
            forall|k: int| 0 <= k < group@.len() ==> #[trigger] group@[k] < old(run).entries@.len(),
        ensures
            final(run).wf(),
            final(run).entries@.len() == old(run).entries@.len(),
            went(r, final(run)@) == backing_up(self@, old(run)@, id@, base@, group@, s),
    {
        let ghost first = run@;
        let mut k: usize = 0;
        while k < group.len()
            invariant
                k <= group@.len(),
                run.wf(),
                run.entries@.len() == old(run).entries@.len(),
                s < run.entries@.len(),
                first == old(run)@,
                forall|m: int| 0 <= m < group@.len() ==> #[trigger] group@[m] < run.entries@.len(),
                keeping_backup(self@, first, group@, 0) == keeping_backup(
                    self@,
                    run@,
                    group@,
                    k as int,
                ),
            decreases group@.len() - k,
        {
            let i = group[k];
            assert(run@.entries[i as int] == run.entries@[i as int]@);
            let hydrated = run.entries[i].hydrated();
            let rel = run.entries[i].rel.clone();
            run.consume(i);
            if hydrated {
                match self.facts.stripped(i) {
                    None => return Err(Stop::Ask(Ask::Strip(i))),
                    Some(Stripped::Failed(e)) => return Err(Stop::Failed(e)),
                    Some(Stripped::Done) => push_to(&mut run.out.stripped, rel),
                }
            }
            k += 1;
        }
        run.consume(s);
        run.choose_entry(id, s);
        let ghost before = run@;
        assert(run@.entries[s as int] == run.entries@[s as int]@);
        if run.entries[s].id.is_some() {
            let mut e = run.entries[s].clone();
            e.state = StateAttr::Absent;
            run.entries.set(s, e);
            assert(run@.entries =~= forgetting_state(before, s).entries);
        }
        self.save_by_rename(run, id, base, s)
    }

    fn is_being_sent(&self, id: &str, now: &str) -> (r: bool)
        ensures
            r == being_sent(self@.w, id@, now@),
    {
        let rows = &self.world.rows;
        let mut k: usize = 0;
        while k < rows.len()
            invariant
                rows == self.world.rows,
                k <= rows@.len(),
                forall|m: int|
                    0 <= m < k ==> !((#[trigger] self@.w.rows[m]).item_id == Some(id@)
                        && self@.w.rows[m].state == OutboxState::Running
                        && self@.w.rows[m].snapshot == Some(now@)),
            decreases rows@.len() - k,
        {
            assert(self@.w.rows[k as int] == rows@[k as int]@);
            if rows[k].state == OutboxState::Running && opt_is(&rows[k].item_id, id) && opt_is(
                &rows[k].snapshot,
                now,
            ) {
                return true;
            }
            k += 1;
        }
        false
    }

    fn is_written(&self, e: &Entry) -> (r: bool)
        ensures
            r == was_written(self@, e@),
    {
        let by_handle = match &e.handle {
            Some(h) => contains(&self.batch.written_handles, h),
            None => false,
        };
        by_handle || contains(&self.batch.written_rels, &e.rel)
    }

    fn hydrated(&self, run: &mut Run, id: &str, base: &Row, i: usize) -> (r: Result<Content, Stop>)
        requires
            old(run).wf(),
            i < old(run).entries@.len(),
        ensures
            final(run).wf(),
            final(run).entries@.len() == old(run).entries@.len(),
            gave(r, final(run)@) == checking_hydrated(self@, old(run)@, id@, base@, i),
    {
        let e = run.entries[i].clone();
        assert(run@.entries[i as int] == run.entries@[i as int]@);
        let now = snapshot(e.size, e.mtime_sec, e.mtime_nsec);
        if self.is_being_sent(id, now.as_str()) {
            return Ok(Content::Unknown);
        }
        let size = match e.stamp {
            Some(s) => s.size != e.size,
            None => false,
        };
        let time = match e.stamp {
            Some(s) => s.mtime_sec != e.mtime_sec || s.mtime_nsec != e.mtime_nsec,
            None => true,
        };
        if !size && !time && !self.is_written(&e) {
            return Ok(Content::Same);
        }
        match self.facts.checked(i) {
            None => return Err(Stop::Ask(Ask::Check(i))),
            Some(Checked::Failed(errno)) => return Err(Stop::Failed(errno)),
            Some(Checked::Other) => {
                run.recheck(i);
                return Ok(Content::Unknown);
            },
            Some(Checked::Same { state, writing }) => {
                match state {
                    Some(State::Hydrated) => {},
                    _ => {
                        run.recheck(i);
                        return Ok(Content::Unknown);
                    },
                }
                match writing {
                    Some(true) => {
                        run.recheck(i);
                        return Ok(Content::Waiting);
                    },
                    _ => {},
                }
            },
        }
        // Same size: only the hash tells an edit from a touch. Against the
        // base's hash only when the file is the base's version.
        if size || !(e.ctag.is_none() || same_opt(&e.ctag, &base.ctag)) {
            return Ok(Content::Changed);
        }
        let expected = match &base.quickxor {
            None => return Ok(Content::Changed),
            Some(expected) => expected,
        };
        match self.facts.hashed(i) {
            None => Err(Stop::Ask(Ask::Hash(i))),
            Some(Hashed::Failed(errno)) => Err(Stop::Failed(*errno)),
            Some(Hashed::Read(d)) => {
                if !same_text(d.hash.as_str(), expected.as_str()) {
                    return Ok(Content::Changed);
                }
                if d.after.0 != d.before.0 || d.after.1 != d.before.1 || d.after.2 != d.before.2 {
                    run.recheck(i);
                    return Ok(Content::Unknown);
                }
                push_to(&mut run.out.restamp, e.rel);
                Ok(Content::Same)
            },
        }
    }

    /// The content check of item `id`'s file `i` against `base`.
    fn content(&self, run: &mut Run, id: &str, base: &Row, i: usize) -> (r: Result<Content, Stop>)
        requires
            old(run).wf(),
            i < old(run).entries@.len(),
        ensures
            final(run).wf(),
            final(run).entries@.len() == old(run).entries@.len(),
            gave(r, final(run)@) == checking(self@, old(run)@, id@, base@, i),
    {
        assert(run@.entries[i as int] == run.entries@[i as int]@);
        match run.entries[i].state {
            StateAttr::Known(State::Hydrating) | StateAttr::Known(State::Dehydrating) => {
                run.recheck(i);
                Ok(Content::Unknown)
            },
            StateAttr::Known(State::OnlineOnly) => {
                if run.entries[i].size != base.size {
                    let rel = run.entries[i].rel.clone();
                    match self.facts.restored(i) {
                        None => return Err(Stop::Ask(Ask::Restore(i))),
                        Some(Restored::Failed(errno)) => return Err(Stop::Failed(errno)),
                        Some(Restored::Busy) => run.recheck(i),
                        Some(Restored::Done) => push_to(&mut run.out.restored, rel),
                    }
                }
                Ok(Content::Same)
            },
            StateAttr::Absent | StateAttr::Corrupt => Ok(Content::Unknown),
            StateAttr::Known(State::Hydrated) => self.hydrated(run, id, base, i),
        }
    }

    fn note(&self, run: &mut Run, id: &str, i: usize)
        requires
            old(run).wf(),
            i < old(run).entries@.len(),
        ensures
            final(run).wf(),
            final(run).entries@.len() == old(run).entries@.len(),
            final(run)@ == noting(self@, old(run)@, id@, i),
    {
        let e = run.entries[i].clone();
        assert(run@.entries[i as int] == run.entries@[i as int]@);
        let recorded = self.world.handle_of(id);
        if e.handle.is_some() && !same_handle(&e.handle, &recorded) {
            run.op(OutboxOp::SetHandle { item_id: id.to_owned(), handle: copy_handle(&e.handle) });
        }
        let placeholder = match e.state {
            StateAttr::Known(State::OnlineOnly)
            | StateAttr::Known(State::Hydrating)
            | StateAttr::Known(State::Dehydrating) => true,
            _ => false,
        };
        if e.ty == Type::File && e.nlink > 1 && placeholder {
            push_to(&mut run.out.mark_files, e.rel.clone());
        }
        if let Some(was) = self.world.expected_rel(id) {
            if e.ty == Type::Dir && !was.same(&e.rel) {
                run.op(OutboxOp::Rebase { from: was, to: e.rel });
            }
        }
    }

    /// Item `id` found as entry `i`: where it is, and its content.
    pub fn found(&self, run: &mut Run, id: &str, base: &Row, i: usize) -> (r: Result<(), Stop>)
        requires
            self.wf(),
            old(run).wf(),
            i < old(run).entries@.len(),
        ensures
            final(run).wf(),
            final(run).entries@.len() == old(run).entries@.len(),
            went(r, final(run)@) == finding(self@, old(run)@, id@, base@, i),
    {
        let e = run.entries[i].clone();
        assert(run@.entries[i as int] == run.entries@[i as int]@);
        self.note(run, id, i);
        let content = if e.ty == Type::File {
            match self.content(run, id, base, i) {
                Ok(content) => content,
                Err(stop) => return Err(stop),
            }
        } else {
            Content::Same
        };
        let mut d = self.detection(run, OutboxKind::Move, id, base, i, true);
        match content {
            Content::Changed => d.kind = OutboxKind::Update,
            Content::Waiting => {
                d.kind = OutboxKind::Update;
                self.wait_for_writer(&mut d);
            },
            Content::Same => d.same_content = true,
            Content::Unknown => {},
        }
        if !same_bytes(&e.name, base.name.as_str().as_bytes()) {
            if let Some(why) = refused(&e.name) {
                d.state = OutboxState::Blocked;
                d.reason = Some(why.as_str().to_owned());
                d.next_try = None;
            }
        }
        let at_base = same_opt(&d.target_parent, &base.parent_id) && opt_is(
            &d.target_name,
            base.name.as_str(),
        );
        if d.kind == OutboxKind::Move && at_base && self.world.row_of(id).is_none() {
            return Ok(());
        }
        run.detect(d);
        Ok(())
    }
}

} // verus!
