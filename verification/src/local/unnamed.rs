//! What has no item id: new files and directories, and what stays local.

use vstd::prelude::*;
use vstd::string::*;
use crate::local::content::{dir_id, probing, saving_by_rename, waiting};
use crate::local::entry::{inode_of, EntryModel};
use crate::local::facts::{Ask, AskModel, Probed, Stop, StopModel};
use crate::local::ignore::ignored;
use crate::local::names::{refusal, refused, refused_code, Refused, MAX_FILE_SIZE};
use crate::local::run::{
    consuming, went, with_detection, with_op, Run, RunModel, Examiner, SceneModel,
};
use crate::local::facts::told;
use crate::local::world::{being_created, item_of, pending_of, WorldModel};
use crate::local::{snapshot, snapshot_text};
use crate::os::Type;
use crate::path::{dir_of, is_beneath, PathModel, RelPath};
use crate::text::{lossy, text_of};
use crate::tree::{
    opt_is, Detection, DetectionModel, Kind, OpModel, OutboxKind, OutboxOp, OutboxRow,
    OutboxRowModel, OutboxState,
};

verus! {

/// The row is a directory being made in OneDrive right now.
pub open spec fn is_making(row: OutboxRowModel) -> bool {
    row.kind == OutboxKind::Mkdir && row.item_id is None && row.state == OutboxState::Running
}

/// Some directory is being made in OneDrive right now.
pub open spec fn any_making(w: WorldModel) -> bool {
    exists|k: int| 0 <= k < w.rows.len() && is_making(#[trigger] w.rows[k])
}

/// The directory `dev`, `ino` is being made in OneDrive right now.
pub open spec fn making(w: WorldModel, dev: u64, ino: u64) -> bool {
    exists|k: int|
        0 <= k < w.rows.len() && is_making(#[trigger] w.rows[k]) && (w.rows[k].inode matches Some(i)
            && i.dev == dev && i.ino == ino)
}

/// Whether the worker is making the directory at `rel` right now.
pub open spec fn being_made(sc: SceneModel, rel: PathModel) -> Result<bool, StopModel> {
    if !any_making(sc.w) {
        Ok(false)
    } else {
        match sc.f.dir_inode_of(rel) {
            None => Err(StopModel::Ask(AskModel::DirInode(rel))),
            Some(None) => Ok(false),
            Some(Some((dev, ino))) => Ok(making(sc.w, dev, ino)),
        }
    }
}

/// Whether `dir` is, or is inside, a directory of the user's own whose name is
/// ignored: what is in it stays local. A folder from OneDrive syncs whatever
/// its name, and so does one being made right now.
pub open spec fn in_ignored_dir(sc: SceneModel, dir: PathModel) -> Result<bool, StopModel>
    decreases dir.len(),
{
    if dir.len() == 0 {
        Ok(false)
    } else if !ignored(sc.w.ignore, dir.last()) {
        in_ignored_dir(sc, dir.drop_last())
    } else {
        match sc.f.probed_of(dir) {
            None => Err(StopModel::Ask(AskModel::Probe(dir))),
            Some(Probed::Own) => match being_made(sc, dir) {
                Err(stop) => Err(stop),
                Ok(false) => Ok(true),
                Ok(true) => in_ignored_dir(sc, dir.drop_last()),
            },
            Some(_) => in_ignored_dir(sc, dir.drop_last()),
        }
    }
}

/// The new things waiting inside `rel` go, from row `k` on; those being sent
/// stay.
pub open spec fn dropping_inside(w: WorldModel, run: RunModel, rel: PathModel, k: int) -> RunModel
    decreases w.rows.len() - k,
{
    if k >= w.rows.len() {
        run
    } else if w.rows[k].item_id is None && w.rows[k].state != OutboxState::Running && is_beneath(
        w.rows[k].rel,
        rel,
    ) {
        dropping_inside(w, with_op(run, OpModel::Remove(w.rows[k].seq)), rel, k + 1)
    } else {
        dropping_inside(w, run, rel, k + 1)
    }
}

/// A change of the new object `e`.
pub open spec fn new_change(sc: SceneModel, run: RunModel, kind: OutboxKind, e: EntryModel) -> DetectionModel {
    DetectionModel {
        kind,
        item_id: None,
        inode: Some(inode_of(e)),
        rel: e.rel,
        base: None,
        target_parent: dir_id(sc, run, dir_of(e.rel)),
        target_name: Some(text_of(e.name)),
        same_content: false,
        state: OutboxState::Ready,
        reason: None,
        next_try: None,
    }
}

/// Entry `i` is ignored: it stays local, and a create it had goes — unless the
/// worker is creating it right now: then it is an item already, and its rename
/// waits behind. A directory takes the new things waiting inside it along.
pub open spec fn ignoring(sc: SceneModel, run: RunModel, i: usize) -> RunModel {
    let e = run.entries[i as int];
    if being_created(sc.w, e) {
        with_detection(run, new_change(sc, run, OutboxKind::Move, e))
    } else {
        let dropped = match pending_of(sc.w, e) {
            Some(row) => if row.kind == OutboxKind::Create || row.kind == OutboxKind::Mkdir {
                with_op(run, OpModel::Remove(row.seq))
            } else {
                run
            },
            None => run,
        };
        if e.ty == Type::Dir {
            dropping_inside(sc.w, dropped, e.rel, 0)
        } else {
            dropped
        }
    }
}

/// The item whose delete at `rel` still waits to be sent, from row `k` on.
pub open spec fn deleted_at(w: WorldModel, rel: PathModel, k: int) -> Option<Seq<char>>
    decreases w.rows.len() - k,
{
    if k >= w.rows.len() {
        None
    } else if w.rows[k].kind == OutboxKind::Delete && w.rows[k].state != OutboxState::Running
        && w.rows[k].rel == rel && w.rows[k].item_id is Some {
        w.rows[k].item_id
    } else {
        deleted_at(w, rel, k + 1)
    }
}

/// The file item whose delete still waits at the place of the new file `e`: a
/// save-by-rename across batches.
pub open spec fn replaces(w: WorldModel, e: EntryModel) -> Option<Seq<char>> {
    if e.ty == Type::Dir || pending_of(w, e) is Some {
        None
    } else {
        match deleted_at(w, e.rel, 0) {
            None => None,
            Some(id) => match item_of(w, id) {
                Some(item) => if item.row.kind == Kind::File {
                    Some(id)
                } else {
                    None
                },
                None => None,
            },
        }
    }
}

/// Why OneDrive refuses the new object `e`.
pub open spec fn new_refusal(e: EntryModel) -> Option<Refused> {
    match refusal(e.name) {
        Some(why) => Some(why),
        None => if e.ty != Type::Dir && e.size > MAX_FILE_SIZE {
            Some(Refused::TooLarge)
        } else {
            None
        },
    }
}

/// What a new object is to become: a directory made, a file created — or, when
/// the file is being uploaded as it is now, only moved.
pub open spec fn new_kind(w: WorldModel, e: EntryModel) -> OutboxKind {
    if e.ty == Type::Dir {
        OutboxKind::Mkdir
    } else {
        match pending_of(w, e) {
            Some(row) => if row.state == OutboxState::Running && row.snapshot == Some(
                snapshot_text(e.size, e.mtime_sec, e.mtime_nsec),
            ) {
                OutboxKind::Move
            } else {
                OutboxKind::Create
            },
            None => OutboxKind::Create,
        }
    }
}

/// The new object `i` is recorded: blocked when OneDrive refuses it, waiting
/// while a writer has it open.
pub open spec fn appearing(sc: SceneModel, run: RunModel, i: usize) -> Result<RunModel, StopModel> {
    let e = run.entries[i as int];
    let d = new_change(sc, run, new_kind(sc.w, e), e);
    let moved = match pending_of(sc.w, e) {
        Some(row) => if e.ty == Type::Dir && row.rel != e.rel {
            with_op(run, OpModel::Rebase { from: row.rel, to: e.rel })
        } else {
            run
        },
        None => run,
    };
    match new_refusal(e) {
        Some(why) => Ok(
            with_detection(
                moved,
                DetectionModel {
                    state: OutboxState::Blocked,
                    reason: Some(refused_code(why)),
                    ..d
                },
            ),
        ),
        None => if e.ty == Type::Dir {
            Ok(with_detection(moved, d))
        } else {
            match probing(sc, moved, i) {
                Err(stop) => Err(stop),
                Ok((next, busy)) => Ok(
                    with_detection(
                        next,
                        if busy {
                            waiting(d, sc.w.now)
                        } else {
                            d
                        },
                    ),
                ),
            }
        },
    }
}

/// An entry without an item id: ignored — its name, or a directory of the
/// user's own above it — it stays local; over a name whose delete is still
/// pending, it is that item's new content; otherwise it is new.
pub open spec fn meeting_new(sc: SceneModel, run: RunModel, i: usize) -> Result<RunModel, StopModel> {
    let e = run.entries[i as int];
    let stays = if ignored(sc.w.ignore, e.name) {
        Ok(true)
    } else {
        in_ignored_dir(sc, dir_of(e.rel))
    };
    match stays {
        Err(stop) => Err(stop),
        Ok(true) => Ok(ignoring(sc, run, i)),
        Ok(false) => match replaces(sc.w, e) {
            Some(id) => saving_by_rename(
                sc,
                consuming(run, i),
                id,
                item_of(sc.w, id)->0.row,
                i,
            ),
            None => appearing(sc, run, i),
        },
    }
}

fn is_mkdir_running(row: &OutboxRow) -> (r: bool)
    ensures
        r == is_making(row@),
{
    row.kind == OutboxKind::Mkdir && row.item_id.is_none() && row.state == OutboxState::Running
}

impl<'a> Examiner<'a> {
    fn any_making(&self) -> (r: bool)
        ensures
            r == any_making(self@.w),
    {
        let rows = &self.world.rows;
        let mut k: usize = 0;
        while k < rows.len()
            invariant
                rows == self.world.rows,
                k <= rows@.len(),
                forall|m: int| 0 <= m < k ==> !is_making(#[trigger] self@.w.rows[m]),
            decreases rows@.len() - k,
        {
            assert(self@.w.rows[k as int] == rows@[k as int]@);
            if is_mkdir_running(&rows[k]) {
                return true;
            }
            k += 1;
        }
        false
    }

    fn making(&self, dev: u64, ino: u64) -> (r: bool)
        ensures
            r == making(self@.w, dev, ino),
    {
        let rows = &self.world.rows;
        let mut k: usize = 0;
        while k < rows.len()
            invariant
                rows == self.world.rows,
                k <= rows@.len(),
                forall|m: int|
                    0 <= m < k ==> !(is_making(#[trigger] self@.w.rows[m])
                        && (self@.w.rows[m].inode matches Some(i) && i.dev == dev && i.ino == ino)),
            decreases rows@.len() - k,
        {
            assert(self@.w.rows[k as int] == rows@[k as int]@);
            if is_mkdir_running(&rows[k]) {
                if let Some(inode) = &rows[k].inode {
                    if inode.dev == dev && inode.ino == ino {
                        return true;
                    }
                }
            }
            k += 1;
        }
        false
    }

    /// Whether the worker is making the directory at `rel` right now.
    fn dir_being_made(&self, rel: &RelPath) -> (r: Result<bool, Stop>)
        ensures
            told(r) == being_made(self@, rel@),
    {
        if !self.any_making() {
            return Ok(false);
        }
        match self.facts.dir_inode(rel) {
            None => Err(Stop::Ask(Ask::DirInode(rel.clone()))),
            Some(None) => Ok(false),
            Some(Some((dev, ino))) => Ok(self.making(dev, ino)),
        }
    }

    /// Whether `dir` is, or is inside, an ignored directory of the user's own.
    fn in_ignored_dir(&self, dir: &RelPath) -> (r: Result<bool, Stop>)
        ensures
            told(r) == in_ignored_dir(self@, dir@),
        decreases dir@.len(),
    {
        let parent = match dir.parent() {
            None => return Ok(false),
            Some(parent) => parent,
        };
        let name = match dir.file_name() {
            None => return Ok(false),
            Some(name) => name,
        };
        if self.world.ignore.matches(name) {
            match self.facts.probed(dir) {
                None => return Err(Stop::Ask(Ask::Probe(dir.clone()))),
                Some(Probed::Own) => match self.dir_being_made(dir) {
                    Err(stop) => return Err(stop),
                    Ok(false) => return Ok(true),
                    Ok(true) => {},
                },
                Some(_) => {},
            }
        }
        self.in_ignored_dir(&parent)
    }

    fn new_detection(&self, run: &Run, kind: OutboxKind, i: usize) -> (r: Detection)
        requires
            i < run.entries@.len(),
        ensures
            r@ == new_change(self@, run@, kind, run@.entries[i as int]),
    {
        let e = &run.entries[i];
        assert(run@.entries[i as int] == e@);
        Detection {
            kind,
            item_id: None,
            inode: Some(e.inode()),
            rel: e.rel.clone(),
            base: None,
            target_parent: self.dir_id(run, &e.dir_rel()),
            target_name: Some(lossy(&e.name)),
            same_content: false,
            state: OutboxState::Ready,
            reason: None,
            next_try: None,
        }
    }

    fn drop_inside(&self, run: &mut Run, rel: &RelPath)
        requires
            old(run).wf(),
        ensures
            final(run).wf(),
            final(run).entries@.len() == old(run).entries@.len(),
            final(run)@ == dropping_inside(self@.w, old(run)@, rel@, 0),
    {
        let ghost first = run@;
        let rows = &self.world.rows;
        let mut k: usize = 0;
        while k < rows.len()
            invariant
                rows == self.world.rows,
                k <= rows@.len(),
                run.wf(),
                run.entries@.len() == old(run).entries@.len(),
                first == old(run)@,
                dropping_inside(self@.w, first, rel@, 0) == dropping_inside(
                    self@.w,
                    run@,
                    rel@,
                    k as int,
                ),
            decreases rows@.len() - k,
        {
            let row = &rows[k];
            assert(self@.w.rows[k as int] == row@);
            if row.item_id.is_none() && row.state != OutboxState::Running && row.rel.is_under(rel) {
                run.op(OutboxOp::Remove(row.seq));
            }
            k += 1;
        }
    }

    fn ignore_it(&self, run: &mut Run, i: usize)
        requires
            old(run).wf(),
            i < old(run).entries@.len(),
        ensures
            final(run).wf(),
            final(run).entries@.len() == old(run).entries@.len(),
            final(run)@ == ignoring(self@, old(run)@, i),
    {
        let e = run.entries[i].clone();
        assert(run@.entries[i as int] == run.entries@[i as int]@);
        if self.world.being_created(&e) {
            let d = self.new_detection(run, OutboxKind::Move, i);
            run.detect(d);
            return ;
        }
        if let Some(row) = self.world.pending(&e) {
            if row.kind == OutboxKind::Create || row.kind == OutboxKind::Mkdir {
                run.op(OutboxOp::Remove(row.seq));
            }
        }
        if e.ty == Type::Dir {
            self.drop_inside(run, &e.rel);
        }
    }

    fn deleted_at(&self, rel: &RelPath) -> (r: Option<String>)
        ensures
            r.deep_view() == deleted_at(self@.w, rel@, 0),
    {
        let rows = &self.world.rows;
        let mut k: usize = 0;
        while k < rows.len()
            invariant
                rows == self.world.rows,
                k <= rows@.len(),
                deleted_at(self@.w, rel@, 0) == deleted_at(self@.w, rel@, k as int),
            decreases rows@.len() - k,
        {
            let row = &rows[k];
            assert(self@.w.rows[k as int] == row@);
            if row.kind == OutboxKind::Delete && row.state != OutboxState::Running && row.rel.same(rel) {
                if let Some(id) = &row.item_id {
                    return Some(id.clone());
                }
            }
            k += 1;
        }
        None
    }

    /// An entry without an item id.
    pub fn unnamed(&self, run: &mut Run, i: usize) -> (r: Result<(), Stop>)
        requires
            self.wf(),
            old(run).wf(),
            i < old(run).entries@.len(),
        ensures
            final(run).wf(),
            final(run).entries@.len() == old(run).entries@.len(),
            went(r, final(run)@) == meeting_new(self@, old(run)@, i),
    {
        let e = run.entries[i].clone();
        assert(run@.entries[i as int] == run.entries@[i as int]@);
        let stays = if self.world.ignore.matches(&e.name) {
            true
        } else {
            match self.in_ignored_dir(&e.dir_rel()) {
                Err(stop) => return Err(stop),
                Ok(stays) => stays,
            }
        };
        if stays {
            self.ignore_it(run, i);
            return Ok(());
        }
        let pending = self.world.pending(&e);
        let is_dir = e.ty == Type::Dir;
        // A file over a name whose delete is still pending: save-by-rename
        // across batches.
        if !is_dir && pending.is_none() {
            if let Some(id) = self.deleted_at(&e.rel) {
                if let Some(item) = self.world.item(id.as_str()) {
                    if item.row.kind == Kind::File {
                        run.consume(i);
                        return self.save_by_rename(run, id.as_str(), &item.row, i);
                    }
                }
            }
        }
        let mut kind = if is_dir {
            OutboxKind::Mkdir
        } else {
            OutboxKind::Create
        };
        if let Some(row) = pending {
            let now = snapshot(e.size, e.mtime_sec, e.mtime_nsec);
            if !is_dir && row.state == OutboxState::Running && opt_is(&row.snapshot, now.as_str()) {
                // Being uploaded as it is now: only where it is matters.
                kind = OutboxKind::Move;
            }
        }
        let mut d = self.new_detection(run, kind, i);
        if let Some(row) = pending {
            if is_dir && !row.rel.same(&e.rel) {
                run.op(OutboxOp::Rebase { from: row.rel.clone(), to: e.rel.clone() });
            }
        }
        let why = match refused(&e.name) {
            Some(why) => Some(why),
            None => if !is_dir && e.size > MAX_FILE_SIZE {
                Some(Refused::TooLarge)
            } else {
                None
            },
        };
        match why {
            Some(why) => {
                d.state = OutboxState::Blocked;
                d.reason = Some(why.as_str().to_owned());
            },
            None => if !is_dir {
                match self.probe_writer(run, i) {
                    Err(stop) => return Err(stop),
                    Ok(true) => self.wait_for_writer(&mut d),
                    Ok(false) => {},
                }
            },
        }
        run.detect(d);
        Ok(())
    }
}

} // verus!
