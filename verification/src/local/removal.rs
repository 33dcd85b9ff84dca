//! What left: an item missing from its place and from the whole batch, and
//! what leaves OneDrive with it.

use vstd::prelude::*;
use vstd::string::*;
use vstd::utf8::{decode_utf8, valid_utf8};
use crate::local::content::saving_by_rename;
use crate::local::facts::{absent_of, absent_with, place_of, Place, PlaceModel, Stop, StopModel};
use crate::local::run::{
    choosing, consuming, entry_at, gave, holding_back, index_at, is_settled, less_settled, push_to,
    rechecking_at, settled_as, went, with_detection, with_op, Run, RunModel, Examiner, SceneModel,
    Settle,
};
use crate::local::world::{
    being_created, descends, expected_rel, item_of, recorded_handle, WorldModel,
};
use crate::os::Type;
use crate::path::{is_beneath, parts_of, split, starts_with, AbsPath, PathModel, RelPath};
use crate::text::from_utf8;
use crate::tree::{
    copy_inode, copy_opt, opt_is, Base, BaseModel, Detection, DetectionModel, FileHandle, Inode,
    InodeModel, Kind, OpModel, OutboxKind, OutboxOp, OutboxRow, OutboxRowModel, OutboxState,
    Placement, Row, RowModel,
};

verus! {

/// The base's version and place.
pub open spec fn base_of(base: RowModel) -> BaseModel {
    BaseModel { etag: base.etag, ctag: base.ctag, parent: base.parent_id, name: Some(base.name) }
}

/// An item's object as a row keeps it when only its handle is known.
pub open spec fn object_of(handle: Seq<u8>) -> InodeModel {
    InodeModel { dev: 0, ino: 0, handle: Some(handle) }
}

/// A pending row whose object is gone: never sent, so nothing to take back.
/// One the worker is sending right now is not taken from under it: a delete
/// waits behind it, and learns the item id at its commit.
pub open spec fn losing_pending(run: RunModel, row: OutboxRowModel) -> RunModel {
    if row.state != OutboxState::Running {
        with_op(run, OpModel::Remove(row.seq))
    } else {
        with_detection(
            run,
            DetectionModel {
                kind: OutboxKind::Delete,
                item_id: None,
                inode: row.inode,
                rel: row.rel,
                base: None,
                target_parent: None,
                target_name: None,
                same_content: false,
                state: OutboxState::Ready,
                reason: None,
                next_try: None,
            },
        )
    }
}

/// Item `id` leaves OneDrive. A move out names where it went, when that can
/// be written: what a later stale handle is checked against.
pub open spec fn removal_of(
    kind: OutboxKind,
    id: Seq<char>,
    base: RowModel,
    rel: PathModel,
    inode: Option<InodeModel>,
    went: Option<Seq<u8>>,
) -> DetectionModel {
    DetectionModel {
        kind,
        item_id: Some(id),
        inode,
        rel,
        base: Some(base_of(base)),
        target_parent: None,
        target_name: match went {
            Some(to) => if kind == OutboxKind::MoveOut && valid_utf8(to) {
                Some(decode_utf8(to))
            } else {
                None
            },
            None => None,
        },
        same_content: false,
        state: OutboxState::Ready,
        reason: None,
        next_try: None,
    }
}

/// A new file stands at item `id`'s name, which no item has and the worker is
/// not creating: a save-by-rename's.
pub open spec fn newcomer(sc: SceneModel, run: RunModel, base: RowModel, rel: PathModel) -> Option<usize> {
    match index_at(run.entries, rel) {
        None => None,
        Some(s) => {
            let e = run.entries[s as int];
            if base.kind == Kind::File && e.ty == Type::File && e.id is None && !run.consumed[s as int]
                && !being_created(sc.w, e) {
                Some(s)
            } else {
                None
            }
        },
    }
}

/// Item `id`, expected at `rel`, is not in the batch: a save-by-rename when a
/// new file stands at its name, and otherwise decided by its object. Gone with
/// its evidence it is a delete, outside the folder a move out; elsewhere in
/// the folder it is looked for; and with no recorded handle, or nothing sure
/// to go by, it waits.
pub open spec fn losing(sc: SceneModel, run: RunModel, id: Seq<char>, rel: PathModel, fuel: nat) -> Result<
    RunModel,
    StopModel,
>
    decreases fuel, 0nat, 0nat,
{
    if fuel == 0 {
        Err(StopModel::NoTree)
    } else {
        match item_of(sc.w, id) {
            None => Ok(run),
            Some(item) => match newcomer(sc, run, item.row, rel) {
                Some(s) => saving_by_rename(sc, choosing(consuming(run, s), id, s), id, item.row, s),
                None => match item.handle {
                    None => Ok(holding_back(run, id, Settle::Unproven, true)),
                    Some(handle) => match place_of(sc.w, sc.f, handle) {
                        Err(stop) => Err(stop),
                        Ok(PlaceModel::Gone) => match absent_of(sc.f, rel, handle) {
                            Err(stop) => Err(stop),
                            Ok(false) => Ok(holding_back(run, id, Settle::Wait, true)),
                            Ok(true) => match removing(
                                sc,
                                run,
                                OutboxKind::Delete,
                                id,
                                item.row,
                                rel,
                                None,
                                None,
                                (fuel - 1) as nat,
                            ) {
                                Err(stop) => Err(stop),
                                Ok((next, _)) => Ok(next),
                            },
                        },
                        Ok(PlaceModel::Outside(to)) => match removing(
                            sc,
                            run,
                            OutboxKind::MoveOut,
                            id,
                            item.row,
                            rel,
                            Some(object_of(handle)),
                            Some(to),
                            (fuel - 1) as nat,
                        ) {
                            Err(stop) => Err(stop),
                            Ok((next, _)) => Ok(next),
                        },
                        Ok(PlaceModel::Inside(now)) => Ok(
                            holding_back(rechecking_at(run, now), id, Settle::Wait, false),
                        ),
                        Ok(PlaceModel::Unknown) => Ok(holding_back(run, id, Settle::Wait, true)),
                    },
                },
            },
        }
    }
}

/// Item `id` leaves OneDrive (a delete, or a move out to `went`). A folder
/// takes along what the base has inside it — except what left it first, which
/// leaves on its own. While any item inside cannot be placed the folder waits,
/// and while any has no recorded handle it is unproven. With it, whether its
/// row is written, or why not.
pub open spec fn removing(
    sc: SceneModel,
    run: RunModel,
    kind: OutboxKind,
    id: Seq<char>,
    base: RowModel,
    rel: PathModel,
    inode: Option<InodeModel>,
    went: Option<Seq<u8>>,
    fuel: nat,
) -> Result<(RunModel, Settle), StopModel>
    decreases fuel, 0nat, 0nat,
{
    if fuel == 0 {
        Err(StopModel::NoTree)
    } else if run.decided.contains(id) {
        Ok((run, settled_as(run, id)))
    } else {
        let first = RunModel { decided: run.decided.insert(id), ..run };
        let d = removal_of(kind, id, base, rel, inode, went);
        if base.kind != Kind::Folder {
            Ok((with_detection(first, d), Settle::Done))
        } else {
            match leaving(
                sc,
                first,
                seq![id],
                0,
                rel,
                went,
                Settle::Done,
                sc.w.items.len() + 1,
                (fuel - 1) as nat,
            ) {
                Err(stop) => Err(stop),
                Ok((next, Settle::Wait)) => Ok(
                    (
                        rechecking_at(holding_back(next, id, Settle::Wait, true), rel),
                        Settle::Wait,
                    ),
                ),
                Ok((next, Settle::Unproven)) => Ok(
                    (holding_back(next, id, Settle::Unproven, true), Settle::Unproven),
                ),
                Ok((next, Settle::Done)) => match clearing(sc, next, id, rel, 0, (fuel - 1) as nat) {
                    Err(stop) => Err(stop),
                    Ok(cleared) => Ok((with_detection(cleared, d), Settle::Done)),
                },
            }
        }
    }
}

/// The rows of what is inside the leaving folder `folder` at `rel`, from `k`
/// on: what never reached the cloud goes; a row that already says its item
/// left is kept; what the base has inside goes with the folder unless its row
/// takes it elsewhere; an item moved in from elsewhere leaves by its own
/// object. A row being sent is never removed.
pub open spec fn clearing(
    sc: SceneModel,
    run: RunModel,
    folder: Seq<char>,
    rel: PathModel,
    k: int,
    fuel: nat,
) -> Result<RunModel, StopModel>
    decreases fuel, sc.w.rows.len() - k, 0nat,
{
    if k >= sc.w.rows.len() {
        Ok(run)
    } else if fuel == 0 {
        Err(StopModel::NoTree)
    } else {
        let row = sc.w.rows[k];
        let under = is_beneath(row.rel, rel);
        match row.item_id {
            None => if !under {
                clearing(sc, run, folder, rel, k + 1, fuel)
            } else {
                clearing(sc, losing_pending(run, row), folder, rel, k + 1, fuel)
            },
            Some(item) => {
                let inside = descends(sc.w, item, folder);
                if !under && !inside {
                    clearing(sc, run, folder, rel, k + 1, fuel)
                } else if is_settled(run, item) {
                    clearing(sc, run, folder, rel, k + 1, fuel)
                } else if inside {
                    if row.state != OutboxState::Running && row.kind != OutboxKind::MoveOut && (row.kind
                        == OutboxKind::Delete || under) {
                        clearing(sc, with_op(run, OpModel::Remove(row.seq)), folder, rel, k + 1, fuel)
                    } else {
                        clearing(sc, run, folder, rel, k + 1, fuel)
                    }
                } else if row.state != OutboxState::Running && (row.kind == OutboxKind::MoveOut
                    || row.kind == OutboxKind::Delete) {
                    clearing(sc, run, folder, rel, k + 1, fuel)
                } else {
                    match losing(sc, run, item, row.rel, (fuel - 1) as nat) {
                        Err(stop) => Err(stop),
                        Ok(next) => clearing(sc, next, folder, rel, k + 1, fuel),
                    }
                }
            },
        }
    }
}

/// Whether what is at `to` went with a folder that is now at `went`.
pub open spec fn went_along(to: Seq<u8>, went: Option<Seq<u8>>) -> bool {
    went matches Some(w) && starts_with(parts_of(to), parts_of(w))
}

/// The items the base has inside the folders `queue`, which are leaving `rel`,
/// from the `c`th item on: each is asked where it is, top down, unless this
/// batch decided it or a row of its own already takes it elsewhere or out. One
/// alive outside the folder, and not where the folder went, left it first: its
/// own move out. One gone went with the folder, and so did one that is where
/// the folder went; what is inside those is asked too.
pub open spec fn leaving(
    sc: SceneModel,
    run: RunModel,
    queue: Seq<Seq<char>>,
    c: int,
    rel: PathModel,
    went: Option<Seq<u8>>,
    settled: Settle,
    steps: nat,
    fuel: nat,
) -> Result<(RunModel, Settle), StopModel>
    decreases fuel, steps, sc.w.items.len() - c,
{
    if queue.len() == 0 {
        Ok((run, settled))
    } else if steps == 0 || fuel == 0 {
        Err(StopModel::NoTree)
    } else if c >= sc.w.items.len() {
        leaving(sc, run, queue.drop_first(), 0, rel, went, settled, (steps - 1) as nat, fuel)
    } else {
        let child = sc.w.items[c].row;
        let id = child.id;
        let inside = queue.push(id);
        let wait = less_settled(settled, Settle::Wait);
        if child.parent_id != Some(queue[0]) || child.placement != Placement::Placed
            || run.chosen.contains_key(id) {
            leaving(sc, run, queue, c + 1, rel, went, settled, steps, fuel)
        } else if run.decided.contains(id) {
            leaving(
                sc,
                run,
                queue,
                c + 1,
                rel,
                went,
                less_settled(settled, settled_as(run, id)),
                steps,
                fuel,
            )
        } else {
            match expected_rel(sc.w, id) {
                None => leaving(sc, run, queue, c + 1, rel, went, settled, steps, fuel),
                Some(at) => if !is_beneath(at, rel) {
                    leaving(sc, run, queue, c + 1, rel, went, settled, steps, fuel)
                } else {
                    match recorded_handle(sc.w, id) {
                        None => leaving(
                            sc,
                            run,
                            queue,
                            c + 1,
                            rel,
                            went,
                            less_settled(settled, Settle::Unproven),
                            steps,
                            fuel,
                        ),
                        Some(handle) => match place_of(sc.w, sc.f, handle) {
                            Err(stop) => Err(stop),
                            Ok(PlaceModel::Outside(to)) => if went_along(to, went) {
                                leaving(
                                    sc,
                                    run,
                                    if child.kind == Kind::Folder {
                                        inside
                                    } else {
                                        queue
                                    },
                                    c + 1,
                                    rel,
                                    went,
                                    settled,
                                    steps,
                                    fuel,
                                )
                            } else {
                                match removing(
                                    sc,
                                    run,
                                    OutboxKind::MoveOut,
                                    id,
                                    child,
                                    at,
                                    Some(object_of(handle)),
                                    Some(to),
                                    (fuel - 1) as nat,
                                ) {
                                    Err(stop) => Err(stop),
                                    Ok((next, left)) => leaving(
                                        sc,
                                        next,
                                        queue,
                                        c + 1,
                                        rel,
                                        went,
                                        less_settled(settled, left),
                                        steps,
                                        fuel,
                                    ),
                                }
                            },
                            Ok(PlaceModel::Gone) => match absent_with(sc.f, at, rel, went, handle) {
                                Err(stop) => Err(stop),
                                Ok(false) => leaving(
                                    sc,
                                    run,
                                    queue,
                                    c + 1,
                                    rel,
                                    went,
                                    wait,
                                    steps,
                                    fuel,
                                ),
                                Ok(true) => leaving(
                                    sc,
                                    run,
                                    if child.kind == Kind::Folder {
                                        inside
                                    } else {
                                        queue
                                    },
                                    c + 1,
                                    rel,
                                    went,
                                    settled,
                                    steps,
                                    fuel,
                                ),
                            },
                            Ok(PlaceModel::Inside(now)) => leaving(
                                sc,
                                rechecking_at(run, now),
                                queue,
                                c + 1,
                                rel,
                                went,
                                wait,
                                steps,
                                fuel,
                            ),
                            Ok(PlaceModel::Unknown) => leaving(
                                sc,
                                run,
                                queue,
                                c + 1,
                                rel,
                                went,
                                wait,
                                steps,
                                fuel,
                            ),
                        },
                    }
                },
            }
        }
    }
}

/// How deep removals can follow one from another.
pub open spec fn enough(w: WorldModel) -> nat {
    (3 * w.items.len() + 4) as nat
}

fn object(handle: FileHandle) -> (r: Inode)
    ensures
        r@ == object_of(handle@),
{
    Inode { dev: 0, ino: 0, handle: Some(handle) }
}

/// Where a folder went, if it left.
pub open spec fn path_model(p: Option<&AbsPath>) -> Option<Seq<u8>> {
    match p {
        Some(path) => Some(path@),
        None => None,
    }
}

fn removal_row(
    kind: OutboxKind,
    id: &str,
    base: &Row,
    rel: &RelPath,
    inode: Option<Inode>,
    went: Option<&AbsPath>,
) -> (r: Detection)
    ensures
        r@ == removal_of(kind, id@, base@, rel@, inode.deep_view(), path_model(went)),
{
    let target = match went {
        Some(to) => if kind == OutboxKind::MoveOut {
            from_utf8(&to.raw)
        } else {
            None
        },
        None => None,
    };
    Detection {
        kind,
        item_id: Some(id.to_owned()),
        inode,
        rel: rel.clone(),
        base: Some(
            Base {
                etag: copy_opt(&base.etag),
                ctag: copy_opt(&base.ctag),
                parent: copy_opt(&base.parent_id),
                name: Some(base.name.clone()),
            },
        ),
        target_parent: None,
        target_name: target,
        same_content: false,
        state: OutboxState::Ready,
        reason: None,
        next_try: None,
    }
}

impl<'a> Examiner<'a> {
    /// A pending row whose object is gone.
    pub fn gone_pending(&self, run: &mut Run, row: &OutboxRow)
        requires
            old(run).wf(),
        ensures
            final(run).wf(),
            final(run).entries@.len() == old(run).entries@.len(),
            final(run)@ == losing_pending(old(run)@, row@),
    {
        if row.state != OutboxState::Running {
            run.op(OutboxOp::Remove(row.seq));
            return ;
        }
        run.detect(
            Detection {
                kind: OutboxKind::Delete,
                item_id: None,
                inode: copy_inode(&row.inode),
                rel: row.rel.clone(),
                base: None,
                target_parent: None,
                target_name: None,
                same_content: false,
                state: OutboxState::Ready,
                reason: None,
                next_try: None,
            },
        );
    }

    fn newcomer(&self, run: &Run, base: &Row, rel: &RelPath) -> (r: Option<usize>)
        requires
            run.wf(),
        ensures
            r == newcomer(self@, run@, base@, rel@),
            r matches Some(s) ==> s < run.entries@.len(),
    {
        match entry_at(&run.entries, rel) {
            None => None,
            Some(s) => {
                let e = &run.entries[s];
                assert(run@.entries[s as int] == e@);
                if base.kind == Kind::File && e.ty == Type::File && e.id.is_none() && !run.consumed[s]
                    && !self.world.being_created(e) {
                    Some(s)
                } else {
                    None
                }
            },
        }
    }

    /// Item `id`, expected at `rel`, is not in the batch.
    pub fn missing_item(&self, run: &mut Run, id: &str, rel: &RelPath, fuel: u128) -> (r: Result<(), Stop>)
        requires
            self.wf(),
            old(run).wf(),
        ensures
            final(run).wf(),
            final(run).entries@.len() == old(run).entries@.len(),
            went(r, final(run)@) == losing(self@, old(run)@, id@, rel@, fuel as nat),
        decreases fuel,
    {
        if fuel == 0 {
            return Err(Stop::NoTree);
        }
        let item = match self.world.item(id) {
            None => return Ok(()),
            Some(item) => item,
        };
        if let Some(s) = self.newcomer(run, &item.row, rel) {
            run.consume(s);
            run.choose_entry(id, s);
            return self.save_by_rename(run, id, &item.row, s);
        }
        let handle = match &item.handle {
            None => {
                // A rebuilt base cannot prove a delete.
                run.hold_back(id, Settle::Unproven, true);
                return Ok(());
            },
            Some(handle) => handle,
        };
        match self.world.place_of(self.facts, handle) {
            Err(stop) => Err(stop),
            Ok(Place::Gone) => match self.facts.absent(rel, handle) {
                Err(stop) => Err(stop),
                Ok(false) => {
                    run.hold_back(id, Settle::Wait, true);
                    Ok(())
                },
                Ok(true) => match self.removal(
                    run,
                    OutboxKind::Delete,
                    id,
                    &item.row,
                    rel,
                    None,
                    None,
                    fuel - 1,
                ) {
                    Err(stop) => Err(stop),
                    Ok(_) => Ok(()),
                },
            },
            Ok(Place::Outside(to)) => match self.removal(
                run,
                OutboxKind::MoveOut,
                id,
                &item.row,
                rel,
                Some(object(handle.clone())),
                Some(&to),
                fuel - 1,
            ) {
                Err(stop) => Err(stop),
                Ok(_) => Ok(()),
            },
            // Moved within the folder, somewhere this batch did not look.
            Ok(Place::Inside(now)) => {
                run.recheck_at(&now);
                run.hold_back(id, Settle::Wait, false);
                Ok(())
            },
            Ok(Place::Unknown) => {
                run.hold_back(id, Settle::Wait, true);
                Ok(())
            },
        }
    }

    /// Item `id` leaves OneDrive. Whether its row was written, or why not.
    pub fn removal(
        &self,
        run: &mut Run,
        kind: OutboxKind,
        id: &str,
        base: &Row,
        rel: &RelPath,
        inode: Option<Inode>,
        to: Option<&AbsPath>,
        fuel: u128,
    ) -> (r: Result<Settle, Stop>)
        requires
            self.wf(),
            old(run).wf(),
        ensures
            final(run).wf(),
            final(run).entries@.len() == old(run).entries@.len(),
            gave(r, final(run)@) == removing(
                self@,
                old(run)@,
                kind,
                id@,
                base@,
                rel@,
                inode.deep_view(),
                path_model(to),
                fuel as nat,
            ),
        decreases fuel,
    {
        if fuel == 0 {
            return Err(Stop::NoTree);
        }
        if run.decided.contains(id) {
            return Ok(run.settled(id));
        }
        run.decided.insert(id.to_owned());
        if base.kind == Kind::Folder {
            match self.left_before(run, id, rel, to, fuel - 1) {
                Err(stop) => return Err(stop),
                Ok(Settle::Done) => {},
                // Something inside is elsewhere in the folder, or cannot be
                // placed: the folder is examined again, and removed then.
                Ok(Settle::Wait) => {
                    run.hold_back(id, Settle::Wait, true);
                    run.recheck_at(rel);
                    return Ok(Settle::Wait);
                },
                // Something inside has no recorded handle: nothing can prove
                // it gone until the reconcile places it again.
                Ok(Settle::Unproven) => {
                    run.hold_back(id, Settle::Unproven, true);
                    return Ok(Settle::Unproven);
                },
            }
            match self.clear_rows(run, id, rel, fuel - 1) {
                Err(stop) => return Err(stop),
                Ok(_) => {},
            }
        }
        run.detect(removal_row(kind, id, base, rel, inode, to));
        Ok(Settle::Done)
    }

    /// The rows of what is inside the leaving folder `folder` at `rel`.
    fn clear_rows(&self, run: &mut Run, folder: &str, rel: &RelPath, fuel: u128) -> (r: Result<(), Stop>)
        requires
            self.wf(),
            old(run).wf(),
        ensures
            final(run).wf(),
            final(run).entries@.len() == old(run).entries@.len(),
            went(r, final(run)@) == clearing(self@, old(run)@, folder@, rel@, 0, fuel as nat),
        decreases fuel,
    {
        let ghost first = run@;
        let rows = &self.world.rows;
        let mut k: usize = 0;
        while k < rows.len()
            invariant
                rows == self.world.rows,
                k <= rows@.len(),
                self.wf(),
                run.wf(),
                run.entries@.len() == old(run).entries@.len(),
                first == old(run)@,
                clearing(self@, first, folder@, rel@, 0, fuel as nat) == clearing(
                    self@,
                    run@,
                    folder@,
                    rel@,
                    k as int,
                    fuel as nat,
                ),
            decreases rows@.len() - k,
        {
            if fuel == 0 {
                return Err(Stop::NoTree);
            }
            let row = &rows[k];
            assert(self@.w.rows[k as int] == row@);
            let under = row.rel.is_under(rel);
            match &row.item_id {
                None => {
                    if under {
                        self.gone_pending(run, row);
                    }
                },
                Some(item) => {
                    let inside = self.world.descends(item.as_str(), folder);
                    let sent = row.state == OutboxState::Running;
                    if (!under && !inside) || run.is_settled(item.as_str()) {
                    } else if inside {
                        // Gone with the folder in the cloud too — unless the
                        // row takes it elsewhere in the folder, or out of it
                        // first.
                        if !sent && row.kind != OutboxKind::MoveOut && (row.kind == OutboxKind::Delete
                            || under) {
                            run.op(OutboxOp::Remove(row.seq));
                        }
                    } else if !sent && (row.kind == OutboxKind::MoveOut || row.kind
                        == OutboxKind::Delete) {
                    } else {
                        // Moved in from elsewhere, which the cloud still has
                        // there: it leaves by its own object.
                        match self.missing_item(run, item.as_str(), &row.rel, fuel - 1) {
                            Err(stop) => return Err(stop),
                            Ok(_) => {},
                        }
                    }
                },
            }
            k += 1;
        }
        Ok(())
    }

    fn went_along(&self, to: &AbsPath, went: Option<&AbsPath>) -> (r: bool)
        ensures
            r == went_along(to@, path_model(went)),
    {
        match went {
            Some(w) => split(&to.raw).begins_with(&split(&w.raw)),
            None => false,
        }
    }

    /// Items the base has inside `folder` (at `rel`), which is leaving: how the
    /// folder may go.
    fn left_before(
        &self,
        run: &mut Run,
        folder: &str,
        rel: &RelPath,
        to: Option<&AbsPath>,
        fuel: u128,
    ) -> (r: Result<Settle, Stop>)
        requires
            self.wf(),
            old(run).wf(),
        ensures
            final(run).wf(),
            final(run).entries@.len() == old(run).entries@.len(),
            gave(r, final(run)@) == leaving(
                self@,
                old(run)@,
                seq![folder@],
                0,
                rel@,
                path_model(to),
                Settle::Done,
                self@.w.items.len() + 1,
                fuel as nat,
            ),
        decreases fuel,
    {
        let ghost first = run@;
        let ghost went = path_model(to);
        let items = &self.world.items;
        let mut settled = Settle::Done;
        let mut queue: Vec<String> = Vec::new();
        queue.push(folder.to_owned());
        assert(queue.deep_view() =~= seq![folder@]);
        let mut steps: u128 = items.len() as u128 + 1;
        let mut c: usize = 0;
        while queue.len() > 0
            invariant
                items == self.world.items,
                c <= items@.len(),
                self.wf(),
                run.wf(),
                run.entries@.len() == old(run).entries@.len(),
                first == old(run)@,
                went == path_model(to),
                leaving(
                    self@,
                    first,
                    seq![folder@],
                    0,
                    rel@,
                    went,
                    Settle::Done,
                    self@.w.items.len() + 1,
                    fuel as nat,
                ) == leaving(
                    self@,
                    run@,
                    queue.deep_view(),
                    c as int,
                    rel@,
                    went,
                    settled,
                    steps as nat,
                    fuel as nat,
                ),
            decreases steps, items@.len() - c,
        {
            if steps == 0 || fuel == 0 {
                return Err(Stop::NoTree);
            }
            let ghost q = queue.deep_view();
            if c >= items.len() {
                queue.remove(0);
                assert(queue.deep_view() =~= q.drop_first());
                steps -= 1;
                c = 0;
                continue ;
            }
            let item = &items[c];
            let child = &item.row;
            assert(self@.w.items[c as int].row == child@);
            assert(q[0] == queue@[0]@);
            let id = child.id.as_str();
            if !opt_is(&child.parent_id, queue[0].as_str()) || child.placement != Placement::Placed
                || run.chosen.contains_key(id) {
                c += 1;
                continue ;
            }
            if run.decided.contains(id) {
                settled = settled.less(run.settled(id));
                c += 1;
                continue ;
            }
            let at = match self.world.expected_rel(id) {
                None => {
                    c += 1;
                    continue ;
                },
                Some(at) => at,
            };
            if !at.is_under(rel) {
                // A row of its own takes it elsewhere.
                c += 1;
                continue ;
            }
            let handle = match self.world.handle_of(id) {
                None => {
                    settled = settled.less(Settle::Unproven);
                    c += 1;
                    continue ;
                },
                Some(handle) => handle,
            };
            let folder_too = child.kind == Kind::Folder;
            match self.world.place_of(self.facts, &handle) {
                Err(stop) => return Err(stop),
                Ok(Place::Outside(out)) => {
                    if self.went_along(&out, to) {
                        if folder_too {
                            push_to(&mut queue, child.id.clone());
                        }
                    } else {
                        match self.removal(
                            run,
                            OutboxKind::MoveOut,
                            id,
                            child,
                            &at,
                            Some(object(handle)),
                            Some(&out),
                            fuel - 1,
                        ) {
                            Err(stop) => return Err(stop),
                            Ok(left) => settled = settled.less(left),
                        }
                    }
                },
                // Gone with the folder only with its evidence, where the
                // folder is now.
                Ok(Place::Gone) => match self.facts.absent_with(&at, rel, to, &handle) {
                    Err(stop) => return Err(stop),
                    Ok(false) => settled = settled.less(Settle::Wait),
                    Ok(true) => {
                        if folder_too {
                            push_to(&mut queue, child.id.clone());
                        }
                    },
                },
                Ok(Place::Inside(now)) => {
                    run.recheck_at(&now);
                    settled = settled.less(Settle::Wait);
                },
                Ok(Place::Unknown) => settled = settled.less(Settle::Wait),
            }
            c += 1;
        }
        Ok(settled)
    }
}

} // verus!
