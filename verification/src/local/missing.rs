//! What is missing from the examined places.

use vstd::prelude::*;
use vstd::string::*;
use crate::local::content::dir_id;
use crate::local::entry::{inode_of, Entry, EntryModel};
use crate::local::facts::{Stop, StopModel};
use crate::local::removal::{enough, losing, losing_pending};
use crate::local::run::{is_settled, push_to, went, Run, RunModel, Examiner, SceneModel};
use crate::local::world::{expected_rel, row_of};
use crate::path::{is_beneath, parent_of, PathModel, RelPath};
use crate::sorted::contains;
use crate::text::same_text;
use crate::tree::{
    kind_removes, opt_is, same_inode, Inode, InodeModel, OutboxKind, OutboxRow, OutboxRowModel,
    Placement,
};

verus! {

/// `rel` was examined with its directory: the whole of it, or by name; and it
/// could be read.
pub open spec fn in_scope(sc: SceneModel, names: Option<Seq<Seq<u8>>>, rel: PathModel) -> bool {
    !sc.unreadable.contains(rel) && (names matches Some(n) ==> rel.len() > 0 && n.contains(rel.last()))
}

/// The items the base has in `parent` that are expected in `dir`, from the
/// `c`th item on, added to `found`.
pub open spec fn expected_in(
    sc: SceneModel,
    parent: Seq<char>,
    dir: PathModel,
    names: Option<Seq<Seq<u8>>>,
    c: int,
    found: Seq<(Seq<char>, PathModel)>,
) -> Seq<(Seq<char>, PathModel)>
    decreases sc.w.items.len() - c,
{
    if c >= sc.w.items.len() {
        found
    } else {
        let row = sc.w.items[c].row;
        let here = if row.parent_id == Some(parent) && row.placement == Placement::Placed {
            match expected_rel(sc.w, row.id) {
                Some(rel) => if parent_of(rel) == Some(dir) && in_scope(sc, names, rel) {
                    found.push((row.id, rel))
                } else {
                    found
                },
                None => found,
            }
        } else {
            found
        };
        expected_in(sc, parent, dir, names, c + 1, here)
    }
}

/// Item `id` is in the list.
pub open spec fn lists_item(found: Seq<(Seq<char>, PathModel)>, id: Seq<char>) -> bool {
    exists|k: int| 0 <= k < found.len() && (#[trigger] found[k]).0 == id
}

/// The row is of something that should be in `dir`.
pub open spec fn row_in(sc: SceneModel, row: OutboxRowModel, dir: PathModel, names: Option<Seq<Seq<u8>>>) -> bool {
    !kind_removes(row.kind) && parent_of(row.rel) == Some(dir) && in_scope(sc, names, row.rel)
}

/// `found`, with the items whose newest row, from `k` on, says they should be
/// in `dir`.
pub open spec fn with_rows_in(
    sc: SceneModel,
    dir: PathModel,
    names: Option<Seq<Seq<u8>>>,
    k: int,
    found: Seq<(Seq<char>, PathModel)>,
) -> Seq<(Seq<char>, PathModel)>
    decreases sc.w.rows.len() - k,
{
    if k >= sc.w.rows.len() {
        found
    } else {
        let row = sc.w.rows[k];
        let here = match row.item_id {
            Some(id) => if row_in(sc, row, dir, names) && !lists_item(found, id) && (row_of(sc.w, id) matches Some(
                newest,
            ) && newest.seq == row.seq) {
                found.push((id, row.rel))
            } else {
                found
            },
            None => found,
        };
        with_rows_in(sc, dir, names, k + 1, here)
    }
}

/// The items expected in `dir`.
pub open spec fn items_in(sc: SceneModel, run: RunModel, dir: PathModel, names: Option<Seq<Seq<u8>>>) -> Seq<
    (Seq<char>, PathModel),
> {
    let listed = match dir_id(sc, run, dir) {
        Some(parent) => expected_in(sc, parent, dir, names, 0, Seq::empty()),
        None => Seq::empty(),
    };
    with_rows_in(sc, dir, names, 0, listed)
}

/// The items of `found` from `k` on that this batch has not met are missing.
pub open spec fn losing_items(
    sc: SceneModel,
    run: RunModel,
    found: Seq<(Seq<char>, PathModel)>,
    k: int,
) -> Result<RunModel, StopModel>
    decreases found.len() - k,
{
    if k >= found.len() {
        Ok(run)
    } else if is_settled(run, found[k].0) {
        losing_items(sc, run, found, k + 1)
    } else {
        match losing(sc, run, found[k].0, found[k].1, enough(sc.w)) {
            Err(stop) => Err(stop),
            Ok(next) => losing_items(sc, next, found, k + 1),
        }
    }
}

/// The object was read in this batch.
pub open spec fn is_seen(entries: Seq<EntryModel>, inode: Option<InodeModel>) -> bool {
    inode matches Some(i) && exists|k: int|
        0 <= k < entries.len() && same_inode(inode_of(#[trigger] entries[k]), i)
}

/// What waited inside a new directory that is gone, from row `k` on.
pub open spec fn losing_inside(sc: SceneModel, run: RunModel, rel: PathModel, k: int) -> Result<
    RunModel,
    StopModel,
>
    decreases sc.w.rows.len() - k,
{
    if k >= sc.w.rows.len() {
        Ok(run)
    } else {
        let row = sc.w.rows[k];
        if !is_beneath(row.rel, rel) {
            losing_inside(sc, run, rel, k + 1)
        } else {
            match row.item_id {
                None => losing_inside(sc, losing_pending(run, row), rel, k + 1),
                Some(id) => if kind_removes(row.kind) || is_settled(run, id) {
                    losing_inside(sc, run, rel, k + 1)
                } else {
                    match losing(sc, run, id, row.rel, enough(sc.w)) {
                        Err(stop) => Err(stop),
                        Ok(next) => losing_inside(sc, next, rel, k + 1),
                    }
                },
            }
        }
    }
}

/// A pending create's or mkdir's object is gone, with what waited inside a new
/// directory.
pub open spec fn losing_new(sc: SceneModel, run: RunModel, row: OutboxRowModel) -> Result<RunModel, StopModel> {
    let lost = losing_pending(run, row);
    if row.kind == OutboxKind::Mkdir {
        losing_inside(sc, lost, row.rel, 0)
    } else {
        Ok(lost)
    }
}

/// The pending rows in `dir`, from `k` on, whose object was not read.
pub open spec fn losing_rows(
    sc: SceneModel,
    run: RunModel,
    dir: PathModel,
    names: Option<Seq<Seq<u8>>>,
    k: int,
) -> Result<RunModel, StopModel>
    decreases sc.w.rows.len() - k,
{
    if k >= sc.w.rows.len() {
        Ok(run)
    } else {
        let row = sc.w.rows[k];
        if row.item_id is None && row_in(sc, row, dir, names) && !is_seen(run.entries, row.inode) {
            match losing_new(sc, run, row) {
                Err(stop) => Err(stop),
                Ok(next) => losing_rows(sc, next, dir, names, k + 1),
            }
        } else {
            losing_rows(sc, run, dir, names, k + 1)
        }
    }
}

/// What is missing from `dir`.
pub open spec fn missing_in(
    sc: SceneModel,
    run: RunModel,
    dir: PathModel,
    names: Option<Seq<Seq<u8>>>,
) -> Result<RunModel, StopModel> {
    match losing_items(sc, run, items_in(sc, run, dir, names), 0) {
        Err(stop) => Err(stop),
        Ok(next) => losing_rows(sc, next, dir, names, 0),
    }
}

/// What is missing from the directories read whole, from the `p`th on, and
/// then from those read by name.
pub open spec fn missing_from(sc: SceneModel, run: RunModel, p: int) -> Result<RunModel, StopModel>
    decreases sc.whole.len() + sc.named_dirs.len() - p,
{
    if p >= sc.whole.len() + sc.named_dirs.len() {
        Ok(run)
    } else {
        let dir = if p < sc.whole.len() {
            sc.whole[p]
        } else {
            sc.named_dirs[p - sc.whole.len()]
        };
        let names = if p < sc.whole.len() {
            None
        } else {
            Some(sc.named[dir])
        };
        match missing_in(sc, run, dir, names) {
            Err(stop) => Err(stop),
            Ok(next) => missing_from(sc, next, p + 1),
        }
    }
}

/// Names read in a directory.
pub open spec fn names_model(names: Option<&Vec<Vec<u8>>>) -> Option<Seq<Seq<u8>>> {
    match names {
        Some(n) => Some(n.deep_view()),
        None => None,
    }
}

impl<'a> Examiner<'a> {
    fn in_scope(&self, names: Option<&Vec<Vec<u8>>>, rel: &RelPath) -> (r: bool)
        ensures
            r == in_scope(self@, names_model(names), rel@),
    {
        if contains(&self.seen.unreadable, rel) {
            return false;
        }
        match names {
            None => true,
            Some(names) => match rel.file_name() {
                None => false,
                Some(name) => {
                    proof {
                        crate::path::lemma_deep_bytes(*name);
                    }
                    contains(names, name)
                },
            },
        }
    }

    fn in_dir(&self, rel: &RelPath, dir: &RelPath) -> (r: bool)
        ensures
            r == (parent_of(rel@) == Some(dir@)),
    {
        match rel.parent() {
            Some(parent) => parent.same(dir),
            None => false,
        }
    }

    fn expected_in(&self, parent: &str, dir: &RelPath, names: Option<&Vec<Vec<u8>>>) -> (r: Vec<(String, RelPath)>)
        ensures
            r.deep_view() == expected_in(
                self@,
                parent@,
                dir@,
                names_model(names),
                0,
                Seq::empty(),
            ),
    {
        let items = &self.world.items;
        let mut found: Vec<(String, RelPath)> = Vec::new();
        assert(found.deep_view() =~= Seq::<(Seq<char>, PathModel)>::empty());
        let mut c: usize = 0;
        while c < items.len()
            invariant
                items == self.world.items,
                c <= items@.len(),
                expected_in(self@, parent@, dir@, names_model(names), 0, Seq::empty())
                    == expected_in(
                    self@,
                    parent@,
                    dir@,
                    names_model(names),
                    c as int,
                    found.deep_view(),
                ),
            decreases items@.len() - c,
        {
            let row = &items[c].row;
            assert(self@.w.items[c as int].row == row@);
            if opt_is(&row.parent_id, parent) && row.placement == Placement::Placed {
                if let Some(rel) = self.world.expected_rel(row.id.as_str()) {
                    if self.in_dir(&rel, dir) && self.in_scope(names, &rel) {
                        push_to(&mut found, (row.id.clone(), rel));
                    }
                }
            }
            c += 1;
        }
        found
    }

    fn add_rows_in(&self, dir: &RelPath, names: Option<&Vec<Vec<u8>>>, found: &mut Vec<(String, RelPath)>)
        ensures
            final(found).deep_view() == with_rows_in(
                self@,
                dir@,
                names_model(names),
                0,
                old(found).deep_view(),
            ),
    {
        let ghost first = found.deep_view();
        let rows = &self.world.rows;
        let mut k: usize = 0;
        while k < rows.len()
            invariant
                rows == self.world.rows,
                k <= rows@.len(),
                with_rows_in(self@, dir@, names_model(names), 0, first) == with_rows_in(
                    self@,
                    dir@,
                    names_model(names),
                    k as int,
                    found.deep_view(),
                ),
            decreases rows@.len() - k,
        {
            let row = &rows[k];
            assert(self@.w.rows[k as int] == row@);
            if let Some(id) = &row.item_id {
                if self.row_in(row, dir, names) && !lists(found, id.as_str()) {
                    if let Some(newest) = self.world.row_of(id.as_str()) {
                        if newest.seq == row.seq {
                            push_to(found, (id.clone(), row.rel.clone()));
                        }
                    }
                }
            }
            k += 1;
        }
    }

    fn row_in(&self, row: &OutboxRow, dir: &RelPath, names: Option<&Vec<Vec<u8>>>) -> (r: bool)
        ensures
            r == row_in(self@, row@, dir@, names_model(names)),
    {
        !row.kind.removes() && self.in_dir(&row.rel, dir) && self.in_scope(names, &row.rel)
    }

    /// A pending create's or mkdir's object is gone.
    fn missing_pending(&self, run: &mut Run, row: &OutboxRow) -> (r: Result<(), Stop>)
        requires
            self.wf(),
            old(run).wf(),
        ensures
            final(run).wf(),
            final(run).entries@.len() == old(run).entries@.len(),
            went(r, final(run)@) == losing_new(self@, old(run)@, row@),
    {
        self.gone_pending(run, row);
        if row.kind != OutboxKind::Mkdir {
            return Ok(());
        }
        let ghost first = run@;
        let fuel: u128 = 3 * self.world.items.len() as u128 + 4;
        let rows = &self.world.rows;
        let mut k: usize = 0;
        while k < rows.len()
            invariant
                rows == self.world.rows,
                k <= rows@.len(),
                self.wf(),
                run.wf(),
                run.entries@.len() == old(run).entries@.len(),
                fuel == enough(self@.w),
                first == losing_pending(old(run)@, row@),
                row@.kind == OutboxKind::Mkdir,
                losing_inside(self@, first, row@.rel, 0) == losing_inside(
                    self@,
                    run@,
                    row@.rel,
                    k as int,
                ),
            decreases rows@.len() - k,
        {
            let inner = &rows[k];
            assert(self@.w.rows[k as int] == inner@);
            if inner.rel.is_under(&row.rel) {
                match &inner.item_id {
                    None => self.gone_pending(run, inner),
                    Some(id) => {
                        if !inner.kind.removes() && !run.is_settled(id.as_str()) {
                            match self.missing_item(run, id.as_str(), &inner.rel, fuel) {
                                Err(stop) => return Err(stop),
                                Ok(_) => {},
                            }
                        }
                    },
                }
            }
            k += 1;
        }
        Ok(())
    }

    fn missing_in(&self, run: &mut Run, dir: &RelPath, names: Option<&Vec<Vec<u8>>>) -> (r: Result<(), Stop>)
        requires
            self.wf(),
            old(run).wf(),
        ensures
            final(run).wf(),
            final(run).entries@.len() == old(run).entries@.len(),
            went(r, final(run)@) == missing_in(self@, old(run)@, dir@, names_model(names)),
    {
        let ghost start = run@;
        let ghost ns = names_model(names);
        let mut found: Vec<(String, RelPath)> = match self.dir_id(run, dir) {
            Some(parent) => self.expected_in(parent.as_str(), dir, names),
            None => Vec::new(),
        };
        assert(dir_id(self@, start, dir@) is None ==> found.deep_view() =~= Seq::<
            (Seq<char>, PathModel),
        >::empty());
        self.add_rows_in(dir, names, &mut found);
        let ghost fs = found.deep_view();
        let fuel: u128 = 3 * self.world.items.len() as u128 + 4;
        let mut k: usize = 0;
        while k < found.len()
            invariant
                k <= found@.len(),
                self.wf(),
                run.wf(),
                run.entries@.len() == old(run).entries@.len(),
                fuel == enough(self@.w),
                start == old(run)@,
                ns == names_model(names),
                fs == found.deep_view(),
                fs == items_in(self@, start, dir@, ns),
                losing_items(self@, start, fs, 0) == losing_items(self@, run@, fs, k as int),
            decreases found@.len() - k,
        {
            assert(fs[k as int] == (found@[k as int].0@, found@[k as int].1@));
            if !run.is_settled(found[k].0.as_str()) {
                match self.missing_item(run, found[k].0.as_str(), &found[k].1, fuel) {
                    Err(stop) => return Err(stop),
                    Ok(_) => {},
                }
            }
            k += 1;
        }
        let ghost middle = run@;
        let rows = &self.world.rows;
        let mut m: usize = 0;
        while m < rows.len()
            invariant
                rows == self.world.rows,
                m <= rows@.len(),
                self.wf(),
                run.wf(),
                run.entries@.len() == old(run).entries@.len(),
                start == old(run)@,
                ns == names_model(names),
                missing_in(self@, start, dir@, ns) == losing_rows(self@, middle, dir@, ns, 0),
                losing_rows(self@, middle, dir@, ns, 0) == losing_rows(
                    self@,
                    run@,
                    dir@,
                    ns,
                    m as int,
                ),
            decreases rows@.len() - m,
        {
            let row = &rows[m];
            assert(self@.w.rows[m as int] == row@);
            if row.item_id.is_none() && self.row_in(row, dir, names) && !seen(&run.entries, &row.inode) {
                match self.missing_pending(run, row) {
                    Err(stop) => return Err(stop),
                    Ok(_) => {},
                }
            }
            m += 1;
        }
        Ok(())
    }

    /// Base items (and pending rows) expected in the examined places and not
    /// found anywhere in the batch.
    pub fn missing(&self, run: &mut Run) -> (r: Result<(), Stop>)
        requires
            self.wf(),
            old(run).wf(),
        ensures
            final(run).wf(),
            final(run).entries@.len() == old(run).entries@.len(),
            went(r, final(run)@) == missing_from(self@, old(run)@, 0),
    {
        let ghost start = run@;
        let whole = &self.seen.whole;
        let named = &self.seen.named;
        let mut p: usize = 0;
        while p < whole.len()
            invariant
                whole == self.seen.whole,
                p <= whole@.len(),
                self.wf(),
                run.wf(),
                run.entries@.len() == old(run).entries@.len(),
                start == old(run)@,
                missing_from(self@, start, 0) == missing_from(self@, run@, p as int),
            decreases whole@.len() - p,
        {
            assert(self@.whole[p as int] == whole@[p as int]@);
            match self.missing_in(run, &whole[p], None) {
                Err(stop) => return Err(stop),
                Ok(_) => {},
            }
            p += 1;
        }
        let mut q: usize = 0;
        while q < named.len()
            invariant
                whole == self.seen.whole,
                named == self.seen.named,
                q <= self@.named_dirs.len(),
                self.wf(),
                run.wf(),
                run.entries@.len() == old(run).entries@.len(),
                start == old(run)@,
                missing_from(self@, start, 0) == missing_from(self@, run@, whole@.len() + q),
            decreases self@.named_dirs.len() - q,
        {
            match self.missing_in(run, named.key(q), Some(named.val(q))) {
                Err(stop) => return Err(stop),
                Ok(_) => {},
            }
            q += 1;
        }
        Ok(())
    }
}

fn lists(found: &Vec<(String, RelPath)>, id: &str) -> (r: bool)
    ensures
        r == lists_item(found.deep_view(), id@),
{
    let mut k: usize = 0;
    while k < found.len()
        invariant
            k <= found@.len(),
            forall|m: int| 0 <= m < k ==> (#[trigger] found.deep_view()[m]).0 != id@,
        decreases found@.len() - k,
    {
        assert(found.deep_view()[k as int].0 == found@[k as int].0@);
        if same_text(found[k].0.as_str(), id) {
            return true;
        }
        k += 1;
    }
    false
}

fn seen(entries: &Vec<Entry>, inode: &Option<Inode>) -> (r: bool)
    ensures
        r == is_seen(entries.deep_view(), inode.deep_view()),
{
    let one = match inode {
        None => return false,
        Some(one) => one,
    };
    let mut k: usize = 0;
    while k < entries.len()
        invariant
            k <= entries@.len(),
            inode.deep_view() == Some(one@),
            forall|m: int|
                0 <= m < k ==> !same_inode(inode_of(#[trigger] entries.deep_view()[m]), one@),
        decreases entries@.len() - k,
    {
        assert(entries.deep_view()[k as int] == entries@[k as int]@);
        if entries[k].inode().same_object(one) {
            return true;
        }
        k += 1;
    }
    false
}

} // verus!
