//! The mass-delete guard, and what an examination records in the end.

use vstd::prelude::*;
use vstd::hash_map::StringHashMap;
use vstd::hash_set::StringHashSet;
use vstd::string::*;
use crate::local::batch::Batch;
use crate::local::examine::{classifying, starting};
use crate::local::entry::Entry;
use crate::local::facts::{Stop, StopModel};
use crate::local::order::{in_order, ordered};
use crate::local::run::{
    push_to, with_op, Examined, ExaminedModel, Run, RunModel, Examiner, SceneModel,
};
use crate::local::world::{descends, item_of, World, WorldModel};
use crate::local::{MASS_DELETE_FLOOR, MASS_DELETE_ITEMS, MASS_DELETE_PERCENT};
use crate::tree::{
    kind_removes, opt_is, Detection, DetectionModel, Kind, OpModel, OutboxOp, OutboxRow,
    OutboxRowModel, OutboxState,
};

verus! {

/// A held removal's reason.
pub open spec fn mass_delete() -> Seq<char> {
    "mass-delete"@
}

/// The user confirmed a removal of item `id`.
pub open spec fn is_confirmed(w: WorldModel, id: Seq<char>) -> bool {
    exists|k: int|
        0 <= k < w.rows.len() && kind_removes((#[trigger] w.rows[k]).kind) && w.rows[k].confirmed
            && w.rows[k].item_id == Some(id)
}

/// The detection removes an item, and the user has not confirmed it.
pub open spec fn is_new_removal(w: WorldModel, d: DetectionModel) -> bool {
    kind_removes(d.kind) && d.item_id is Some && !is_confirmed(w, d.item_id->0)
}

/// The row is a removal still waiting, not confirmed and not being sent, that
/// this batch did not decide anew.
pub open spec fn is_waiting_removal(decided: Set<Seq<char>>, row: OutboxRowModel) -> bool {
    kind_removes(row.kind) && !row.confirmed && row.state != OutboxState::Running
        && !(row.item_id matches Some(id) && decided.contains(id))
}

/// The items newly removed, from the `k`th detection on, after `ids`.
pub open spec fn newly_removed(w: WorldModel, ds: Seq<DetectionModel>, k: int, ids: Seq<Seq<char>>) -> Seq<
    Seq<char>,
>
    decreases ds.len() - k,
{
    if k >= ds.len() {
        ids
    } else if is_new_removal(w, ds[k]) {
        newly_removed(w, ds, k + 1, ids.push(ds[k].item_id->0))
    } else {
        newly_removed(w, ds, k + 1, ids)
    }
}

/// The items whose removal still waits, from the `k`th row on, after `ids`.
pub open spec fn still_removed(w: WorldModel, decided: Set<Seq<char>>, k: int, ids: Seq<Seq<char>>) -> Seq<
    Seq<char>,
>
    decreases w.rows.len() - k,
{
    if k >= w.rows.len() {
        ids
    } else if is_waiting_removal(decided, w.rows[k]) && w.rows[k].item_id is Some {
        still_removed(w, decided, k + 1, ids.push(w.rows[k].item_id->0))
    } else {
        still_removed(w, decided, k + 1, ids)
    }
}

/// Item `x` goes with the folder `id`.
pub open spec fn goes_with(w: WorldModel, x: Seq<char>, id: Seq<char>) -> bool {
    &&& item_of(w, id) matches Some(item) && item.row.kind == Kind::Folder
    &&& descends(w, x, id)
    &&& exists|c: int| 0 <= c < w.items.len() && (#[trigger] w.items[c]).row.id == x
}

/// What leaves OneDrive when the items `ids` are removed: each once, and with
/// a folder everything the base has inside it.
pub open spec fn removed_by(w: WorldModel, ids: Seq<Seq<char>>) -> Set<Seq<char>> {
    Set::new(
        |x: Seq<char>|
            exists|m: int|
                0 <= m < ids.len() && (x == #[trigger] ids[m] || goes_with(w, x, ids[m])),
    )
}

/// All that would be removed from OneDrive: by this batch, and by the removals
/// still waiting, so that a trickle adds up.
pub open spec fn all_removed(w: WorldModel, run: RunModel) -> Set<Seq<char>> {
    removed_by(
        w,
        still_removed(
            w,
            run.decided,
            0,
            newly_removed(w, run.detections, 0, Seq::empty()),
        ),
    )
}

/// There is a removal the guard has not held before.
pub open spec fn removes_anew(w: WorldModel, run: RunModel) -> bool {
    ||| exists|k: int| 0 <= k < run.detections.len() && is_new_removal(w, #[trigger] run.detections[k])
    ||| exists|k: int|
        0 <= k < w.rows.len() && is_waiting_removal(run.decided, #[trigger] w.rows[k])
            && w.rows[k].state != OutboxState::Held
}

/// So many of `total` items removed at once are held for confirmation.
pub open spec fn is_mass(n: nat, total: u64) -> bool {
    n > MASS_DELETE_ITEMS || (n >= MASS_DELETE_FLOOR && n * 100 > total * MASS_DELETE_PERCENT)
}

/// The guard trips.
pub open spec fn trips(w: WorldModel, run: RunModel) -> bool {
    removes_anew(w, run) && is_mass(all_removed(w, run).len(), w.placed)
}

/// A detection as the tripped guard leaves it.
pub open spec fn held(w: WorldModel, d: DetectionModel) -> DetectionModel {
    if is_new_removal(w, d) {
        DetectionModel {
            state: OutboxState::Held,
            reason: Some(mass_delete()),
            next_try: None,
            ..d
        }
    } else {
        d
    }
}

/// The waiting removals from the `k`th row on are held too.
pub open spec fn holding_rows(w: WorldModel, run: RunModel, k: int) -> RunModel
    decreases w.rows.len() - k,
{
    if k >= w.rows.len() {
        run
    } else if is_waiting_removal(run.decided, w.rows[k]) && w.rows[k].state != OutboxState::Held {
        holding_rows(
            w,
            with_op(run, OpModel::Hold { seq: w.rows[k].seq, reason: mass_delete() }),
            k + 1,
        )
    } else {
        holding_rows(w, run, k + 1)
    }
}

/// The guard: when it trips, every removal not confirmed is held, and nothing
/// else changes.
pub open spec fn guarding(w: WorldModel, run: RunModel) -> RunModel {
    if trips(w, run) {
        let rows = holding_rows(
            w,
            RunModel {
                detections: Seq::new(run.detections.len(), |k: int| held(w, run.detections[k])),
                ..run
            },
            0,
        );
        RunModel {
            out: ExaminedModel { held: all_removed(w, run).len() as u64, ..rows.out },
            ..rows
        }
    } else {
        run
    }
}

/// What is recorded before the detections: rows that follow a directory, and
/// rows that go.
pub open spec fn comes_first(op: OpModel) -> bool {
    op is Rebase || op is Remove
}

/// What is recorded, in order.
pub open spec fn recorded(run: RunModel) -> Seq<OpModel> {
    let ds = in_order(run.detections);
    run.out.ops.filter(|op: OpModel| comes_first(op)) + Seq::new(
        ds.len(),
        |k: int| OpModel::Record(ds[k]),
    ) + run.out.ops.filter(|op: OpModel| !comes_first(op))
}

/// The guard, then everything recorded.
pub open spec fn finishing(w: WorldModel, run: RunModel) -> ExaminedModel {
    let guarded = guarding(w, run);
    ExaminedModel { ops: recorded(guarded), ..guarded.out }
}

/// What the examination of what was read comes to.
pub open spec fn examining(sc: SceneModel, entries: Seq<crate::local::entry::EntryModel>, renewed: bool) -> Result<
    ExaminedModel,
    StopModel,
> {
    match classifying(sc, starting(entries, sc.unreadable, renewed)) {
        Err(stop) => Err(stop),
        Ok(run) => Ok(finishing(sc.w, run)),
    }
}

impl World {
    fn is_confirmed(&self, id: &str) -> (r: bool)
        ensures
            r == is_confirmed(self@, id@),
    {
        let mut k: usize = 0;
        while k < self.rows.len()
            invariant
                k <= self.rows@.len(),
                forall|m: int|
                    0 <= m < k ==> !(kind_removes((#[trigger] self@.rows[m]).kind)
                        && self@.rows[m].confirmed && self@.rows[m].item_id == Some(id@)),
            decreases self.rows@.len() - k,
        {
            assert(self@.rows[k as int] == self.rows@[k as int]@);
            if self.rows[k].kind.removes() && self.rows[k].confirmed && opt_is(
                &self.rows[k].item_id,
                id,
            ) {
                return true;
            }
            k += 1;
        }
        false
    }

    fn is_new_removal(&self, d: &Detection) -> (r: bool)
        ensures
            r == is_new_removal(self@, d@),
    {
        if !d.kind.removes() {
            return false;
        }
        match &d.item_id {
            Some(id) => !self.is_confirmed(id.as_str()),
            None => false,
        }
    }

    /// Adds item `id` and, for a folder, everything the base has inside it.
    fn count_removed(&self, id: &str, removed: &mut StringHashSet)
        ensures
            final(removed)@ == old(removed)@.union(
                Set::new(|x: Seq<char>| x == id@ || goes_with(self@, x, id@)),
            ),
    {
        let ghost before = removed@;
        removed.insert(id.to_owned());
        let folder = match self.item(id) {
            Some(item) => item.row.kind == Kind::Folder,
            None => false,
        };
        if folder {
            let mut c: usize = 0;
            while c < self.items.len()
                invariant
                    c <= self.items@.len(),
                    item_of(self@, id@) matches Some(item) && item.row.kind == Kind::Folder,
                    forall|x: Seq<char>| #[trigger]
                        removed@.contains(x) <==> (before.contains(x) || x == id@ || (descends(
                            self@,
                            x,
                            id@,
                        ) && exists|k: int| 0 <= k < c && (#[trigger] self@.items[k]).row.id == x)),
                decreases self.items@.len() - c,
            {
                let own = &self.items[c].row.id;
                assert(self@.items[c as int].row.id == own@);
                let ghost was = removed@;
                if self.descends(own.as_str(), id) {
                    removed.insert(own.clone());
                }
                c += 1;
                proof {
                    assert forall|x: Seq<char>| #[trigger]
                        removed@.contains(x) <==> (before.contains(x) || x == id@ || (descends(
                            self@,
                            x,
                            id@,
                        ) && exists|k: int| 0 <= k < c && (#[trigger] self@.items[k]).row.id == x)) by {
                        assert(was.contains(x) <==> (before.contains(x) || x == id@ || (descends(
                            self@,
                            x,
                            id@,
                        ) && exists|k: int| 0 <= k < c - 1 && (#[trigger] self@.items[k]).row.id == x)));
                        if exists|k: int| 0 <= k < c && (#[trigger] self@.items[k]).row.id == x {
                            let k = choose|k: int| 0 <= k < c && (#[trigger] self@.items[k]).row.id == x;
                            if k < c - 1 {
                                assert(exists|k: int| 0 <= k < c - 1 && (#[trigger] self@.items[k]).row.id == x);
                            }
                        }
                    }
                }
            }
        }
        assert(removed@ =~= before.union(
            Set::new(|x: Seq<char>| x == id@ || goes_with(self@, x, id@)),
        ));
    }
}

fn is_waiting(decided: &StringHashSet, row: &OutboxRow) -> (r: bool)
    ensures
        r == is_waiting_removal(decided@, row@),
{
    if !row.kind.removes() || row.confirmed || row.state == OutboxState::Running {
        return false;
    }
    match &row.item_id {
        Some(id) => !decided.contains(id.as_str()),
        None => true,
    }
}

/// How many items would be removed from OneDrive.
fn count_all(w: &World, run: &Run) -> (r: u64)
    ensures
        r == all_removed(w@, run@).len(),
{
    let ghost ds = run@.detections;
    let mut ids: Vec<String> = Vec::new();
    assert(ids.deep_view() =~= Seq::<Seq<char>>::empty());
    let mut k: usize = 0;
    while k < run.detections.len()
        invariant
            k <= run.detections@.len(),
            ds == run@.detections,
            newly_removed(w@, ds, 0, Seq::empty()) == newly_removed(
                w@,
                ds,
                k as int,
                ids.deep_view(),
            ),
        decreases run.detections@.len() - k,
    {
        let d = &run.detections[k];
        assert(ds[k as int] == d@);
        if w.is_new_removal(d) {
            if let Some(id) = &d.item_id {
                push_to(&mut ids, id.clone());
            }
        }
        k += 1;
    }
    let ghost new = ids.deep_view();
    let mut m: usize = 0;
    while m < w.rows.len()
        invariant
            m <= w.rows@.len(),
            still_removed(w@, run@.decided, 0, new) == still_removed(
                w@,
                run@.decided,
                m as int,
                ids.deep_view(),
            ),
        decreases w.rows@.len() - m,
    {
        let row = &w.rows[m];
        assert(w@.rows[m as int] == row@);
        if is_waiting(&run.decided, row) {
            if let Some(id) = &row.item_id {
                push_to(&mut ids, id.clone());
            }
        }
        m += 1;
    }
    let ghost all = ids.deep_view();
    let mut removed = StringHashSet::new();
    let mut n: usize = 0;
    assert(removed@ =~= removed_by(w@, all.subrange(0, 0)));
    while n < ids.len()
        invariant
            n <= ids@.len(),
            all == ids.deep_view(),
            removed@ == removed_by(w@, all.subrange(0, n as int)),
        decreases ids@.len() - n,
    {
        assert(all[n as int] == ids@[n as int]@);
        let ghost before = removed@;
        w.count_removed(ids[n].as_str(), &mut removed);
        n += 1;
        proof {
            let now = all.subrange(0, n as int);
            let was = all.subrange(0, n - 1);
            assert(now =~= was.push(all[n - 1]));
            assert forall|x: Seq<char>| #[trigger] removed@.contains(x) <==> removed_by(
                w@,
                now,
            ).contains(x) by {
                if removed_by(w@, was).contains(x) {
                    let i = choose|i: int|
                        0 <= i < was.len() && (x == #[trigger] was[i] || goes_with(w@, x, was[i]));
                    assert(now[i] == was[i]);
                }
                if removed_by(w@, now).contains(x) {
                    let i = choose|i: int|
                        0 <= i < now.len() && (x == #[trigger] now[i] || goes_with(w@, x, now[i]));
                    if i < was.len() {
                        assert(was[i] == now[i]);
                    }
                }
                assert(now[n - 1] == all[n - 1]);
            }
            assert(removed@ =~= removed_by(w@, now));
        }
    }
    assert(all.subrange(0, n as int) =~= all);
    removed.len() as u64
}

/// Whether there is a removal the guard has not held before.
fn removes_anew_here(w: &World, run: &Run) -> (r: bool)
    ensures
        r == removes_anew(w@, run@),
{
    let mut k: usize = 0;
    while k < run.detections.len()
        invariant
            k <= run.detections@.len(),
            forall|m: int| 0 <= m < k ==> !is_new_removal(w@, #[trigger] run@.detections[m]),
        decreases run.detections@.len() - k,
    {
        assert(run@.detections[k as int] == run.detections@[k as int]@);
        if w.is_new_removal(&run.detections[k]) {
            return true;
        }
        k += 1;
    }
    let mut m: usize = 0;
    while m < w.rows.len()
        invariant
            m <= w.rows@.len(),
            forall|i: int|
                0 <= i < run@.detections.len() ==> !is_new_removal(w@, #[trigger] run@.detections[i]),
            forall|i: int|
                0 <= i < m ==> !(is_waiting_removal(run@.decided, #[trigger] w@.rows[i])
                    && w@.rows[i].state != OutboxState::Held),
        decreases w.rows@.len() - m,
    {
        assert(w@.rows[m as int] == w.rows@[m as int]@);
        if is_waiting(&run.decided, &w.rows[m]) && w.rows[m].state != OutboxState::Held {
            return true;
        }
        m += 1;
    }
    false
}

/// The mass-delete guard.
fn guard(w: &World, run: &mut Run)
    requires
        old(run).wf(),
    ensures
        final(run).wf(),
        final(run)@ == guarding(w@, old(run)@),
{
    let n = count_all(w, run);
    let mass = n > MASS_DELETE_ITEMS || (n >= MASS_DELETE_FLOOR && n as u128 * 100 > w.placed as u128
        * MASS_DELETE_PERCENT as u128);
    if !removes_anew_here(w, run) || !mass {
        return ;
    }
    let ghost first = run@;
    let mut k: usize = 0;
    while k < run.detections.len()
        invariant
            k <= run.detections@.len(),
            run.wf(),
            run.detections@.len() == first.detections.len(),
            run@ == (RunModel { detections: run@.detections, ..first }),
            forall|m: int| 0 <= m < k ==> #[trigger] run@.detections[m] == held(w@, first.detections[m]),
            forall|m: int|
                k <= m < first.detections.len() ==> #[trigger] run@.detections[m]
                    == first.detections[m],
        decreases run.detections@.len() - k,
    {
        let ghost before = run@.detections;
        assert(before[k as int] == run.detections@[k as int]@);
        if w.is_new_removal(&run.detections[k]) {
            let d = &mut run.detections[k];
            d.state = OutboxState::Held;
            d.reason = Some("mass-delete".to_owned());
            d.next_try = None;
        }
        assert(run@.detections =~= before.update(k as int, held(w@, before[k as int])));
        k += 1;
    }
    assert(run@.detections =~= Seq::new(
        first.detections.len(),
        |k: int| held(w@, first.detections[k]),
    ));
    let ghost middle = run@;
    let mut m: usize = 0;
    while m < w.rows.len()
        invariant
            m <= w.rows@.len(),
            run.wf(),
            holding_rows(w@, middle, 0) == holding_rows(w@, run@, m as int),
        decreases w.rows@.len() - m,
    {
        let row = &w.rows[m];
        assert(w@.rows[m as int] == row@);
        if is_waiting(&run.decided, row) && row.state != OutboxState::Held {
            run.op(OutboxOp::Hold { seq: row.seq, reason: "mass-delete".to_owned() });
        }
        m += 1;
    }
    run.out.held = n;
}

fn goes_first(op: &OutboxOp) -> (r: bool)
    ensures
        r == comes_first(op@),
{
    match op {
        OutboxOp::Rebase { .. } | OutboxOp::Remove(_) => true,
        _ => false,
    }
}

/// The operations in two: those that come first, and the rest.
fn part(ops: Vec<OutboxOp>) -> (r: (Vec<OutboxOp>, Vec<OutboxOp>))
    ensures
        r.0.deep_view() == ops.deep_view().filter(|op: OpModel| comes_first(op)),
        r.1.deep_view() == ops.deep_view().filter(|op: OpModel| !comes_first(op)),
{
    let ghost given = ops.deep_view();
    let ghost yes = |op: OpModel| comes_first(op);
    let ghost no = |op: OpModel| !comes_first(op);
    let mut first: Vec<OutboxOp> = Vec::new();
    let mut rest: Vec<OutboxOp> = Vec::new();
    proof {
        reveal(Seq::filter);
        assert(given.subrange(0, 0) =~= Seq::<OpModel>::empty());
        assert(first.deep_view() =~= Seq::<OpModel>::empty());
        assert(rest.deep_view() =~= Seq::<OpModel>::empty());
    }
    let ghost all = ops@;
    for op in it: ops
        invariant
            it.seq() == all,
            given == Seq::new(all.len(), |i: int| all[i]@),
            yes == (|op: OpModel| comes_first(op)),
            no == (|op: OpModel| !comes_first(op)),
            first.deep_view() == given.subrange(0, it.index()).filter(yes),
            rest.deep_view() == given.subrange(0, it.index()).filter(no),
    {
        proof {
            reveal(Seq::filter);
            let now = given.subrange(0, it.index() + 1);
            assert(now.drop_last() =~= given.subrange(0, it.index()));
            assert(now.last() == op@);
        }
        if goes_first(&op) {
            push_to(&mut first, op);
        } else {
            push_to(&mut rest, op);
        }
    }
    assert(given.subrange(0, given.len() as int) =~= given);
    (first, rest)
}

/// What is recorded, in order.
fn record(run: &mut Run)
    ensures
        final(run).out@ == (ExaminedModel { ops: recorded(old(run)@), ..old(run)@.out }),
        final(run).out.recheck == old(run).out.recheck,
{
    let ghost before = run@;
    let mut detections: Vec<Detection> = Vec::new();
    std::mem::swap(&mut detections, &mut run.detections);
    let mut ops: Vec<OutboxOp> = Vec::new();
    std::mem::swap(&mut ops, &mut run.out.ops);
    let detections = ordered(detections);
    let (mut first, mut rest) = part(ops);
    let ghost ds = detections.deep_view();
    let ghost head = first.deep_view();
    let ghost all = detections@;
    assert(ds.subrange(0, 0) =~= Seq::<DetectionModel>::empty());
    assert(head + Seq::new(0, |k: int| OpModel::Record(ds[k])) =~= head);
    for d in it: detections
        invariant
            it.seq() == all,
            ds == Seq::new(all.len(), |i: int| all[i]@),
            first.deep_view() == head + Seq::new(it.index() as nat, |k: int| OpModel::Record(ds[k])),
    {
        let ghost was = first.deep_view();
        push_to(&mut first, OutboxOp::Record(d));
        assert(first.deep_view() =~= head + Seq::new(
            (it.index() + 1) as nat,
            |k: int| OpModel::Record(ds[k]),
        ));
    }
    let ghost middle = first.deep_view();
    let ghost tail = rest.deep_view();
    first.append(&mut rest);
    assert(first.deep_view() =~= middle + tail);
    run.out.ops = first;
    assert(middle =~= head + Seq::new(ds.len(), |k: int| OpModel::Record(ds[k])));
}

impl<'a> Examiner<'a> {
    /// Decides what is to be recorded of what was read, or says what has to be
    /// known first.
    pub fn examine(&self, renewed: bool) -> (r: Result<Examined, Stop>)
        requires
            self.wf(),
        ensures
            match r {
                Ok(out) => examining(self@, self.seen.entries.deep_view(), renewed) == Ok::<
                    ExaminedModel,
                    StopModel,
                >(out@) && out.recheck.wf(),
                Err(stop) => examining(self@, self.seen.entries.deep_view(), renewed) == Err::<
                    ExaminedModel,
                    StopModel,
                >(stop@),
            },
    {
        let seen = self.seen;
        let mut entries: Vec<Entry> = Vec::new();
        let mut consumed: Vec<bool> = Vec::new();
        let mut i: usize = 0;
        while i < seen.entries.len()
            invariant
                i <= seen.entries@.len(),
                entries@.len() == i,
                consumed@.len() == i,
                forall|k: int| 0 <= k < i ==> (#[trigger] entries@[k])@ == seen.entries@[k]@,
                forall|k: int| 0 <= k < i ==> !#[trigger] consumed@[k],
            decreases seen.entries@.len() - i,
        {
            entries.push(seen.entries[i].clone());
            consumed.push(false);
            i += 1;
        }
        assert(entries.deep_view() =~= seen.entries.deep_view());
        let mut unreadable: Vec<crate::path::RelPath> = Vec::new();
        let mut k: usize = 0;
        while k < seen.unreadable.len()
            invariant
                k <= seen.unreadable@.len(),
                unreadable@.len() == k,
                forall|m: int| 0 <= m < k ==> (#[trigger] unreadable@[m])@ == seen.unreadable@[m]@,
            decreases seen.unreadable@.len() - k,
        {
            unreadable.push(seen.unreadable[k].clone());
            k += 1;
        }
        assert(unreadable.deep_view() =~= seen.unreadable.deep_view());
        let mut run = Run {
            entries,
            chosen: StringHashMap::new(),
            decided: StringHashSet::new(),
            deferred: StringHashMap::new(),
            consumed,
            fresh: Vec::new(),
            skipped: Vec::new(),
            detections: Vec::new(),
            out: Examined {
                ops: Vec::new(),
                recheck: Batch::new(),
                restored: Vec::new(),
                restamp: Vec::new(),
                unproven: Vec::new(),
                undecided: Vec::new(),
                held: 0,
                mark_files: Vec::new(),
                stripped: Vec::new(),
                unreadable,
                renewed,
            },
        };
        proof {
            let want = starting(seen.entries.deep_view(), self@.unreadable, renewed);
            assert(run@.out =~= want.out);
            assert(run@ =~= want);
        }
        match self.classify(&mut run) {
            Err(stop) => return Err(stop),
            Ok(_) => {},
        }
        guard(self.world, &mut run);
        record(&mut run);
        Ok(run.out)
    }
}

} // verus!
