//! The state of an examination while it decides: who is who, what was
//! decided, and what is to be recorded.

use vstd::prelude::*;
use vstd::hash_map::StringHashMap;
use vstd::hash_set::StringHashSet;
use vstd::string::*;
use crate::local::batch::{with_name, Batch, BatchModel};
use crate::local::entry::{Entry, EntryModel, StateAttr};
use crate::local::facts::{Facts, Stop, StopModel};
use crate::local::world::{World, WorldModel};
use crate::path::{dir_of, PathModel, RelPath};
use crate::sorted::{inserted, SortedMap};
use crate::tree::{Detection, DetectionModel, OpModel, OutboxOp};

verus! {

/// Adds `x` at the end of `v`.
pub fn push_to<T: DeepView>(v: &mut Vec<T>, x: T)
    ensures
        final(v).deep_view() == old(v).deep_view().push(x.deep_view()),
{
    let ghost before = v.deep_view();
    v.push(x);
    assert(v.deep_view() =~= before.push(x.deep_view()));
}

/// How an item that left its place was decided. Ordered: a folder waits as
/// long as the least settled item inside it.
#[derive(Debug, Clone, Copy, PartialEq, Eq, Structural)]
pub enum Settle {
    /// Its row is written.
    Done,
    /// Held back until it can be placed: examined again (undecided).
    Wait,
    /// Held back until the reconcile places it again: no recorded handle,
    /// so nothing can prove it gone.
    Unproven,
}

/// The less settled of the two.
pub open spec fn less_settled(a: Settle, b: Settle) -> Settle {
    if a == Settle::Unproven || b == Settle::Unproven {
        Settle::Unproven
    } else if a == Settle::Wait || b == Settle::Wait {
        Settle::Wait
    } else {
        Settle::Done
    }
}

impl Settle {
    pub fn less(self, other: Settle) -> (r: Settle)
        ensures
            r == less_settled(self, other),
    {
        match (self, other) {
            (Settle::Unproven, _) | (_, Settle::Unproven) => Settle::Unproven,
            (Settle::Wait, _) | (_, Settle::Wait) => Settle::Wait,
            _ => Settle::Done,
        }
    }
}

/// What an examination did, beyond what it records.
#[derive(Debug)]
pub struct Examined {
    /// What to record, in one transaction and in this order.
    pub ops: Vec<OutboxOp>,
    /// To examine again after [`RECHECK`](crate::local::RECHECK): files open
    /// for writing, being filled or freed, and items that moved somewhere the
    /// batch did not see.
    pub recheck: Batch,
    /// Placeholders that had been cut: their size is the cloud's again.
    pub restored: Vec<RelPath>,
    /// Downloaded files only touched: their stamp is to be written again.
    pub restamp: Vec<RelPath>,
    /// Base items missing with no recorded handle: never deleted in OneDrive;
    /// the reconcile places them again.
    pub unproven: Vec<String>,
    /// Items whose whereabouts could not be asked or placed: examined again
    /// when that can be answered.
    pub undecided: Vec<String>,
    /// Items the mass-delete guard held (0 when it did not trip).
    pub held: u64,
    /// Managed placeholders with more than one link.
    pub mark_files: Vec<RelPath>,
    /// Entries whose konedrive attributes were taken off: copies, files from
    /// elsewhere, editors' backups.
    pub stripped: Vec<RelPath>,
    /// Places this daemon may not read: not examined, so nothing in them
    /// counts as missing.
    pub unreadable: Vec<RelPath>,
    /// The folder's filesystem had changed: its file handles were taken again
    /// (a Full scan), and nothing was decided by the old ones.
    pub renewed: bool,
}

#[verifier::ext_equal]
pub struct ExaminedModel {
    pub ops: Seq<OpModel>,
    pub recheck: BatchModel,
    pub restored: Seq<PathModel>,
    pub restamp: Seq<PathModel>,
    pub unproven: Seq<Seq<char>>,
    pub undecided: Seq<Seq<char>>,
    pub held: u64,
    pub mark_files: Seq<PathModel>,
    pub stripped: Seq<PathModel>,
    pub unreadable: Seq<PathModel>,
    pub renewed: bool,
}

impl View for Examined {
    type V = ExaminedModel;

    open spec fn view(&self) -> ExaminedModel {
        ExaminedModel {
            ops: self.ops.deep_view(),
            recheck: self.recheck@,
            restored: self.restored.deep_view(),
            restamp: self.restamp.deep_view(),
            unproven: self.unproven.deep_view(),
            undecided: self.undecided.deep_view(),
            held: self.held,
            mark_files: self.mark_files.deep_view(),
            stripped: self.stripped.deep_view(),
            unreadable: self.unreadable.deep_view(),
            renewed: self.renewed,
        }
    }
}

/// What was read of the folder.
#[derive(Debug)]
pub struct Surveyed {
    /// Each place once, in the order read.
    pub entries: Vec<Entry>,
    /// Directories read whole.
    pub whole: Vec<RelPath>,
    /// Names read in directories not read whole.
    pub named: SortedMap<RelPath, Vec<Vec<u8>>>,
    /// Places this daemon may not read.
    pub unreadable: Vec<RelPath>,
}

/// All that decisions are made from.
pub struct Examiner<'a> {
    pub world: &'a World,
    pub seen: &'a Surveyed,
    pub batch: &'a Batch,
    pub facts: &'a Facts,
}

#[verifier::ext_equal]
pub struct SceneModel {
    pub w: WorldModel,
    pub whole: Seq<PathModel>,
    pub named: Map<PathModel, Seq<Seq<u8>>>,
    /// The directories of `named`, in their order.
    pub named_dirs: Seq<PathModel>,
    pub unreadable: Seq<PathModel>,
    pub batch: BatchModel,
    pub f: Facts,
}

impl<'a> View for Examiner<'a> {
    type V = SceneModel;

    open spec fn view(&self) -> SceneModel {
        SceneModel {
            w: self.world@,
            whole: self.seen.whole.deep_view(),
            named: self.seen.named@,
            named_dirs: self.seen.named.keys(),
            unreadable: self.seen.unreadable.deep_view(),
            batch: self.batch@,
            f: *self.facts,
        }
    }
}

impl<'a> Examiner<'a> {
    pub open spec fn wf(&self) -> bool {
        &&& self.seen.named.wf()
        &&& self.batch.wf()
        &&& self.world.now <= i64::MAX - crate::local::RECHECK
    }
}

pub struct Run {
    pub entries: Vec<Entry>,
    /// Item id → the entry that is the item.
    pub chosen: StringHashMap<usize>,
    /// Items this batch decided without choosing an entry: removed, or left
    /// for later (undecided, rechecked).
    pub decided: StringHashSet,
    /// The decided items that got no row, and why: a folder they are in must
    /// not be removed before them.
    pub deferred: StringHashMap<Settle>,
    /// Entries taken by an item: its own, its links, a save-by-rename's new
    /// file.
    pub consumed: Vec<bool>,
    /// Entries stripped of an id they had no right to: new objects now.
    pub fresh: Vec<usize>,
    /// What is not uploaded, and why.
    pub skipped: Vec<(RelPath, String)>,
    pub detections: Vec<Detection>,
    pub out: Examined,
}

#[verifier::ext_equal]
pub struct RunModel {
    pub entries: Seq<EntryModel>,
    pub chosen: Map<Seq<char>, usize>,
    pub decided: Set<Seq<char>>,
    pub deferred: Map<Seq<char>, Settle>,
    pub consumed: Seq<bool>,
    pub fresh: Seq<usize>,
    pub skipped: Seq<(PathModel, Seq<char>)>,
    pub detections: Seq<DetectionModel>,
    pub out: ExaminedModel,
}

/// What a skip says.
pub open spec fn skips_model(s: Seq<(RelPath, String)>) -> Seq<(PathModel, Seq<char>)> {
    Seq::new(s.len(), |i: int| (s[i].0@, s[i].1@))
}

impl View for Run {
    type V = RunModel;

    open spec fn view(&self) -> RunModel {
        RunModel {
            entries: self.entries.deep_view(),
            chosen: self.chosen@,
            decided: self.decided@,
            deferred: self.deferred@,
            consumed: self.consumed@,
            fresh: self.fresh@,
            skipped: skips_model(self.skipped@),
            detections: self.detections.deep_view(),
            out: self.out@,
        }
    }
}

/// How a decision that changes the state went.
pub open spec fn went(r: Result<(), Stop>, run: RunModel) -> Result<RunModel, StopModel> {
    match r {
        Ok(_) => Ok(run),
        Err(stop) => Err(stop@),
    }
}

/// How a decision that changes the state and gives a value went.
pub open spec fn gave<T>(r: Result<T, Stop>, run: RunModel) -> Result<(RunModel, T), StopModel> {
    match r {
        Ok(t) => Ok((run, t)),
        Err(stop) => Err(stop@),
    }
}

/// The number of the entry at `rel`, from `i` on.
pub open spec fn index_from(entries: Seq<EntryModel>, rel: PathModel, i: int) -> Option<usize>
    decreases entries.len() - i,
{
    if i >= entries.len() {
        None
    } else if entries[i].rel == rel {
        Some(i as usize)
    } else {
        index_from(entries, rel, i + 1)
    }
}

/// The number of the entry at `rel`.
pub open spec fn index_at(entries: Seq<EntryModel>, rel: PathModel) -> Option<usize> {
    index_from(entries, rel, 0)
}

/// The number of the entry at `rel`.
pub fn entry_at(entries: &Vec<Entry>, rel: &RelPath) -> (r: Option<usize>)
    ensures
        r == index_at(entries.deep_view(), rel@),
        r matches Some(i) ==> i < entries@.len() && entries@[i as int]@.rel == rel@,
{
    let mut i: usize = 0;
    while i < entries.len()
        invariant
            i <= entries@.len(),
            index_at(entries.deep_view(), rel@) == index_from(entries.deep_view(), rel@, i as int),
        decreases entries@.len() - i,
    {
        assert(entries.deep_view()[i as int] == entries@[i as int]@);
        if entries[i].rel.same(rel) {
            return Some(i);
        }
        i += 1;
    }
    None
}

/// Where `rel` stands in the list of skips, from `i` on.
pub open spec fn skip_from(s: Seq<(PathModel, Seq<char>)>, rel: PathModel, i: int) -> int
    decreases s.len() - i,
{
    if i >= s.len() || s[i].0 == rel {
        i
    } else {
        skip_from(s, rel, i + 1)
    }
}

/// The skips with `rel` skipped for `reason`.
pub open spec fn with_skip(
    s: Seq<(PathModel, Seq<char>)>,
    rel: PathModel,
    reason: Seq<char>,
) -> Seq<(PathModel, Seq<char>)> {
    let i = skip_from(s, rel, 0);
    if i < s.len() {
        s.update(i, (rel, reason))
    } else {
        s.push((rel, reason))
    }
}

/// `rel` is not uploaded, for `reason`.
pub open spec fn skipping(run: RunModel, rel: PathModel, reason: Seq<char>) -> RunModel {
    RunModel { skipped: with_skip(run.skipped, rel, reason), ..run }
}

/// `rel` is examined again later.
pub open spec fn rechecking_at(run: RunModel, rel: PathModel) -> RunModel {
    if rel.len() == 0 {
        run
    } else {
        RunModel {
            out: ExaminedModel {
                recheck: with_name(run.out.recheck, rel.drop_last(), rel.last()),
                ..run.out
            },
            ..run
        }
    }
}

/// Entry `e` is examined again later.
pub open spec fn rechecking(run: RunModel, e: EntryModel) -> RunModel {
    RunModel {
        out: ExaminedModel {
            recheck: with_name(run.out.recheck, dir_of(e.rel), e.name),
            ..run.out
        },
        ..run
    }
}

/// Everything beneath `rel` is examined again later.
pub open spec fn rechecking_tree(run: RunModel, rel: PathModel) -> RunModel {
    RunModel {
        out: ExaminedModel {
            recheck: BatchModel {
                trees: inserted::<RelPath>(run.out.recheck.trees, rel),
                ..run.out.recheck
            },
            ..run.out
        },
        ..run
    }
}

/// Item `id` is decided without a row: remembered for a folder it is in, and,
/// when `report`, listed as undecided or unproven.
pub open spec fn holding_back(run: RunModel, id: Seq<char>, settle: Settle, report: bool) -> RunModel {
    RunModel {
        decided: run.decided.insert(id),
        deferred: run.deferred.insert(id, settle),
        out: if report && settle == Settle::Wait {
            ExaminedModel { undecided: run.out.undecided.push(id), ..run.out }
        } else if report && settle == Settle::Unproven {
            ExaminedModel { unproven: run.out.unproven.push(id), ..run.out }
        } else {
            run.out
        },
        ..run
    }
}

/// `op` is recorded.
pub open spec fn with_op(run: RunModel, op: OpModel) -> RunModel {
    RunModel { out: ExaminedModel { ops: run.out.ops.push(op), ..run.out }, ..run }
}

/// `d` is recorded.
pub open spec fn with_detection(run: RunModel, d: DetectionModel) -> RunModel {
    RunModel { detections: run.detections.push(d), ..run }
}

/// Entry `i` is taken.
pub open spec fn consuming(run: RunModel, i: usize) -> RunModel {
    RunModel { consumed: run.consumed.update(i as int, true), ..run }
}

/// Entry `i` is item `id`.
pub open spec fn choosing(run: RunModel, id: Seq<char>, i: usize) -> RunModel {
    RunModel { chosen: run.chosen.insert(id, i), ..run }
}

/// Entry `i` is the user's own now, with no id.
pub open spec fn freed(run: RunModel, i: usize) -> RunModel {
    let e = run.entries[i as int];
    RunModel {
        entries: run.entries.update(
            i as int,
            EntryModel { id: None, state: StateAttr::Absent, ..e },
        ),
        fresh: run.fresh.push(i),
        out: ExaminedModel { stripped: run.out.stripped.push(e.rel), ..run.out },
        ..run
    }
}

/// How an item decided without a row was settled; one with a row is done.
pub open spec fn settled_as(run: RunModel, id: Seq<char>) -> Settle {
    if run.deferred.contains_key(id) {
        run.deferred[id]
    } else {
        Settle::Done
    }
}

/// The item was chosen an entry, or decided without one.
pub open spec fn is_settled(run: RunModel, id: Seq<char>) -> bool {
    run.chosen.contains_key(id) || run.decided.contains(id)
}

impl Run {
    pub open spec fn wf(&self) -> bool {
        &&& self.consumed@.len() == self.entries@.len()
        &&& self.out.recheck.wf()
        &&& forall|i: int| 0 <= i < self.fresh@.len() ==> #[trigger] self.fresh@[i] < self.entries@.len()
    }

    pub fn skip(&mut self, rel: &RelPath, reason: &str)
        requires
            old(self).wf(),
        ensures
            final(self).wf(),
            final(self).entries == old(self).entries,
            final(self)@ == skipping(old(self)@, rel@, reason@),
    {
        let ghost before = self@.skipped;
        let mut i: usize = 0;
        while i < self.skipped.len() && !self.skipped[i].0.same(rel)
            invariant
                *self == *old(self),
                before == self@.skipped,
                i <= self.skipped@.len(),
                skip_from(before, rel@, 0) == skip_from(before, rel@, i as int),
            decreases self.skipped@.len() - i,
        {
            i += 1;
        }
        let one = (rel.clone(), reason.to_owned());
        if i < self.skipped.len() {
            self.skipped.set(i, one);
        } else {
            self.skipped.push(one);
        }
        assert(self@.skipped =~= with_skip(before, rel@, reason@));
    }

    /// Whether `rel` is listed as not uploaded.
    pub fn skips(&self, rel: &RelPath) -> (r: bool)
        ensures
            r == (skip_from(self@.skipped, rel@, 0) < self@.skipped.len()),
    {
        let ghost s = self@.skipped;
        let mut i: usize = 0;
        while i < self.skipped.len() && !self.skipped[i].0.same(rel)
            invariant
                s == self@.skipped,
                i <= self.skipped@.len(),
                skip_from(s, rel@, 0) == skip_from(s, rel@, i as int),
            decreases self.skipped@.len() - i,
        {
            i += 1;
        }
        i < self.skipped.len()
    }

    pub fn recheck_at(&mut self, rel: &RelPath)
        requires
            old(self).wf(),
        ensures
            final(self).wf(),
            final(self).entries@.len() == old(self).entries@.len(),
            final(self)@ == rechecking_at(old(self)@, rel@),
    {
        if let Some(parent) = rel.parent() {
            if let Some(name) = rel.file_name() {
                self.out.recheck.name(&parent, name);
            }
        }
    }

    /// Entry `i` is examined again later.
    pub fn recheck(&mut self, i: usize)
        requires
            old(self).wf(),
            i < old(self).entries@.len(),
        ensures
            final(self).wf(),
            final(self).entries@.len() == old(self).entries@.len(),
            final(self)@ == rechecking(old(self)@, old(self)@.entries[i as int]),
    {
        let dir = self.entries[i].dir_rel();
        let name = crate::path::copy_bytes(&self.entries[i].name);
        assert(self@.entries[i as int] == self.entries@[i as int]@);
        self.out.recheck.name(&dir, &name);
    }

    pub fn hold_back(&mut self, id: &str, settle: Settle, report: bool)
        requires
            old(self).wf(),
        ensures
            final(self).wf(),
            final(self).entries@.len() == old(self).entries@.len(),
            final(self)@ == holding_back(old(self)@, id@, settle, report),
    {
        self.decided.insert(id.to_owned());
        self.deferred.insert(id.to_owned(), settle);
        match (settle, report) {
            (Settle::Wait, true) => push_to(&mut self.out.undecided, id.to_owned()),
            (Settle::Unproven, true) => push_to(&mut self.out.unproven, id.to_owned()),
            _ => {},
        }
    }

    pub fn op(&mut self, op: OutboxOp)
        requires
            old(self).wf(),
        ensures
            final(self).wf(),
            final(self).entries@.len() == old(self).entries@.len(),
            final(self)@ == with_op(old(self)@, op@),
    {
        push_to(&mut self.out.ops, op);
    }

    pub fn detect(&mut self, d: Detection)
        requires
            old(self).wf(),
        ensures
            final(self).wf(),
            final(self).entries@.len() == old(self).entries@.len(),
            final(self)@ == with_detection(old(self)@, d@),
    {
        push_to(&mut self.detections, d);
    }

    pub fn consume(&mut self, i: usize)
        requires
            old(self).wf(),
            i < old(self).entries@.len(),
        ensures
            final(self).wf(),
            final(self).entries@.len() == old(self).entries@.len(),
            final(self)@ == consuming(old(self)@, i),
    {
        self.consumed.set(i, true);
    }

    pub fn choose_entry(&mut self, id: &str, i: usize)
        requires
            old(self).wf(),
        ensures
            final(self).wf(),
            final(self).entries@.len() == old(self).entries@.len(),
            final(self)@ == choosing(old(self)@, id@, i),
    {
        self.chosen.insert(id.to_owned(), i);
    }

    /// Entry `i` is the user's own now, with no id.
    pub fn free(&mut self, i: usize)
        requires
            old(self).wf(),
            i < old(self).entries@.len(),
        ensures
            final(self).wf(),
            final(self).entries@.len() == old(self).entries@.len(),
            final(self)@ == freed(old(self)@, i),
    {
        let ghost before = self@;
        assert(before.entries[i as int] == self.entries@[i as int]@);
        let mut e = self.entries[i].clone();
        push_to(&mut self.out.stripped, e.rel.clone());
        e.id = None;
        e.state = StateAttr::Absent;
        self.entries.set(i, e);
        self.fresh.push(i);
        assert(self@.entries =~= freed(before, i).entries);
    }

    pub fn settled(&self, id: &str) -> (r: Settle)
        ensures
            r == settled_as(self@, id@),
    {
        match self.deferred.get(id) {
            Some(settle) => *settle,
            None => Settle::Done,
        }
    }

    pub fn is_settled(&self, id: &str) -> (r: bool)
        ensures
            r == is_settled(self@, id@),
    {
        self.chosen.contains_key(id) || self.decided.contains(id)
    }
}

} // verus!
