//! The examination: from what was read of a batch of dirty places to what is
//! recorded in the outbox.
//!
//! Items are identified by their item id, never by path: a rename is a move of
//! an id, and a safe save is a new inode that takes over an id. It decides, in
//! this order:
//!
//! 1. the daemon's own names are passed over; a user's `.konedrive-*` is
//!    listed, never uploaded;
//! 2. a symlink, FIFO, socket or device is listed (unless its name is
//!    ignored), and so is what is on another device;
//! 3. who is who among the entries with an item id, before anything is decided
//!    by place: a directory's id says what its entries' parent is;
//! 4. where each item is, and its content;
//! 5. what is missing from where it was;
//! 6. what has no id, or no longer has one.
//!
//! A row the worker is sending is never taken from under it: what changed
//! since waits behind it. Everything found is recorded in one transaction.

use vstd::prelude::*;
use vstd::string::*;
use vstd::utf8::encode_utf8;
use crate::local::batch::no_batch;
use crate::local::content::finding;
use crate::local::entry::{Entry, EntryModel};
use crate::local::facts::{Stop, StopModel};
use crate::local::ignore::ignored;
use crate::local::missing::missing_from;
use crate::local::resolve::{in_range, resolving};
use crate::local::run::{
    skip_from, skipping, skips_model, went, with_op, ExaminedModel, Run, RunModel, Examiner,
    SceneModel,
};
use crate::local::unnamed::meeting_new;
use crate::local::world::item_of;
use crate::os::type_reason;
use crate::path::{begins_bytes, dir_of, has_prefix, same_bytes, PathModel, RelPath};
use crate::sorted::{contains, insert, inserted};
use crate::tree::{OpModel, OutboxOp};

verus! {

/// A name the daemon keeps for itself.
pub open spec fn daemon_owned(name: Seq<u8>) -> bool {
    name == encode_utf8(".konedrive-holding"@) || begins_bytes(
        name,
        encode_utf8(".konedrive-new-"@),
    )
}

/// Whether `name` is one the daemon keeps for itself.
pub fn is_daemon_owned(name: &[u8]) -> (r: bool)
    ensures
        r == daemon_owned(name@),
{
    same_bytes(name, ".konedrive-holding".as_bytes()) || has_prefix(
        name,
        ".konedrive-new-".as_bytes(),
    )
}

/// What an entry is, before who is who.
pub enum Class {
    /// Passed over.
    Passed,
    /// Not uploaded, for a reason.
    Listed(Seq<char>),
    /// It carries an item's id.
    Item(Seq<char>),
    /// It carries none.
    New,
}

/// What an entry is: the daemon's own, what is never a OneDrive object, an
/// item's or the user's.
pub open spec fn class_of(sc: SceneModel, e: EntryModel) -> Class {
    if daemon_owned(e.name) {
        Class::Passed
    } else if begins_bytes(e.name, encode_utf8(".konedrive-"@)) {
        Class::Listed("reserved-name"@)
    } else if type_reason(e.ty) is Some {
        if ignored(sc.w.ignore, e.name) {
            Class::Passed
        } else {
            Class::Listed(type_reason(e.ty)->0)
        }
    } else if e.dev != sc.w.root_dev {
        Class::Listed("other-device"@)
    } else {
        match e.id {
            Some(id) => Class::Item(id),
            None => Class::New,
        }
    }
}

/// What is not uploaded of the entries from `i` on is listed.
pub open spec fn listing_all(sc: SceneModel, run: RunModel, i: int) -> RunModel
    decreases run.entries.len() - i,
{
    if i >= run.entries.len() {
        run
    } else {
        match class_of(sc, run.entries[i]) {
            Class::Listed(reason) => listing_all(
                sc,
                skipping(run, run.entries[i].rel, reason),
                i + 1,
            ),
            _ => listing_all(sc, run, i + 1),
        }
    }
}

/// The item ids the entries from `i` on carry, in their order, with `ids`.
pub open spec fn ids_carried(sc: SceneModel, entries: Seq<EntryModel>, i: int, ids: Seq<Seq<char>>) -> Seq<
    Seq<char>,
>
    decreases entries.len() - i,
{
    if i >= entries.len() {
        ids
    } else {
        match class_of(sc, entries[i]) {
            Class::Item(id) => ids_carried(sc, entries, i + 1, inserted::<String>(ids, id)),
            _ => ids_carried(sc, entries, i + 1, ids),
        }
    }
}

/// The entries from `i` on that carry `id`, after `found`.
pub open spec fn carriers(
    sc: SceneModel,
    entries: Seq<EntryModel>,
    id: Seq<char>,
    i: int,
    found: Seq<usize>,
) -> Seq<usize>
    decreases entries.len() - i,
{
    if i >= entries.len() {
        found
    } else if class_of(sc, entries[i]) == Class::Item(id) {
        carriers(sc, entries, id, i + 1, found.push(i as usize))
    } else {
        carriers(sc, entries, id, i + 1, found)
    }
}

/// The entries from `i` on that carry no id, after `found`.
pub open spec fn without_id(sc: SceneModel, entries: Seq<EntryModel>, i: int, found: Seq<usize>) -> Seq<usize>
    decreases entries.len() - i,
{
    if i >= entries.len() {
        found
    } else if class_of(sc, entries[i]) == Class::New {
        without_id(sc, entries, i + 1, found.push(i as usize))
    } else {
        without_id(sc, entries, i + 1, found)
    }
}

/// Who is who, for the ids from `k` on: the items found, after `found`.
pub open spec fn resolving_all(
    sc: SceneModel,
    run: RunModel,
    entries: Seq<EntryModel>,
    ids: Seq<Seq<char>>,
    k: int,
    found: Seq<(Seq<char>, usize)>,
) -> Result<(RunModel, Seq<(Seq<char>, usize)>), StopModel>
    decreases ids.len() - k,
{
    if k >= ids.len() {
        Ok((run, found))
    } else {
        match resolving(sc, run, ids[k], carriers(sc, entries, ids[k], 0, Seq::empty())) {
            Err(stop) => Err(stop),
            Ok((next, Some(i))) => resolving_all(
                sc,
                next,
                entries,
                ids,
                k + 1,
                found.push((ids[k], i)),
            ),
            Ok((next, None)) => resolving_all(sc, next, entries, ids, k + 1, found),
        }
    }
}

/// Where something `depth` deep goes among things as deep as `depths`, from
/// `p` on: after all as deep.
pub open spec fn depth_slot(depths: Seq<nat>, depth: nat, p: int) -> int
    decreases depths.len() - p,
{
    if p >= depths.len() {
        depths.len() as int
    } else if depth < depths[p] {
        p
    } else {
        depth_slot(depths, depth, p + 1)
    }
}

/// How deep entry `i` is.
pub open spec fn depth_of(entries: Seq<EntryModel>, i: usize) -> nat {
    entries[i as int].rel.len()
}

/// The first `n` of `s`, shallowest first, in their order.
pub open spec fn found_by_depth(entries: Seq<EntryModel>, s: Seq<(Seq<char>, usize)>, n: int) -> Seq<
    (Seq<char>, usize),
>
    decreases n,
{
    if n <= 0 {
        Seq::empty()
    } else {
        let rest = found_by_depth(entries, s, n - 1);
        let depths = Seq::new(rest.len(), |p: int| depth_of(entries, rest[p].1));
        rest.insert(depth_slot(depths, depth_of(entries, s[n - 1].1), 0), s[n - 1])
    }
}

/// The first `n` of `s`, shallowest first, in their order.
pub open spec fn by_depth(entries: Seq<EntryModel>, s: Seq<usize>, n: int) -> Seq<usize>
    decreases n,
{
    if n <= 0 {
        Seq::empty()
    } else {
        let rest = by_depth(entries, s, n - 1);
        let depths = Seq::new(rest.len(), |p: int| depth_of(entries, rest[p]));
        rest.insert(depth_slot(depths, depth_of(entries, s[n - 1]), 0), s[n - 1])
    }
}

/// The items of `found` from `k` on: where each is, and its content.
pub open spec fn finding_all(sc: SceneModel, run: RunModel, found: Seq<(Seq<char>, usize)>, k: int) -> Result<
    RunModel,
    StopModel,
>
    decreases found.len() - k,
{
    if k >= found.len() {
        Ok(run)
    } else {
        match item_of(sc.w, found[k].0) {
            None => finding_all(sc, run, found, k + 1),
            Some(item) => match finding(sc, run, found[k].0, item.row, found[k].1) {
                Err(stop) => Err(stop),
                Ok(next) => finding_all(sc, next, found, k + 1),
            },
        }
    }
}

/// The entries of `list` from `k` on that no item took are met as new.
pub open spec fn meeting_all_new(sc: SceneModel, run: RunModel, list: Seq<usize>, k: int) -> Result<
    RunModel,
    StopModel,
>
    decreases list.len() - k,
{
    if k >= list.len() {
        Ok(run)
    } else if run.consumed[list[k] as int] {
        meeting_all_new(sc, run, list, k + 1)
    } else {
        match meeting_new(sc, run, list[k]) {
            Err(stop) => Err(stop),
            Ok(next) => meeting_all_new(sc, next, list, k + 1),
        }
    }
}

/// `rel`, listed as not uploaded before, was examined.
pub open spec fn skip_examined(sc: SceneModel, rel: PathModel) -> bool {
    !sc.unreadable.contains(rel) && (sc.batch.full || sc.whole.contains(dir_of(rel))
        || (sc.named.contains_key(dir_of(rel)) && rel.len() > 0 && sc.named[dir_of(rel)].contains(
        rel.last(),
    )))
}

/// What was listed before, from `k` on, was examined and no longer qualifies,
/// is listed no more.
pub open spec fn unlisting(sc: SceneModel, run: RunModel, k: int) -> RunModel
    decreases sc.w.skipped.len() - k,
{
    if k >= sc.w.skipped.len() {
        run
    } else {
        let rel = sc.w.skipped[k];
        if skip_examined(sc, rel) && skip_from(run.skipped, rel, 0) >= run.skipped.len() {
            unlisting(sc, with_op(run, OpModel::Unskip(rel)), k + 1)
        } else {
            unlisting(sc, run, k + 1)
        }
    }
}

/// What is not uploaded, from `k` on, is recorded.
pub open spec fn recording_skips(run: RunModel, skips: Seq<(PathModel, Seq<char>)>, k: int) -> RunModel
    decreases skips.len() - k,
{
    if k >= skips.len() {
        run
    } else {
        recording_skips(
            with_op(run, OpModel::Skip { rel: skips[k].0, reason: skips[k].1 }),
            skips,
            k + 1,
        )
    }
}

/// What is listed is what is there now.
pub open spec fn tidying(sc: SceneModel, run: RunModel) -> RunModel {
    let unlisted = unlisting(sc, run, 0);
    recording_skips(
        RunModel { skipped: Seq::empty(), ..unlisted },
        unlisted.skipped,
        0,
    )
}

/// Everything is decided.
pub open spec fn classifying(sc: SceneModel, run: RunModel) -> Result<RunModel, StopModel> {
    let listed = listing_all(sc, run, 0);
    let ids = ids_carried(sc, run.entries, 0, Seq::empty());
    match resolving_all(sc, listed, run.entries, ids, 0, Seq::empty()) {
        Err(stop) => Err(stop),
        Ok((known, found)) => match finding_all(
            sc,
            known,
            found_by_depth(known.entries, found, found.len() as int),
            0,
        ) {
            Err(stop) => Err(stop),
            Ok(placed) => match missing_from(sc, placed, 0) {
                Err(stop) => Err(stop),
                Ok(missed) => {
                    let new = without_id(sc, run.entries, 0, Seq::empty()) + missed.fresh;
                    let list = by_depth(missed.entries, new, new.len() as int);
                    match meeting_all_new(
                        sc,
                        RunModel { fresh: Seq::empty(), ..missed },
                        list,
                        0,
                    ) {
                        Err(stop) => Err(stop),
                        Ok(met) => Ok(tidying(sc, met)),
                    }
                },
            },
        },
    }
}

/// The run before anything is decided.
pub open spec fn starting(entries: Seq<EntryModel>, unreadable: Seq<PathModel>, renewed: bool) -> RunModel {
    RunModel {
        entries,
        chosen: Map::empty(),
        decided: Set::empty(),
        deferred: Map::empty(),
        consumed: Seq::new(entries.len(), |i: int| false),
        fresh: Seq::empty(),
        skipped: Seq::empty(),
        detections: Seq::empty(),
        out: ExaminedModel {
            ops: Seq::empty(),
            recheck: no_batch(),
            restored: Seq::empty(),
            restamp: Seq::empty(),
            unproven: Seq::empty(),
            undecided: Seq::empty(),
            held: 0,
            mark_files: Seq::empty(),
            stripped: Seq::empty(),
            unreadable,
            renewed,
        },
    }
}

/// The class of an entry, as code reads it.
enum Kinds {
    Passed,
    Listed(&'static str),
    Item(String),
    New,
}

spec fn class_model(k: Kinds) -> Class {
    match k {
        Kinds::Passed => Class::Passed,
        Kinds::Listed(reason) => Class::Listed(reason@),
        Kinds::Item(id) => Class::Item(id@),
        Kinds::New => Class::New,
    }
}

fn slot(depths: &Vec<usize>, depth: usize) -> (r: usize)
    ensures
        r == depth_slot(Seq::new(depths@.len(), |p: int| depths@[p] as nat), depth as nat, 0),
        r <= depths@.len(),
{
    let ghost ds = Seq::new(depths@.len(), |p: int| depths@[p] as nat);
    let mut p: usize = 0;
    while p < depths.len() && depth >= depths[p]
        invariant
            p <= depths@.len(),
            ds == Seq::new(depths@.len(), |q: int| depths@[q] as nat),
            depth_slot(ds, depth as nat, 0) == depth_slot(ds, depth as nat, p as int),
        decreases depths@.len() - p,
    {
        p += 1;
    }
    p
}

fn sort_by_depth(entries: &Vec<Entry>, list: &Vec<usize>) -> (r: Vec<usize>)
    requires
        in_range(list@, entries@.len()),
    ensures
        r@ == by_depth(entries.deep_view(), list@, list@.len() as int),
        in_range(r@, entries@.len()),
{
    let ghost es = entries.deep_view();
    let mut out: Vec<usize> = Vec::new();
    let mut depths: Vec<usize> = Vec::new();
    let mut n: usize = 0;
    while n < list.len()
        invariant
            n <= list@.len(),
            es == entries.deep_view(),
            in_range(list@, entries@.len()),
            in_range(out@, entries@.len()),
            out@ == by_depth(es, list@, n as int),
            depths@.len() == out@.len(),
            forall|q: int| 0 <= q < out@.len() ==> #[trigger] depths@[q] == depth_of(es, out@[q]),
        decreases list@.len() - n,
    {
        let x = list[n];
        let depth = entries[x].rel.depth();
        assert(es[x as int] == entries@[x as int]@);
        let p = slot(&depths, depth);
        let ghost before = out@;
        let ghost ds = Seq::new(before.len(), |q: int| depth_of(es, before[q]));
        proof {
            assert(ds =~= Seq::new(depths@.len(), |q: int| depths@[q] as nat));
        }
        out.insert(p, x);
        depths.insert(p, depth);
        proof {
            assert forall|m: int| 0 <= m < out@.len() implies #[trigger] out@[m] < entries@.len() by {
                if m < p {
                    assert(out@[m] == before[m]);
                } else if m > p {
                    assert(out@[m] == before[m - 1]);
                }
            }
        }
        n += 1;
    }
    out
}

/// The items found, as pairs.
spec fn pairs(ids: Seq<String>, at: Seq<usize>) -> Seq<(Seq<char>, usize)> {
    Seq::new(ids.len(), |k: int| (ids[k]@, at[k]))
}

/// The positions in `at`, shallowest entry first, in their order.
fn sort_found(entries: &Vec<Entry>, ids: Vec<String>, at: Vec<usize>) -> (r: (Vec<String>, Vec<usize>))
    requires
        ids@.len() == at@.len(),
        in_range(at@, entries@.len()),
    ensures
        r.0@.len() == r.1@.len(),
        in_range(r.1@, entries@.len()),
        pairs(r.0@, r.1@) == found_by_depth(
            entries.deep_view(),
            pairs(ids@, at@),
            ids@.len() as int,
        ),
{
    let ghost es = entries.deep_view();
    let ghost given = pairs(ids@, at@);
    let mut names: Vec<String> = Vec::new();
    let mut out: Vec<usize> = Vec::new();
    let mut depths: Vec<usize> = Vec::new();
    let mut n: usize = 0;
    assert(pairs(names@, out@) =~= Seq::<(Seq<char>, usize)>::empty());
    while n < at.len()
        invariant
            n <= at@.len(),
            es == entries.deep_view(),
            ids@.len() == at@.len(),
            given == pairs(ids@, at@),
            in_range(at@, entries@.len()),
            in_range(out@, entries@.len()),
            names@.len() == out@.len(),
            pairs(names@, out@) == found_by_depth(es, given, n as int),
            depths@.len() == out@.len(),
            forall|q: int| 0 <= q < out@.len() ==> #[trigger] depths@[q] == depth_of(es, out@[q]),
        decreases at@.len() - n,
    {
        let x = at[n];
        let depth = entries[x].rel.depth();
        assert(es[x as int] == entries@[x as int]@);
        let p = slot(&depths, depth);
        let ghost before = pairs(names@, out@);
        let ghost before_out = out@;
        proof {
            let ds = Seq::new(before.len(), |q: int| depth_of(es, before[q].1));
            assert(ds =~= Seq::new(depths@.len(), |q: int| depths@[q] as nat));
        }
        names.insert(p, ids[n].clone());
        out.insert(p, x);
        depths.insert(p, depth);
        proof {
            assert(pairs(names@, out@) =~= before.insert(p as int, given[n as int]));
            assert forall|m: int| 0 <= m < out@.len() implies #[trigger] out@[m] < entries@.len() by {
                if m < p {
                    assert(out@[m] == before_out[m]);
                } else if m > p {
                    assert(out@[m] == before_out[m - 1]);
                }
            }
        }
        n += 1;
    }
    (names, out)
}

impl<'a> Examiner<'a> {
    fn class(&self, e: &Entry) -> (r: Kinds)
        ensures
            class_model(r) == class_of(self@, e@),
    {
        if is_daemon_owned(&e.name) {
            return Kinds::Passed;
        }
        if has_prefix(&e.name, ".konedrive-".as_bytes()) {
            return Kinds::Listed("reserved-name");
        }
        // Never a OneDrive object — unless its name is ignored anyway
        // (Emacs's `.#name` lock is a symlink).
        if let Some(reason) = e.ty.skip_reason() {
            if self.world.ignore.matches(&e.name) {
                return Kinds::Passed;
            }
            return Kinds::Listed(reason);
        }
        if e.dev != self.world.root_dev {
            return Kinds::Listed("other-device");
        }
        match &e.id {
            Some(id) => Kinds::Item(id.clone()),
            None => Kinds::New,
        }
    }

    /// Lists what is not uploaded, and gathers the ids carried and the entries
    /// that carry none.
    fn sort_out(&self, run: &mut Run) -> (r: (Vec<String>, Vec<usize>))
        requires
            old(run).wf(),
        ensures
            final(run).wf(),
            final(run).entries == old(run).entries,
            final(run)@ == listing_all(self@, old(run)@, 0),
            r.0.deep_view() == ids_carried(self@, old(run)@.entries, 0, Seq::empty()),
            r.1@ == without_id(self@, old(run)@.entries, 0, Seq::empty()),
            in_range(r.1@, old(run).entries@.len()),
    {
        let ghost first = run@;
        let ghost es = run@.entries;
        let mut ids: Vec<String> = Vec::new();
        let mut new: Vec<usize> = Vec::new();
        assert(ids.deep_view() =~= Seq::<Seq<char>>::empty());
        let mut i: usize = 0;
        while i < run.entries.len()
            invariant
                i <= run.entries@.len(),
                run.wf(),
                run.entries == old(run).entries,
                first == old(run)@,
                es == run@.entries,
                es == first.entries,
                in_range(new@, run.entries@.len()),
                listing_all(self@, first, 0) == listing_all(self@, run@, i as int),
                ids_carried(self@, es, 0, Seq::empty()) == ids_carried(
                    self@,
                    es,
                    i as int,
                    ids.deep_view(),
                ),
                without_id(self@, es, 0, Seq::empty()) == without_id(self@, es, i as int, new@),
            decreases run.entries@.len() - i,
        {
            assert(es[i as int] == run.entries@[i as int]@);
            match self.class(&run.entries[i]) {
                Kinds::Passed => {},
                Kinds::Listed(reason) => {
                    let rel = run.entries[i].rel.clone();
                    run.skip(&rel, reason);
                },
                Kinds::Item(id) => insert(&mut ids, id),
                Kinds::New => new.push(i),
            }
            i += 1;
        }
        (ids, new)
    }

    fn carriers(&self, entries: &Vec<Entry>, id: &String) -> (r: Vec<usize>)
        ensures
            r@ == carriers(self@, entries.deep_view(), id@, 0, Seq::empty()),
            in_range(r@, entries@.len()),
    {
        let ghost es = entries.deep_view();
        let mut found: Vec<usize> = Vec::new();
        let mut i: usize = 0;
        while i < entries.len()
            invariant
                i <= entries@.len(),
                es == entries.deep_view(),
                in_range(found@, entries@.len()),
                carriers(self@, es, id@, 0, Seq::empty()) == carriers(
                    self@,
                    es,
                    id@,
                    i as int,
                    found@,
                ),
            decreases entries@.len() - i,
        {
            assert(es[i as int] == entries@[i as int]@);
            match self.class(&entries[i]) {
                Kinds::Item(own) => {
                    if crate::text::same_text(own.as_str(), id.as_str()) {
                        found.push(i);
                    }
                },
                _ => {},
            }
            i += 1;
        }
        found
    }

    /// Who is who.
    fn resolve_all(&self, run: &mut Run, ids: &Vec<String>) -> (r: Result<(Vec<String>, Vec<usize>), Stop>)
        requires
            self.wf(),
            old(run).wf(),
        ensures
            final(run).wf(),
            final(run).entries@.len() == old(run).entries@.len(),
            match r {
                Ok((names, at)) => resolving_all(
                    self@,
                    old(run)@,
                    old(run)@.entries,
                    ids.deep_view(),
                    0,
                    Seq::empty(),
                ) == Ok::<(RunModel, Seq<(Seq<char>, usize)>), StopModel>(
                    (final(run)@, pairs(names@, at@)),
                ) && names@.len() == at@.len() && in_range(at@, final(run).entries@.len()),
                Err(stop) => resolving_all(
                    self@,
                    old(run)@,
                    old(run)@.entries,
                    ids.deep_view(),
                    0,
                    Seq::empty(),
                ) == Err::<(RunModel, Seq<(Seq<char>, usize)>), StopModel>(stop@),
            },
    {
        let ghost first = run@;
        let ghost es = run@.entries;
        let ghost is = ids.deep_view();
        let mut lists: Vec<Vec<usize>> = Vec::new();
        let mut k: usize = 0;
        while k < ids.len()
            invariant
                k <= ids@.len(),
                *run == *old(run),
                es == run@.entries,
                is == ids.deep_view(),
                lists@.len() == k,
                forall|m: int|
                    0 <= m < k ==> (#[trigger] lists@[m])@ == carriers(self@, es, is[m], 0, Seq::empty())
                        && in_range(lists@[m]@, run.entries@.len()),
            decreases ids@.len() - k,
        {
            assert(is[k as int] == ids@[k as int]@);
            lists.push(self.carriers(&run.entries, &ids[k]));
            k += 1;
        }
        let mut names: Vec<String> = Vec::new();
        let mut at: Vec<usize> = Vec::new();
        assert(pairs(names@, at@) =~= Seq::<(Seq<char>, usize)>::empty());
        let mut n: usize = 0;
        while n < ids.len()
            invariant
                n <= ids@.len(),
                self.wf(),
                run.wf(),
                run.entries@.len() == old(run).entries@.len(),
                first == old(run)@,
                es == first.entries,
                is == ids.deep_view(),
                lists@.len() == ids@.len(),
                forall|m: int|
                    0 <= m < ids@.len() ==> (#[trigger] lists@[m])@ == carriers(
                        self@,
                        es,
                        is[m],
                        0,
                        Seq::empty(),
                    ) && in_range(lists@[m]@, old(run).entries@.len()),
                names@.len() == at@.len(),
                in_range(at@, run.entries@.len()),
                resolving_all(self@, first, es, is, 0, Seq::empty()) == resolving_all(
                    self@,
                    run@,
                    es,
                    is,
                    n as int,
                    pairs(names@, at@),
                ),
            decreases ids@.len() - n,
        {
            assert(is[n as int] == ids@[n as int]@);
            let ghost found = pairs(names@, at@);
            match self.resolve(run, ids[n].as_str(), &lists[n]) {
                Err(stop) => return Err(stop),
                Ok(Some(i)) => {
                    names.push(ids[n].clone());
                    at.push(i);
                    assert(pairs(names@, at@) =~= found.push((is[n as int], i)));
                },
                Ok(None) => {},
            }
            n += 1;
        }
        Ok((names, at))
    }

    /// Where each item found is, and its content.
    fn find_all(&self, run: &mut Run, names: &Vec<String>, at: &Vec<usize>) -> (r: Result<(), Stop>)
        requires
            self.wf(),
            old(run).wf(),
            names@.len() == at@.len(),
            in_range(at@, old(run).entries@.len()),
        ensures
            final(run).wf(),
            final(run).entries@.len() == old(run).entries@.len(),
            went(r, final(run)@) == finding_all(self@, old(run)@, pairs(names@, at@), 0),
    {
        let ghost first = run@;
        let ghost found = pairs(names@, at@);
        let mut k: usize = 0;
        while k < names.len()
            invariant
                k <= names@.len(),
                self.wf(),
                run.wf(),
                run.entries@.len() == old(run).entries@.len(),
                first == old(run)@,
                names@.len() == at@.len(),
                found == pairs(names@, at@),
                in_range(at@, run.entries@.len()),
                finding_all(self@, first, found, 0) == finding_all(self@, run@, found, k as int),
            decreases names@.len() - k,
        {
            if let Some(item) = self.world.item(names[k].as_str()) {
                match self.found(run, names[k].as_str(), &item.row, at[k]) {
                    Err(stop) => return Err(stop),
                    Ok(_) => {},
                }
            }
            k += 1;
        }
        Ok(())
    }

    /// What no item took, and has no id.
    fn meet_new(&self, run: &mut Run, list: &Vec<usize>) -> (r: Result<(), Stop>)
        requires
            self.wf(),
            old(run).wf(),
            in_range(list@, old(run).entries@.len()),
        ensures
            final(run).wf(),
            final(run).entries@.len() == old(run).entries@.len(),
            went(r, final(run)@) == meeting_all_new(self@, old(run)@, list@, 0),
    {
        let ghost first = run@;
        let mut k: usize = 0;
        while k < list.len()
            invariant
                k <= list@.len(),
                self.wf(),
                run.wf(),
                run.entries@.len() == old(run).entries@.len(),
                first == old(run)@,
                in_range(list@, run.entries@.len()),
                meeting_all_new(self@, first, list@, 0) == meeting_all_new(
                    self@,
                    run@,
                    list@,
                    k as int,
                ),
            decreases list@.len() - k,
        {
            if !run.consumed[list[k]] {
                match self.unnamed(run, list[k]) {
                    Err(stop) => return Err(stop),
                    Ok(_) => {},
                }
            }
            k += 1;
        }
        Ok(())
    }

    fn skip_examined(&self, rel: &RelPath) -> (r: bool)
        requires
            self.wf(),
        ensures
            r == skip_examined(self@, rel@),
    {
        if contains(&self.seen.unreadable, rel) {
            return false;
        }
        let dir = rel.dir();
        if self.batch.full || contains(&self.seen.whole, &dir) {
            return true;
        }
        match (self.seen.named.get(&dir), rel.file_name()) {
            (Some(names), Some(name)) => {
                proof {
                    crate::path::lemma_deep_bytes(*name);
                }
                contains(names, name)
            },
            _ => false,
        }
    }

    /// What is listed as not uploaded is what is there now.
    fn tidy_skipped(&self, run: &mut Run)
        requires
            self.wf(),
            old(run).wf(),
        ensures
            final(run).wf(),
            final(run).entries@.len() == old(run).entries@.len(),
            final(run)@ == tidying(self@, old(run)@),
    {
        let ghost first = run@;
        let listed = &self.world.skipped;
        let mut k: usize = 0;
        while k < listed.len()
            invariant
                listed == self.world.skipped,
                k <= listed@.len(),
                self.wf(),
                run.wf(),
                run.entries@.len() == old(run).entries@.len(),
                first == old(run)@,
                unlisting(self@, first, 0) == unlisting(self@, run@, k as int),
            decreases listed@.len() - k,
        {
            let rel = &listed[k];
            assert(self@.w.skipped[k as int] == rel@);
            if self.skip_examined(rel) && !run.skips(rel) {
                run.op(OutboxOp::Unskip(rel.clone()));
            }
            k += 1;
        }
        let ghost unlisted = run@;
        let mut skips: Vec<(RelPath, String)> = Vec::new();
        std::mem::swap(&mut skips, &mut run.skipped);
        let ghost ss = skips_model(skips@);
        assert(run@.skipped =~= Seq::<(PathModel, Seq<char>)>::empty());
        let ghost emptied = run@;
        let mut m: usize = 0;
        while m < skips.len()
            invariant
                m <= skips@.len(),
                ss == skips_model(skips@),
                run.wf(),
                run.entries@.len() == old(run).entries@.len(),
                recording_skips(emptied, ss, 0) == recording_skips(run@, ss, m as int),
            decreases skips@.len() - m,
        {
            run.op(OutboxOp::Skip { rel: skips[m].0.clone(), reason: skips[m].1.clone() });
            m += 1;
        }
    }

    /// Decides everything.
    pub fn classify(&self, run: &mut Run) -> (r: Result<(), Stop>)
        requires
            self.wf(),
            old(run).wf(),
        ensures
            final(run).wf(),
            final(run).entries@.len() == old(run).entries@.len(),
            went(r, final(run)@) == classifying(self@, old(run)@),
    {
        let (ids, new) = self.sort_out(run);
        let (names, at) = match self.resolve_all(run, &ids) {
            Err(stop) => return Err(stop),
            Ok(found) => found,
        };
        let (names, at) = sort_found(&run.entries, names, at);
        match self.find_all(run, &names, &at) {
            Err(stop) => return Err(stop),
            Ok(_) => {},
        }
        match self.missing(run) {
            Err(stop) => return Err(stop),
            Ok(_) => {},
        }
        let mut new = new;
        let mut fresh: Vec<usize> = Vec::new();
        std::mem::swap(&mut fresh, &mut run.fresh);
        let ghost no_id = new@;
        let ghost freed = fresh@;
        new.append(&mut fresh);
        proof {
            assert(new@ == no_id + freed);
            assert forall|k: int| 0 <= k < new@.len() implies #[trigger] new@[k] < run.entries@.len() by {
                if k < no_id.len() {
                    assert(new@[k] == no_id[k]);
                } else {
                    assert(new@[k] == freed[k - no_id.len()]);
                }
            }
        }
        let list = sort_by_depth(&run.entries, &new);
        assert(run@.fresh =~= Seq::<usize>::empty());
        match self.meet_new(run, &list) {
            Err(stop) => return Err(stop),
            Ok(_) => {},
        }
        self.tidy_skipped(run);
        Ok(())
    }
}

} // verus!
