//! Walks over the folder: what is there, and which entries a lock changes.

use vstd::prelude::*;
use vstd::string::*;
use crate::disk::{probe_is_dir, Probe, ProbeModel};
use crate::local::run::push_to;
use crate::os::Type;
use crate::path::{PathModel, RelPath};
use crate::text::push_decimal;
use crate::text::decimal;
use crate::tree::copy_opt;

verus! {

/// One file or directory found beneath the root.
#[derive(Debug)]
pub struct Scanned {
    /// Relative to the root.
    pub rel: RelPath,
    pub id: Option<String>,
    pub is_dir: bool,
    /// 1 for the root's own entries.
    pub depth: usize,
    /// The item id of the directory it is in; nothing inside a directory
    /// without one.
    pub parent_id: Option<String>,
}

#[verifier::ext_equal]
pub struct ScannedModel {
    pub rel: PathModel,
    pub id: Option<Seq<char>>,
    pub is_dir: bool,
    pub depth: nat,
    pub parent_id: Option<Seq<char>>,
}

impl View for Scanned {
    type V = ScannedModel;

    open spec fn view(&self) -> ScannedModel {
        ScannedModel {
            rel: self.rel@,
            id: self.id.deep_view(),
            is_dir: self.is_dir,
            depth: self.depth as nat,
            parent_id: self.parent_id.deep_view(),
        }
    }
}

impl DeepView for Scanned {
    type V = ScannedModel;

    open spec fn deep_view(&self) -> ScannedModel {
        self.view()
    }
}

/// A name in a directory, and what it is.
#[derive(Debug)]
pub struct Named {
    pub name: Vec<u8>,
    pub what: Probe,
}

#[verifier::ext_equal]
pub struct NamedModel {
    pub name: Seq<u8>,
    pub what: ProbeModel,
}

impl View for Named {
    type V = NamedModel;

    open spec fn view(&self) -> NamedModel {
        NamedModel { name: self.name@, what: self.what@ }
    }
}

impl DeepView for Named {
    type V = NamedModel;

    open spec fn deep_view(&self) -> NamedModel {
        self.view()
    }
}

/// A directory still to be read, and its item id.
#[derive(Debug)]
pub struct Pending {
    pub rel: RelPath,
    pub id: Option<String>,
}

#[verifier::ext_equal]
pub struct PendingModel {
    pub rel: PathModel,
    pub id: Option<Seq<char>>,
}

impl View for Pending {
    type V = PendingModel;

    open spec fn view(&self) -> PendingModel {
        PendingModel { rel: self.rel@, id: self.id.deep_view() }
    }
}

impl DeepView for Pending {
    type V = PendingModel;

    open spec fn deep_view(&self) -> PendingModel {
        self.view()
    }
}

/// A scan of the folder: paths are kept, not descriptors, so that one directory
/// is open at a time.
pub struct Scan {
    max_depth: usize,
    pending: Vec<Pending>,
    out: Vec<Scanned>,
}

#[verifier::ext_equal]
pub struct ScanModel {
    pub max_depth: nat,
    pub pending: Seq<PendingModel>,
    pub out: Seq<ScannedModel>,
}

impl View for Scan {
    type V = ScanModel;

    closed spec fn view(&self) -> ScanModel {
        ScanModel {
            max_depth: self.max_depth as nat,
            pending: self.pending.deep_view(),
            out: self.out.deep_view(),
        }
    }
}

/// The item id a probe found.
pub open spec fn probe_id(p: ProbeModel) -> Option<Seq<char>> {
    match p {
        ProbeModel::Managed { id, .. } => Some(id),
        _ => None,
    }
}

/// The scan once the name `e` of `dir` is seen.
pub open spec fn scanned_one(s: ScanModel, dir: PendingModel, e: NamedModel) -> ScanModel {
    if e.what is Absent {
        s
    } else {
        let rel = dir.rel.push(e.name);
        ScanModel {
            pending: if probe_is_dir(e.what) {
                s.pending.push(PendingModel { rel, id: probe_id(e.what) })
            } else {
                s.pending
            },
            out: s.out.push(
                ScannedModel {
                    rel,
                    id: probe_id(e.what),
                    is_dir: probe_is_dir(e.what),
                    depth: dir.rel.len() + 1,
                    parent_id: dir.id,
                },
            ),
            ..s
        }
    }
}

/// The scan once the first `n` names of `dir` are seen.
pub open spec fn scanned(s: ScanModel, dir: PendingModel, entries: Seq<NamedModel>, n: int) -> ScanModel
    decreases n,
{
    if n <= 0 {
        s
    } else {
        scanned_one(scanned(s, dir, entries, n - 1), dir, entries[n - 1])
    }
}

/// The directory read next: the last one still to be read that is not too
/// deep.
pub open spec fn next_of(s: ScanModel) -> (ScanModel, Option<PendingModel>)
    decreases s.pending.len(),
{
    if s.pending.len() == 0 {
        (s, None)
    } else {
        let rest = ScanModel { pending: s.pending.drop_last(), ..s };
        if s.pending.last().rel.len() >= s.max_depth {
            next_of(rest)
        } else {
            (rest, Some(s.pending.last()))
        }
    }
}

impl Scan {
    /// A scan of the folder of the item `root_item_id`, no deeper than
    /// `max_depth`.
    pub fn new(root_item_id: &str, max_depth: usize) -> (r: Self)
        ensures
            r@ == (ScanModel {
                max_depth: max_depth as nat,
                pending: seq![PendingModel { rel: Seq::empty(), id: Some(root_item_id@) }],
                out: Seq::empty(),
            }),
    {
        let mut pending: Vec<Pending> = Vec::new();
        assert(pending.deep_view() =~= Seq::<PendingModel>::empty());
        push_to(&mut pending, Pending { rel: RelPath::root(), id: Some(root_item_id.to_owned()) });
        let r = Scan { max_depth, pending, out: Vec::new() };
        assert(r@.pending =~= seq![
            PendingModel { rel: Seq::<Seq<u8>>::empty(), id: Some(root_item_id@) },
        ]);
        assert(r@.out =~= Seq::<ScannedModel>::empty());
        r
    }

    /// The directory to read next; deeper ones than the scan may go are passed
    /// over.
    pub fn next_dir(&mut self) -> (r: Option<Pending>)
        ensures
            r.deep_view() == next_of(old(self)@).1,
            final(self)@ == next_of(old(self)@).0,
    {
        let ghost first = self@;
        loop
            invariant
                first == old(self)@,
                next_of(first) == next_of(self@),
            decreases self.pending@.len(),
        {
            let ghost before = self@;
            match self.pending.pop() {
                None => {
                    return None;
                },
                Some(dir) => {
                    assert(before.pending.last() == dir@);
                    assert(self@.pending =~= before.pending.drop_last());
                    if dir.rel.depth() < self.max_depth {
                        return Some(dir);
                    }
                },
            }
        }
    }

    /// The names of `dir`, and what each is.
    pub fn seen(&mut self, dir: &Pending, entries: &Vec<Named>)
        requires
            dir@.rel.len() < usize::MAX,
        ensures
            final(self)@ == scanned(
                old(self)@,
                dir@,
                entries.deep_view(),
                entries@.len() as int,
            ),
    {
        let ghost first = self@;
        let depth: usize = dir.rel.depth() + 1;
        let mut i: usize = 0;
        while i < entries.len()
            invariant
                first == old(self)@,
                depth == dir@.rel.len() + 1,
                i <= entries@.len(),
                self@ == scanned(first, dir@, entries.deep_view(), i as int),
            decreases entries@.len() - i,
        {
            let ghost before = self@;
            assert(entries.deep_view()[i as int] == entries@[i as int]@);
            let (id, is_dir) = match &entries[i].what {
                Probe::Absent => {
                    i += 1;
                    continue ;
                },
                Probe::Managed { id, is_dir } => (Some(id.clone()), *is_dir),
                Probe::Unmanaged { is_dir } => (None, *is_dir),
            };
            let rel = dir.rel.join(&entries[i].name);
            if is_dir {
                push_to(&mut self.pending, Pending { rel: rel.clone(), id: copy_opt(&id) });
            }
            push_to(
                &mut self.out,
                Scanned { rel, id, is_dir, depth, parent_id: copy_opt(&dir.id) },
            );
            assert(self@ =~= scanned_one(before, dir@, entries@[i as int]@));
            i += 1;
        }
    }

    /// What the scan found.
    pub fn done(self) -> (r: Vec<Scanned>)
        ensures
            r.deep_view() == self@.out,
    {
        self.out
    }
}

/// A walk that takes the lock off the whole folder. The root comes last, and
/// only when every entry went through: each directory and each file handed out
/// is answered for, and one that could not be changed is counted.
pub struct Unlocking {
    pending: Vec<RelPath>,
    /// A directory was handed out.
    reading: bool,
    /// How many files were handed out and are not answered for.
    files: usize,
    failed: usize,
}

#[verifier::ext_equal]
pub struct UnlockingModel {
    pub pending: Seq<PathModel>,
    pub reading: bool,
    pub files: nat,
    pub failed: nat,
}

impl View for Unlocking {
    type V = UnlockingModel;

    closed spec fn view(&self) -> UnlockingModel {
        UnlockingModel {
            pending: self.pending.deep_view(),
            reading: self.reading,
            files: self.files as nat,
            failed: self.failed as nat,
        }
    }
}

/// An entry of a directory being unlocked, or the lock being put on.
#[derive(Debug)]
pub struct Entry {
    pub name: Vec<u8>,
    /// Nothing when it could not be looked at.
    pub ty: Option<Type>,
}

/// The files among the first `n` entries.
pub open spec fn plain_files(entries: Seq<Entry>, n: int) -> Seq<usize>
    decreases n,
{
    if n <= 0 {
        Seq::empty()
    } else if entries[n - 1].ty == Some(Type::File) {
        plain_files(entries, n - 1).push((n - 1) as usize)
    } else {
        plain_files(entries, n - 1)
    }
}

/// The walk once the first `n` entries of `dir` are looked at: directories are
/// walked too, files are to be answered for, and what cannot be looked at has
/// failed.
pub open spec fn unlocked(u: UnlockingModel, dir: PathModel, entries: Seq<Entry>, n: int) -> UnlockingModel
    decreases n,
{
    if n <= 0 {
        UnlockingModel { reading: false, ..u }
    } else {
        let before = unlocked(u, dir, entries, n - 1);
        match entries[n - 1].ty {
            None => UnlockingModel { failed: before.failed + 1, ..before },
            Some(Type::Dir) => UnlockingModel {
                pending: before.pending.push(dir.push(entries[n - 1].name@)),
                ..before
            },
            Some(Type::File) => UnlockingModel { files: before.files + 1, ..before },
            Some(_) => before,
        }
    }
}

/// The walk once a directory is handed out.
pub open spec fn going_on(u: UnlockingModel) -> UnlockingModel {
    UnlockingModel { pending: u.pending.drop_last(), reading: true, ..u }
}

/// The walk once the directory handed out could not be changed or read.
pub open spec fn failing(u: UnlockingModel) -> UnlockingModel {
    UnlockingModel { reading: false, failed: u.failed + 1, ..u }
}

/// The walk once one file handed out was changed, or was not.
pub open spec fn answered(u: UnlockingModel, changed: bool) -> UnlockingModel {
    UnlockingModel {
        files: (u.files - 1) as nat,
        failed: if changed {
            u.failed
        } else {
            u.failed + 1
        },
        ..u
    }
}

/// How many entries did not go through: those that failed, and those not
/// answered for.
pub open spec fn not_through(u: UnlockingModel) -> nat {
    u.failed + u.files + u.pending.len() + if u.reading {
        1nat
    } else {
        0nat
    }
}

impl Unlocking {
    pub fn new() -> (r: Self)
        ensures
            r@ == (UnlockingModel {
                pending: seq![Seq::empty()],
                reading: false,
                files: 0,
                failed: 0,
            }),
    {
        let mut pending: Vec<RelPath> = Vec::new();
        assert(pending.deep_view() =~= Seq::<PathModel>::empty());
        push_to(&mut pending, RelPath::root());
        let r = Unlocking { pending, reading: false, files: 0, failed: 0 };
        assert(r@.pending =~= seq![Seq::<Seq<u8>>::empty()]);
        r
    }

    /// The directory to unlock and read next.
    pub fn next_dir(&mut self) -> (r: Option<RelPath>)
        requires
            !old(self)@.reading,
        ensures
            match r {
                None => old(self)@.pending.len() == 0 && final(self)@ == old(self)@,
                Some(dir) => old(self)@.pending.len() > 0 && dir@ == old(self)@.pending.last()
                    && final(self)@ == going_on(old(self)@),
            },
    {
        match self.pending.pop() {
            None => None,
            Some(dir) => {
                self.reading = true;
                assert(old(self)@.pending.last() == dir@);
                assert(self@.pending =~= old(self)@.pending.drop_last());
                Some(dir)
            },
        }
    }

    /// Whether `more` entries can still be counted.
    pub fn room(&self, more: usize) -> (r: bool)
        ensures
            r == (self@.failed + more <= usize::MAX && self@.files + more <= usize::MAX),
    {
        more <= usize::MAX - self.failed && more <= usize::MAX - self.files
    }

    /// The directory handed out could not be changed or read: it is passed
    /// over.
    pub fn fail(&mut self)
        requires
            old(self)@.reading,
            old(self)@.failed < usize::MAX,
        ensures
            final(self)@ == failing(old(self)@),
    {
        self.reading = false;
        self.failed = self.failed + 1;
    }

    /// The entries of `dir`, handed out before: which of them are files, to be
    /// given an ordinary mode and answered for.
    pub fn seen(&mut self, dir: &RelPath, entries: &Vec<Entry>) -> (files: Vec<usize>)
        requires
            old(self)@.reading,
            old(self)@.failed + entries@.len() <= usize::MAX,
            old(self)@.files + entries@.len() <= usize::MAX,
        ensures
            final(self)@ == unlocked(old(self)@, dir@, entries@, entries@.len() as int),
            files@ == plain_files(entries@, entries@.len() as int),
            final(self)@.files == old(self)@.files + files@.len(),
    {
        let ghost first = self@;
        self.reading = false;
        let mut files: Vec<usize> = Vec::new();
        let mut i: usize = 0;
        while i < entries.len()
            invariant
                first == old(self)@,
                first.failed + entries@.len() <= usize::MAX,
                first.files + entries@.len() <= usize::MAX,
                i <= entries@.len(),
                self@ == unlocked(first, dir@, entries@, i as int),
                self@.failed <= first.failed + i,
                self@.files <= first.files + i,
                self@.files == first.files + files@.len(),
                files@ == plain_files(entries@, i as int),
            decreases entries@.len() - i,
        {
            match entries[i].ty {
                None => {
                    self.failed = self.failed + 1;
                },
                Some(Type::Dir) => {
                    push_to(&mut self.pending, dir.join(&entries[i].name));
                },
                Some(Type::File) => {
                    self.files = self.files + 1;
                    files.push(i);
                },
                Some(_) => {},
            }
            i += 1;
        }
        files
    }

    /// One file handed out was changed, or could not be: then it is counted
    /// and passed over.
    pub fn file(&mut self, changed: bool)
        requires
            old(self)@.files > 0,
            old(self)@.failed < usize::MAX,
        ensures
            final(self)@ == answered(old(self)@, changed),
    {
        self.files = self.files - 1;
        if !changed {
            self.failed = self.failed + 1;
        }
    }

    /// What the walk comes to: the root is unlocked when every entry went
    /// through; otherwise it stays locked, and how many did not is said.
    pub fn end(&self) -> (r: Result<(), String>)
        ensures
            match r {
                Ok(_) => not_through(self@) == 0,
                Err(text) => not_through(self@) > 0 && text@ == decimal(not_through(self@))
                    + " entries could not be unlocked; the folder itself stays locked"@,
            },
    {
        let unread: u128 = if self.reading {
            1
        } else {
            0
        };
        let left: u128 = self.failed as u128 + self.files as u128 + self.pending.len() as u128 + unread;
        if left == 0 {
            return Ok(());
        }
        let mut text = String::new();
        push_decimal(&mut text, left);
        text.append(" entries could not be unlocked; the folder itself stays locked");
        assert(text@ =~= decimal(not_through(self@))
            + " entries could not be unlocked; the folder itself stays locked"@);
        Err(text)
    }
}

/// An entry that did not go through is never forgotten: whatever is walked or
/// answered after it, the root stays locked.
pub proof fn law_a_failed_entry_keeps_the_root_locked(
    u: UnlockingModel,
    dir: PathModel,
    entries: Seq<Entry>,
    n: int,
    changed: bool,
)
    requires
        u.failed > 0,
        n <= entries.len(),
    ensures
        not_through(u) > 0,
        going_on(u).failed >= u.failed,
        failing(u).failed > u.failed,
        unlocked(u, dir, entries, n).failed >= u.failed,
        answered(u, changed).failed >= u.failed,
    decreases n,
{
    if n > 0 {
        law_a_failed_entry_keeps_the_root_locked(u, dir, entries, n - 1, changed);
    }
}

/// One file that cannot be changed, or one directory that cannot be read, keeps
/// none of the others from being unlocked.
pub proof fn law_a_failed_entry_keeps_no_other_locked(u: UnlockingModel)
    ensures
        failing(u).pending == u.pending && failing(u).files == u.files,
        answered(u, false).pending == u.pending && answered(u, false).files == answered(
            u,
            true,
        ).files,
{
}

/// Every entry of a directory that was read is walked, handed out, or counted,
/// but for what is neither a file nor a directory.
pub proof fn law_no_entry_is_left_out(u: UnlockingModel, dir: PathModel, entries: Seq<Entry>, n: int, k: int)
    requires
        0 <= k < n <= entries.len() <= usize::MAX,
    ensures
        match entries[k].ty {
            None => unlocked(u, dir, entries, n).failed > u.failed,
            Some(Type::Dir) => unlocked(u, dir, entries, n).pending.contains(
                dir.push(entries[k].name@),
            ),
            Some(Type::File) => plain_files(entries, n).contains(k as usize) && unlocked(
                u,
                dir,
                entries,
                n,
            ).files > u.files,
            Some(_) => true,
        },
    decreases n,
{
    let before = unlocked(u, dir, entries, n - 1);
    let now = unlocked(u, dir, entries, n);
    lemma_counts(u, dir, entries, n - 1);
    if k < n - 1 {
        law_no_entry_is_left_out(u, dir, entries, n - 1, k);
        match entries[k].ty {
            Some(Type::Dir) => {
                let path = dir.push(entries[k].name@);
                let j = choose|j: int| 0 <= j < before.pending.len() && before.pending[j] == path;
                assert(now.pending[j] == path);
            },
            Some(Type::File) => {
                let files = plain_files(entries, n - 1);
                let j = choose|j: int| 0 <= j < files.len() && files[j] == k as usize;
                assert(plain_files(entries, n)[j] == k as usize);
            },
            _ => {},
        }
    } else {
        match entries[k].ty {
            Some(Type::Dir) => {
                assert(now.pending[before.pending.len() as int] == dir.push(entries[k].name@));
            },
            Some(Type::File) => {
                let files = plain_files(entries, n - 1);
                assert(plain_files(entries, n)[files.len() as int] == k as usize);
            },
            _ => {},
        }
    }
}

proof fn lemma_counts(u: UnlockingModel, dir: PathModel, entries: Seq<Entry>, n: int)
    requires
        n <= entries.len(),
    ensures
        unlocked(u, dir, entries, n).failed >= u.failed,
        unlocked(u, dir, entries, n).files >= u.files,
    decreases n,
{
    if n > 0 {
        lemma_counts(u, dir, entries, n - 1);
    }
}

/// A walk that puts the lock back on the folder: everything that carries an
/// item id gets the lock's mode, and what carries none is left as it is.
pub struct Locking {
    pending: Vec<RelPath>,
}

impl View for Locking {
    type V = Seq<PathModel>;

    closed spec fn view(&self) -> Seq<PathModel> {
        self.pending.deep_view()
    }
}

/// The walk once the first `n` names of `dir` are seen: only directories of
/// ours are walked.
pub open spec fn locking(pending: Seq<PathModel>, dir: PathModel, entries: Seq<NamedModel>, n: int) -> Seq<
    PathModel,
>
    decreases n,
{
    if n <= 0 {
        pending
    } else {
        let before = locking(pending, dir, entries, n - 1);
        match entries[n - 1].what {
            ProbeModel::Managed { is_dir, .. } => if is_dir {
                before.push(dir.push(entries[n - 1].name))
            } else {
                before
            },
            _ => before,
        }
    }
}

/// The names among the first `n` that get the lock's mode.
pub open spec fn to_lock(entries: Seq<NamedModel>, n: int) -> Seq<usize>
    decreases n,
{
    if n <= 0 {
        Seq::empty()
    } else if entries[n - 1].what is Managed {
        to_lock(entries, n - 1).push((n - 1) as usize)
    } else {
        to_lock(entries, n - 1)
    }
}

impl Locking {
    pub fn new() -> (r: Self)
        ensures
            r@ == seq![Seq::<Seq<u8>>::empty()],
    {
        let mut pending: Vec<RelPath> = Vec::new();
        assert(pending.deep_view() =~= Seq::<PathModel>::empty());
        push_to(&mut pending, RelPath::root());
        let r = Locking { pending };
        assert(r@ =~= seq![Seq::<Seq<u8>>::empty()]);
        r
    }

    /// The directory to read next.
    pub fn next_dir(&mut self) -> (r: Option<RelPath>)
        ensures
            match r {
                None => old(self)@.len() == 0 && final(self)@ == old(self)@,
                Some(dir) => old(self)@.len() > 0 && dir@ == old(self)@.last() && final(self)@
                    == old(self)@.drop_last(),
            },
    {
        match self.pending.pop() {
            None => None,
            Some(dir) => {
                assert(old(self)@.last() == dir@);
                assert(self@ =~= old(self)@.drop_last());
                Some(dir)
            },
        }
    }

    /// The names of `dir`: which of them get the lock's mode.
    pub fn seen(&mut self, dir: &RelPath, entries: &Vec<Named>) -> (lock: Vec<usize>)
        ensures
            final(self)@ == locking(
                old(self)@,
                dir@,
                entries.deep_view(),
                entries@.len() as int,
            ),
            lock@ == to_lock(entries.deep_view(), entries@.len() as int),
    {
        let ghost first = self@;
        let mut lock: Vec<usize> = Vec::new();
        let mut i: usize = 0;
        while i < entries.len()
            invariant
                first == old(self)@,
                i <= entries@.len(),
                self@ == locking(first, dir@, entries.deep_view(), i as int),
                lock@ == to_lock(entries.deep_view(), i as int),
            decreases entries@.len() - i,
        {
            assert(entries.deep_view()[i as int] == entries@[i as int]@);
            match &entries[i].what {
                Probe::Managed { is_dir, .. } => {
                    if *is_dir {
                        push_to(&mut self.pending, dir.join(&entries[i].name));
                    }
                    lock.push(i);
                },
                _ => {},
            }
            i += 1;
        }
        lock
    }
}

/// What carries no item id is never locked.
pub proof fn law_only_what_is_ours_is_locked(entries: Seq<NamedModel>, n: int, k: int)
    requires
        0 <= n <= entries.len() <= usize::MAX,
        0 <= k < to_lock(entries, n).len(),
    ensures
        to_lock(entries, n)[k] < n,
        entries[to_lock(entries, n)[k] as int].what is Managed,
    decreases n,
{
    if n > 0 {
        let before = to_lock(entries, n - 1);
        if k < before.len() {
            law_only_what_is_ours_is_locked(entries, n - 1, k);
        }
    }
}

} // verus!
