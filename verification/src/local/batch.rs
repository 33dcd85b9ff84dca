//! A batch: the places a quiet spell of events made dirty.
//!
//! Events are hints. The watcher resolves an event's directory handle to a
//! path through its directory map and adds what it learnt here:
//!
//! - a directory and a name ([`Batch::name`]). A name absent from the disk
//!   when examined makes the whole directory examined. `"."` is the directory
//!   itself (an event reported through its own mark);
//! - the event's object handle ([`Batch::object`]), which finds the item it
//!   touched, or a pending row, wherever the event's name says;
//! - a directory to examine whole ([`Batch::dir`]);
//! - a new directory, with everything below it ([`Batch::tree`]);
//! - a written file ([`Batch::written`]): its content is hashed even if its
//!   size and time say nothing changed.
//!
//! The order of events is never read from a batch: unread events merge, and
//! only the disk says what happened.

use vstd::prelude::*;
use crate::path::{copy_bytes, same_bytes, RelPath};
use crate::sorted::{insert, inserted, inserted_all, SortedMap};
use crate::tree::FileHandle;

verus! {

/// How much of a directory to examine.
#[derive(Debug)]
pub enum DirScope {
    Whole,
    Names(Vec<Vec<u8>>),
}

#[verifier::ext_equal]
pub enum ScopeModel {
    Whole,
    /// In their order, each once.
    Names(Seq<Seq<u8>>),
}

impl View for DirScope {
    type V = ScopeModel;

    open spec fn view(&self) -> ScopeModel {
        match self {
            DirScope::Whole => ScopeModel::Whole,
            DirScope::Names(names) => ScopeModel::Names(names.deep_view()),
        }
    }
}

impl DeepView for DirScope {
    type V = ScopeModel;

    open spec fn deep_view(&self) -> ScopeModel {
        self.view()
    }
}

/// A copy of a list of names.
pub fn copy_names(names: &Vec<Vec<u8>>) -> (r: Vec<Vec<u8>>)
    ensures
        r.deep_view() == names.deep_view(),
{
    let mut out: Vec<Vec<u8>> = Vec::new();
    let mut i: usize = 0;
    while i < names.len()
        invariant
            i <= names@.len(),
            out@.len() == i,
            forall|j: int| 0 <= j < i ==> (#[trigger] out@[j])@ == names@[j]@,
        decreases names@.len() - i,
    {
        out.push(copy_bytes(&names[i]));
        i += 1;
    }
    proof {
        crate::path::lemma_parts_equal(out, *names);
    }
    out
}

impl Clone for DirScope {
    fn clone(&self) -> (r: Self)
        ensures
            r@ == self@,
    {
        match self {
            DirScope::Whole => DirScope::Whole,
            DirScope::Names(names) => DirScope::Names(copy_names(names)),
        }
    }
}

/// The name of a directory in itself.
pub open spec fn own_name() -> Seq<u8> {
    seq![46u8]
}

#[derive(Debug)]
pub struct Batch {
    pub full: bool,
    pub dirs: SortedMap<RelPath, DirScope>,
    pub trees: Vec<RelPath>,
    pub objects: Vec<FileHandle>,
    pub written_handles: Vec<FileHandle>,
    pub written_rels: Vec<RelPath>,
}

#[verifier::ext_equal]
pub struct BatchModel {
    pub full: bool,
    pub dirs: Map<Seq<Seq<u8>>, ScopeModel>,
    pub trees: Seq<Seq<Seq<u8>>>,
    pub objects: Seq<Seq<u8>>,
    pub written_handles: Seq<Seq<u8>>,
    pub written_rels: Seq<Seq<Seq<u8>>>,
}

impl View for Batch {
    type V = BatchModel;

    open spec fn view(&self) -> BatchModel {
        BatchModel {
            full: self.full,
            dirs: self.dirs@,
            trees: self.trees.deep_view(),
            objects: self.objects.deep_view(),
            written_handles: self.written_handles.deep_view(),
            written_rels: self.written_rels.deep_view(),
        }
    }
}

/// A batch with nothing in it.
pub open spec fn no_batch() -> BatchModel {
    BatchModel {
        full: false,
        dirs: Map::empty(),
        trees: Seq::empty(),
        objects: Seq::empty(),
        written_handles: Seq::empty(),
        written_rels: Seq::empty(),
    }
}

/// A scope with `name` in it.
pub open spec fn scope_with(scope: Option<ScopeModel>, name: Seq<u8>) -> ScopeModel {
    match scope {
        Some(ScopeModel::Whole) => ScopeModel::Whole,
        Some(ScopeModel::Names(names)) => ScopeModel::Names(inserted::<Vec<u8>>(names, name)),
        None => ScopeModel::Names(seq![name]),
    }
}

/// `dirs` with `name` in `dir` touched; `"."` is `dir` itself, in its parent.
pub open spec fn dirs_named(
    dirs: Map<Seq<Seq<u8>>, ScopeModel>,
    dir: Seq<Seq<u8>>,
    name: Seq<u8>,
) -> Map<Seq<Seq<u8>>, ScopeModel>
    decreases dir.len(),
{
    if name == own_name() {
        if dir.len() == 0 {
            dirs
        } else {
            dirs_named(dirs, dir.drop_last(), dir.last())
        }
    } else {
        dirs.insert(dir, scope_with(dirs.get(dir), name))
    }
}

/// `b` with `name` in `dir` touched.
pub open spec fn with_name(b: BatchModel, dir: Seq<Seq<u8>>, name: Seq<u8>) -> BatchModel {
    BatchModel { dirs: dirs_named(b.dirs, dir, name), ..b }
}

/// `b` with the file `name` in `dir` written.
pub open spec fn with_written(
    b: BatchModel,
    dir: Seq<Seq<u8>>,
    name: Seq<u8>,
    handle: Option<Seq<u8>>,
) -> BatchModel {
    let named = with_name(b, dir, name);
    let rels = inserted::<RelPath>(named.written_rels, dir.push(name));
    match handle {
        None => BatchModel { written_rels: rels, ..named },
        Some(h) => BatchModel {
            written_rels: rels,
            objects: inserted::<FileHandle>(named.objects, h),
            written_handles: inserted::<FileHandle>(named.written_handles, h),
            ..named
        },
    }
}

/// The batch that asks for the whole folder.
pub open spec fn full_batch() -> BatchModel {
    BatchModel { full: true, ..no_batch() }
}

/// There is nothing in `b` to look at.
pub open spec fn asks_nothing(b: BatchModel) -> bool {
    &&& !b.full
    &&& forall|d: Seq<Seq<u8>>| !#[trigger] b.dirs.contains_key(d)
    &&& b.trees.len() == 0
    &&& b.objects.len() == 0
}

/// `b` with the whole of `dir`.
pub open spec fn with_dir(b: BatchModel, dir: Seq<Seq<u8>>) -> BatchModel {
    BatchModel { dirs: b.dirs.insert(dir, ScopeModel::Whole), ..b }
}

/// `b` with `dir` and everything below it.
pub open spec fn with_tree(b: BatchModel, dir: Seq<Seq<u8>>) -> BatchModel {
    BatchModel { trees: inserted::<RelPath>(b.trees, dir), ..b }
}

/// `b` with the object of `handle`.
pub open spec fn with_object(b: BatchModel, handle: Seq<u8>) -> BatchModel {
    BatchModel { objects: inserted::<FileHandle>(b.objects, handle), ..b }
}

/// One directory's scope, from two batches: the whole of it wins, and names
/// gather.
pub open spec fn merged_scope(a: Option<ScopeModel>, b: Option<ScopeModel>) -> Option<ScopeModel> {
    match (a, b) {
        (a, None) => a,
        (Some(ScopeModel::Whole), _) => Some(ScopeModel::Whole),
        (_, Some(ScopeModel::Whole)) => Some(ScopeModel::Whole),
        (Some(ScopeModel::Names(x)), Some(ScopeModel::Names(y))) => Some(
            ScopeModel::Names(inserted_all::<Vec<u8>>(x, y)),
        ),
        (None, Some(ScopeModel::Names(y))) => Some(
            ScopeModel::Names(inserted_all::<Vec<u8>>(Seq::empty(), y)),
        ),
    }
}

/// Everything `a` and `b` hold.
pub open spec fn merged(a: BatchModel, b: BatchModel) -> BatchModel {
    BatchModel {
        full: a.full || b.full,
        dirs: Map::new(
            |d: Seq<Seq<u8>>| a.dirs.contains_key(d) || b.dirs.contains_key(d),
            |d: Seq<Seq<u8>>| merged_scope(a.dirs.get(d), b.dirs.get(d))->0,
        ),
        trees: inserted_all::<RelPath>(a.trees, b.trees),
        objects: inserted_all::<FileHandle>(a.objects, b.objects),
        written_handles: inserted_all::<FileHandle>(a.written_handles, b.written_handles),
        written_rels: inserted_all::<RelPath>(a.written_rels, b.written_rels),
    }
}

/// Puts every element of `more` into `list`.
fn insert_paths(list: &mut Vec<RelPath>, more: &Vec<RelPath>)
    ensures
        final(list).deep_view() == inserted_all::<RelPath>(old(list).deep_view(), more.deep_view()),
{
    let ghost s = list.deep_view();
    let ghost t = more.deep_view();
    let mut i: usize = 0;
    assert(t.subrange(0, 0) =~= Seq::<Seq<Seq<u8>>>::empty());
    while i < more.len()
        invariant
            i <= more@.len(),
            t == more.deep_view(),
            list.deep_view() == inserted_all::<RelPath>(s, t.subrange(0, i as int)),
        decreases more@.len() - i,
    {
        insert(list, more[i].clone());
        i += 1;
        assert(t.subrange(0, i as int).drop_last() =~= t.subrange(0, i - 1));
    }
    assert(t.subrange(0, i as int) =~= t);
}

/// Puts every element of `more` into `list`.
fn insert_handles(list: &mut Vec<FileHandle>, more: &Vec<FileHandle>)
    ensures
        final(list).deep_view() == inserted_all::<FileHandle>(old(list).deep_view(), more.deep_view()),
{
    let ghost s = list.deep_view();
    let ghost t = more.deep_view();
    let mut i: usize = 0;
    assert(t.subrange(0, 0) =~= Seq::<Seq<u8>>::empty());
    while i < more.len()
        invariant
            i <= more@.len(),
            t == more.deep_view(),
            list.deep_view() == inserted_all::<FileHandle>(s, t.subrange(0, i as int)),
        decreases more@.len() - i,
    {
        insert(list, more[i].clone());
        i += 1;
        assert(t.subrange(0, i as int).drop_last() =~= t.subrange(0, i - 1));
    }
    assert(t.subrange(0, i as int) =~= t);
}

/// Puts every name of `more` into `list`.
pub fn insert_names(list: &mut Vec<Vec<u8>>, more: &Vec<Vec<u8>>)
    ensures
        final(list).deep_view() == inserted_all::<Vec<u8>>(old(list).deep_view(), more.deep_view()),
{
    let ghost s = list.deep_view();
    let ghost t = more.deep_view();
    let mut i: usize = 0;
    assert(t.subrange(0, 0) =~= Seq::<Seq<u8>>::empty());
    while i < more.len()
        invariant
            i <= more@.len(),
            t == more.deep_view(),
            list.deep_view() == inserted_all::<Vec<u8>>(s, t.subrange(0, i as int)),
        decreases more@.len() - i,
    {
        let name = copy_bytes(&more[i]);
        proof {
            crate::path::lemma_deep_bytes(name);
            crate::path::lemma_deep_bytes(more@[i as int]);
        }
        insert(list, name);
        i += 1;
        assert(t.subrange(0, i as int).drop_last() =~= t.subrange(0, i - 1));
    }
    assert(t.subrange(0, i as int) =~= t);
}

/// The scope of one directory in two batches, as [`merged_scope`] has it.
pub fn join_scopes(a: Option<&DirScope>, b: &DirScope) -> (r: DirScope)
    ensures
        merged_scope(
            match a {
                Some(s) => Some(s@),
                None => None,
            },
            Some(b@),
        ) == Some(r@),
{
    match (a, b) {
        (Some(DirScope::Whole), _) => DirScope::Whole,
        (_, DirScope::Whole) => DirScope::Whole,
        (Some(DirScope::Names(x)), DirScope::Names(y)) => {
            let mut names = copy_names(x);
            insert_names(&mut names, y);
            DirScope::Names(names)
        },
        (None, DirScope::Names(y)) => {
            let mut names: Vec<Vec<u8>> = Vec::new();
            assert(names.deep_view() =~= Seq::<Seq<u8>>::empty());
            insert_names(&mut names, y);
            DirScope::Names(names)
        },
    }
}

impl Batch {
    pub open spec fn wf(&self) -> bool {
        self.dirs.wf()
    }

    pub fn new() -> (r: Self)
        ensures
            r.wf(),
            r@ == no_batch(),
    {
        let r = Batch {
            full: false,
            dirs: SortedMap::new(),
            trees: Vec::new(),
            objects: Vec::new(),
            written_handles: Vec::new(),
            written_rels: Vec::new(),
        };
        assert(r@ =~= no_batch());
        r
    }

    /// Every directory of the folder: the Full local scan.
    pub fn full() -> (r: Self)
        ensures
            r.wf(),
            r@ == (BatchModel { full: true, ..no_batch() }),
            r@ == full_batch(),
    {
        let mut r = Batch::new();
        r.full = true;
        r
    }

    pub fn is_full(&self) -> (r: bool)
        ensures
            r == self@.full,
    {
        self.full
    }

    pub fn is_empty(&self) -> (r: bool)
        requires
            self.wf(),
        ensures
            r == (!self@.full && self@.dirs == Map::<Seq<Seq<u8>>, ScopeModel>::empty()
                && self@.trees.len() == 0 && self@.objects.len() == 0),
            r == asks_nothing(self@),
    {
        proof {
            self.dirs.lemma_keys();
            if self.dirs.keys().len() > 0 {
                assert(self.dirs.keys().contains(self.dirs.keys()[0]));
                assert(self@.dirs.contains_key(self.dirs.keys()[0]));
            } else {
                assert forall|k: Seq<Seq<u8>>| !self@.dirs.contains_key(k) by {
                    assert(!self.dirs.keys().contains(k));
                }
                assert(self@.dirs =~= Map::<Seq<Seq<u8>>, ScopeModel>::empty());
            }
        }
        !self.full && self.dirs.len() == 0 && self.trees.len() == 0 && self.objects.len() == 0
    }

    /// `name` in `dir` (relative to the root) was touched. `"."` is `dir`
    /// itself: its own entry in its parent is examined. The root's own
    /// events are the watcher's (the folder moved or went), never a change.
    pub fn name(&mut self, dir: &RelPath, name: &[u8])
        requires
            old(self).wf(),
        ensures
            final(self).wf(),
            final(self)@ == with_name(old(self)@, dir@, name@),
        decreases dir@.len(),
    {
        let own: [u8; 1] = [46u8];
        assert(own@ =~= own_name());
        if same_bytes(name, &own) {
            if let Some(parent) = dir.parent() {
                if let Some(last) = dir.file_name() {
                    self.name(&parent, last);
                }
            }
            return ;
        }
        let scope = match self.dirs.get(dir) {
            Some(DirScope::Whole) => DirScope::Whole,
            Some(DirScope::Names(names)) => {
                let mut names = copy_names(names);
                let one = copy_bytes(name);
                proof {
                    crate::path::lemma_deep_bytes(one);
                }
                insert(&mut names, one);
                DirScope::Names(names)
            },
            None => {
                let mut names: Vec<Vec<u8>> = Vec::new();
                let one = copy_bytes(name);
                proof {
                    crate::path::lemma_deep_bytes(one);
                }
                names.push(one);
                assert(names.deep_view() =~= seq![name@]);
                DirScope::Names(names)
            },
        };
        self.dirs.set(dir.clone(), scope);
    }

    /// Examine all of `dir`.
    pub fn dir(&mut self, dir: &RelPath)
        requires
            old(self).wf(),
        ensures
            final(self).wf(),
            final(self)@ == (BatchModel {
                dirs: old(self)@.dirs.insert(dir@, ScopeModel::Whole),
                ..old(self)@
            }),
            final(self)@ == with_dir(old(self)@, dir@),
    {
        self.dirs.set(dir.clone(), DirScope::Whole);
    }

    /// `dir` and everything below it: a directory new to the folder, or
    /// moved into it.
    pub fn tree(&mut self, dir: &RelPath)
        requires
            old(self).wf(),
        ensures
            final(self).wf(),
            final(self)@ == (BatchModel {
                trees: inserted::<RelPath>(old(self)@.trees, dir@),
                ..old(self)@
            }),
            final(self)@ == with_tree(old(self)@, dir@),
    {
        insert(&mut self.trees, dir.clone());
    }

    /// An event's object handle.
    pub fn object(&mut self, handle: FileHandle)
        requires
            old(self).wf(),
        ensures
            final(self).wf(),
            final(self)@ == (BatchModel {
                objects: inserted::<FileHandle>(old(self)@.objects, handle@),
                ..old(self)@
            }),
            final(self)@ == with_object(old(self)@, handle@),
    {
        insert(&mut self.objects, handle);
    }

    /// `name` in `dir` was closed after writing, with the object's handle
    /// when the event carried one.
    pub fn written(&mut self, dir: &RelPath, name: &[u8], handle: Option<FileHandle>)
        requires
            old(self).wf(),
        ensures
            final(self).wf(),
            final(self)@ == with_written(old(self)@, dir@, name@, handle.deep_view()),
    {
        self.name(dir, name);
        insert(&mut self.written_rels, dir.join(name));
        if let Some(handle) = handle {
            insert(&mut self.objects, handle.clone());
            insert(&mut self.written_handles, handle);
        }
    }

    /// Everything `other` holds, added to this batch.
    pub fn merge(&mut self, other: Batch)
        requires
            old(self).wf(),
            other.wf(),
        ensures
            final(self).wf(),
            final(self)@ == merged(old(self)@, other@),
    {
        let ghost was = self@;
        let ghost keys = other.dirs.keys();
        proof {
            other.dirs.lemma_keys();
        }
        self.full = self.full || other.full;
        let mut i: usize = 0;
        while i < other.dirs.len()
            invariant
                i <= keys.len(),
                self.wf(),
                other.wf(),
                keys == other.dirs.keys(),
                crate::sorted::rising::<RelPath>(keys),
                forall|k: Seq<Seq<u8>>| other@.dirs.contains_key(k) <==> #[trigger] keys.contains(k),
                self@ == (BatchModel { full: was.full || other@.full, dirs: self@.dirs, ..was }),
                forall|d: Seq<Seq<u8>>|
                    (exists|j: int| 0 <= j < i && keys[j] == d) ==> #[trigger] self@.dirs.get(d)
                        == merged_scope(was.dirs.get(d), other@.dirs.get(d)),
                forall|d: Seq<Seq<u8>>|
                    !(exists|j: int| 0 <= j < i && keys[j] == d) ==> #[trigger] self@.dirs.get(d)
                        == was.dirs.get(d),
            decreases keys.len() - i,
        {
            let ghost before = self@.dirs;
            let dir = other.dirs.key(i);
            let scope = join_scopes(self.dirs.get(dir), other.dirs.val(i));
            proof {
                assert(!(exists|j: int| 0 <= j < i && keys[j] == keys[i as int])) by {
                    if exists|j: int| 0 <= j < i && keys[j] == keys[i as int] {
                        let j = choose|j: int| 0 <= j < i && keys[j] == keys[i as int];
                        <RelPath as crate::sorted::Ordered>::lemma_irreflexive(keys[j]);
                        assert(crate::path::path_lt(keys[j], keys[i as int]));
                    }
                }
                assert(before.get(keys[i as int]) == was.dirs.get(keys[i as int]));
            }
            self.dirs.set(dir.clone(), scope);
            i += 1;
            proof {
                assert forall|d: Seq<Seq<u8>>|
                    (exists|j: int| 0 <= j < i && keys[j] == d) implies #[trigger] self@.dirs.get(d)
                    == merged_scope(was.dirs.get(d), other@.dirs.get(d)) by {
                    if d != keys[i - 1] {
                        let j = choose|j: int| 0 <= j < i && keys[j] == d;
                        assert(0 <= j < i - 1);
                        assert(before.get(d) == merged_scope(was.dirs.get(d), other@.dirs.get(d)));
                    }
                }
                assert forall|d: Seq<Seq<u8>>|
                    !(exists|j: int| 0 <= j < i && keys[j] == d) implies #[trigger] self@.dirs.get(d)
                    == was.dirs.get(d) by {
                    assert(d != keys[i - 1]);
                    assert(!(exists|j: int| 0 <= j < i - 1 && keys[j] == d));
                    assert(before.get(d) == was.dirs.get(d));
                }
            }
        }
        insert_paths(&mut self.trees, &other.trees);
        insert_handles(&mut self.objects, &other.objects);
        insert_handles(&mut self.written_handles, &other.written_handles);
        insert_paths(&mut self.written_rels, &other.written_rels);
        proof {
            let want = merged(was, other@);
            assert forall|d: Seq<Seq<u8>>| true implies #[trigger] self@.dirs.get(d)
                == want.dirs.get(d) by {
                if other@.dirs.contains_key(d) {
                    assert(keys.contains(d));
                    let j = choose|j: int| 0 <= j < keys.len() && keys[j] == d;
                    assert(0 <= j < i && keys[j] == d);
                } else if exists|j: int| 0 <= j < i && keys[j] == d {
                    let j = choose|j: int| 0 <= j < i && keys[j] == d;
                    assert(keys.contains(keys[j]));
                }
            }
            assert forall|d: Seq<Seq<u8>>| true implies #[trigger] self@.dirs.contains_key(d)
                == want.dirs.contains_key(d) && (self@.dirs.contains_key(d) ==> self@.dirs[d]
                == want.dirs[d]) by {
                assert(self@.dirs.get(d) == want.dirs.get(d));
            }
            assert(self@.dirs =~= want.dirs);
        }
    }
}

/// A directory that either batch examines whole, both merged examine whole; and
/// a name touched in it changes nothing of that.
pub proof fn law_whole_directory_wins(a: BatchModel, b: BatchModel, dir: Seq<Seq<u8>>, name: Seq<u8>)
    ensures
        (a.dirs.get(dir) == Some(ScopeModel::Whole) || b.dirs.get(dir) == Some(ScopeModel::Whole))
            ==> merged(a, b).dirs.get(dir) == Some(ScopeModel::Whole),
        a.dirs.get(dir) == Some(ScopeModel::Whole) && name != own_name() ==> with_name(
            a,
            dir,
            name,
        ).dirs.get(dir) == Some(ScopeModel::Whole),
{
}

} // verus!
