//! The space the folder takes.

use vstd::prelude::*;
use vstd::utf8::*;
use vstd::string::*;
use crate::local::run::push_to;
use crate::os::Type;
use crate::path::{begins_bytes, has_prefix, PathModel, RelPath};
use crate::text::same_text;

verus! {

/// A name konedrive keeps for itself, never a user's file.
pub open spec fn is_reserved(name: Seq<u8>) -> bool {
    begins_bytes(name, encode_utf8(".konedrive-"@))
}

/// Whether a name is one konedrive keeps for itself.
pub fn reserved(name: &[u8]) -> (r: bool)
    ensures
        r == is_reserved(name@),
{
    has_prefix(name, ".konedrive-".as_bytes())
}

/// An entry of a directory, as `lstat` tells it.
#[derive(Debug)]
pub struct WalkEntry {
    pub name: Vec<u8>,
    pub ty: Type,
    /// The filesystem it is on.
    pub dev: u64,
}

/// A walk over the regular files of a folder: which directory to read next,
/// and which of its entries count. Nothing is opened but directories, no
/// symbolic link is followed, and no other filesystem entered.
pub struct Walk {
    root_dev: u64,
    max_depth: u32,
    dirs: Vec<RelPath>,
}

/// Where a walk is: the directories still to read, the last one next.
#[verifier::ext_equal]
pub struct WalkModel {
    pub root_dev: u64,
    pub max_depth: nat,
    pub dirs: Seq<PathModel>,
}

impl View for Walk {
    type V = WalkModel;

    closed spec fn view(&self) -> WalkModel {
        WalkModel {
            root_dev: self.root_dev,
            max_depth: self.max_depth as nat,
            dirs: self.dirs.deep_view(),
        }
    }
}

/// A regular file that counts.
pub open spec fn counts(e: WalkEntry) -> bool {
    !is_reserved(e.name@) && e.ty == Type::File
}

/// A directory of `dir` that is read too.
pub open spec fn descends_into(w: WalkModel, dir: PathModel, e: WalkEntry) -> bool {
    !is_reserved(e.name@) && e.ty == Type::Dir && dir.len() < w.max_depth && e.dev == w.root_dev
}

/// The first `n` entries of `dir` that are files which count.
pub open spec fn files_of(entries: Seq<WalkEntry>, n: int) -> Seq<usize>
    decreases n,
{
    if n <= 0 {
        Seq::empty()
    } else if counts(entries[n - 1]) {
        files_of(entries, n - 1).push((n - 1) as usize)
    } else {
        files_of(entries, n - 1)
    }
}

/// The walk once the first `n` entries of `dir` are seen.
pub open spec fn walked(w: WalkModel, dir: PathModel, entries: Seq<WalkEntry>, n: int) -> WalkModel
    decreases n,
{
    if n <= 0 {
        w
    } else {
        let before = walked(w, dir, entries, n - 1);
        if descends_into(w, dir, entries[n - 1]) {
            WalkModel { dirs: before.dirs.push(dir.push(entries[n - 1].name@)), ..before }
        } else {
            before
        }
    }
}

impl Walk {
    /// A walk of the folder on filesystem `root_dev`, no deeper than
    /// `max_depth`.
    pub fn new(root_dev: u64, max_depth: u32) -> (r: Self)
        ensures
            r@ == (WalkModel { root_dev, max_depth: max_depth as nat, dirs: seq![Seq::empty()] }),
    {
        let mut dirs: Vec<RelPath> = Vec::new();
        assert(dirs.deep_view() =~= Seq::<PathModel>::empty());
        push_to(&mut dirs, RelPath::root());
        let r = Walk { root_dev, max_depth, dirs };
        assert(r@.dirs =~= seq![Seq::<Seq<u8>>::empty()]);
        r
    }

    /// The directory to read next.
    pub fn next_dir(&mut self) -> (r: Option<RelPath>)
        ensures
            match r {
                None => old(self)@.dirs.len() == 0 && final(self)@ == old(self)@,
                Some(dir) => old(self)@.dirs.len() > 0 && dir@ == old(self)@.dirs.last()
                    && final(self)@ == (WalkModel { dirs: old(self)@.dirs.drop_last(), ..old(self)@ }),
            },
    {
        match self.dirs.pop() {
            None => None,
            Some(dir) => {
                assert(old(self)@.dirs.last() == dir@);
                assert(self@.dirs =~= old(self)@.dirs.drop_last());
                Some(dir)
            },
        }
    }

    /// The entries of `dir`: which of them are files that count. Its
    /// directories are read later.
    pub fn seen(&mut self, dir: &RelPath, entries: &Vec<WalkEntry>) -> (files: Vec<usize>)
        ensures
            files@ == files_of(entries@, entries@.len() as int),
            final(self)@ == walked(old(self)@, dir@, entries@, entries@.len() as int),
    {
        let ghost first = self@;
        let mut files: Vec<usize> = Vec::new();
        let mut i: usize = 0;
        while i < entries.len()
            invariant
                first == old(self)@,
                i <= entries@.len(),
                files@ == files_of(entries@, i as int),
                self@ == walked(first, dir@, entries@, i as int),
                self@.max_depth == first.max_depth,
                self@.root_dev == first.root_dev,
            decreases entries@.len() - i,
        {
            if !reserved(&entries[i].name) {
                match entries[i].ty {
                    Type::Dir => {
                        let deep = dir.depth() >= self.max_depth as usize;
                        if !deep && entries[i].dev == self.root_dev {
                            let below = dir.join(&entries[i].name);
                            push_to(&mut self.dirs, below);
                        }
                    },
                    Type::File => {
                        files.push(i);
                    },
                    _ => {},
                }
            }
            i += 1;
        }
        files
    }
}

/// The sum of the first `n` of `s`.
pub open spec fn sum_of(s: Seq<u64>, n: int) -> nat
    decreases n,
{
    if n <= 0 {
        0
    } else {
        sum_of(s, n - 1) + s[n - 1] as nat
    }
}

proof fn lemma_sum_rises(s: Seq<u64>, a: int, b: int)
    requires
        0 <= a <= b <= s.len(),
    ensures
        sum_of(s, a) <= sum_of(s, b),
    decreases b - a,
{
    if a < b {
        lemma_sum_rises(s, a, b - 1);
    }
}

/// What the folder's regular files take on disk, `blocks` being those of each
/// (of 512 bytes): a placeholder counts as what it occupies, not its size.
pub fn local_bytes(blocks: &Vec<u64>) -> (r: u64)
    requires
        sum_of(blocks@, blocks@.len() as int) * 512 <= u64::MAX,
    ensures
        r == sum_of(blocks@, blocks@.len() as int) * 512,
{
    let mut total: u64 = 0;
    let mut i: usize = 0;
    while i < blocks.len()
        invariant
            i <= blocks@.len(),
            sum_of(blocks@, blocks@.len() as int) * 512 <= u64::MAX,
            total == sum_of(blocks@, i as int) * 512,
        decreases blocks@.len() - i,
    {
        proof {
            lemma_sum_rises(blocks@, i as int + 1, blocks@.len() as int);
        }
        total = total + blocks[i] * 512;
        i += 1;
    }
    total
}

/// The space published once a walk of the folder at `walked` has found `bytes`.
pub open spec fn published_space(published: u64, root: Seq<char>, walked: Seq<char>, bytes: u64) -> u64 {
    if root == walked {
        bytes
    } else {
        published
    }
}

/// The space published once a walk of the folder at `walked` has found `bytes`,
/// the folder registered now being at `root`: what it found is not about
/// another folder, registered meanwhile.
pub fn measured(published: u64, root: &str, walked: &str, bytes: u64) -> (r: u64)
    ensures
        r == if root@ == walked@ {
            bytes
        } else {
            published
        },
        r == published_space(published, root@, walked@, bytes),
{
    if same_text(root, walked) {
        bytes
    } else {
        published
    }
}

/// A walk never enters what konedrive keeps for itself, nor another
/// filesystem, nor anything deeper than it may.
pub proof fn law_a_walk_stays_inside(w: WalkModel, dir: PathModel, entries: Seq<WalkEntry>, n: int, k: int)
    requires
        0 <= n <= entries.len(),
        w.dirs.len() <= k < walked(w, dir, entries, n).dirs.len(),
    ensures
        exists|i: int|
            0 <= i < n && descends_into(w, dir, #[trigger] entries[i]) && walked(
                w,
                dir,
                entries,
                n,
            ).dirs[k] == dir.push(entries[i].name@),
    decreases n,
{
    if n > 0 {
        let before = walked(w, dir, entries, n - 1);
        if k < before.dirs.len() {
            law_a_walk_stays_inside(w, dir, entries, n - 1, k);
        } else {
            assert(descends_into(w, dir, entries[n - 1]));
        }
    }
}

} // verus!
