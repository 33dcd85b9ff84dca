//! What an examination finds out while it decides: each question is put once,
//! by its subject, and the answer kept.
//!
//! The decisions themselves touch nothing. Where one needs to know where an
//! object is, what stands at a place or what a file holds — or needs a file's
//! attributes taken off before it goes on — it stops and asks; it is run again
//! with the answer.

use vstd::prelude::*;
use crate::local::entry::State;
use crate::local::liveness::{
    absent_below, proved_absent, Standing, StandingModel, Whereabouts, WhereaboutsModel,
};
use crate::local::world::{World, WorldModel};
use crate::path::{is_sure, parts_of, split, starts_with, AbsPath, PathModel, RelPath};
use crate::tree::FileHandle;

verus! {

/// How taking a file's attributes off went.
#[derive(Debug, Clone, Copy, PartialEq, Eq, Structural)]
pub enum Stripped {
    Done,
    Failed(i32),
}

/// A file opened again, and whether it is still the object that was read.
#[derive(Debug, Clone, Copy, PartialEq, Eq, Structural)]
pub enum Checked {
    Failed(i32),
    /// Gone, or another object by now.
    Other,
    Same {
        /// Its state, when it has one that can be read.
        state: Option<State>,
        /// Whether a writer has it open; nothing when it cannot be told.
        writing: Option<bool>,
    },
}

/// A file's size and time before it was read, its hash, and both again.
#[derive(Debug)]
pub struct Digest {
    pub before: (i64, i64, i64),
    pub hash: String,
    pub after: (i64, i64, i64),
}

#[verifier::ext_equal]
pub struct DigestModel {
    pub before: (i64, i64, i64),
    pub hash: Seq<char>,
    pub after: (i64, i64, i64),
}

/// How a digest went: its own error, or what it says.
#[derive(Debug)]
pub enum Hashed {
    Failed(i32),
    Read(Digest),
}

#[verifier::ext_equal]
pub enum HashedModel {
    Failed(i32),
    Read(DigestModel),
}

impl View for Hashed {
    type V = HashedModel;

    open spec fn view(&self) -> HashedModel {
        match self {
            Hashed::Failed(e) => HashedModel::Failed(*e),
            Hashed::Read(d) => HashedModel::Read(
                DigestModel { before: d.before, hash: d.hash@, after: d.after },
            ),
        }
    }
}

/// How giving a cut placeholder its size and time back went.
#[derive(Debug, Clone, Copy, PartialEq, Eq, Structural)]
pub enum Restored {
    Done,
    /// Another object by now, being filled, or no placeholder any more.
    Busy,
    Failed(i32),
}

/// What the directory entry at a place is: managed, or the user's own.
#[derive(Debug, Clone, Copy, PartialEq, Eq, Structural)]
pub enum Probed {
    Managed,
    Own,
    Failed,
}

/// A question. Entries are named by their number.
#[derive(Debug)]
pub enum Ask {
    /// Where is the object this handle names?
    Whereabouts(FileHandle),
    /// What stands at this place in the folder?
    Standing(RelPath),
    /// What stands at this place inside what is now at that absolute path?
    StandingOut(AbsPath, RelPath),
    /// Can the directory at this place be opened?
    Dir(RelPath),
    /// Take this entry's attributes off.
    Strip(usize),
    /// Open this entry again: is it the same, and is it being written?
    Check(usize),
    /// Hash this entry.
    Hash(usize),
    /// Give this placeholder the cloud's size and time back.
    Restore(usize),
    /// Is the directory at this place managed?
    Probe(RelPath),
    /// Which device and inode is the directory at this place?
    DirInode(RelPath),
}

#[verifier::ext_equal]
pub enum AskModel {
    Whereabouts(Seq<u8>),
    Standing(PathModel),
    StandingOut(Seq<u8>, PathModel),
    Dir(PathModel),
    Strip(usize),
    Check(usize),
    Hash(usize),
    Restore(usize),
    Probe(PathModel),
    DirInode(PathModel),
}

impl View for Ask {
    type V = AskModel;

    open spec fn view(&self) -> AskModel {
        match self {
            Ask::Whereabouts(h) => AskModel::Whereabouts(h@),
            Ask::Standing(rel) => AskModel::Standing(rel@),
            Ask::StandingOut(went, rel) => AskModel::StandingOut(went@, rel@),
            Ask::Dir(rel) => AskModel::Dir(rel@),
            Ask::Strip(i) => AskModel::Strip(*i),
            Ask::Check(i) => AskModel::Check(*i),
            Ask::Hash(i) => AskModel::Hash(*i),
            Ask::Restore(i) => AskModel::Restore(*i),
            Ask::Probe(rel) => AskModel::Probe(rel@),
            Ask::DirInode(rel) => AskModel::DirInode(rel@),
        }
    }
}

/// Why a decision could not go on.
#[derive(Debug)]
pub enum Stop {
    /// This has to be known first.
    Ask(Ask),
    /// The folder could not be read: this error number.
    Failed(i32),
    /// The base is no tree: an item is in itself.
    NoTree,
}

#[verifier::ext_equal]
pub enum StopModel {
    Ask(AskModel),
    Failed(i32),
    NoTree,
}

impl View for Stop {
    type V = StopModel;

    open spec fn view(&self) -> StopModel {
        match self {
            Stop::Ask(ask) => StopModel::Ask(ask@),
            Stop::Failed(e) => StopModel::Failed(*e),
            Stop::NoTree => StopModel::NoTree,
        }
    }
}

/// The answers so far.
#[derive(Debug)]
pub struct Facts {
    /// Nothing where the question could not be answered.
    pub told: Vec<(FileHandle, Option<Whereabouts>)>,
    pub standing: Vec<(RelPath, Standing)>,
    pub standing_out: Vec<(AbsPath, RelPath, Standing)>,
    /// The error number where the directory could not be opened.
    pub dirs: Vec<(RelPath, Option<i32>)>,
    pub stripped: Vec<(usize, Stripped)>,
    pub checked: Vec<(usize, Checked)>,
    pub hashed: Vec<(usize, Hashed)>,
    pub restored: Vec<(usize, Restored)>,
    pub probed: Vec<(RelPath, Probed)>,
    /// Nothing where the directory could not be opened.
    pub dir_inodes: Vec<(RelPath, Option<(u64, u64)>)>,
}

/// The first answer about the handle `h`, from `i` on.
pub open spec fn told_from(
    told: Seq<(FileHandle, Option<Whereabouts>)>,
    h: Seq<u8>,
    i: int,
) -> Option<Option<WhereaboutsModel>>
    decreases told.len() - i,
{
    if i >= told.len() {
        None
    } else if told[i].0@ == h {
        Some(
            match told[i].1 {
                Some(w) => Some(w@),
                None => None,
            },
        )
    } else {
        told_from(told, h, i + 1)
    }
}

/// The first answer about the place `rel`, from `i` on.
pub open spec fn standing_from(s: Seq<(RelPath, Standing)>, rel: PathModel, i: int) -> Option<StandingModel>
    decreases s.len() - i,
{
    if i >= s.len() {
        None
    } else if s[i].0@ == rel {
        Some(s[i].1@)
    } else {
        standing_from(s, rel, i + 1)
    }
}

pub open spec fn standing_out_from(
    s: Seq<(AbsPath, RelPath, Standing)>,
    went: Seq<u8>,
    rel: PathModel,
    i: int,
) -> Option<StandingModel>
    decreases s.len() - i,
{
    if i >= s.len() {
        None
    } else if s[i].0@ == went && s[i].1@ == rel {
        Some(s[i].2@)
    } else {
        standing_out_from(s, went, rel, i + 1)
    }
}

/// The first answer about entry `e`, from `i` on.
pub open spec fn by_entry_from<T>(s: Seq<(usize, T)>, e: usize, i: int) -> Option<T>
    decreases s.len() - i,
{
    if i >= s.len() {
        None
    } else if s[i].0 == e {
        Some(s[i].1)
    } else {
        by_entry_from(s, e, i + 1)
    }
}

/// The first answer about the place `rel`, from `i` on.
pub open spec fn by_place_from<T>(s: Seq<(RelPath, T)>, rel: PathModel, i: int) -> Option<T>
    decreases s.len() - i,
{
    if i >= s.len() {
        None
    } else if s[i].0@ == rel {
        Some(s[i].1)
    } else {
        by_place_from(s, rel, i + 1)
    }
}

/// The answers, by their subjects.
impl Facts {
    pub open spec fn told_of(&self, h: Seq<u8>) -> Option<Option<WhereaboutsModel>> {
        told_from(self.told@, h, 0)
    }

    pub open spec fn standing_of(&self, rel: PathModel) -> Option<StandingModel> {
        standing_from(self.standing@, rel, 0)
    }

    pub open spec fn standing_out_of(&self, went: Seq<u8>, rel: PathModel) -> Option<StandingModel> {
        standing_out_from(self.standing_out@, went, rel, 0)
    }

    pub open spec fn dir_of(&self, rel: PathModel) -> Option<Option<i32>> {
        by_place_from(self.dirs@, rel, 0)
    }

    pub open spec fn stripped_of(&self, e: usize) -> Option<Stripped> {
        by_entry_from(self.stripped@, e, 0)
    }

    pub open spec fn checked_of(&self, e: usize) -> Option<Checked> {
        by_entry_from(self.checked@, e, 0)
    }

    pub open spec fn hashed_of(&self, e: usize) -> Option<HashedModel> {
        match by_entry_from(self.hashed@, e, 0) {
            Some(h) => Some(h@),
            None => None,
        }
    }

    pub open spec fn restored_of(&self, e: usize) -> Option<Restored> {
        by_entry_from(self.restored@, e, 0)
    }

    pub open spec fn probed_of(&self, rel: PathModel) -> Option<Probed> {
        by_place_from(self.probed@, rel, 0)
    }

    pub open spec fn dir_inode_of(&self, rel: PathModel) -> Option<Option<(u64, u64)>> {
        by_place_from(self.dir_inodes@, rel, 0)
    }

    /// Nothing found out yet.
    pub fn new() -> (r: Self)
        ensures
            forall|h: Seq<u8>| r.told_of(h) is None,
            forall|rel: PathModel| r.standing_of(rel) is None,
            forall|went: Seq<u8>, rel: PathModel| r.standing_out_of(went, rel) is None,
            forall|rel: PathModel| r.dir_of(rel) is None,
            forall|e: usize| r.stripped_of(e) is None,
            forall|e: usize| r.checked_of(e) is None,
            forall|e: usize| r.hashed_of(e) is None,
            forall|e: usize| r.restored_of(e) is None,
            forall|rel: PathModel| r.probed_of(rel) is None,
            forall|rel: PathModel| r.dir_inode_of(rel) is None,
    {
        Facts {
            told: Vec::new(),
            standing: Vec::new(),
            standing_out: Vec::new(),
            dirs: Vec::new(),
            stripped: Vec::new(),
            checked: Vec::new(),
            hashed: Vec::new(),
            restored: Vec::new(),
            probed: Vec::new(),
            dir_inodes: Vec::new(),
        }
    }

    fn told(&self, h: &FileHandle) -> (r: Option<&Option<Whereabouts>>)
        ensures
            match r {
                Some(w) => self.told_of(h@) == Some(w.deep_view()),
                None => self.told_of(h@) is None,
            },
    {
        let mut i: usize = 0;
        while i < self.told.len()
            invariant
                i <= self.told@.len(),
                self.told_of(h@) == told_from(self.told@, h@, i as int),
            decreases self.told@.len() - i,
        {
            if self.told[i].0.same(h) {
                return Some(&self.told[i].1);
            }
            i += 1;
        }
        None
    }

    fn standing(&self, rel: &RelPath) -> (r: Option<&Standing>)
        ensures
            match r {
                Some(s) => self.standing_of(rel@) == Some(s@),
                None => self.standing_of(rel@) is None,
            },
    {
        let mut i: usize = 0;
        while i < self.standing.len()
            invariant
                i <= self.standing@.len(),
                self.standing_of(rel@) == standing_from(self.standing@, rel@, i as int),
            decreases self.standing@.len() - i,
        {
            if self.standing[i].0.same(rel) {
                return Some(&self.standing[i].1);
            }
            i += 1;
        }
        None
    }

    fn standing_out(&self, went: &AbsPath, rel: &RelPath) -> (r: Option<&Standing>)
        ensures
            match r {
                Some(s) => self.standing_out_of(went@, rel@) == Some(s@),
                None => self.standing_out_of(went@, rel@) is None,
            },
    {
        let mut i: usize = 0;
        while i < self.standing_out.len()
            invariant
                i <= self.standing_out@.len(),
                self.standing_out_of(went@, rel@) == standing_out_from(
                    self.standing_out@,
                    went@,
                    rel@,
                    i as int,
                ),
            decreases self.standing_out@.len() - i,
        {
            if self.standing_out[i].0.same(went) && self.standing_out[i].1.same(rel) {
                return Some(&self.standing_out[i].2);
            }
            i += 1;
        }
        None
    }

    pub fn dir(&self, rel: &RelPath) -> (r: Option<Option<i32>>)
        ensures
            r == self.dir_of(rel@),
    {
        match by_place(&self.dirs, rel) {
            Some(p) => Some(*p),
            None => None,
        }
    }

    pub fn stripped(&self, e: usize) -> (r: Option<Stripped>)
        ensures
            r == self.stripped_of(e),
    {
        match by_entry(&self.stripped, e) {
            Some(s) => Some(*s),
            None => None,
        }
    }

    pub fn checked(&self, e: usize) -> (r: Option<Checked>)
        ensures
            r == self.checked_of(e),
    {
        match by_entry(&self.checked, e) {
            Some(s) => Some(*s),
            None => None,
        }
    }

    pub fn hashed(&self, e: usize) -> (r: Option<&Hashed>)
        ensures
            match r {
                Some(h) => self.hashed_of(e) == Some(h@),
                None => self.hashed_of(e) is None,
            },
    {
        by_entry(&self.hashed, e)
    }

    pub fn restored(&self, e: usize) -> (r: Option<Restored>)
        ensures
            r == self.restored_of(e),
    {
        match by_entry(&self.restored, e) {
            Some(s) => Some(*s),
            None => None,
        }
    }

    pub fn probed(&self, rel: &RelPath) -> (r: Option<Probed>)
        ensures
            r == self.probed_of(rel@),
    {
        match by_place(&self.probed, rel) {
            Some(p) => Some(*p),
            None => None,
        }
    }

    pub fn dir_inode(&self, rel: &RelPath) -> (r: Option<Option<(u64, u64)>>)
        ensures
            r == self.dir_inode_of(rel@),
    {
        match by_place(&self.dir_inodes, rel) {
            Some(p) => Some(*p),
            None => None,
        }
    }
}

fn by_entry<T>(s: &Vec<(usize, T)>, e: usize) -> (r: Option<&T>)
    ensures
        match r {
            Some(t) => by_entry_from(s@, e, 0) == Some(*t),
            None => by_entry_from(s@, e, 0) is None,
        },
{
    let mut i: usize = 0;
    while i < s.len()
        invariant
            i <= s@.len(),
            by_entry_from(s@, e, 0) == by_entry_from(s@, e, i as int),
        decreases s@.len() - i,
    {
        if s[i].0 == e {
            return Some(&s[i].1);
        }
        i += 1;
    }
    None
}

fn by_place<'a, T>(s: &'a Vec<(RelPath, T)>, rel: &RelPath) -> (r: Option<&'a T>)
    ensures
        match r {
            Some(t) => by_place_from(s@, rel@, 0) == Some(*t),
            None => by_place_from(s@, rel@, 0) is None,
        },
{
    let mut i: usize = 0;
    while i < s.len()
        invariant
            i <= s@.len(),
            by_place_from(s@, rel@, 0) == by_place_from(s@, rel@, i as int),
        decreases s@.len() - i,
    {
        if s[i].0.same(rel) {
            return Some(&s[i].1);
        }
        i += 1;
    }
    None
}

/// Where an object is, as far as the examination can tell.
#[derive(Debug)]
pub enum Place {
    Gone,
    /// Beneath the root, proved by its handle at that place.
    Inside(RelPath),
    /// Outside the folder, at this absolute path.
    Outside(AbsPath),
    /// Could not be asked, or the answer says nothing sure.
    Unknown,
}

#[verifier::ext_equal]
pub enum PlaceModel {
    Gone,
    Inside(PathModel),
    Outside(Seq<u8>),
    Unknown,
}

impl View for Place {
    type V = PlaceModel;

    open spec fn view(&self) -> PlaceModel {
        match self {
            Place::Gone => PlaceModel::Gone,
            Place::Inside(rel) => PlaceModel::Inside(rel@),
            Place::Outside(path) => PlaceModel::Outside(path@),
            Place::Unknown => PlaceModel::Unknown,
        }
    }
}

/// Where the path `path` is beneath the root `root`.
pub open spec fn beneath(path: Seq<u8>, root: Seq<u8>) -> Option<PathModel> {
    let p = parts_of(path);
    let r = parts_of(root);
    if starts_with(p, r) {
        Some(p.subrange(r.len() as int, p.len() as int))
    } else {
        None
    }
}

/// Where the object `handle` is: the answer, placed. An answer is "outside"
/// only when the path is sure and not beneath the root; "inside" only when the
/// object's own handle stands at that place beneath the root; "gone" only for
/// handles of this filesystem. Anything else decides nothing.
pub open spec fn place_of(w: WorldModel, f: Facts, handle: Seq<u8>) -> Result<PlaceModel, StopModel> {
    match f.told_of(handle) {
        None => Err(StopModel::Ask(AskModel::Whereabouts(handle))),
        Some(None) => Ok(PlaceModel::Unknown),
        Some(Some(WhereaboutsModel::Gone)) => if w.handles_current {
            Ok(PlaceModel::Gone)
        } else {
            Ok(PlaceModel::Unknown)
        },
        Some(Some(WhereaboutsModel::At(path))) => match w.root_path {
            None => Ok(PlaceModel::Unknown),
            Some(root) => if !is_sure(path) {
                Ok(PlaceModel::Unknown)
            } else {
                match beneath(path, root) {
                    None => Ok(PlaceModel::Outside(path)),
                    Some(rel) => if rel.len() == 0 {
                        Ok(PlaceModel::Unknown)
                    } else {
                        match f.standing_of(rel) {
                            None => Err(StopModel::Ask(AskModel::Standing(rel))),
                            Some(standing) => if standing == StandingModel::There(handle) {
                                Ok(PlaceModel::Inside(rel))
                            } else {
                                Ok(PlaceModel::Unknown)
                            },
                        }
                    },
                }
            },
        },
    }
}

/// Whether the object `handle` is proved absent from its place `rel`.
pub open spec fn absent_of(f: Facts, rel: PathModel, handle: Seq<u8>) -> Result<bool, StopModel> {
    if rel.len() == 0 {
        Ok(false)
    } else {
        match f.standing_of(rel) {
            None => Err(StopModel::Ask(AskModel::Standing(rel))),
            Some(standing) => Ok(proved_absent(standing, handle)),
        }
    }
}

/// The same for `at`, inside the folder at `folder` — which is now at `went`
/// if it left.
pub open spec fn absent_with(
    f: Facts,
    at: PathModel,
    folder: PathModel,
    went: Option<Seq<u8>>,
    handle: Seq<u8>,
) -> Result<bool, StopModel> {
    match went {
        None => absent_of(f, at, handle),
        Some(to) => if starts_with(at, folder) {
            let rest = at.subrange(folder.len() as int, at.len() as int);
            match f.standing_out_of(to, rest) {
                None => Err(StopModel::Ask(AskModel::StandingOut(to, rest))),
                Some(standing) => Ok(proved_absent(standing, handle)),
            }
        } else {
            Ok(false)
        },
    }
}

/// How a decision's result reads.
pub open spec fn told<T: View>(r: Result<T, Stop>) -> Result<T::V, StopModel> {
    match r {
        Ok(t) => Ok(t@),
        Err(stop) => Err(stop@),
    }
}

impl World {
    /// Where the object `handle` names is.
    pub fn place_of(&self, f: &Facts, handle: &FileHandle) -> (r: Result<Place, Stop>)
        ensures
            told(r) == place_of(self@, *f, handle@),
    {
        let path = match f.told(handle) {
            None => return Err(Stop::Ask(Ask::Whereabouts(handle.clone()))),
            Some(None) => return Ok(Place::Unknown),
            Some(Some(Whereabouts::Gone)) => {
                if self.handles_current {
                    return Ok(Place::Gone);
                }
                return Ok(Place::Unknown);
            },
            Some(Some(Whereabouts::At(path))) => path,
        };
        let root = match &self.root_path {
            None => return Ok(Place::Unknown),
            Some(root) => root,
        };
        if !path.sure() {
            return Ok(Place::Unknown);
        }
        let rel = match split(&path.raw).after(&split(&root.raw)) {
            None => return Ok(Place::Outside(path.clone())),
            Some(rel) => rel,
        };
        if rel.depth() == 0 {
            return Ok(Place::Unknown);
        }
        match f.standing(&rel) {
            None => Err(Stop::Ask(Ask::Standing(rel))),
            Some(Standing::There(there)) => {
                if there.same(handle) {
                    Ok(Place::Inside(rel))
                } else {
                    Ok(Place::Unknown)
                }
            },
            Some(_) => Ok(Place::Unknown),
        }
    }
}

impl Facts {
    /// Whether the object `handle` names is proved absent from its place
    /// `rel` beneath the root.
    pub fn absent(&self, rel: &RelPath, handle: &FileHandle) -> (r: Result<bool, Stop>)
        ensures
            told(r) == absent_of(*self, rel@, handle@),
    {
        if rel.depth() == 0 {
            return Ok(false);
        }
        match self.standing(rel) {
            None => Err(Stop::Ask(Ask::Standing(rel.clone()))),
            Some(standing) => Ok(absent_below(standing, handle)),
        }
    }

    /// [`absent`](Self::absent) for `at`, inside the folder at `folder` — which
    /// is now at `went` if it left the folder.
    pub fn absent_with(
        &self,
        at: &RelPath,
        folder: &RelPath,
        went: Option<&AbsPath>,
        handle: &FileHandle,
    ) -> (r: Result<bool, Stop>)
        ensures
            told(r) == absent_with(
                *self,
                at@,
                folder@,
                match went {
                    Some(to) => Some(to@),
                    None => None,
                },
                handle@,
            ),
    {
        let to = match went {
            None => return self.absent(at, handle),
            Some(to) => to,
        };
        let rest = match at.after(folder) {
            None => return Ok(false),
            Some(rest) => rest,
        };
        match self.standing_out(to, &rest) {
            None => Err(Stop::Ask(Ask::StandingOut(to.clone(), rest))),
            Some(standing) => Ok(absent_below(standing, handle)),
        }
    }
}

} // verus!
