//! One directory entry as the examination sees it: `lstat` and the attributes
//! read by name, never an open — a placeholder is never filled by being
//! looked at.

use vstd::prelude::*;
use crate::disk::{is_usable, usable_id};
use crate::os::{absent, errno_absent, type_of_mode, Type};
use crate::path::{copy_bytes, dir_of, RelPath};
use crate::text::{lossy, text_of};
use crate::tree::{copy_handle, copy_opt, same_inode, FileHandle, Inode, InodeModel};

verus! {

/// How much of a managed file is here.
#[derive(Debug, Clone, Copy, PartialEq, Eq, Structural)]
pub enum State {
    OnlineOnly,
    Hydrating,
    Hydrated,
    Dehydrating,
}

/// The state attribute, as read.
#[derive(Debug, Clone, Copy, PartialEq, Eq, Structural)]
pub enum StateAttr {
    Absent,
    Known(State),
    /// Set to something no konedrive writes.
    Corrupt,
}

/// The size and time a file had when it was filled.
#[derive(Debug, Clone, Copy, PartialEq, Eq, Structural)]
pub struct Stamp {
    pub size: u64,
    pub mtime_sec: i64,
    pub mtime_nsec: i64,
}

#[derive(Debug)]
pub struct Entry {
    /// Relative to the root.
    pub rel: RelPath,
    pub name: Vec<u8>,
    pub ty: Type,
    pub dev: u64,
    pub ino: u64,
    pub nlink: u64,
    pub size: u64,
    pub mtime_sec: i64,
    pub mtime_nsec: i64,
    /// A usable item id: one that could be ours.
    pub id: Option<String>,
    pub state: StateAttr,
    pub stamp: Option<Stamp>,
    pub ctag: Option<String>,
    pub handle: Option<FileHandle>,
}

#[verifier::ext_equal]
pub struct EntryModel {
    pub rel: Seq<Seq<u8>>,
    pub name: Seq<u8>,
    pub ty: Type,
    pub dev: u64,
    pub ino: u64,
    pub nlink: u64,
    pub size: u64,
    pub mtime_sec: i64,
    pub mtime_nsec: i64,
    pub id: Option<Seq<char>>,
    pub state: StateAttr,
    pub stamp: Option<Stamp>,
    pub ctag: Option<Seq<char>>,
    pub handle: Option<Seq<u8>>,
}

impl View for Entry {
    type V = EntryModel;

    open spec fn view(&self) -> EntryModel {
        EntryModel {
            rel: self.rel@,
            name: self.name@,
            ty: self.ty,
            dev: self.dev,
            ino: self.ino,
            nlink: self.nlink,
            size: self.size,
            mtime_sec: self.mtime_sec,
            mtime_nsec: self.mtime_nsec,
            id: self.id.deep_view(),
            state: self.state,
            stamp: self.stamp,
            ctag: self.ctag.deep_view(),
            handle: self.handle.deep_view(),
        }
    }
}

impl DeepView for Entry {
    type V = EntryModel;

    open spec fn deep_view(&self) -> EntryModel {
        self.view()
    }
}

impl Clone for Entry {
    fn clone(&self) -> (r: Self)
        ensures
            r@ == self@,
    {
        Entry {
            rel: self.rel.clone(),
            name: copy_bytes(&self.name),
            ty: self.ty,
            dev: self.dev,
            ino: self.ino,
            nlink: self.nlink,
            size: self.size,
            mtime_sec: self.mtime_sec,
            mtime_nsec: self.mtime_nsec,
            id: copy_opt(&self.id),
            state: self.state,
            stamp: self.stamp,
            ctag: copy_opt(&self.ctag),
            handle: copy_handle(&self.handle),
        }
    }
}

/// The object an entry is.
pub open spec fn inode_of(e: EntryModel) -> InodeModel {
    InodeModel { dev: e.dev, ino: e.ino, handle: e.handle }
}

/// Downloaded, and so readable for an upload.
pub open spec fn is_hydrated(e: EntryModel) -> bool {
    e.state == StateAttr::Known(State::Hydrated)
}

impl Entry {
    pub fn dir_rel(&self) -> (r: RelPath)
        ensures
            r@ == dir_of(self@.rel),
    {
        self.rel.dir()
    }

    pub fn inode(&self) -> (r: Inode)
        ensures
            r@ == inode_of(self@),
    {
        Inode { dev: self.dev, ino: self.ino, handle: copy_handle(&self.handle) }
    }

    pub fn same_object(&self, other: &Entry) -> (r: bool)
        ensures
            r == same_inode(inode_of(self@), inode_of(other@)),
    {
        self.inode().same_object(&other.inode())
    }

    pub fn hydrated(&self) -> (r: bool)
        ensures
            r == is_hydrated(self@),
    {
        match self.state {
            StateAttr::Known(State::Hydrated) => true,
            _ => false,
        }
    }
}

/// What `lstat` says of a name.
#[derive(Debug, Clone, Copy)]
pub struct Stat {
    pub mode: u32,
    pub dev: u64,
    pub ino: u64,
    pub nlink: u64,
    pub size: u64,
    pub mtime_sec: i64,
    pub mtime_nsec: i64,
}

/// What the attributes of a name say.
#[derive(Debug)]
pub struct Attrs {
    /// The item id, as it is kept.
    pub id: Option<Vec<u8>>,
    pub state: StateAttr,
    pub stamp: Option<Stamp>,
    /// The version, as it is kept.
    pub ctag: Option<Vec<u8>>,
}

/// The item id kept as `raw`, if it could be ours.
pub open spec fn id_of(raw: Option<Vec<u8>>) -> Option<Seq<char>> {
    match raw {
        Some(raw) => if is_usable(text_of(raw@)) {
            Some(text_of(raw@))
        } else {
            None
        },
        None => None,
    }
}

/// The version kept as `raw`.
pub open spec fn ctag_of(raw: Option<Vec<u8>>) -> Option<Seq<char>> {
    match raw {
        Some(raw) => Some(text_of(raw@)),
        None => None,
    }
}

/// The entry of `name` in `dir`, from what was read of it: only a file or a
/// directory has attributes and a handle.
pub open spec fn entry_of(
    dir: Seq<Seq<u8>>,
    name: Seq<u8>,
    stat: Stat,
    attrs: Attrs,
    handle: Option<Seq<u8>>,
) -> EntryModel {
    let ty = type_of_mode(stat.mode);
    let bare = EntryModel {
        rel: dir.push(name),
        name,
        ty,
        dev: stat.dev,
        ino: stat.ino,
        nlink: stat.nlink,
        size: stat.size,
        mtime_sec: stat.mtime_sec,
        mtime_nsec: stat.mtime_nsec,
        id: None,
        state: StateAttr::Absent,
        stamp: None,
        ctag: None,
        handle: None,
    };
    if ty == Type::File || ty == Type::Dir {
        EntryModel {
            id: id_of(attrs.id),
            state: attrs.state,
            stamp: attrs.stamp,
            ctag: ctag_of(attrs.ctag),
            handle,
            ..bare
        }
    } else {
        bare
    }
}

/// `name` in `dir` from what reading it gave: nothing when there is nothing
/// there, or nothing any more when its attributes were read; any other error
/// as it is. Attributes count only for a file or a directory, and an item id
/// only if it could be ours.
pub fn read(
    dir: &RelPath,
    name: &[u8],
    stat: Result<Stat, i32>,
    attrs: Result<Attrs, i32>,
    handle: Option<FileHandle>,
) -> (r: Result<Option<Entry>, i32>)
    ensures
        match stat {
            Err(e) => if errno_absent(e) {
                r matches Ok(None)
            } else {
                r == Err::<Option<Entry>, i32>(e)
            },
            Ok(s) => {
                let managed = type_of_mode(s.mode) == Type::File || type_of_mode(s.mode) == Type::Dir;
                match attrs {
                    Ok(a) => r matches Ok(Some(e)) && e@ == entry_of(
                        dir@,
                        name@,
                        s,
                        a,
                        handle.deep_view(),
                    ),
                    Err(e) => if !managed {
                        r matches Ok(Some(found)) && found@ == entry_of(
                            dir@,
                            name@,
                            s,
                            Attrs { id: None, state: StateAttr::Absent, stamp: None, ctag: None },
                            None,
                        )
                    } else if errno_absent(e) {
                        r matches Ok(None)
                    } else {
                        r == Err::<Option<Entry>, i32>(e)
                    },
                }
            },
        },
{
    let stat = match stat {
        Ok(stat) => stat,
        Err(e) => {
            if absent(e) {
                return Ok(None);
            }
            return Err(e);
        },
    };
    let ty = Type::of_mode(stat.mode);
    let mut entry = Entry {
        rel: dir.join(name),
        name: copy_bytes(name),
        ty,
        dev: stat.dev,
        ino: stat.ino,
        nlink: stat.nlink,
        size: stat.size,
        mtime_sec: stat.mtime_sec,
        mtime_nsec: stat.mtime_nsec,
        id: None,
        state: StateAttr::Absent,
        stamp: None,
        ctag: None,
        handle: None,
    };
    match ty {
        Type::File | Type::Dir => {},
        _ => return Ok(Some(entry)),
    }
    match attrs {
        Ok(attrs) => {
            entry.id = match &attrs.id {
                Some(raw) => {
                    let id = lossy(raw.as_slice());
                    if usable_id(id.as_str()) {
                        Some(id)
                    } else {
                        None
                    }
                },
                None => None,
            };
            entry.state = attrs.state;
            entry.stamp = attrs.stamp;
            entry.ctag = match &attrs.ctag {
                Some(raw) => Some(lossy(raw.as_slice())),
                None => None,
            };
            entry.handle = handle;
            Ok(Some(entry))
        },
        Err(e) => {
            if absent(e) {
                Ok(None)
            } else {
                Err(e)
            }
        },
    }
}

} // verus!
