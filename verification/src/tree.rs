//! What the store keeps of the drive and of the outbox, as the decisions
//! here read it.

use vstd::prelude::*;
use crate::path::{copy_bytes, same_bytes, RelPath};
use crate::text::same_text;

verus! {

/// A copy of an optional text.
pub fn copy_opt(s: &Option<String>) -> (r: Option<String>)
    ensures
        r == *s,
{
    match s {
        Some(t) => Some(t.clone()),
        None => None,
    }
}

/// Whether two optional texts are the same.
pub fn same_opt(a: &Option<String>, b: &Option<String>) -> (r: bool)
    ensures
        r == (a.deep_view() == b.deep_view()),
{
    match (a, b) {
        (Some(a), Some(b)) => same_text(a.as_str(), b.as_str()),
        (None, None) => true,
        _ => false,
    }
}

/// Whether an optional text is there and is `b`.
pub fn opt_is(a: &Option<String>, b: &str) -> (r: bool)
    ensures
        r == (a.deep_view() == Some(b@)),
{
    match a {
        Some(a) => same_text(a.as_str(), b),
        None => false,
    }
}

#[derive(Debug, Clone, Copy, PartialEq, Eq, Structural)]
pub enum Kind {
    File,
    Folder,
}

/// Whether the item stands in the folder on disk.
#[derive(Debug, Clone, Copy, PartialEq, Eq, Structural)]
pub enum Placement {
    Placed,
    NotPlaced,
}

/// A file handle: what names an object whatever its name.
#[derive(Debug)]
pub struct FileHandle {
    pub bytes: Vec<u8>,
}

impl View for FileHandle {
    type V = Seq<u8>;

    open spec fn view(&self) -> Seq<u8> {
        self.bytes@
    }
}

impl DeepView for FileHandle {
    type V = Seq<u8>;

    open spec fn deep_view(&self) -> Seq<u8> {
        self.view()
    }
}

impl Clone for FileHandle {
    fn clone(&self) -> (r: Self)
        ensures
            r@ == self@,
    {
        FileHandle { bytes: copy_bytes(&self.bytes) }
    }
}

impl FileHandle {
    pub fn same(&self, other: &FileHandle) -> (r: bool)
        ensures
            r == (self@ == other@),
    {
        same_bytes(&self.bytes, &other.bytes)
    }
}

/// A copy of an optional handle.
pub fn copy_handle(h: &Option<FileHandle>) -> (r: Option<FileHandle>)
    ensures
        r.deep_view() == h.deep_view(),
{
    match h {
        Some(h) => Some(h.clone()),
        None => None,
    }
}

/// Whether two optional handles are the same.
pub fn same_handle(a: &Option<FileHandle>, b: &Option<FileHandle>) -> (r: bool)
    ensures
        r == (a.deep_view() == b.deep_view()),
{
    match (a, b) {
        (Some(a), Some(b)) => a.same(b),
        (None, None) => true,
        _ => false,
    }
}

/// An object on disk.
#[derive(Debug)]
pub struct Inode {
    pub dev: u64,
    pub ino: u64,
    pub handle: Option<FileHandle>,
}

#[verifier::ext_equal]
pub struct InodeModel {
    pub dev: u64,
    pub ino: u64,
    pub handle: Option<Seq<u8>>,
}

impl View for Inode {
    type V = InodeModel;

    open spec fn view(&self) -> InodeModel {
        InodeModel { dev: self.dev, ino: self.ino, handle: self.handle.deep_view() }
    }
}

impl DeepView for Inode {
    type V = InodeModel;

    open spec fn deep_view(&self) -> InodeModel {
        self.view()
    }
}

impl Clone for Inode {
    fn clone(&self) -> (r: Self)
        ensures
            r@ == self@,
    {
        Inode { dev: self.dev, ino: self.ino, handle: copy_handle(&self.handle) }
    }
}

/// The same object: by its handle where both are known, else by its number.
pub open spec fn same_inode(a: InodeModel, b: InodeModel) -> bool {
    match (a.handle, b.handle) {
        (Some(x), Some(y)) => x == y,
        _ => a.dev == b.dev && a.ino == b.ino,
    }
}

impl Inode {
    pub fn same_object(&self, other: &Inode) -> (r: bool)
        ensures
            r == same_inode(self@, other@),
    {
        match (&self.handle, &other.handle) {
            (Some(a), Some(b)) => a.same(b),
            _ => self.dev == other.dev && self.ino == other.ino,
        }
    }
}

/// A copy of an optional object.
pub fn copy_inode(i: &Option<Inode>) -> (r: Option<Inode>)
    ensures
        r.deep_view() == i.deep_view(),
{
    match i {
        Some(i) => Some(i.clone()),
        None => None,
    }
}

/// An item of the drive, as the base has it.
#[derive(Debug)]
pub struct Row {
    pub id: String,
    /// Nothing for the drive's root.
    pub parent_id: Option<String>,
    pub name: String,
    pub kind: Kind,
    pub size: u64,
    /// Unix seconds.
    pub mtime: i64,
    pub etag: Option<String>,
    pub ctag: Option<String>,
    pub quickxor: Option<String>,
    pub mime: Option<String>,
    pub placement: Placement,
}

#[verifier::ext_equal]
pub struct RowModel {
    pub id: Seq<char>,
    pub parent_id: Option<Seq<char>>,
    pub name: Seq<char>,
    pub kind: Kind,
    pub size: u64,
    pub mtime: i64,
    pub etag: Option<Seq<char>>,
    pub ctag: Option<Seq<char>>,
    pub quickxor: Option<Seq<char>>,
    pub mime: Option<Seq<char>>,
    pub placement: Placement,
}

impl View for Row {
    type V = RowModel;

    open spec fn view(&self) -> RowModel {
        RowModel {
            id: self.id@,
            parent_id: self.parent_id.deep_view(),
            name: self.name@,
            kind: self.kind,
            size: self.size,
            mtime: self.mtime,
            etag: self.etag.deep_view(),
            ctag: self.ctag.deep_view(),
            quickxor: self.quickxor.deep_view(),
            mime: self.mime.deep_view(),
            placement: self.placement,
        }
    }
}

impl DeepView for Row {
    type V = RowModel;

    open spec fn deep_view(&self) -> RowModel {
        self.view()
    }
}

#[derive(Debug, Clone, Copy, PartialEq, Eq, Structural)]
pub enum OutboxKind {
    Create,
    Mkdir,
    Update,
    Move,
    Delete,
    MoveOut,
}

/// A row of this kind removes its item from OneDrive.
pub open spec fn kind_removes(k: OutboxKind) -> bool {
    k == OutboxKind::Delete || k == OutboxKind::MoveOut
}

impl OutboxKind {
    pub fn removes(self) -> (r: bool)
        ensures
            r == kind_removes(self),
    {
        match self {
            OutboxKind::Delete | OutboxKind::MoveOut => true,
            _ => false,
        }
    }
}

#[derive(Debug, Clone, Copy, PartialEq, Eq, Structural)]
pub enum OutboxState {
    Ready,
    Waiting,
    Running,
    Retry,
    Blocked,
    Held,
}

/// The version and place a row starts from.
#[derive(Debug)]
pub struct Base {
    pub etag: Option<String>,
    pub ctag: Option<String>,
    pub parent: Option<String>,
    pub name: Option<String>,
}

#[verifier::ext_equal]
pub struct BaseModel {
    pub etag: Option<Seq<char>>,
    pub ctag: Option<Seq<char>>,
    pub parent: Option<Seq<char>>,
    pub name: Option<Seq<char>>,
}

impl View for Base {
    type V = BaseModel;

    open spec fn view(&self) -> BaseModel {
        BaseModel {
            etag: self.etag.deep_view(),
            ctag: self.ctag.deep_view(),
            parent: self.parent.deep_view(),
            name: self.name.deep_view(),
        }
    }
}

impl DeepView for Base {
    type V = BaseModel;

    open spec fn deep_view(&self) -> BaseModel {
        self.view()
    }
}

impl Clone for Base {
    fn clone(&self) -> (r: Self)
        ensures
            r@ == self@,
    {
        Base {
            etag: copy_opt(&self.etag),
            ctag: copy_opt(&self.ctag),
            parent: copy_opt(&self.parent),
            name: copy_opt(&self.name),
        }
    }
}

/// A live row of the outbox.
#[derive(Debug)]
pub struct OutboxRow {
    pub seq: i64,
    pub kind: OutboxKind,
    pub item_id: Option<String>,
    pub inode: Option<Inode>,
    /// Where the object was last seen.
    pub rel: RelPath,
    pub base: Option<Base>,
    pub target_parent: Option<String>,
    pub target_name: Option<String>,
    pub state: OutboxState,
    pub reason: Option<String>,
    pub next_try: Option<i64>,
    /// The content being sent, as [`snapshot`](crate::local::snapshot) writes it.
    pub snapshot: Option<String>,
    /// The user confirmed this removal.
    pub confirmed: bool,
}

#[verifier::ext_equal]
pub struct OutboxRowModel {
    pub seq: i64,
    pub kind: OutboxKind,
    pub item_id: Option<Seq<char>>,
    pub inode: Option<InodeModel>,
    pub rel: Seq<Seq<u8>>,
    pub base: Option<BaseModel>,
    pub target_parent: Option<Seq<char>>,
    pub target_name: Option<Seq<char>>,
    pub state: OutboxState,
    pub reason: Option<Seq<char>>,
    pub next_try: Option<i64>,
    pub snapshot: Option<Seq<char>>,
    pub confirmed: bool,
}

impl View for OutboxRow {
    type V = OutboxRowModel;

    open spec fn view(&self) -> OutboxRowModel {
        OutboxRowModel {
            seq: self.seq,
            kind: self.kind,
            item_id: self.item_id.deep_view(),
            inode: self.inode.deep_view(),
            rel: self.rel@,
            base: self.base.deep_view(),
            target_parent: self.target_parent.deep_view(),
            target_name: self.target_name.deep_view(),
            state: self.state,
            reason: self.reason.deep_view(),
            next_try: self.next_try,
            snapshot: self.snapshot.deep_view(),
            confirmed: self.confirmed,
        }
    }
}

impl DeepView for OutboxRow {
    type V = OutboxRowModel;

    open spec fn deep_view(&self) -> OutboxRowModel {
        self.view()
    }
}

/// A local change found: what a row of the outbox is made or merged from.
#[derive(Debug)]
pub struct Detection {
    pub kind: OutboxKind,
    pub item_id: Option<String>,
    pub inode: Option<Inode>,
    pub rel: RelPath,
    pub base: Option<Base>,
    pub target_parent: Option<String>,
    pub target_name: Option<String>,
    /// The content was checked and is the base's.
    pub same_content: bool,
    pub state: OutboxState,
    pub reason: Option<String>,
    pub next_try: Option<i64>,
}

#[verifier::ext_equal]
pub struct DetectionModel {
    pub kind: OutboxKind,
    pub item_id: Option<Seq<char>>,
    pub inode: Option<InodeModel>,
    pub rel: Seq<Seq<u8>>,
    pub base: Option<BaseModel>,
    pub target_parent: Option<Seq<char>>,
    pub target_name: Option<Seq<char>>,
    pub same_content: bool,
    pub state: OutboxState,
    pub reason: Option<Seq<char>>,
    pub next_try: Option<i64>,
}

impl View for Detection {
    type V = DetectionModel;

    open spec fn view(&self) -> DetectionModel {
        DetectionModel {
            kind: self.kind,
            item_id: self.item_id.deep_view(),
            inode: self.inode.deep_view(),
            rel: self.rel@,
            base: self.base.deep_view(),
            target_parent: self.target_parent.deep_view(),
            target_name: self.target_name.deep_view(),
            same_content: self.same_content,
            state: self.state,
            reason: self.reason.deep_view(),
            next_try: self.next_try,
        }
    }
}

impl DeepView for Detection {
    type V = DetectionModel;

    open spec fn deep_view(&self) -> DetectionModel {
        self.view()
    }
}

/// One change to the outbox and to what the folder lists as not uploaded.
#[derive(Debug)]
pub enum OutboxOp {
    /// The row goes.
    Remove(i64),
    /// The item is this object now.
    SetHandle { item_id: String, handle: Option<FileHandle> },
    /// A directory moved: the rows beneath it follow.
    Rebase { from: RelPath, to: RelPath },
    Record(Detection),
    Skip { rel: RelPath, reason: String },
    Unskip(RelPath),
    /// The row waits for the user.
    Hold { seq: i64, reason: String },
}

#[verifier::ext_equal]
pub enum OpModel {
    Remove(i64),
    SetHandle { item_id: Seq<char>, handle: Option<Seq<u8>> },
    Rebase { from: Seq<Seq<u8>>, to: Seq<Seq<u8>> },
    Record(DetectionModel),
    Skip { rel: Seq<Seq<u8>>, reason: Seq<char> },
    Unskip(Seq<Seq<u8>>),
    Hold { seq: i64, reason: Seq<char> },
}

impl View for OutboxOp {
    type V = OpModel;

    open spec fn view(&self) -> OpModel {
        match self {
            OutboxOp::Remove(seq) => OpModel::Remove(*seq),
            OutboxOp::SetHandle { item_id, handle } => OpModel::SetHandle {
                item_id: item_id@,
                handle: handle.deep_view(),
            },
            OutboxOp::Rebase { from, to } => OpModel::Rebase { from: from@, to: to@ },
            OutboxOp::Record(d) => OpModel::Record(d@),
            OutboxOp::Skip { rel, reason } => OpModel::Skip { rel: rel@, reason: reason@ },
            OutboxOp::Unskip(rel) => OpModel::Unskip(rel@),
            OutboxOp::Hold { seq, reason } => OpModel::Hold { seq: *seq, reason: reason@ },
        }
    }
}

impl DeepView for OutboxOp {
    type V = OpModel;

    open spec fn deep_view(&self) -> OpModel {
        self.view()
    }
}

} // verus!
