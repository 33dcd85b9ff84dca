//! What an examination knows before it decides anything: the base and the
//! outbox as the store has them, and what was found out on the way.

use vstd::prelude::*;
use vstd::string::*;
use vstd::utf8::encode_utf8;
use crate::local::entry::{inode_of, Entry, EntryModel};
use crate::local::ignore::IgnoreList;
use crate::path::{AbsPath, PathModel, RelPath};
use crate::text::same_text;
use crate::tree::{
    copy_handle, kind_removes, opt_is, same_inode, FileHandle, OutboxRow, OutboxRowModel,
    OutboxState, Placement, Row, RowModel,
};

verus! {

/// An item of the base, with what the store records of it here.
#[derive(Debug)]
pub struct Item {
    pub row: Row,
    /// The object it was placed as.
    pub handle: Option<FileHandle>,
    /// Where the base has it, if it is placed.
    pub located: Option<RelPath>,
}

#[verifier::ext_equal]
pub struct ItemModel {
    pub row: RowModel,
    pub handle: Option<Seq<u8>>,
    pub located: Option<PathModel>,
}

impl View for Item {
    type V = ItemModel;

    open spec fn view(&self) -> ItemModel {
        ItemModel {
            row: self.row@,
            handle: self.handle.deep_view(),
            located: self.located.deep_view(),
        }
    }
}

impl DeepView for Item {
    type V = ItemModel;

    open spec fn deep_view(&self) -> ItemModel {
        self.view()
    }
}

/// The folder, its base and its outbox when the examination begins.
#[derive(Debug)]
pub struct World {
    /// The drive's root item.
    pub root_id: String,
    /// The folder's device: nothing on another one is uploaded, nor looked
    /// into.
    pub root_dev: u64,
    /// Where the folder is, when it can be told.
    pub root_path: Option<AbsPath>,
    /// Whether the recorded handles are this filesystem's: a stale handle
    /// means a deleted object only then.
    pub handles_current: bool,
    /// The live rows, oldest first.
    pub rows: Vec<OutboxRow>,
    /// The base's items.
    pub items: Vec<Item>,
    /// The ids a reconcile is placing right now.
    pub staging: Vec<String>,
    /// What the folder lists as not uploaded.
    pub skipped: Vec<RelPath>,
    /// How many items are placed.
    pub placed: u64,
    pub ignore: IgnoreList,
    /// How deep a folder may go.
    pub max_depth: u32,
    /// Unix seconds.
    pub now: i64,
}

#[verifier::ext_equal]
pub struct WorldModel {
    pub root_id: Seq<char>,
    pub root_dev: u64,
    pub root_path: Option<Seq<u8>>,
    pub handles_current: bool,
    pub rows: Seq<OutboxRowModel>,
    pub items: Seq<ItemModel>,
    pub staging: Seq<Seq<char>>,
    pub skipped: Seq<PathModel>,
    pub placed: u64,
    pub ignore: Seq<Seq<char>>,
    pub max_depth: nat,
    pub now: i64,
}

impl View for World {
    type V = WorldModel;

    open spec fn view(&self) -> WorldModel {
        WorldModel {
            root_id: self.root_id@,
            root_dev: self.root_dev,
            root_path: self.root_path.deep_view(),
            handles_current: self.handles_current,
            rows: self.rows.deep_view(),
            items: self.items.deep_view(),
            staging: self.staging.deep_view(),
            skipped: self.skipped.deep_view(),
            placed: self.placed,
            ignore: self.ignore@,
            max_depth: self.max_depth as nat,
            now: self.now,
        }
    }
}

/// The first item with the id `id`, from `i` on.
pub open spec fn item_from(items: Seq<ItemModel>, id: Seq<char>, i: int) -> Option<ItemModel>
    decreases items.len() - i,
{
    if i >= items.len() {
        None
    } else if items[i].row.id == id {
        Some(items[i])
    } else {
        item_from(items, id, i + 1)
    }
}

/// The base's item `id`.
pub open spec fn item_of(w: WorldModel, id: Seq<char>) -> Option<ItemModel> {
    item_from(w.items, id, 0)
}

/// The last of the first `n` rows that is item `id`'s.
pub open spec fn row_of_upto(rows: Seq<OutboxRowModel>, id: Seq<char>, n: int) -> Option<OutboxRowModel>
    decreases n,
{
    if n <= 0 {
        None
    } else if rows[n - 1].item_id == Some(id) {
        Some(rows[n - 1])
    } else {
        row_of_upto(rows, id, n - 1)
    }
}

/// The newest live row of item `id`.
pub open spec fn row_of(w: WorldModel, id: Seq<char>) -> Option<OutboxRowModel> {
    row_of_upto(w.rows, id, w.rows.len() as int)
}

/// The row is of the local object `e`, which has no item id yet.
pub open spec fn row_is_of(row: OutboxRowModel, e: EntryModel) -> bool {
    row.item_id is None && (row.inode matches Some(i) && same_inode(i, inode_of(e)))
}

/// The last of the first `n` rows that is of the new object `e`.
pub open spec fn pending_upto(rows: Seq<OutboxRowModel>, e: EntryModel, n: int) -> Option<OutboxRowModel>
    decreases n,
{
    if n <= 0 {
        None
    } else if row_is_of(rows[n - 1], e) {
        Some(rows[n - 1])
    } else {
        pending_upto(rows, e, n - 1)
    }
}

/// The live row of the local object `e`, which has no item id yet.
pub open spec fn pending_of(w: WorldModel, e: EntryModel) -> Option<OutboxRowModel> {
    pending_upto(w.rows, e, w.rows.len() as int)
}

/// The worker is creating `e`'s object in OneDrive right now.
pub open spec fn being_created(w: WorldModel, e: EntryModel) -> bool {
    exists|i: int|
        0 <= i < w.rows.len() && row_is_of(#[trigger] w.rows[i], e) && w.rows[i].state
            == OutboxState::Running
}

/// Where an item is expected to be.
#[derive(Debug)]
pub enum Expect {
    At(RelPath),
    /// Deleted or moved out already (a row says so), or not placed.
    Nowhere,
    /// Not in the base.
    Unknown,
}

#[verifier::ext_equal]
pub enum ExpectModel {
    At(PathModel),
    Nowhere,
    Unknown,
}

impl View for Expect {
    type V = ExpectModel;

    open spec fn view(&self) -> ExpectModel {
        match self {
            Expect::At(rel) => ExpectModel::At(rel@),
            Expect::Nowhere => ExpectModel::Nowhere,
            Expect::Unknown => ExpectModel::Unknown,
        }
    }
}

/// Where item `id` should be: where its newest live row last saw it, or else
/// its base name under where its parent should be — so the items in a folder
/// with a pending move are looked for where the folder is now. A chain longer
/// than the folder may be deep is a cycle, and leads nowhere.
pub open spec fn expected_at(w: WorldModel, id: Seq<char>, depth: nat) -> ExpectModel
    decreases w.max_depth + 1 - depth,
{
    match row_of(w, id) {
        Some(row) => if kind_removes(row.kind) {
            ExpectModel::Nowhere
        } else {
            ExpectModel::At(row.rel)
        },
        None => match item_of(w, id) {
            None => ExpectModel::Unknown,
            Some(item) => if item.row.placement != Placement::Placed {
                ExpectModel::Nowhere
            } else {
                match item.row.parent_id {
                    None => ExpectModel::At(Seq::empty()),
                    Some(parent) => if parent == w.root_id {
                        ExpectModel::At(seq![encode_utf8(item.row.name)])
                    } else if depth > w.max_depth {
                        ExpectModel::Nowhere
                    } else {
                        match expected_at(w, parent, depth + 1) {
                            ExpectModel::At(dir) => ExpectModel::At(
                                dir.push(encode_utf8(item.row.name)),
                            ),
                            _ => ExpectModel::Nowhere,
                        }
                    },
                }
            },
        },
    }
}

/// Where item `id` should be.
pub open spec fn expected_of(w: WorldModel, id: Seq<char>) -> ExpectModel {
    expected_at(w, id, 0)
}

/// Where item `id` should be, if anywhere.
pub open spec fn expected_rel(w: WorldModel, id: Seq<char>) -> Option<PathModel> {
    match expected_of(w, id) {
        ExpectModel::At(rel) => Some(rel),
        _ => None,
    }
}

/// Item `id` is in the folder `folder` of the base, at any depth.
pub open spec fn is_inside(w: WorldModel, id: Seq<char>, folder: Seq<char>, steps: nat) -> bool
    decreases steps,
{
    if steps == 0 {
        false
    } else {
        match item_of(w, id) {
            Some(item) => match item.row.parent_id {
                Some(parent) => parent == folder || is_inside(w, parent, folder, (steps - 1) as nat),
                None => false,
            },
            None => false,
        }
    }
}

/// The base has item `id` somewhere inside the folder `folder`.
pub open spec fn descends(w: WorldModel, id: Seq<char>, folder: Seq<char>) -> bool {
    is_inside(w, id, folder, w.items.len())
}

impl World {
    /// The base's item `id`.
    pub fn item(&self, id: &str) -> (r: Option<&Item>)
        ensures
            match r {
                Some(item) => item_of(self@, id@) == Some(item@) && exists|i: int|
                    0 <= i < self.items@.len() && self.items@[i] == *item,
                None => item_of(self@, id@) is None,
            },
    {
        let mut i: usize = 0;
        while i < self.items.len()
            invariant
                i <= self.items@.len(),
                item_of(self@, id@) == item_from(self@.items, id@, i as int),
            decreases self.items@.len() - i,
        {
            assert(self@.items[i as int] == self.items@[i as int]@);
            if same_text(self.items[i].row.id.as_str(), id) {
                return Some(&self.items[i]);
            }
            i += 1;
        }
        None
    }

    /// The object item `id` was placed as.
    pub fn handle_of(&self, id: &str) -> (r: Option<FileHandle>)
        ensures
            r.deep_view() == recorded_handle(self@, id@),
    {
        match self.item(id) {
            Some(item) => copy_handle(&item.handle),
            None => None,
        }
    }

    /// The newest live row of item `id`.
    pub fn row_of(&self, id: &str) -> (r: Option<&OutboxRow>)
        ensures
            match r {
                Some(row) => row_of(self@, id@) == Some(row@),
                None => row_of(self@, id@) is None,
            },
    {
        let mut n: usize = self.rows.len();
        while n > 0
            invariant
                n <= self.rows@.len(),
                row_of(self@, id@) == row_of_upto(self@.rows, id@, n as int),
            decreases n,
        {
            assert(self@.rows[n - 1] == self.rows@[n - 1]@);
            if opt_is(&self.rows[n - 1].item_id, id) {
                return Some(&self.rows[n - 1]);
            }
            n -= 1;
        }
        None
    }

    /// The live row of the local object `e`, which has no item id yet.
    pub fn pending(&self, e: &Entry) -> (r: Option<&OutboxRow>)
        ensures
            match r {
                Some(row) => pending_of(self@, e@) == Some(row@),
                None => pending_of(self@, e@) is None,
            },
    {
        let mut n: usize = self.rows.len();
        while n > 0
            invariant
                n <= self.rows@.len(),
                pending_of(self@, e@) == pending_upto(self@.rows, e@, n as int),
            decreases n,
        {
            assert(self@.rows[n - 1] == self.rows@[n - 1]@);
            if row_of_object(&self.rows[n - 1], e) {
                return Some(&self.rows[n - 1]);
            }
            n -= 1;
        }
        None
    }

    /// Whether the worker is creating `e`'s object in OneDrive right now.
    pub fn being_created(&self, e: &Entry) -> (r: bool)
        ensures
            r == being_created(self@, e@),
    {
        let mut i: usize = 0;
        while i < self.rows.len()
            invariant
                i <= self.rows@.len(),
                forall|j: int|
                    0 <= j < i ==> !(row_is_of(#[trigger] self@.rows[j], e@) && self@.rows[j].state
                        == OutboxState::Running),
            decreases self.rows@.len() - i,
        {
            assert(self@.rows[i as int] == self.rows@[i as int]@);
            if self.rows[i].state == OutboxState::Running && row_of_object(&self.rows[i], e) {
                return true;
            }
            i += 1;
        }
        false
    }

    fn expected_at(&self, id: &str, depth: u64) -> (r: Expect)
        requires
            depth <= self.max_depth + 1,
        ensures
            r@ == expected_at(self@, id@, depth as nat),
        decreases self.max_depth + 1 - depth,
    {
        if let Some(row) = self.row_of(id) {
            if row.kind.removes() {
                return Expect::Nowhere;
            }
            return Expect::At(row.rel.clone());
        }
        let row = match self.item(id) {
            None => return Expect::Unknown,
            Some(item) => &item.row,
        };
        match row.placement {
            Placement::Placed => {},
            _ => return Expect::Nowhere,
        }
        let parent = match &row.parent_id {
            None => return Expect::At(RelPath::root()),
            Some(parent) => parent,
        };
        if same_text(parent.as_str(), self.root_id.as_str()) {
            let at = RelPath::root().join(row.name.as_str().as_bytes());
            assert(at@ =~= seq![encode_utf8(row.name@)]);
            return Expect::At(at);
        }
        if depth > self.max_depth as u64 {
            return Expect::Nowhere;
        }
        match self.expected_at(parent.as_str(), depth + 1) {
            Expect::At(dir) => Expect::At(dir.join(row.name.as_str().as_bytes())),
            _ => Expect::Nowhere,
        }
    }

    /// Where item `id` should be.
    pub fn expected(&self, id: &str) -> (r: Expect)
        ensures
            r@ == expected_of(self@, id@),
    {
        self.expected_at(id, 0)
    }

    /// Where item `id` should be, if anywhere.
    pub fn expected_rel(&self, id: &str) -> (r: Option<RelPath>)
        ensures
            r.deep_view() == expected_rel(self@, id@),
    {
        match self.expected(id) {
            Expect::At(rel) => Some(rel),
            _ => None,
        }
    }

    fn inside(&self, id: &str, folder: &str, steps: usize) -> (r: bool)
        ensures
            r == is_inside(self@, id@, folder@, steps as nat),
        decreases steps,
    {
        if steps == 0 {
            return false;
        }
        match self.item(id) {
            Some(item) => match &item.row.parent_id {
                Some(parent) => same_text(parent.as_str(), folder) || self.inside(
                    parent.as_str(),
                    folder,
                    steps - 1,
                ),
                None => false,
            },
            None => false,
        }
    }

    /// Whether the base has item `id` somewhere inside the folder `folder`.
    pub fn descends(&self, id: &str, folder: &str) -> (r: bool)
        ensures
            r == descends(self@, id@, folder@),
    {
        self.inside(id, folder, self.items.len())
    }

    /// Whether a reconcile is placing item `id` right now.
    pub fn placing(&self, id: &str) -> (r: bool)
        ensures
            r == self@.staging.contains(id@),
    {
        let mut i: usize = 0;
        while i < self.staging.len()
            invariant
                i <= self.staging@.len(),
                forall|j: int| 0 <= j < i ==> self@.staging[j] != id@,
            decreases self.staging@.len() - i,
        {
            if same_text(self.staging[i].as_str(), id) {
                assert(self@.staging[i as int] == id@);
                return true;
            }
            i += 1;
        }
        false
    }
}

/// The object the store records for item `id`.
pub open spec fn recorded_handle(w: WorldModel, id: Seq<char>) -> Option<Seq<u8>> {
    match item_of(w, id) {
        Some(item) => item.handle,
        None => None,
    }
}

/// Whether `row` is of the local object `e`, which has no item id yet.
pub fn row_of_object(row: &OutboxRow, e: &Entry) -> (r: bool)
    ensures
        r == row_is_of(row@, e@),
{
    match &row.item_id {
        Some(_) => false,
        None => match &row.inode {
            Some(inode) => inode.same_object(&e.inode()),
            None => false,
        },
    }
}

} // verus!
