//! The examination of a folder kept in memory, with the batches an event would
//! have made, and a table that says where objects went.

use std::collections::BTreeMap;

use konedrive_sync::disk::{probe, Probe};
use konedrive_sync::local::batch::{Batch, DirScope};
use konedrive_sync::local::begin::{begin, examined_batch, ExamineError, Root};
use konedrive_sync::local::entry::{read, Attrs, Entry, Stamp, Stat, State, StateAttr};
use konedrive_sync::local::facts::{Ask, Checked, Digest, Facts, Hashed, Probed, Restored, Stop, Stripped};
use konedrive_sync::local::ignore::IgnoreList;
use konedrive_sync::local::liveness::{
    answered, Answer, Handles, Liveness, NoLiveness, Standing, Unanswered, Whereabouts,
};
use konedrive_sync::local::run::{Examined, Examiner};
use konedrive_sync::local::survey::{Looked, Peeked, Reading, Step, Survey};
use konedrive_sync::local::world::{Item, World};
use konedrive_sync::path::{AbsPath, RelPath};
use konedrive_sync::tree::OutboxKind::{Create, Delete, Mkdir, Move, MoveOut, Update};
use konedrive_sync::tree::{
    Detection, FileHandle, Inode, Kind, OutboxKind, OutboxOp, OutboxRow, OutboxState, Placement, Row,
};

const TIME: i64 = 1_700_000_000;
const ROOT: &str = "/base/OneDrive";
const OUTSIDE: &str = "/base/elsewhere";

const ENOENT: i32 = 2;
const EACCES: i32 = 13;
const ENOTDIR: i32 = 20;

#[derive(Clone, Copy, PartialEq, Eq, Debug)]
enum Ty {
    File,
    Dir,
    Symlink,
    Fifo,
}

#[derive(Clone, Debug)]
struct Node {
    ty: Ty,
    children: BTreeMap<String, usize>,
    content: Vec<u8>,
    size: u64,
    mtime: (i64, i64),
    id: Option<String>,
    state: StateAttr,
    stamp: Option<Stamp>,
    ctag: Option<String>,
    links: u64,
    writers: u32,
    locked: bool,
    dev: u64,
}

/// The disk: a tree of nodes, each an object with its number.
struct Disk {
    nodes: Vec<Node>,
    clock: i64,
}

fn node(ty: Ty) -> Node {
    Node {
        ty,
        children: BTreeMap::new(),
        content: Vec::new(),
        size: 0,
        mtime: (TIME, 0),
        id: None,
        state: StateAttr::Absent,
        stamp: None,
        ctag: None,
        links: 1,
        writers: 0,
        locked: false,
        dev: 1,
    }
}

fn parts(path: &str) -> Vec<&str> {
    path.split('/').filter(|p| !p.is_empty()).collect()
}

impl Disk {
    fn new() -> Self {
        let mut disk = Disk { nodes: vec![node(Ty::Dir)], clock: 0 };
        disk.mkdir("/base");
        disk.mkdir(ROOT);
        disk.mkdir(OUTSIDE);
        disk
    }

    fn find(&self, path: &str) -> Result<usize, i32> {
        let mut at: usize = 0;
        for part in parts(path) {
            let here = &self.nodes[at];
            if here.ty != Ty::Dir {
                return Err(ENOTDIR);
            }
            if here.locked {
                return Err(EACCES);
            }
            at = *here.children.get(part).ok_or(ENOENT)?;
        }
        Ok(at)
    }

    fn dir(&self, path: &str) -> Result<usize, i32> {
        let at = self.find(path)?;
        if self.nodes[at].ty == Ty::Dir {
            Ok(at)
        } else {
            Err(ENOTDIR)
        }
    }

    fn split(path: &str) -> (String, String) {
        let all = parts(path);
        let name = all[all.len() - 1].to_owned();
        (format!("/{}", all[..all.len() - 1].join("/")), name)
    }

    fn add(&mut self, path: &str, n: Node) -> usize {
        let (dir, name) = Disk::split(path);
        let at = self.dir(&dir).unwrap();
        let number = self.nodes.len();
        self.nodes.push(n);
        self.nodes[at].children.insert(name, number);
        number
    }

    fn mkdir(&mut self, path: &str) {
        self.add(path, node(Ty::Dir));
    }

    fn tick(&mut self) -> (i64, i64) {
        self.clock += 1;
        (TIME + 1000 + self.clock, 0)
    }

    /// Written in place, or a new file.
    fn write(&mut self, path: &str, content: &[u8]) {
        let mtime = self.tick();
        let at = match self.find(path) {
            Ok(at) => at,
            Err(_) => self.add(path, node(Ty::File)),
        };
        let n = &mut self.nodes[at];
        n.content = content.to_vec();
        n.size = content.len() as u64;
        n.mtime = mtime;
    }

    fn take(&mut self, path: &str) -> usize {
        let (dir, name) = Disk::split(path);
        let at = self.dir(&dir).unwrap();
        self.nodes[at].children.remove(&name).unwrap()
    }

    fn rename(&mut self, from: &str, to: &str) {
        let moved = self.take(from);
        let (dir, name) = Disk::split(to);
        let at = self.dir(&dir).unwrap();
        if let Some(over) = self.nodes[at].children.insert(name, moved) {
            self.nodes[over].links -= 1;
        }
    }

    fn remove(&mut self, path: &str) {
        let at = self.take(path);
        self.nodes[at].links -= 1;
    }

    fn link(&mut self, from: &str, to: &str) {
        let at = self.find(from).unwrap();
        let (dir, name) = Disk::split(to);
        let into = self.dir(&dir).unwrap();
        self.nodes[into].children.insert(name, at);
        self.nodes[at].links += 1;
    }

    /// A copy with every attribute.
    fn copy(&mut self, from: &str, to: &str) {
        let mut n = self.nodes[self.find(from).unwrap()].clone();
        n.links = 1;
        n.children = BTreeMap::new();
        n.mtime = self.tick();
        match self.find(to) {
            Ok(at) => self.nodes[at] = n,
            Err(_) => {
                self.add(to, n);
            }
        }
    }

    fn entry(&self, dir_rel: &RelPath, dir: usize, name: &[u8]) -> Result<Option<Entry>, i32> {
        let text = String::from_utf8(name.to_vec()).unwrap();
        if self.nodes[dir].locked {
            return Err(EACCES);
        }
        let Some(&at) = self.nodes[dir].children.get(&text) else {
            return read(dir_rel, name, Err(ENOENT), Err(ENOENT), None);
        };
        let n = &self.nodes[at];
        let mode: u32 = match n.ty {
            Ty::File => 0o100644,
            Ty::Dir => 0o040755,
            Ty::Symlink => 0o120777,
            Ty::Fifo => 0o010644,
        };
        let stat = Stat {
            mode,
            dev: n.dev,
            ino: at as u64,
            nlink: n.links,
            size: n.size,
            mtime_sec: n.mtime.0,
            mtime_nsec: n.mtime.1,
        };
        let attrs = Attrs {
            id: n.id.clone().map(String::into_bytes),
            state: n.state,
            stamp: n.stamp,
            ctag: n.ctag.clone().map(String::into_bytes),
        };
        read(dir_rel, name, Ok(stat), Ok(attrs), Some(handle_of(at)))
    }
}

fn handle_of(number: usize) -> FileHandle {
    FileHandle { bytes: (number as u64).to_be_bytes().to_vec() }
}

fn show(rel: &RelPath) -> String {
    let all: Vec<String> = rel.parts.iter().map(|p| String::from_utf8(p.clone()).unwrap()).collect();
    all.join("/")
}

fn hash(content: &[u8]) -> String {
    format!("hash of {content:?}")
}

#[derive(Clone)]
struct Listed {
    id: &'static str,
    name: String,
    parent: &'static str,
    kind: Kind,
    content: Vec<u8>,
}

fn folder(id: &'static str, parent: &'static str, name: &str) -> Listed {
    Listed { id, name: name.to_owned(), parent, kind: Kind::Folder, content: Vec::new() }
}

fn file(id: &'static str, parent: &'static str, name: &str, content: &[u8]) -> Listed {
    Listed { id, name: name.to_owned(), parent, kind: Kind::File, content: content.to_vec() }
}

fn copy_inode(i: &Option<Inode>) -> Option<Inode> {
    i.clone()
}

fn copy_row(r: &OutboxRow) -> OutboxRow {
    OutboxRow {
        seq: r.seq,
        kind: r.kind,
        item_id: r.item_id.clone(),
        inode: copy_inode(&r.inode),
        rel: r.rel.clone(),
        base: r.base.clone(),
        target_parent: r.target_parent.clone(),
        target_name: r.target_name.clone(),
        state: r.state,
        reason: r.reason.clone(),
        next_try: r.next_try,
        snapshot: r.snapshot.clone(),
        confirmed: r.confirmed,
    }
}

/// The base and the outbox. What is recorded of an object that has a row
/// already changes that row, unless it is being sent.
struct Store {
    items: Vec<(Listed, Option<FileHandle>)>,
    rows: Vec<OutboxRow>,
    skipped: Vec<(String, String)>,
    next: i64,
}

impl Store {
    fn parent(&self, id: &str) -> Option<&Listed> {
        self.items.iter().map(|(l, _)| l).find(|l| l.id == id)
    }

    fn located(&self, item: &Listed) -> RelPath {
        let mut names = vec![item.name.clone()];
        let mut at = item.parent;
        while at != "R" {
            let up = self.parent(at).unwrap();
            names.push(up.name.clone());
            at = up.parent;
        }
        names.reverse();
        RelPath::of(&names.join("/"))
    }

    fn row_of(&self, item: &Listed) -> Row {
        Row {
            id: item.id.to_owned(),
            parent_id: Some(item.parent.to_owned()),
            name: item.name.clone(),
            kind: item.kind,
            size: item.content.len() as u64,
            mtime: TIME,
            etag: Some(format!("e-{}", item.id)),
            ctag: Some(format!("c-{}", item.id)),
            quickxor: match item.kind {
                Kind::File => Some(hash(&item.content)),
                Kind::Folder => None,
            },
            mime: None,
            placement: Placement::Placed,
        }
    }

    fn same(row: &OutboxRow, d: &Detection) -> bool {
        match (&row.item_id, &d.item_id) {
            (Some(a), Some(b)) => a == b,
            (None, None) => match (&row.inode, &d.inode) {
                (Some(a), Some(b)) => a.same_object(b),
                _ => false,
            },
            _ => false,
        }
    }

    fn at_base(d: &Detection) -> bool {
        match &d.base {
            Some(b) => b.parent == d.target_parent && b.name == d.target_name,
            None => false,
        }
    }

    fn record(&mut self, d: Detection) {
        let live = self.rows.iter().position(|r| Store::same(r, &d) && r.state != OutboxState::Running);
        let mut kind = d.kind;
        if let Some(k) = live {
            let was = self.rows[k].kind;
            if matches!(was, OutboxKind::Create | OutboxKind::Mkdir) && d.item_id.is_none() {
                kind = was;
            } else if was == OutboxKind::Update && d.kind == OutboxKind::Move && !d.same_content {
                kind = OutboxKind::Update;
            }
            if kind == OutboxKind::Move && d.same_content && Store::at_base(&d) {
                self.rows.remove(k);
                return;
            }
        }
        let seq = match live {
            Some(k) => self.rows.remove(k).seq,
            None => {
                self.next += 1;
                self.next
            }
        };
        let row = OutboxRow {
            seq,
            kind,
            item_id: d.item_id,
            inode: d.inode,
            rel: d.rel,
            base: d.base,
            target_parent: d.target_parent,
            target_name: d.target_name,
            state: d.state,
            reason: d.reason,
            next_try: d.next_try,
            snapshot: None,
            confirmed: false,
        };
        self.rows.push(row);
        self.rows.sort_by_key(|r| r.seq);
    }

    fn apply(&mut self, ops: Vec<OutboxOp>) -> usize {
        let mut removed: usize = 0;
        for op in ops {
            match op {
                OutboxOp::Remove(seq) => {
                    let before = self.rows.len();
                    self.rows.retain(|r| r.seq != seq);
                    removed += before - self.rows.len();
                }
                OutboxOp::SetHandle { item_id, handle } => {
                    for (item, kept) in &mut self.items {
                        if item.id == item_id {
                            *kept = handle.clone();
                        }
                    }
                }
                OutboxOp::Rebase { from, to } => {
                    for row in &mut self.rows {
                        if row.rel.is_under(&from) {
                            let rest = row.rel.after(&from).unwrap();
                            let mut rel = to.clone();
                            for part in &rest.parts {
                                rel = rel.join(part);
                            }
                            row.rel = rel;
                        }
                    }
                }
                OutboxOp::Record(d) => self.record(d),
                OutboxOp::Skip { rel, reason } => {
                    let rel = show(&rel);
                    self.skipped.retain(|(r, _)| *r != rel);
                    self.skipped.push((rel, reason));
                    self.skipped.sort();
                }
                OutboxOp::Unskip(rel) => {
                    let rel = show(&rel);
                    self.skipped.retain(|(r, _)| *r != rel);
                }
                OutboxOp::Hold { seq, reason } => {
                    for row in &mut self.rows {
                        if row.seq == seq {
                            row.state = OutboxState::Held;
                            row.reason = Some(reason.clone());
                        }
                    }
                }
            }
        }
        removed
    }
}

/// A handle the table knows is alive there, any other is gone.
struct Table {
    alive: Vec<(FileHandle, String)>,
}

impl Liveness for Table {
    fn whereabouts(&self, handle: &FileHandle) -> Result<Whereabouts, Unanswered> {
        match self.alive.iter().rev().find(|(h, _)| h.same(handle)) {
            Some((_, path)) => answered(Answer::Object {
                path: AbsPath { raw: path.as_bytes().to_vec() },
                same_place: true,
            }),
            None => answered(Answer::Refused(116)),
        }
    }
}

struct Fx {
    disk: Disk,
    store: Store,
    table: Table,
    asked: usize,
    ignore: IgnoreList,
    handles_current: bool,
    removed: usize,
}

fn at(rel: &str) -> String {
    format!("{ROOT}/{rel}")
}

fn out(rel: &str) -> String {
    format!("{OUTSIDE}/{rel}")
}

type Summary = Vec<(OutboxKind, String, Option<String>)>;

fn rank(k: OutboxKind) -> u32 {
    match k {
        OutboxKind::Create => 0,
        OutboxKind::Mkdir => 1,
        OutboxKind::Update => 2,
        OutboxKind::Move => 3,
        OutboxKind::Delete => 4,
        OutboxKind::MoveOut => 5,
    }
}

fn sorted(mut rows: Summary) -> Summary {
    rows.sort_by_key(|(k, rel, id)| (rank(*k), rel.clone(), id.clone()));
    rows
}

fn line(kind: OutboxKind, rel: &str, id: &str) -> (OutboxKind, String, Option<String>) {
    (kind, rel.to_owned(), if id.is_empty() { None } else { Some(id.to_owned()) })
}

impl Fx {
    /// A folder whose listing is `items`, each placed where the base has it,
    /// nothing downloaded.
    fn new(items: &[Listed]) -> Self {
        let mut fx = Fx {
            disk: Disk::new(),
            store: Store { items: Vec::new(), rows: Vec::new(), skipped: Vec::new(), next: 0 },
            table: Table { alive: Vec::new() },
            asked: 0,
            ignore: IgnoreList::default(),
            handles_current: true,
            removed: 0,
        };
        for item in items {
            fx.store.items.push((item.clone(), None));
            let path = at(&show(&fx.store.located(item)));
            let mut n = node(match item.kind {
                Kind::File => Ty::File,
                Kind::Folder => Ty::Dir,
            });
            n.id = Some(item.id.to_owned());
            n.size = item.content.len() as u64;
            if item.kind == Kind::File {
                n.state = StateAttr::Known(State::OnlineOnly);
                n.ctag = Some(format!("c-{}", item.id));
            }
            let number = fx.disk.add(&path, n);
            let last = fx.store.items.len() - 1;
            fx.store.items[last].1 = Some(handle_of(number));
        }
        fx
    }

    fn hydrate(&mut self, rel: &str, content: &[u8]) {
        self.disk.write(&at(rel), content);
        let number = self.disk.find(&at(rel)).unwrap();
        let n = &mut self.disk.nodes[number];
        n.state = StateAttr::Known(State::Hydrated);
        n.stamp = Some(Stamp { size: n.size, mtime_sec: n.mtime.0, mtime_nsec: n.mtime.1 });
    }

    fn write(&mut self, rel: &str, content: &[u8]) {
        self.disk.write(&at(rel), content);
    }

    fn rename(&mut self, from: &str, to: &str) {
        self.disk.rename(&at(from), &at(to));
    }

    fn move_out(&mut self, rel: &str, name: &str) {
        self.disk.rename(&at(rel), &out(name));
    }

    fn remove(&mut self, rel: &str) {
        self.disk.remove(&at(rel));
    }

    fn node(&mut self, rel: &str) -> &mut Node {
        let number = self.disk.find(&at(rel)).unwrap();
        &mut self.disk.nodes[number]
    }

    fn id_at(&mut self, rel: &str) -> Option<String> {
        self.node(rel).id.clone()
    }

    fn handle(&self, rel: &str) -> FileHandle {
        handle_of(self.disk.find(&at(rel)).unwrap())
    }

    fn alive(&mut self, handle: FileHandle, path: &str) {
        self.table.alive.push((handle, path.to_owned()));
    }

    /// What is at `path`, and everything below it, is alive there.
    fn alive_tree(&mut self, path: &str) {
        let mut stack = vec![path.to_owned()];
        while let Some(p) = stack.pop() {
            let number = self.disk.find(&p).unwrap();
            self.alive(handle_of(number), &p);
            let below: Vec<String> = self.disk.nodes[number].children.keys().map(|n| format!("{p}/{n}")).collect();
            stack.extend(below);
        }
    }

    fn forget_handle(&mut self, id: &str) {
        for (item, handle) in &mut self.store.items {
            if item.id == id {
                *handle = None;
            }
        }
    }

    fn recorded(&self, id: &str) -> Option<Vec<u8>> {
        let found = self.store.items.iter().find(|(item, _)| item.id == id).unwrap();
        found.1.as_ref().map(|h| h.bytes.clone())
    }

    fn summary(&self) -> Summary {
        self.store.rows.iter().map(|r| (r.kind, show(&r.rel), r.item_id.clone())).collect()
    }

    fn row_at(&self, rel: &str) -> &OutboxRow {
        match self.store.rows.iter().find(|r| show(&r.rel) == rel) {
            Some(row) => row,
            None => panic!("no row at {rel}: {:?}", self.summary()),
        }
    }

    fn seq_of(&self, kind: OutboxKind, rel: &str) -> i64 {
        match self.store.rows.iter().find(|r| r.kind == kind && show(&r.rel) == rel) {
            Some(row) => row.seq,
            None => panic!("no {kind:?} at {rel}: {:?}", self.summary()),
        }
    }

    fn running(&mut self, seq: i64) {
        for row in &mut self.store.rows {
            if row.seq == seq {
                row.state = OutboxState::Running;
            }
        }
    }

    fn world(&self) -> World {
        let root = self.disk.dir(ROOT).unwrap();
        World {
            root_id: "R".to_owned(),
            root_dev: self.disk.nodes[root].dev,
            root_path: Some(AbsPath { raw: ROOT.as_bytes().to_vec() }),
            handles_current: self.handles_current,
            rows: self.store.rows.iter().map(copy_row).collect(),
            items: self
                .store
                .items
                .iter()
                .map(|(item, handle)| Item {
                    row: self.store.row_of(item),
                    handle: handle.clone(),
                    located: Some(self.store.located(item)),
                })
                .collect(),
            staging: Vec::new(),
            skipped: self.store.skipped.iter().map(|(rel, _)| RelPath::of(rel)).collect(),
            placed: self.store.items.len() as u64,
            ignore: self.ignore.clone(),
            max_depth: 64,
            now: 1000,
        }
    }

    fn peek(&self, rel: &RelPath) -> Peeked {
        let dir_rel = rel.dir();
        let name = rel.file_name().unwrap().clone();
        let dir = match self.disk.dir(&at(&show(&dir_rel))) {
            Ok(dir) => dir,
            Err(e) => return Peeked::NoDir(e),
        };
        match self.disk.entry(&dir_rel, dir, &name) {
            Err(e) => Peeked::Failed(e),
            Ok(None) => Peeked::Nothing,
            Ok(Some(e)) => Peeked::Found(e),
        }
    }

    fn look(&self, rel: &RelPath, scope: &DirScope, own: bool) -> Looked {
        let dir = match self.disk.dir(&at(&show(rel))) {
            Ok(dir) => dir,
            Err(e) => return Looked::Failed(e),
        };
        let own = if own && rel.depth() > 0 { self.peek(rel) } else { Peeked::Nothing };
        let dev = self.disk.nodes[dir].dev;
        if self.disk.nodes[dir].locked && matches!(scope, DirScope::Whole) {
            return Looked::Unlisted { own, dev, errno: EACCES };
        }
        let names: Vec<Vec<u8>> = match scope {
            DirScope::Whole => self.disk.nodes[dir].children.keys().map(|n| n.as_bytes().to_vec()).collect(),
            DirScope::Names(names) => names.clone(),
        };
        let names = names
            .into_iter()
            .map(|name| {
                let reading = match self.disk.entry(rel, dir, &name) {
                    Err(e) => Reading::Failed(e),
                    Ok(None) => Reading::Nothing,
                    Ok(Some(e)) => Reading::Found(e),
                };
                (name, reading)
            })
            .collect();
        Looked::Read { own, dev, names }
    }

    fn standing(&self, dir: &str, name: &str) -> Standing {
        match self.disk.dir(dir) {
            Err(e) => Standing::NoDir(e),
            Ok(dir) => match self.disk.nodes[dir].children.get(name) {
                None => Standing::NoHandle(ENOENT),
                Some(&n) => Standing::There(handle_of(n)),
            },
        }
    }

    fn opened(&self, e: &Entry) -> Option<usize> {
        match self.disk.find(&at(&show(&e.rel))) {
            Ok(n) if n as u64 == e.ino => Some(n),
            _ => None,
        }
    }

    fn answer(&mut self, ask: Ask, entries: &[Entry], facts: &mut Facts, liveness: &dyn Liveness, w: &World) {
        match ask {
            Ask::Whereabouts(h) => {
                self.asked += 1;
                let told = liveness.whereabouts(&h).ok();
                facts.told.push((h, told));
            }
            Ask::Standing(rel) => {
                let there = self.standing(&at(&show(&rel.dir())), &show_name(&rel));
                facts.standing.push((rel, there));
            }
            Ask::StandingOut(went, rel) => {
                let path = String::from_utf8(went.join(&rel).raw).unwrap();
                let (dir, name) = Disk::split(&path);
                let there = self.standing(&dir, &name);
                facts.standing_out.push((went, rel, there));
            }
            Ask::Dir(rel) => {
                let said = self.disk.dir(&at(&show(&rel))).err();
                facts.dirs.push((rel, said));
            }
            Ask::Strip(i) => {
                let n = self.disk.find(&at(&show(&entries[i].rel))).unwrap();
                let n = &mut self.disk.nodes[n];
                n.id = None;
                n.state = StateAttr::Absent;
                n.stamp = None;
                n.ctag = None;
                facts.stripped.push((i, Stripped::Done));
            }
            Ask::Check(i) => {
                let checked = match self.opened(&entries[i]) {
                    None => Checked::Other,
                    Some(n) => {
                        let n = &self.disk.nodes[n];
                        Checked::Same {
                            state: match n.state {
                                StateAttr::Known(state) => Some(state),
                                _ => None,
                            },
                            writing: Some(n.writers > 0),
                        }
                    }
                };
                facts.checked.push((i, checked));
            }
            Ask::Hash(i) => {
                let n = &self.disk.nodes[self.opened(&entries[i]).unwrap()];
                let seen = (n.size as i64, n.mtime.0, n.mtime.1);
                let digest = Digest { before: seen, hash: hash(&n.content), after: seen };
                facts.hashed.push((i, Hashed::Read(digest)));
            }
            Ask::Restore(i) => {
                let id = entries[i].id.clone().unwrap();
                let row = w.items.iter().find(|item| item.row.id == id).unwrap();
                let (size, mtime) = (row.row.size, row.row.mtime);
                let n = self.opened(&entries[i]).unwrap();
                self.disk.nodes[n].size = size;
                self.disk.nodes[n].mtime = (mtime, 0);
                facts.restored.push((i, Restored::Done));
            }
            Ask::Probe(rel) => {
                let said = match self.disk.find(&at(&show(&rel))) {
                    Err(e) => probe(Err(e), None),
                    Ok(n) => {
                        let n = &self.disk.nodes[n];
                        let mode: u32 = if n.ty == Ty::Dir { 0o040755 } else { 0o100644 };
                        probe(Ok(mode), n.id.clone().map(String::into_bytes))
                    }
                };
                let said = match said {
                    Ok(Probe::Managed { .. }) => Probed::Managed,
                    Ok(_) => Probed::Own,
                    Err(_) => Probed::Failed,
                };
                facts.probed.push((rel, said));
            }
            Ask::DirInode(rel) => {
                let said = self.disk.dir(&at(&show(&rel))).ok().map(|n| (self.disk.nodes[n].dev, n as u64));
                facts.dir_inodes.push((rel, said));
            }
        }
    }

    fn examine_with(&mut self, batch: Batch, liveness: &dyn Liveness) -> Examined {
        let w = self.world();
        let mut survey = Survey::new(&w, &batch);
        loop {
            match survey.next(&w) {
                Step::Done => break,
                Step::Look { rel, scope, own } => {
                    let got = self.look(&rel, &scope, own);
                    survey.looked(&w, got).unwrap();
                }
                Step::Peek(rel) => {
                    let got = self.peek(&rel);
                    survey.peeked(got).unwrap();
                }
            }
        }
        let mut facts = Facts::new();
        let mut done = loop {
            let examiner = Examiner { world: &w, seen: &survey.seen, batch: &batch, facts: &facts };
            match examiner.examine(false) {
                Ok(done) => break done,
                Err(Stop::Ask(ask)) => self.answer(ask, &survey.seen.entries, &mut facts, liveness, &w),
                Err(stop) => panic!("{stop:?}"),
            }
        };
        for rel in &done.restamp {
            let n = self.disk.find(&at(&show(rel))).unwrap();
            let n = &mut self.disk.nodes[n];
            n.stamp = Some(Stamp { size: n.size, mtime_sec: n.mtime.0, mtime_nsec: n.mtime.1 });
        }
        let ops = std::mem::take(&mut done.ops);
        self.removed = self.store.apply(ops);
        done
    }

    fn examine(&mut self, batch: Batch) -> Examined {
        let table = Table { alive: self.table.alive.iter().map(|(h, p)| (h.clone(), p.clone())).collect() };
        self.examine_with(batch, &table)
    }
}

fn show_name(rel: &RelPath) -> String {
    String::from_utf8(rel.file_name().unwrap().clone()).unwrap()
}

/// A batch naming these (directory, name) pairs.
fn names(pairs: &[(&str, &str)]) -> Batch {
    let mut batch = Batch::new();
    for (dir, name) in pairs {
        batch.name(&RelPath::of(dir), name.as_bytes());
    }
    batch
}

fn shown(rels: &[RelPath]) -> Vec<String> {
    rels.iter().map(show).collect()
}

fn big() -> Vec<Listed> {
    let mut items = vec![folder("BIG", "R", "big"), file("O", "R", "other.txt", b"o")];
    for n in 0..60 {
        let id: &'static str = NUMBERED[n];
        items.push(file(id, "BIG", &format!("f{n}.txt"), b"f"));
    }
    items
}

const NUMBERED: [&str; 62] = [
    "F0", "F1", "F2", "F3", "F4", "F5", "F6", "F7", "F8", "F9", "F10", "F11", "F12", "F13", "F14", "F15", "F16",
    "F17", "F18", "F19", "F20", "F21", "F22", "F23", "F24", "F25", "F26", "F27", "F28", "F29", "F30", "F31", "F32",
    "F33", "F34", "F35", "F36", "F37", "F38", "F39", "F40", "F41", "F42", "F43", "F44", "F45", "F46", "F47", "F48",
    "F49", "F50", "F51", "F52", "F53", "F54", "F55", "F56", "F57", "F58", "F59", "F60", "F61",
];

/// New directories and files become rows, parents first; what cannot be
/// uploaded is listed, what is ignored stays local, a name OneDrive refuses is
/// blocked.
#[test]
fn new_things_become_rows_and_the_rest_is_listed() {
    let mut fx = Fx::new(&[]);
    fx.disk.mkdir(&at("new"));
    fx.disk.mkdir(&at("new/sub"));
    fx.write("new/sub/f.txt", b"x");
    fx.write("new/g.txt", b"y");
    fx.write("notes.txt.swp", b"swap");
    fx.write("a:b.txt", b"z");
    fx.write(".konedrive-mine", b"mine");
    fx.disk.add(&at("link"), node(Ty::Symlink));
    fx.disk.add(&at(".#notes.org"), node(Ty::Symlink));
    fx.disk.add(&at("pipe"), node(Ty::Fifo));
    fx.examine(names(&[
        ("", "new"),
        ("", "notes.txt.swp"),
        ("", "a:b.txt"),
        ("", ".konedrive-mine"),
        ("", "link"),
        ("", "pipe"),
        ("", ".#notes.org"),
    ]));

    let mut rows = fx.summary();
    rows.sort_by(|a, b| a.1.cmp(&b.1));
    assert_eq!(
        rows,
        vec![
            line(Create, "a:b.txt", ""),
            line(Mkdir, "new", ""),
            line(Create, "new/g.txt", ""),
            line(Mkdir, "new/sub", ""),
            line(Create, "new/sub/f.txt", ""),
        ]
    );
    let blocked = fx.row_at("a:b.txt");
    assert_eq!((blocked.state, blocked.reason.as_deref()), (OutboxState::Blocked, Some("name-characters")));
    assert_eq!(fx.row_at("new").target_parent.as_deref(), Some("R"));
    assert_eq!(fx.row_at("new/sub").target_parent, None, "its parent's id comes when its mkdir lands");
    assert!(fx.row_at("new").seq < fx.row_at("new/sub").seq, "new folders shallowest first");
    assert_eq!(
        fx.store.skipped,
        vec![
            (".konedrive-mine".to_owned(), "reserved-name".to_owned()),
            ("link".to_owned(), "symlink".to_owned()),
            ("pipe".to_owned(), "fifo".to_owned()),
        ]
    );
    // Listed while it is there.
    fx.remove("pipe");
    fx.examine(names(&[("", "pipe")]));
    assert_eq!(fx.store.skipped.len(), 2);
}

/// A size change is a change; a same-size change is confirmed by hash; a touch
/// uploads nothing and refreshes the stamp; an edit that kept size and time is
/// found only when the file is said to be written.
#[test]
fn an_edit_is_an_update_and_a_touch_uploads_nothing() {
    let mut fx = Fx::new(&[
        file("A", "R", "a.txt", b"hello"),
        file("B", "R", "b.txt", b"12345"),
        file("C", "R", "c.txt", b"old"),
    ]);
    fx.hydrate("a.txt", b"hello");
    fx.hydrate("b.txt", b"12345");
    fx.hydrate("c.txt", b"old");
    // A touch.
    let now = fx.disk.tick();
    fx.node("a.txt").mtime = now;
    fx.examine(names(&[("", "a.txt")]));
    assert!(fx.store.rows.is_empty(), "{:?}", fx.summary());
    let stamp = fx.node("a.txt").stamp;
    assert_eq!(stamp, Some(Stamp { size: 5, mtime_sec: now.0, mtime_nsec: now.1 }), "the stamp is refreshed");

    // The same size, other content.
    fx.write("a.txt", b"HELLO");
    fx.examine(names(&[("", "a.txt")]));
    let row = fx.row_at("a.txt");
    assert_eq!((row.kind, row.item_id.as_deref(), row.state), (Update, Some("A"), OutboxState::Ready));
    let base = row.base.as_ref().unwrap();
    assert_eq!((base.etag.as_deref(), base.name.as_deref()), (Some("e-A"), Some("a.txt")));
    assert_eq!((row.target_parent.as_deref(), row.target_name.as_deref()), (Some("R"), Some("a.txt")));

    // Size and time kept: nothing seen; said to be written, found.
    let kept = fx.node("b.txt").mtime;
    fx.write("b.txt", b"54321");
    fx.node("b.txt").mtime = kept;
    fx.examine(names(&[("", "b.txt")]));
    assert!(fx.store.rows.iter().all(|r| r.item_id.as_deref() != Some("B")));
    let mut written = Batch::new();
    let handle = fx.handle("b.txt");
    written.written(&RelPath::root(), b"b.txt", Some(handle));
    fx.examine(written);
    assert_eq!(fx.row_at("b.txt").kind, Update);

    // Another size: no hash needed.
    fx.write("c.txt", b"longer now");
    fx.examine(names(&[("", "c.txt")]));
    assert_eq!(fx.row_at("c.txt").kind, Update);
    assert_eq!(fx.store.rows.len(), 3);
}

/// A file someone has open for writing is never quiet: its row waits, and is
/// ready once the writer closes.
#[test]
fn a_file_open_for_writing_is_recorded_as_waiting() {
    let mut fx = Fx::new(&[file("A", "R", "a.txt", b"log")]);
    fx.hydrate("a.txt", b"log");
    fx.write("a.txt", b"log line");
    fx.node("a.txt").writers = 1;
    fx.write("new.txt", b"nmore");
    fx.node("new.txt").writers = 1;
    let done = fx.examine(names(&[("", "a.txt"), ("", "new.txt")]));
    for rel in ["a.txt", "new.txt"] {
        let row = fx.row_at(rel);
        assert_eq!(
            (row.state, row.reason.as_deref(), row.next_try),
            (OutboxState::Waiting, Some("open-for-writing"), Some(1030)),
            "{rel}"
        );
    }
    assert!(!done.recheck.is_empty());

    fx.node("a.txt").writers = 0;
    fx.node("new.txt").writers = 0;
    fx.examine(done.recheck);
    let states: Vec<(OutboxKind, OutboxState)> = fx.store.rows.iter().map(|r| (r.kind, r.state)).collect();
    assert_eq!(states, vec![(Update, OutboxState::Ready), (Create, OutboxState::Ready)]);
}

/// A placeholder cut short gets the cloud's size and time back; nothing is
/// uploaded, and the file stays a placeholder.
#[test]
fn a_truncated_placeholder_gets_the_clouds_size_back() {
    let mut fx = Fx::new(&[file("P", "R", "p.bin", &[7u8; 100])]);
    fx.node("p.bin").size = 10;
    let done = fx.examine(names(&[("", "p.bin")]));
    assert_eq!(shown(&done.restored), vec!["p.bin".to_owned()]);
    let n = fx.node("p.bin").clone();
    assert_eq!((n.size, n.mtime.0), (100, TIME));
    assert!(fx.store.rows.is_empty());
    assert_eq!(n.state, StateAttr::Known(State::OnlineOnly));
}

/// A rename or a move is a move row of the same item; moving it back removes
/// the row. A directory that moves takes the rows inside it along.
#[test]
fn renames_and_moves_are_moves_of_the_item() {
    let mut fx =
        Fx::new(&[folder("D", "R", "docs"), file("A", "R", "a.txt", b"a"), file("F", "D", "f.txt", b"f")]);
    fx.rename("a.txt", "b.txt");
    fx.examine(names(&[("", "a.txt"), ("", "b.txt")]));
    let row = fx.row_at("b.txt");
    assert_eq!(
        (row.kind, row.item_id.as_deref(), row.target_parent.as_deref(), row.target_name.as_deref()),
        (Move, Some("A"), Some("R"), Some("b.txt"))
    );
    let seq = row.seq;

    fx.rename("b.txt", "docs/b.txt");
    fx.examine(names(&[("", "b.txt"), ("docs", "b.txt")]));
    let row = fx.row_at("docs/b.txt");
    assert_eq!((row.seq, row.target_parent.as_deref()), (seq, Some("D")), "one row, to the final place");

    fx.rename("docs/b.txt", "a.txt");
    fx.examine(names(&[("docs", "b.txt"), ("", "a.txt")]));
    assert!(fx.store.rows.is_empty(), "back where the base has it");
    assert_eq!(fx.asked, 0, "every missing item was found elsewhere in the batch");

    // A new file in a folder, then the folder renamed.
    fx.write("docs/new.txt", b"n");
    fx.examine(names(&[("docs", "new.txt")]));
    fx.rename("docs", "papers");
    fx.examine(names(&[("", "docs"), ("", "papers")]));
    let rows = sorted(fx.summary());
    assert_eq!(rows, vec![line(Create, "papers/new.txt", ""), line(Move, "papers", "D")]);

    // Renamed to a name OneDrive refuses: blocked, for the user to rename.
    fx.rename("a.txt", "what?.txt");
    fx.examine(names(&[("", "a.txt"), ("", "what?.txt")]));
    let row = fx.row_at("what?.txt");
    assert_eq!(
        (row.kind, row.state, row.reason.as_deref()),
        (Move, OutboxState::Blocked, Some("name-characters"))
    );
}

/// Save-by-rename, as editors do it: the item keeps its id, and the new inode
/// takes it over. Nothing is created, deleted or moved, and nobody is asked
/// whether the old inode lives.
#[test]
fn save_by_rename_in_editors_patterns_is_an_update_of_the_item() {
    let files =
        [("K", "k.txt"), ("G", "g.txt"), ("L", "lo.odt"), ("V1", "v1.txt"), ("V2", "v2.txt"), ("V3", "v3.txt")];
    let listed: Vec<Listed> = files.iter().map(|(id, name)| file(id, "R", name, b"old")).collect();
    let mut fx = Fx::new(&listed);
    for (_, name) in files {
        fx.hydrate(name, b"old");
    }

    // GNOME: `.goutputstream-XXXXXX`, renamed over.
    fx.write(".goutputstream-ABC123", b"gnome's new");
    fx.rename(".goutputstream-ABC123", "g.txt");
    fx.examine(names(&[("", ".goutputstream-ABC123"), ("", "g.txt")]));

    // LibreOffice: a `lu*.tmp` renamed over, its lock file beside.
    fx.write(".~lock.lo.odt#", b"lock");
    fx.write("lu98765xyz.tmp", b"libreoffice's new");
    fx.rename("lu98765xyz.tmp", "lo.odt");
    fx.examine(names(&[("", ".~lock.lo.odt#"), ("", "lu98765xyz.tmp"), ("", "lo.odt")]));

    // vim without a backup: the original becomes `file~`, the new file is
    // written, the backup removed.
    fx.rename("v1.txt", "v1.txt~");
    fx.write("v1.txt", b"vim's new");
    fx.remove("v1.txt~");
    fx.examine(names(&[("", "v1.txt"), ("", "v1.txt~")]));

    // vim with `backup` on: `file~` stays, the user's local backup.
    fx.rename("v2.txt", "v2.txt~");
    fx.write("v2.txt", b"vim's newer");
    fx.examine(names(&[("", "v2.txt"), ("", "v2.txt~")]));
    assert_eq!(fx.id_at("v2.txt~"), None, "the downloaded backup is the user's own file now");

    // vim copying the attributes to the new file.
    fx.rename("v3.txt", "v3.txt~");
    fx.write("v3.txt", b"vim's newest!");
    fx.disk.copy(&at("v3.txt~"), &at("v3.txt"));
    fx.write("v3.txt", b"vim's newest!");
    fx.remove("v3.txt~");
    fx.examine(names(&[("", "v3.txt"), ("", "v3.txt~")]));

    // Kate: linked under a temporary name, renamed over; the write is reported
    // under `#<inode>`.
    fx.write("k.txt.aBcDeF", b"kate's new");
    fx.rename("k.txt.aBcDeF", "k.txt");
    fx.examine(names(&[("", "#4711"), ("", "k.txt.aBcDeF"), ("", "k.txt")]));

    let mut expected: Summary = files.iter().map(|(id, name)| line(Update, name, id)).collect();
    expected = sorted(expected);
    assert_eq!(sorted(fx.summary()), expected);
    for (_, name) in files {
        let handle = fx.row_at(name).inode.as_ref().and_then(|i| i.handle.as_ref()).map(|h| h.bytes.clone());
        assert_eq!(handle, Some(fx.handle(name).bytes), "{name}: the new inode takes the item over");
    }
    assert_eq!(fx.asked, 0);
    assert!(fx.store.skipped.is_empty(), "temporary and lock files stay local, unlisted");
}

/// A copy that kept konedrive's attributes is a new file, and the original
/// stays the item; a copied folder likewise. A second name of a placeholder is
/// marked and listed.
#[test]
fn copies_that_kept_their_attributes_are_new_files() {
    let mut fx = Fx::new(&[
        folder("D", "R", "docs"),
        file("A", "R", "a.txt", b"abc"),
        file("F", "D", "f.txt", b"ff"),
        file("P", "R", "p.bin", b"placeholder"),
    ]);
    fx.hydrate("a.txt", b"abc");
    fx.hydrate("docs/f.txt", b"ff");
    fx.disk.copy(&at("a.txt"), &at("copy.txt"));
    fx.disk.copy(&at("docs"), &at("docs2"));
    fx.disk.copy(&at("docs/f.txt"), &at("docs2/f.txt"));
    fx.disk.link(&at("p.bin"), &at("p-link.bin"));

    let done = fx.examine(names(&[("", "copy.txt"), ("", "docs2"), ("", "p-link.bin")]));
    assert_eq!(
        sorted(fx.summary()),
        vec![line(Create, "copy.txt", ""), line(Create, "docs2/f.txt", ""), line(Mkdir, "docs2", "")]
    );
    for copy in ["copy.txt", "docs2", "docs2/f.txt"] {
        assert_eq!(fx.id_at(copy), None, "{copy} is stripped");
    }
    for original in [("a.txt", "A"), ("docs", "D"), ("docs/f.txt", "F")] {
        assert_eq!(fx.id_at(original.0).as_deref(), Some(original.1), "{} is untouched", original.0);
    }
    assert_eq!(shown(&done.mark_files), vec!["p.bin".to_owned()]);
    assert_eq!(fx.store.skipped, vec![("p-link.bin".to_owned(), "hard-link".to_owned())]);
}

/// A base item missing from the batch is decided by its object: gone is a
/// delete, alive outside the folder a move out, alive inside a move to look
/// for. With no one to ask, nothing is decided; and a new file at a deleted
/// name, a batch later, is an update after all.
#[test]
fn a_missing_item_is_decided_by_its_object() {
    let mut fx = Fx::new(&[
        folder("D", "R", "docs"),
        file("A", "R", "a.txt", b"a"),
        file("B", "R", "b.txt", b"b"),
        file("C", "R", "c.txt", b"c"),
        file("E", "R", "e.txt", b"e"),
    ]);
    let (b, c) = (fx.handle("b.txt"), fx.handle("c.txt"));
    fx.remove("a.txt");
    fx.move_out("b.txt", "b.txt");
    fx.alive(b.clone(), &out("b.txt"));
    fx.rename("c.txt", "docs/c.txt");
    fx.alive(c, &at("docs/c.txt"));
    let done = fx.examine(names(&[("", "a.txt"), ("", "b.txt"), ("", "c.txt")]));

    assert_eq!(fx.summary(), vec![line(Delete, "a.txt", "A"), line(MoveOut, "b.txt", "B")]);
    let handle = fx.row_at("b.txt").inode.as_ref().and_then(|i| i.handle.as_ref()).map(|h| h.bytes.clone());
    assert_eq!(handle, Some(b.bytes));
    assert_eq!(fx.asked, 3);
    fx.examine(done.recheck);
    assert_eq!(fx.row_at("docs/c.txt").kind, Move);

    fx.remove("e.txt");
    let done = fx.examine_with(names(&[("", "e.txt")]), &NoLiveness);
    assert_eq!(done.undecided, vec!["E".to_owned()]);
    assert!(fx.store.rows.iter().all(|r| r.item_id.as_deref() != Some("E")));

    // A new file where the deleted one was.
    fx.write("a.txt", b"again");
    fx.examine(names(&[("", "a.txt")]));
    let row = fx.row_at("a.txt");
    assert_eq!((row.kind, row.item_id.as_deref()), (Update, Some("A")));
}

/// A base with no recorded handles proves no delete: the item is left for the
/// reconcile to place again.
#[test]
fn a_rebuilt_base_never_deletes() {
    let mut fx = Fx::new(&[file("A", "R", "a.txt", b"a")]);
    fx.forget_handle("A");
    fx.remove("a.txt");
    let done = fx.examine(Batch::full());
    assert_eq!(done.unproven, vec!["A".to_owned()]);
    assert!(fx.store.rows.is_empty());
    assert_eq!(fx.asked, 0);
}

/// Removing a folder is one delete: the rows inside it go with it, and what
/// left it first keeps its own.
#[test]
fn a_folder_delete_is_one_row() {
    let mut fx = Fx::new(&[
        folder("D", "R", "docs"),
        file("X", "D", "x.txt", b"x"),
        file("Y", "D", "y.txt", b"y"),
        file("Z", "D", "z.txt", b"z"),
    ]);
    fx.hydrate("docs/y.txt", b"y");
    fx.write("docs/y.txt", b"edited");
    fx.examine(names(&[("docs", "y.txt")]));
    assert_eq!(fx.row_at("docs/y.txt").kind, Update);

    fx.rename("docs/x.txt", "x.txt");
    fx.remove("docs");
    fx.examine(names(&[("docs", "x.txt"), ("", "x.txt"), ("docs", "y.txt"), ("docs", "z.txt"), ("", "docs")]));
    assert_eq!(fx.summary(), vec![line(Move, "x.txt", "X"), line(Delete, "docs", "D")]);
}

/// A batch that would remove more than the guard allows is held until the user
/// confirms; a small one goes.
#[test]
fn a_large_delete_is_held_and_a_small_one_goes() {
    let mut fx = Fx::new(&big());
    fx.remove("other.txt");
    let done = fx.examine(names(&[("", "other.txt")]));
    assert_eq!((done.held, fx.row_at("other.txt").state), (0, OutboxState::Ready));

    fx.remove("big");
    let done = fx.examine(names(&[("", "big")]));
    assert_eq!(done.held, 62, "the delete of other.txt still waiting adds up with the folder");
    assert_eq!(fx.row_at("other.txt").state, OutboxState::Held);
    let row = fx.row_at("big");
    assert_eq!(
        (row.kind, row.state, row.reason.as_deref()),
        (Delete, OutboxState::Held, Some("mass-delete"))
    );
}

/// An id the base does not know: a downloaded file from elsewhere becomes the
/// user's own and is uploaded; one that is not downloaded cannot be read here,
/// and is listed with its attributes left alone.
#[test]
fn a_file_from_elsewhere_is_uploaded_if_downloaded_and_listed_if_not() {
    let mut fx = Fx::new(&[]);
    fx.write("foreign.txt", b"content");
    fx.node("foreign.txt").id = Some("OTHER".to_owned());
    fx.node("foreign.txt").state = StateAttr::Known(State::Hydrated);
    fx.write("ghost.bin", b"");
    fx.node("ghost.bin").size = 4096;
    fx.node("ghost.bin").id = Some("GHOST".to_owned());
    fx.node("ghost.bin").state = StateAttr::Known(State::OnlineOnly);
    fx.write("linked.txt", b"two names");
    fx.node("linked.txt").id = Some("LINKED".to_owned());
    fx.node("linked.txt").state = StateAttr::Known(State::Hydrated);
    fx.disk.link(&at("linked.txt"), &out("other-account.txt"));
    let done = fx.examine(names(&[("", "foreign.txt"), ("", "ghost.bin"), ("", "linked.txt")]));
    assert_eq!(fx.summary(), vec![line(Create, "foreign.txt", "")]);
    assert_eq!(shown(&done.stripped), vec!["foreign.txt".to_owned()]);
    assert_eq!(
        fx.id_at("linked.txt").as_deref(),
        Some("LINKED"),
        "stripping it would strip its other name too"
    );
    assert_eq!(fx.id_at("ghost.bin").as_deref(), Some("GHOST"));
    assert_eq!(
        fx.store.skipped,
        vec![
            ("ghost.bin".to_owned(), "not-downloaded".to_owned()),
            ("linked.txt".to_owned(), "hard-link".to_owned()),
        ]
    );
}

/// A pending create follows its file: renamed, it is created at the new name;
/// renamed to an ignored name or deleted before it was sent, it leaves
/// nothing; a new folder removed takes its rows along.
#[test]
fn a_pending_create_follows_its_file_until_it_is_gone() {
    let mut fx = Fx::new(&[]);
    fx.write("n.txt", b"n");
    fx.examine(names(&[("", "n.txt")]));
    let seq = fx.row_at("n.txt").seq;
    fx.rename("n.txt", "m.txt");
    fx.examine(names(&[("", "n.txt"), ("", "m.txt")]));
    assert_eq!((fx.row_at("m.txt").seq, fx.store.rows.len()), (seq, 1));
    fx.rename("m.txt", "m.txt.tmp");
    fx.examine(names(&[("", "m.txt"), ("", "m.txt.tmp")]));
    assert!(fx.store.rows.is_empty(), "an ignored name stays local");

    fx.write("q.txt", b"q");
    fx.disk.mkdir(&at("dir"));
    fx.write("dir/f.txt", b"f");
    fx.examine(names(&[("", "q.txt"), ("", "dir")]));
    assert_eq!(fx.store.rows.len(), 3);
    fx.remove("q.txt");
    fx.remove("dir");
    fx.examine(names(&[("", "q.txt"), ("", "dir")]));
    assert!(fx.store.rows.is_empty(), "{:?}", fx.summary());
    assert_eq!(fx.removed, 3);
}

/// A directory the worker is making right now is an item already, whatever its
/// name: ignoring its name keeps the new things inside it waiting, and only
/// its name waits behind.
#[test]
fn ignoring_a_directory_being_made_keeps_what_is_inside_it() {
    let mut fx = Fx::new(&[]);
    fx.disk.mkdir(&at("build"));
    fx.write("build/a.o", b"a");
    fx.examine(names(&[("", "build")]));
    let mkdir = fx.row_at("build").seq;
    assert_eq!((fx.row_at("build").kind, fx.row_at("build/a.o").kind), (Mkdir, Create));
    fx.running(mkdir);
    fx.ignore = IgnoreList::new(vec!["build".to_owned()]);
    fx.examine(names(&[("", "build"), ("build", "a.o")]));
    assert!(
        fx.store.rows.iter().any(|r| r.kind == Create && show(&r.rel) == "build/a.o"),
        "{:?}",
        fx.summary()
    );
    assert!(
        fx.store.rows.iter().any(|r| r.seq == mkdir && r.state == OutboxState::Running),
        "{:?}",
        fx.summary()
    );
}

/// A full scan finds what events would have shown. Run twice, it finds the
/// same.
#[test]
fn the_full_scan_finds_what_changed_while_the_daemon_was_down() {
    let mut fx = Fx::new(&[
        folder("D", "R", "docs"),
        file("A", "R", "a.txt", b"a"),
        file("B", "R", "b.txt", b"b"),
        file("C", "D", "c.txt", b"c"),
        file("E", "R", "e.txt", b"e"),
    ]);
    fx.hydrate("a.txt", b"a");
    fx.write("n.txt", b"n");
    fx.write("a.txt", b"a, edited");
    fx.rename("b.txt", "docs/b.txt");
    fx.remove("e.txt");
    fx.disk.mkdir(&at("new"));
    fx.write("new/m.txt", b"m");

    let want = sorted(vec![
        line(Mkdir, "new", ""),
        line(Create, "n.txt", ""),
        line(Update, "a.txt", "A"),
        line(Move, "docs/b.txt", "B"),
        line(Create, "new/m.txt", ""),
        line(Delete, "e.txt", "E"),
    ]);
    fx.examine(Batch::full());
    assert_eq!(sorted(fx.summary()), want);
    fx.examine(Batch::full());
    assert_eq!(sorted(fx.summary()), want, "nothing new the second time");
    assert!(fx.row_at("new").seq < fx.row_at("new/m.txt").seq, "a new folder before what is in it");
}

/// A folder that is what the base says is examined with nothing to record, and
/// without asking after any of its objects.
#[test]
fn a_folder_in_step_changes_nothing() {
    let mut fx = Fx::new(&[
        folder("D", "R", "docs"),
        file("A", "R", "a.txt", b"a"),
        file("C", "D", "c.txt", b"c"),
    ]);
    fx.hydrate("a.txt", b"a");
    let done = fx.examine_with(Batch::full(), &NoLiveness);
    assert!(fx.summary().is_empty());
    assert!(done.restamp.is_empty() && done.restored.is_empty() && done.stripped.is_empty());
    assert!(done.undecided.is_empty() && done.unproven.is_empty());
    assert_eq!(done.held, 0);
    assert_eq!(fx.removed, 0);
    fx.examine(names(&[("", "a.txt"), ("docs", "c.txt")]));
    assert!(fx.summary().is_empty());
}

fn docs() -> Vec<Listed> {
    vec![
        folder("D", "R", "Docs"),
        file("P", "D", "p.bin", b"only in the cloud"),
        file("Q", "D", "q.txt", b"q"),
    ]
}

/// A placeholder dragged out of a folder is a move out; the folder deleted
/// later keeps it.
#[test]
fn a_placeholder_dragged_out_keeps_its_row_when_its_folder_is_deleted() {
    let mut fx = Fx::new(&docs());
    let p = fx.handle("Docs/p.bin");
    fx.move_out("Docs/p.bin", "p.bin");
    fx.alive(p, &out("p.bin"));
    fx.examine(names(&[("Docs", "p.bin")]));
    assert_eq!(fx.summary(), vec![line(MoveOut, "Docs/p.bin", "P")]);

    fx.remove("Docs");
    fx.examine(names(&[("", "Docs")]));
    assert_eq!(fx.summary(), vec![line(MoveOut, "Docs/p.bin", "P"), line(Delete, "Docs", "D")]);
}

/// In one batch, the folder's listing fails, so what left it is asked after by
/// the objects the batch saw; and with no event at all, every item still with
/// the folder is asked where it is.
#[test]
fn a_placeholder_dragged_out_in_the_same_batch_is_a_move_out() {
    for seen in [true, false] {
        let mut fx = Fx::new(&docs());
        let p = fx.handle("Docs/p.bin");
        fx.move_out("Docs/p.bin", "p.bin");
        fx.alive(p.clone(), &out("p.bin"));
        fx.remove("Docs");
        let mut batch = names(&[("", "Docs")]);
        if seen {
            batch = names(&[("Docs", "p.bin"), ("", "Docs"), ("Docs", "q.txt")]);
            batch.object(p.clone());
        }
        fx.examine(batch);
        assert_eq!(sorted(fx.summary()), vec![line(Delete, "Docs", "D"), line(MoveOut, "Docs/p.bin", "P")]);
        let row = fx.row_at("Docs/p.bin");
        let handle = row.inode.as_ref().and_then(|i| i.handle.as_ref()).map(|h| h.bytes.clone());
        assert_eq!(handle, Some(p.bytes));
        assert_eq!(row.target_name.as_deref(), Some("/base/elsewhere/p.bin"), "where it went");
    }
}

/// Until a listing has completed there is no base.
#[test]
fn an_unfinished_listing_is_no_base_to_examine_against() {
    let root = || Ok(Root { links: 2, marked: true });
    let err = begin(Some("R".to_owned()), false, true, root()).unwrap_err();
    assert!(matches!(err, ExamineError::NoBase), "{err:?}");
    // A first listing placed page by page, part-way: rows in `items`, and
    // still no base.
    let err = begin(Some("R".to_owned()), true, true, root()).unwrap_err();
    assert!(matches!(err, ExamineError::NoBase), "{err:?}");
    let err = begin(None, true, false, root()).unwrap_err();
    assert!(matches!(err, ExamineError::NoBase), "{err:?}");
    assert_eq!(err.message(), "the folder has no completed listing yet, so there is no base to compare with");
    assert_eq!(begin(Some("R".to_owned()), true, false, root()).unwrap(), "R");
}

/// A folder removed and made again: the old folder's delete comes first.
#[test]
fn a_folder_removed_and_made_again_is_deleted_first() {
    let mut fx = Fx::new(&[folder("E", "R", "exports"), file("O", "E", "old.txt", b"o")]);
    fx.remove("exports");
    fx.disk.mkdir(&at("exports"));
    fx.write("exports/new.txt", b"n");
    fx.examine(names(&[("", "exports")]));
    assert_eq!(
        fx.summary(),
        vec![line(Delete, "exports", "E"), line(Mkdir, "exports", ""), line(Create, "exports/new.txt", "")]
    );
}

/// A folder renamed and a new one made at its name: the move comes first.
#[test]
fn a_folder_made_at_a_name_another_is_leaving_comes_after_it() {
    let mut fx = Fx::new(&[folder("D", "R", "d"), file("F", "D", "f.txt", b"f")]);
    fx.rename("d", "d.old");
    fx.disk.mkdir(&at("d"));
    fx.examine(names(&[("", "d"), ("", "d.old")]));
    assert_eq!(fx.summary(), vec![line(Move, "d.old", "D"), line(Mkdir, "d", "")]);
}

/// A folder moved out removes as much from OneDrive as a delete, and is held
/// the same way.
#[test]
fn a_big_folder_moved_out_is_held_like_a_delete() {
    let mut fx = Fx::new(&big());
    fx.move_out("big", "big");
    fx.alive_tree(&out("big"));
    let done = fx.examine(names(&[("", "big")]));
    assert_eq!(done.held, 61);
    let row = fx.row_at("big");
    assert_eq!((row.kind, row.state), (MoveOut, OutboxState::Held));
}

/// Removals trickling in over several batches add up, and the guard holds them
/// all once they do.
#[test]
fn removals_that_trickle_in_add_up_for_the_guard() {
    let listed: Vec<Listed> = (0..62).map(|n| file(NUMBERED[n], "R", &format!("f{n:02}.txt"), b"f")).collect();
    let mut fx = Fx::new(&listed);
    let mut held: Vec<u64> = Vec::new();
    for range in [0..12, 12..24] {
        let mut batch = Batch::new();
        for n in range {
            fx.remove(&format!("f{n:02}.txt"));
            batch.name(&RelPath::root(), format!("f{n:02}.txt").as_bytes());
        }
        held.push(fx.examine(batch).held);
    }
    assert_eq!(held[0], 0, "12 of 62 is under a fifth");
    assert_eq!(held[1], 24, "with the 12 still waiting, 24 is not");
    assert!(fx.store.rows.iter().all(|r| r.state == OutboxState::Held));
}

/// A row the worker is sending is never removed: a delete, or the rename to an
/// ignored name, waits behind it.
#[test]
fn what_changed_waits_behind_a_row_being_sent() {
    let mut fx = Fx::new(&[]);
    fx.write("n.txt", b"n");
    fx.write("m.txt", b"m");
    fx.examine(names(&[("", "n.txt"), ("", "m.txt")]));
    for row in &mut fx.store.rows {
        row.state = OutboxState::Running;
    }
    fx.remove("n.txt");
    fx.rename("m.txt", "m.txt.tmp");
    fx.examine(names(&[("", "n.txt"), ("", "m.txt"), ("", "m.txt.tmp")]));
    assert_eq!(fx.store.rows.len(), 4, "{:?}", fx.summary());
    let state = |kind: OutboxKind, rel: &str| {
        fx.store.rows.iter().find(|r| r.kind == kind && show(&r.rel) == rel).unwrap().state
    };
    assert_eq!((state(Create, "n.txt"), state(Create, "m.txt")), (OutboxState::Running, OutboxState::Running));
    assert_eq!((state(Delete, "n.txt"), state(Move, "m.txt.tmp")), (OutboxState::Ready, OutboxState::Ready));
}

/// A copy that kept the attributes does not take the item when the inode the
/// base records is still alive outside the folder: the copy is a new file, and
/// the item moved out.
#[test]
fn a_copy_does_not_take_the_item_when_its_original_left_the_folder() {
    let mut fx = Fx::new(&[file("A", "R", "a.txt", b"abc")]);
    fx.hydrate("a.txt", b"abc");
    let original = fx.handle("a.txt");
    fx.disk.copy(&at("a.txt"), &at("b.txt"));
    fx.move_out("a.txt", "a.txt");
    fx.alive(original.clone(), &out("a.txt"));
    fx.examine(names(&[("", "a.txt"), ("", "b.txt")]));
    assert_eq!(sorted(fx.summary()), vec![line(Create, "b.txt", ""), line(MoveOut, "a.txt", "A")]);
    assert_eq!(fx.id_at("b.txt"), None);
    assert_eq!(fx.recorded("A"), Some(original.bytes), "the item is still the original");
}

/// Nothing is examined in a root that was deleted, or that no longer carries
/// its root id.
#[test]
fn a_root_that_went_away_is_not_examined() {
    for (links, marked) in [(2, false), (0, true), (0, false)] {
        let err = begin(Some("R".to_owned()), true, false, Ok(Root { links, marked })).unwrap_err();
        assert!(matches!(err, ExamineError::RootGone), "{err:?}");
        assert_eq!(err.message(), "the OneDrive folder was moved or deleted");
    }
    let err = begin(Some("R".to_owned()), true, false, Err(5)).unwrap_err();
    assert!(matches!(err, ExamineError::Io(5)), "{err:?}");
    assert!(err.message().starts_with("the folder: "), "{}", err.message());
    assert_eq!(ExamineError::Tree("the store is locked".to_owned()).message(), "the store is locked");
}

/// An answer that cannot be placed for sure decides nothing: a path that is
/// not a path, or a place in the folder where the object is not.
#[test]
fn an_answer_that_cannot_be_placed_decides_nothing() {
    let mut fx = Fx::new(&[
        folder("D", "R", "docs"),
        file("B", "R", "b.txt", b"b"),
        file("C", "R", "c.txt", b"c"),
        file("X", "D", "x.txt", b"x"),
    ]);
    let (b, c) = (fx.handle("b.txt"), fx.handle("c.txt"));
    fx.move_out("b.txt", "b.txt");
    fx.alive(b, "(unreachable)/elsewhere/b.txt");
    fx.remove("c.txt");
    fx.alive(c, &at("docs/x.txt"));
    let done = fx.examine(names(&[("", "b.txt"), ("", "c.txt")]));
    let mut undecided = done.undecided.clone();
    undecided.sort();
    assert_eq!(undecided, vec!["B".to_owned(), "C".to_owned()]);
    assert!(fx.store.rows.is_empty(), "{:?}", fx.summary());
}

/// A directory this daemon may not read is passed over and reported; the rest
/// of the folder is examined, and nothing in it counts as missing.
#[test]
fn an_unreadable_directory_does_not_stop_the_examination() {
    let mut fx = Fx::new(&[folder("D", "R", "locked"), file("X", "D", "x.txt", b"x")]);
    fx.write("new.txt", b"n");
    fx.node("locked").locked = true;
    let done = fx.examine(Batch::full());
    assert_eq!(shown(&done.unreadable), vec!["locked".to_owned()]);
    assert_eq!(fx.summary(), vec![line(Create, "new.txt", "")]);
}

/// A `mkdir` from an earlier batch, moved over a folder deleted since, keeps
/// its place in line.
#[test]
fn a_new_folder_moved_over_one_deleted_since_keeps_its_row() {
    let mut fx = Fx::new(&[folder("E", "R", "exports"), file("O", "E", "old.txt", b"o")]);
    fx.disk.mkdir(&at("exports.new"));
    fx.write("exports.new/a.txt", b"a");
    fx.examine(names(&[("", "exports.new")]));
    let mkdir = fx.seq_of(Mkdir, "exports.new");
    fx.remove("exports");
    fx.rename("exports.new", "exports");
    fx.examine(names(&[("", "exports"), ("", "exports.new")]));
    assert_eq!(fx.seq_of(Mkdir, "exports"), mkdir, "the merged row keeps its seq");
    assert!(fx.seq_of(Delete, "exports") > mkdir);
    fx.seq_of(Create, "exports/a.txt");
}

/// A folder replaced by its own subfolder is a move and a delete.
#[test]
fn a_folder_replaced_by_its_own_subfolder_is_a_move_and_a_delete() {
    let mut fx = Fx::new(&[
        folder("F", "R", "F"),
        folder("S", "F", "sub"),
        file("A", "S", "a.txt", b"a"),
        file("B", "F", "b.txt", b"b"),
    ]);
    fx.rename("F/sub", "F.tmp");
    fx.remove("F");
    fx.rename("F.tmp", "F");
    fx.examine(names(&[("F", "sub"), ("", "F.tmp"), ("F", "b.txt"), ("", "F")]));
    assert_eq!(sorted(fx.summary()), vec![line(Move, "F", "S"), line(Delete, "F", "F")]);
}

/// A folder wrapped in a new one of its own name is a new folder and a move.
#[test]
fn a_folder_wrapped_in_a_new_one_of_its_name_is_a_move() {
    let mut fx = Fx::new(&[folder("D", "R", "d"), file("X", "D", "x.txt", b"x")]);
    fx.disk.mkdir(&at("t"));
    fx.rename("d", "t/d");
    fx.rename("t", "d");
    fx.examine(names(&[("", "t"), ("", "d"), ("t", "d")]));
    assert_eq!(sorted(fx.summary()), vec![line(Mkdir, "d", ""), line(Move, "d/d", "D")]);
}

/// Removals the user confirmed are not counted or held again.
#[test]
fn confirmed_removals_are_not_held_again() {
    let mut fx = Fx::new(&big());
    fx.remove("big");
    assert_eq!(fx.examine(names(&[("", "big")])).held, 61);
    let mut released: usize = 0;
    for row in &mut fx.store.rows {
        if row.state == OutboxState::Held {
            row.state = OutboxState::Ready;
            row.reason = None;
            row.confirmed = true;
            released += 1;
        }
    }
    assert_eq!(released, 1);
    fx.write("new.txt", b"n");
    let done = fx.examine(names(&[("", "new.txt")]));
    assert_eq!(done.held, 0);
    let row = fx.store.rows.iter().find(|r| r.kind == Delete).unwrap();
    assert_eq!((row.state, row.confirmed), (OutboxState::Ready, true));
}

/// An item of a deleted folder alive elsewhere in the folder, where the batch
/// did not look: the folder waits until it is found.
#[test]
fn a_folder_whose_item_is_elsewhere_waits_until_it_is_found() {
    let mut fx = Fx::new(&[
        folder("D", "R", "docs"),
        folder("O", "R", "other"),
        file("X", "D", "x.txt", b"x"),
        file("Y", "D", "y.txt", b"y"),
    ]);
    let x = fx.handle("docs/x.txt");
    fx.rename("docs/x.txt", "other/x.txt");
    fx.alive(x, &at("other/x.txt"));
    fx.remove("docs");
    let done = fx.examine(names(&[("", "docs")]));
    assert!(fx.store.rows.is_empty(), "{:?}", fx.summary());
    assert_eq!(done.undecided, vec!["D".to_owned()]);
    fx.examine(done.recheck);
    assert_eq!(sorted(fx.summary()), vec![line(Move, "other/x.txt", "X"), line(Delete, "docs", "D")]);
}

/// An item being moved into a folder that then left the folder, and the folder
/// deleted: the item gets its own move out behind the running row.
#[test]
fn a_running_move_into_a_folder_that_went_is_followed_up() {
    let mut fx = Fx::new(&[folder("D", "R", "docs"), file("X", "R", "x.txt", b"x")]);
    fx.rename("x.txt", "docs/x.txt");
    fx.examine(names(&[("", "x.txt"), ("docs", "x.txt")]));
    let running = fx.seq_of(Move, "docs/x.txt");
    fx.running(running);
    let x = fx.handle("docs/x.txt");
    fx.move_out("docs/x.txt", "x.txt");
    fx.alive(x, &out("x.txt"));
    fx.remove("docs");
    fx.examine(names(&[("", "docs")]));
    assert!(fx.seq_of(MoveOut, "docs/x.txt") > running);
    assert_eq!(fx.seq_of(Move, "docs/x.txt"), running, "the row being sent stays");
    assert!(fx.store.rows.iter().any(|r| r.kind == Delete && r.item_id.as_deref() == Some("D")));
}

/// Each item counts once for the guard: a folder of 9 items one of which left
/// it first is 9 removals, under the floor.
#[test]
fn each_removed_item_counts_once_for_the_guard() {
    let mut listed =
        vec![folder("F", "R", "f"), file("O1", "R", "o1.txt", b"o"), file("O2", "R", "o2.txt", b"o")];
    for n in 0..8 {
        listed.push(file(NUMBERED[n], "F", &format!("f{n}.txt"), b"f"));
    }
    let mut fx = Fx::new(&listed);
    let p = fx.handle("f/f0.txt");
    fx.move_out("f/f0.txt", "f0.txt");
    fx.alive(p, &out("f0.txt"));
    assert_eq!(fx.examine(names(&[("f", "f0.txt")])).held, 0);
    fx.remove("f");
    assert_eq!(
        fx.examine(names(&[("", "f")])).held,
        0,
        "the folder and its 8 items, the one that left counted once"
    );
    assert!(fx.store.rows.iter().all(|r| r.state == OutboxState::Ready));
}

/// A subfolder dragged out of a folder, which cannot be removed yet itself,
/// keeps its parent from being deleted too.
#[test]
fn a_subfolder_dragged_out_that_is_held_back_keeps_its_parent_from_being_deleted() {
    let mut fx = Fx::new(&[
        folder("D", "R", "Docs"),
        folder("S", "D", "Sub"),
        file("A", "S", "a.bin", b"only in the cloud"),
        file("B", "S", "b.bin", b"only in the cloud"),
    ]);
    fx.forget_handle("A");
    let (sub, b) = (fx.handle("Docs/Sub"), fx.handle("Docs/Sub/b.bin"));
    fx.move_out("Docs/Sub", "Sub");
    fx.alive(sub, &out("Sub"));
    fx.alive(b, &out("Sub/b.bin"));
    fx.remove("Docs");
    let done = fx.examine(names(&[("", "Docs")]));
    assert!(fx.store.rows.is_empty(), "{:?}", fx.summary());
    let mut unproven = done.unproven.clone();
    unproven.sort();
    assert_eq!(unproven, vec!["D".to_owned(), "S".to_owned()]);
}

/// An item with no recorded handle cannot be proven gone: its folder is
/// unproven, not rechecked.
#[test]
fn a_folder_with_an_item_that_has_no_handle_is_unproven_not_rechecked() {
    let mut fx =
        Fx::new(&[folder("D", "R", "docs"), file("X", "D", "x.txt", b"x"), file("Y", "D", "y.txt", b"y")]);
    fx.forget_handle("X");
    fx.remove("docs");
    let done = fx.examine(names(&[("", "docs")]));
    assert!(fx.store.rows.is_empty());
    assert_eq!((done.unproven.clone(), done.undecided.clone()), (vec!["D".to_owned()], Vec::<String>::new()));
    assert!(done.recheck.is_empty());
}

/// A folder replaced offline by a new one holding one of its files.
#[test]
fn a_folder_replaced_offline_keeping_one_file() {
    for new_name in ["exports", "Exports"] {
        let mut fx = Fx::new(&[
            folder("E", "R", "exports"),
            file("K", "E", "keep.txt", b"k"),
            file("O", "E", "old.txt", b"o"),
        ]);
        fx.disk.mkdir(&at("exports.new"));
        fx.rename("exports/keep.txt", "exports.new/keep.txt");
        fx.write("exports.new/new.txt", b"new");
        fx.examine(names(&[("", "exports.new"), ("exports", "keep.txt")]));
        fx.remove("exports");
        fx.rename("exports.new", new_name);
        fx.examine(names(&[("", new_name), ("", "exports"), ("", "exports.new")]));
        assert_eq!(
            sorted(fx.summary()),
            vec![
                line(Create, &format!("{new_name}/new.txt"), ""),
                line(Mkdir, new_name, ""),
                line(Move, &format!("{new_name}/keep.txt"), "K"),
                line(Delete, "exports", "E"),
            ],
            "{new_name}"
        );
    }
}

/// A chain of folders, each moved into the next, all removed at once: every
/// one leaves by its own object.
#[test]
fn a_chain_of_folders_moved_into_one_another_and_removed_all_leave() {
    let listed: Vec<Listed> = (0..12).map(|n| folder(NUMBERED[n], "R", &format!("d{n:02}"))).collect();
    let mut fx = Fx::new(&listed);
    // `d11` into `d10`, then `d10` into `d09`, and so on.
    let mut inner = "d11".to_owned();
    for n in (0..11).rev() {
        let outer = format!("d{n:02}");
        let name = parts(&inner)[0].to_owned();
        fx.rename(&name, &format!("{outer}/{name}"));
        inner = format!("{outer}/{inner}");
    }
    fx.examine(Batch::full());
    assert_eq!(fx.summary().iter().filter(|(k, _, _)| *k == Move).count(), 11);
    fx.remove("d00");
    fx.examine(names(&[("", "d00")]));
    let gone = fx.summary().iter().filter(|(k, _, _)| *k == Delete).count();
    assert_eq!(gone, 12, "{:?}", fx.summary());
}

/// While the recorded handles are of another filesystem, nothing is deleted.
#[test]
fn handles_of_another_filesystem_delete_nothing() {
    let mut fx = Fx::new(&[file("A", "R", "a.txt", b"a")]);
    fx.handles_current = false;
    fx.remove("a.txt");
    let done = fx.examine(Batch::full());
    assert!(fx.store.rows.is_empty(), "{:?}", fx.summary());
    assert_eq!(done.undecided, vec!["A".to_owned()]);
}

/// What is on another device is listed, and nothing in it is looked at.
#[test]
fn what_is_on_another_device_is_listed_and_not_looked_into() {
    let mut fx = Fx::new(&[]);
    fx.disk.mkdir(&at("mount"));
    fx.write("mount/f.txt", b"f");
    fx.node("mount").dev = 2;
    fx.node("mount/f.txt").dev = 2;
    fx.examine(Batch::full());
    assert!(fx.store.rows.is_empty(), "{:?}", fx.summary());
    assert_eq!(fx.store.skipped, vec![("mount".to_owned(), "other-device".to_owned())]);
}

/// A changed filesystem has everything examined again.
#[test]
fn a_changed_filesystem_has_everything_examined() {
    let (batch, renewed) = examined_batch(&Handles::Changed("root:1".to_owned()), names(&[("d", "a")]));
    assert!(batch.is_full() && renewed);
    let (batch, renewed) = examined_batch(&Handles::Current, names(&[("d", "a")]));
    assert!(!batch.is_full() && !renewed);
    assert!(!batch.is_empty());
}
