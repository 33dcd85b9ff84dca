//! What holds of everything that is read of the folder, and of every walk
//! through it.

use vstd::prelude::*;
use vstd::utf8::{encode_utf8, is_ascii_chars_encode_utf8};
use crate::disk::rescue::{
    beside, nearest_device, release_of, rescue_base_of, rescue_dest, Release,
};
use crate::disk::scan::{
    locking, next_of, not_through, scanned, to_lock, NamedModel, PendingModel, ScanModel,
    ScannedModel, UnlockingModel,
};
use crate::disk::{
    held_once_less, held_once_more, is_usable, mode_wanted, probe_is_dir, probed, window_result, Modes,
    ProbeModel,
};
use crate::local::entry::{
    entry_of, inode_of, is_hydrated, Attrs, EntryModel, Stat, State, StateAttr,
};
use crate::os::{errno_absent, errno_denied, errno_gone, type_of_mode, type_reason, Type};
use crate::path::laws::{is_component, law_what_is_written_is_read_back};
use crate::path::{joined, parts_from, parts_of, piece, PathModel};
use crate::text::text_of;
use crate::tree::{same_inode, InodeModel};

verus! {

/// What a mode says something is: the four bits above the permissions and the
/// special bits tell.
pub proof fn law_what_a_mode_says(mode: u32)
    ensures
        ({
            let bits = (mode / 4096) % 16;
            &&& type_of_mode(mode) == Type::Fifo <==> bits == 1
            &&& type_of_mode(mode) == Type::Dir <==> bits == 4
            &&& type_of_mode(mode) == Type::File <==> bits == 8
            &&& type_of_mode(mode) == Type::Symlink <==> bits == 10
            &&& type_of_mode(mode) == Type::Socket <==> bits == 12
        }),
{
    assert(mode & 0o170000 == ((mode / 4096) % 16) * 4096) by (bit_vector);
}

/// A file and a directory can be uploaded; of everything else is said what it is.
pub proof fn law_what_is_never_uploaded(t: Type)
    ensures
        type_reason(t) is None <==> t == Type::File || t == Type::Dir,
        t == Type::Symlink ==> type_reason(t) == Some("symlink"@),
        t == Type::Fifo ==> type_reason(t) == Some("fifo"@),
        t == Type::Socket ==> type_reason(t) == Some("socket"@),
        t == Type::Device ==> type_reason(t) == Some("device"@),
{
}

/// Which errors say that nothing is there, that no directory of ours is, and that
/// it may not be looked at; no error says two of these but that nothing there is
/// no directory of ours either.
pub proof fn law_what_an_error_says(e: i32)
    ensures
        errno_absent(e) <==> e == 2 || e == 20,
        errno_gone(e) <==> e == 2 || e == 20 || e == 40,
        errno_denied(e) <==> e == 1 || e == 13,
        errno_absent(e) ==> errno_gone(e),
        !(errno_gone(e) && errno_denied(e)),
{
}

/// An id can be ours when it can be the name of a file: not empty, not `.` or
/// `..`, with no slash and no NUL in it.
pub proof fn law_which_ids_can_be_ours(id: Seq<char>)
    ensures
        is_usable(id) <==> {
            &&& id.len() > 0
            &&& !(id.len() == 1 && id[0] == '.')
            &&& !(id.len() == 2 && id[0] == '.' && id[1] == '.')
            &&& forall|i: int| 0 <= i < id.len() ==> #[trigger] id[i] != '/' && id[i] != '\0'
        },
{
    if id.len() == 1 && id[0] == '.' {
        assert(id =~= seq!['.']);
    }
    if id.len() == 2 && id[0] == '.' && id[1] == '.' {
        assert(id =~= seq!['.', '.']);
    }
    if is_usable(id) {
        assert forall|i: int| 0 <= i < id.len() implies #[trigger] id[i] != '/' && id[i] != '\0' by {
            assert(id.contains(id[i]));
        }
    }
}

/// What a name is: ours only where it is a file or a directory whose id could be
/// ours, and with that id; absent only where there is nothing; and any other error
/// as it is.
pub proof fn law_what_a_probe_says(mode: u32, e: i32, id: Option<Seq<u8>>)
    ensures
        probed(Err(e), id) == if e == 2 {
            Ok::<ProbeModel, i32>(ProbeModel::Absent)
        } else {
            Err(e)
        },
        match probed(Ok(mode), id) {
            Ok(p) => {
                let ours = (type_of_mode(mode) == Type::Dir || type_of_mode(mode) == Type::File) && id is Some
                    && is_usable(text_of(id->0));
                &&& !(p is Absent)
                &&& p is Managed <==> ours
                &&& p matches ProbeModel::Managed { id: found, .. } ==> found == text_of(id->0)
                &&& probe_is_dir(p) <==> type_of_mode(mode) == Type::Dir
            },
            Err(_) => false,
        },
        !probe_is_dir(ProbeModel::Absent),
{
}

/// What was read of a name is what its entry says, each thing in its own field;
/// and only a file or a directory has an id, a state, a stamp, a version or a
/// handle.
pub proof fn law_an_entry_says_what_was_read(
    dir: PathModel,
    name: Seq<u8>,
    stat: Stat,
    attrs: Attrs,
    handle: Option<Seq<u8>>,
)
    ensures
        ({
            let e = entry_of(dir, name, stat, attrs, handle);
            let managed = type_of_mode(stat.mode) == Type::File || type_of_mode(stat.mode) == Type::Dir;
            &&& e.rel == dir.push(name) && e.name == name
            &&& e.ty == type_of_mode(stat.mode)
            &&& e.dev == stat.dev && e.ino == stat.ino && e.nlink == stat.nlink && e.size == stat.size
            &&& e.mtime_sec == stat.mtime_sec && e.mtime_nsec == stat.mtime_nsec
            &&& !managed ==> e.id is None && e.state == StateAttr::Absent && e.stamp is None
                && e.ctag is None && e.handle is None
            &&& managed ==> e.state == attrs.state && e.stamp == attrs.stamp && e.handle == handle
            &&& managed ==> e.id == match attrs.id {
                Some(raw) => if is_usable(text_of(raw@)) {
                    Some(text_of(raw@))
                } else {
                    None
                },
                None => None,
            }
            &&& managed ==> e.ctag == match attrs.ctag {
                Some(raw) => Some(text_of(raw@)),
                None => None,
            }
            &&& is_hydrated(e) ==> managed && attrs.state == StateAttr::Known(State::Hydrated)
        }),
{
}

/// Two are the same object by their handles where both have one, whatever their
/// numbers; else by filesystem and number, both. It makes no difference which is
/// asked about which, and everything is the same object as itself.
pub proof fn law_what_the_same_object_is(a: InodeModel, b: InodeModel, e: EntryModel)
    ensures
        a.handle is Some && b.handle is Some ==> (same_inode(a, b) <==> a.handle == b.handle),
        a.handle is None || b.handle is None ==> (same_inode(a, b) <==> a.dev == b.dev && a.ino == b.ino),
        same_inode(a, b) <==> same_inode(b, a),
        same_inode(a, a),
        inode_of(e).dev == e.dev && inode_of(e).ino == e.ino && inode_of(e).handle == e.handle,
{
}

/// In a locked folder each file and each directory gets the lock's mode for its
/// own type, where it does not have just that; nothing else is changed, and in an
/// open folder nothing at all.
pub proof fn law_which_mode_is_enforced(m: Modes, locked: bool, mode: u32)
    ensures
        mode_wanted(m, locked, mode) == if locked && type_of_mode(mode) == Type::Dir && mode % 4096
            != m.locked_dir {
            Some(m.locked_dir)
        } else if locked && type_of_mode(mode) == Type::File && mode % 4096 != m.locked_file {
            Some(m.locked_file)
        } else {
            None
        },
{
}

/// Holds nest: letting go undoes taking, only the hold that takes the lock lets it
/// go, and that is the outermost.
pub proof fn law_holds_nest(held: int)
    ensures
        held_once_less(held_once_more(held).0).0 == held,
        held_once_less(held_once_more(held).0).1 == held_once_more(held).1,
        held_once_more(held).1 <==> held == 0,
        held_once_more(held).0 > held,
{
}

/// A change made in a window succeeds only where the directory was locked again
/// too; and the first error is the one that is told.
pub proof fn law_a_window_is_closed_again<T>(value: T, a: i32, b: i32)
    ensures
        window_result(Ok::<T, i32>(value), Ok::<(), i32>(())) == Ok::<T, i32>(value),
        window_result(Ok::<T, i32>(value), Err::<(), i32>(b)) == Err::<T, i32>(b),
        window_result(Err::<T, i32>(a), Ok::<(), i32>(())) == Err::<T, i32>(a),
        window_result(Err::<T, i32>(a), Err::<(), i32>(b)) == Err::<T, i32>(a),
{
}

/// What becomes of something that left the folder: a directory with everything in
/// it, or a file, becomes the user's own; but a file of ours inside a rescued
/// directory goes where it holds no content of its own.
pub proof fn law_what_becomes_of_what_is_rescued(id: Seq<char>, is_dir: bool, state: Option<State>, inside: bool)
    ensures
        release_of(ProbeModel::Absent, state, inside) == Release::Nothing,
        release_of(ProbeModel::Unmanaged { is_dir }, state, inside) == if is_dir {
            Release::Directory
        } else {
            Release::File
        },
        is_dir ==> release_of(ProbeModel::Managed { id, is_dir }, state, inside) == Release::Directory,
        !is_dir ==> (release_of(ProbeModel::Managed { id, is_dir }, state, inside) == Release::Remove
            <==> inside && (state == Some(State::OnlineOnly) || state == Some(State::Hydrating)
            || state == Some(State::Dehydrating))),
        !is_dir ==> (release_of(ProbeModel::Managed { id, is_dir }, state, inside) is Remove
            || release_of(ProbeModel::Managed { id, is_dir }, state, inside) is File),
{
}

proof fn lemma_nearest(devices: Seq<Option<u64>>, k: int, m: int)
    requires
        0 <= k <= m < devices.len(),
        devices[m] is Some,
        forall|j: int| k <= j < m ==> devices[j] is None,
    ensures
        nearest_device(devices, k) == devices[m],
    decreases m - k,
{
    if k < m {
        lemma_nearest(devices, k + 1, m);
    }
}

/// Rescued files go to the preferred place where the nearest of it and the
/// directories above it that exists is on the folder's own filesystem, or that is
/// not known; and else beside the folder, where there is such a place.
pub proof fn law_where_rescued_files_go(
    root: Seq<u8>,
    preferred: Seq<u8>,
    dev: u64,
    devices: Seq<Option<u64>>,
    m: int,
)
    ensures
        rescue_base_of(root, preferred, None, devices) == preferred,
        0 <= m < devices.len() && devices[m] is Some && (forall|j: int|
            0 <= j < m ==> devices[j] is None) ==> rescue_base_of(root, preferred, Some(dev), devices)
            == if devices[m] == Some(dev) || beside(root) is None {
            preferred
        } else {
            beside(root)->0
        },
{
    if 0 <= m < devices.len() && devices[m] is Some && (forall|j: int| 0 <= j < m ==> devices[j] is None) {
        lemma_nearest(devices, 0, m);
    }
}

proof fn lemma_pieces(raw: Seq<u8>, i: int, open: Seq<u8>)
    requires
        0 <= i,
        !open.contains(47),
    ensures
        forall|k: int|
            0 <= k < parts_from(raw, i, open).len() ==> is_component(
                #[trigger] parts_from(raw, i, open)[k],
            ),
    decreases raw.len() - i,
{
    let all = parts_from(raw, i, open);
    assert forall|k: int| 0 <= k < piece(open).len() implies is_component(#[trigger] piece(open)[k]) by {
        assert(piece(open)[k] == open);
    }
    if i < raw.len() {
        if raw[i] == 47 {
            lemma_pieces(raw, i + 1, Seq::empty());
            let rest = parts_from(raw, i + 1, Seq::empty());
            assert(all == piece(open) + rest);
            assert forall|k: int| 0 <= k < all.len() implies is_component(#[trigger] all[k]) by {
                if k < piece(open).len() {
                    assert(all[k] == piece(open)[k]);
                } else {
                    assert(all[k] == rest[k - piece(open).len()]);
                }
            }
        } else {
            vstd::seq_lib::lemma_seq_contains_after_push(open, raw[i], 47);
            lemma_pieces(raw, i + 1, open.push(raw[i]));
            assert(all == parts_from(raw, i + 1, open.push(raw[i])));
        }
    }
}

/// Beside a folder is in the directory the folder is in, under its name with
/// `.konedrive-rescued-` before it: never inside the folder.
pub proof fn law_beside_is_not_inside(root: Seq<u8>)
    requires
        root.len() > 0,
        root[0] == 47,
    ensures
        beside(root) matches Some(path) ==> {
            let parts = parts_of(root);
            &&& parts.len() > 0
            &&& parts_of(path) == parts.drop_last().push(
                encode_utf8(".konedrive-rescued-"@) + parts.last(),
            )
        },
        beside(root) is None <==> parts_of(root).len() == 0 || parts_of(root).last() == seq![46u8, 46u8],
{
    let parts = parts_of(root);
    if let Some(path) = beside(root) {
        let mark = encode_utf8(".konedrive-rescued-"@);
        reveal_strlit(".konedrive-rescued-");
        is_ascii_chars_encode_utf8(".konedrive-rescued-"@);
        assert(!mark.contains(47));
        let name = mark + parts.last();
        let rel = parts.drop_last().push(name);
        lemma_pieces(root, 0, Seq::empty());
        assert forall|k: int| 0 <= k < rel.len() implies is_component(#[trigger] rel[k]) by {
            assert(is_component(parts[k]));
            if k == rel.len() - 1 {
                assert(!name.contains(47)) by {
                    if name.contains(47) {
                        let i = choose|i: int| 0 <= i < name.len() && name[i] == 47;
                        if i < mark.len() {
                            assert(mark.contains(mark[i]));
                        } else {
                            assert(parts.last().contains(parts.last()[i - mark.len()]));
                        }
                    }
                }
                if name == seq![46u8] {
                    assert(name.len() >= 2);
                }
            }
        }
        let top = seq![47u8];
        law_what_is_written_is_read_back(top, rel);
        reveal_with_fuel(parts_from, 3);
        assert(parts_of(top) =~= Seq::<Seq<u8>>::empty());
        assert(parts_of(top) + rel =~= rel);
    }
}

/// A rescued file keeps the name it was shown under where that is free.
pub proof fn law_a_rescued_file_keeps_its_name(into: Seq<u8>, shown: PathModel)
    ensures
        rescue_dest(into, shown, 0) == joined(into, shown),
{
}

/// The row of the name `e` of `dir` in a scan.
pub open spec fn is_scanned(row: ScannedModel, dir: PendingModel, e: NamedModel) -> bool {
    &&& row.rel == dir.rel.push(e.name)
    &&& row.depth == dir.rel.len() + 1
    &&& row.parent_id == dir.id
    &&& match e.what {
        ProbeModel::Absent => false,
        ProbeModel::Managed { id, is_dir } => row.id == Some(id) && row.is_dir == is_dir,
        ProbeModel::Unmanaged { is_dir } => row.id is None && row.is_dir == is_dir,
    }
}

/// Every name of a directory that is there is found, as what it is and where it
/// is, in the directory's own item; every directory among them is looked into in
/// turn, in its own item; and nothing that was found before is lost.
pub proof fn law_a_scan_finds_every_name(
    s: ScanModel,
    dir: PendingModel,
    entries: Seq<NamedModel>,
    n: int,
    k: int,
)
    requires
        0 <= k < n <= entries.len(),
    ensures
        ({
            let next = scanned(s, dir, entries, n);
            &&& next.max_depth == s.max_depth
            &&& s.out.len() <= next.out.len() && next.out.subrange(0, s.out.len() as int) == s.out
            &&& s.pending.len() <= next.pending.len() && next.pending.subrange(
                0,
                s.pending.len() as int,
            ) == s.pending
            &&& !(entries[k].what is Absent) ==> exists|j: int|
                s.out.len() <= j < next.out.len() && #[trigger] is_scanned(
                    next.out[j],
                    dir,
                    entries[k],
                )
            &&& probe_is_dir(entries[k].what) ==> exists|j: int|
                s.pending.len() <= j < next.pending.len() && #[trigger] is_scanned_dir(
                    next.pending[j],
                    dir,
                    entries[k],
                )
        }),
    decreases n,
{
    let before = scanned(s, dir, entries, n - 1);
    let next = scanned(s, dir, entries, n);
    let e = entries[n - 1];
    lemma_scan_keeps(s, dir, entries, n);
    lemma_scan_keeps(s, dir, entries, n - 1);
    if k < n - 1 {
        law_a_scan_finds_every_name(s, dir, entries, n - 1, k);
        if !(entries[k].what is Absent) {
            let j = choose|j: int|
                s.out.len() <= j < before.out.len() && #[trigger] is_scanned(
                    before.out[j],
                    dir,
                    entries[k],
                );
            assert(next.out[j] == before.out[j]);
        }
        if probe_is_dir(entries[k].what) {
            let j = choose|j: int|
                s.pending.len() <= j < before.pending.len() && #[trigger] is_scanned_dir(
                    before.pending[j],
                    dir,
                    entries[k],
                );
            assert(next.pending[j] == before.pending[j]);
        }
    } else {
        if !(e.what is Absent) {
            assert(is_scanned(next.out[before.out.len() as int], dir, e));
        }
        if probe_is_dir(e.what) {
            assert(is_scanned_dir(next.pending[before.pending.len() as int], dir, e));
        }
    }
}

/// The directory `e` of `dir`, still to be read.
pub open spec fn is_scanned_dir(next: PendingModel, dir: PendingModel, e: NamedModel) -> bool {
    &&& next.rel == dir.rel.push(e.name)
    &&& next.id == match e.what {
        ProbeModel::Managed { id, .. } => Some(id),
        _ => None,
    }
}

proof fn lemma_scan_keeps(s: ScanModel, dir: PendingModel, entries: Seq<NamedModel>, n: int)
    requires
        0 <= n <= entries.len(),
    ensures
        ({
            let next = scanned(s, dir, entries, n);
            &&& next.max_depth == s.max_depth
            &&& s.out.len() <= next.out.len() && next.out.subrange(0, s.out.len() as int) == s.out
            &&& s.pending.len() <= next.pending.len() && next.pending.subrange(
                0,
                s.pending.len() as int,
            ) == s.pending
        }),
    decreases n,
{
    let next = scanned(s, dir, entries, n);
    if n > 0 {
        lemma_scan_keeps(s, dir, entries, n - 1);
        let before = scanned(s, dir, entries, n - 1);
        assert forall|i: int| 0 <= i < s.out.len() implies next.out[i] == s.out[i] by {
            assert(before.out.subrange(0, s.out.len() as int)[i] == s.out[i]);
        }
        assert forall|i: int| 0 <= i < s.pending.len() implies next.pending[i] == s.pending[i] by {
            assert(before.pending.subrange(0, s.pending.len() as int)[i] == s.pending[i]);
        }
    }
    assert(next.out.subrange(0, s.out.len() as int) =~= s.out);
    assert(next.pending.subrange(0, s.pending.len() as int) =~= s.pending);
}

/// A scan finds nothing that is not there: each row it adds is of a name that was
/// seen.
pub proof fn law_a_scan_finds_only_what_is_there(
    s: ScanModel,
    dir: PendingModel,
    entries: Seq<NamedModel>,
    n: int,
    j: int,
)
    requires
        0 <= n <= entries.len(),
        s.out.len() <= j < scanned(s, dir, entries, n).out.len(),
    ensures
        exists|k: int|
            0 <= k < n && #[trigger] is_scanned(scanned(s, dir, entries, n).out[j], dir, entries[k]),
    decreases n,
{
    if n > 0 {
        let before = scanned(s, dir, entries, n - 1);
        if j < before.out.len() {
            law_a_scan_finds_only_what_is_there(s, dir, entries, n - 1, j);
            let k = choose|k: int|
                0 <= k < n - 1 && #[trigger] is_scanned(before.out[j], dir, entries[k]);
            assert(is_scanned(scanned(s, dir, entries, n).out[j], dir, entries[k]));
        } else {
            assert(is_scanned(scanned(s, dir, entries, n).out[j], dir, entries[n - 1]));
        }
    }
}

/// A scan reads every directory it found that is not too deep, each once, and
/// none that is; and it ends only when no other is left.
pub proof fn law_a_scan_goes_as_deep_as_it_may(s: ScanModel)
    ensures
        match next_of(s).1 {
            Some(dir) => {
                &&& dir.rel.len() < s.max_depth
                &&& next_of(s).0.pending.len() < s.pending.len()
                &&& s.pending[next_of(s).0.pending.len() as int] == dir
                &&& next_of(s).0.pending == s.pending.subrange(0, next_of(s).0.pending.len() as int)
                &&& forall|k: int|
                    next_of(s).0.pending.len() < k < s.pending.len() ==> (#[trigger] s.pending[k]).rel.len()
                        >= s.max_depth
            },
            None => forall|k: int|
                0 <= k < s.pending.len() ==> (#[trigger] s.pending[k]).rel.len() >= s.max_depth,
        },
        next_of(s).0.out == s.out,
        next_of(s).0.max_depth == s.max_depth,
    decreases s.pending.len(),
{
    if s.pending.len() > 0 {
        let rest = ScanModel { pending: s.pending.drop_last(), ..s };
        law_a_scan_goes_as_deep_as_it_may(rest);
        assert forall|k: int| 0 <= k < rest.pending.len() implies rest.pending[k] == s.pending[k] by {}
        if s.pending.last().rel.len() < s.max_depth {
            assert(rest.pending =~= s.pending.subrange(0, s.pending.len() - 1));
        } else if let Some(dir) = next_of(s).1 {
            let left = next_of(s).0.pending;
            assert(left =~= s.pending.subrange(0, left.len() as int));
        }
    }
}

/// Everything of ours is locked, and every directory of ours is walked; and
/// nothing else is walked that was not before.
pub proof fn law_everything_of_ours_is_locked(
    pending: Seq<PathModel>,
    dir: PathModel,
    entries: Seq<NamedModel>,
    n: int,
    k: int,
    path: PathModel,
)
    requires
        0 <= k < n <= entries.len() <= usize::MAX,
    ensures
        entries[k].what is Managed ==> to_lock(entries, n).contains(k as usize),
        entries[k].what is Managed && probe_is_dir(entries[k].what) ==> locking(
            pending,
            dir,
            entries,
            n,
        ).contains(dir.push(entries[k].name)),
        pending.contains(path) ==> locking(pending, dir, entries, n).contains(path),
        locking(pending, dir, entries, n).contains(path) ==> pending.contains(path) || exists|m: int|
            0 <= m < n && #[trigger] entries[m].what is Managed && probe_is_dir(entries[m].what)
                && path == dir.push(entries[m].name),
    decreases n,
{
    lemma_locking(pending, dir, entries, n, path);
    lemma_locking(pending, dir, entries, n - 1, path);
    let files = to_lock(entries, n - 1);
    let before = locking(pending, dir, entries, n - 1);
    let own = dir.push(entries[n - 1].name);
    let at = dir.push(entries[k].name);
    vstd::seq_lib::lemma_seq_contains_after_push(files, (n - 1) as usize, k as usize);
    vstd::seq_lib::lemma_seq_contains_after_push(before, own, at);
    if k < n - 1 {
        law_everything_of_ours_is_locked(pending, dir, entries, n - 1, k, path);
    }
}

proof fn lemma_locking(pending: Seq<PathModel>, dir: PathModel, entries: Seq<NamedModel>, n: int, path: PathModel)
    requires
        0 <= n <= entries.len(),
    ensures
        pending.contains(path) ==> locking(pending, dir, entries, n).contains(path),
        locking(pending, dir, entries, n).contains(path) ==> pending.contains(path) || exists|m: int|
            0 <= m < n && #[trigger] entries[m].what is Managed && probe_is_dir(entries[m].what)
                && path == dir.push(entries[m].name),
    decreases n,
{
    if n > 0 {
        lemma_locking(pending, dir, entries, n - 1, path);
        let before = locking(pending, dir, entries, n - 1);
        let own = dir.push(entries[n - 1].name);
        vstd::seq_lib::lemma_seq_contains_after_push(before, own, path);
        if locking(pending, dir, entries, n).contains(path) && !pending.contains(path) {
            if before.contains(path) {
                let m = choose|m: int|
                    0 <= m < n - 1 && #[trigger] entries[m].what is Managed && probe_is_dir(
                        entries[m].what,
                    ) && path == dir.push(entries[m].name);
                assert(entries[m].what is Managed);
            } else {
                assert(entries[n - 1].what is Managed);
            }
        }
    }
}

/// The folder itself is unlocked only when no directory is left to walk or being
/// read, no file is unanswered for, and none failed.
pub proof fn law_the_root_is_unlocked_last(u: UnlockingModel)
    ensures
        not_through(u) == 0 <==> u.pending.len() == 0 && !u.reading && u.files == 0 && u.failed == 0,
{
}

} // verus!
