//! Decisions on what is on disk: what a name is, where a rescued file goes, and
//! which modes a locked folder's entries have.

pub mod laws;
pub mod rescue;
pub mod scan;
pub mod stamp;

use vstd::prelude::*;
use vstd::string::*;
use crate::os::{enoent, type_of_mode, Type};
use crate::text::{chars_of, lossy, text_of};

verus! {

/// Where misplaced items wait during a reconcile.
pub const HOLDING: &'static str = ".konedrive-holding";

/// A new folder's name until it is labelled and marked.
pub const NEW_PREFIX: &'static str = ".konedrive-new-";

/// What a name in the folder is.
#[derive(Debug)]
pub enum Probe {
    Absent,
    /// Carries an item id: one of ours.
    Managed { id: String, is_dir: bool },
    /// Anything without an item id — or anything that is neither a file nor a
    /// directory, which is never ours.
    Unmanaged { is_dir: bool },
}

#[verifier::ext_equal]
pub enum ProbeModel {
    Absent,
    Managed { id: Seq<char>, is_dir: bool },
    Unmanaged { is_dir: bool },
}

impl View for Probe {
    type V = ProbeModel;

    open spec fn view(&self) -> ProbeModel {
        match self {
            Probe::Absent => ProbeModel::Absent,
            Probe::Managed { id, is_dir } => ProbeModel::Managed { id: id@, is_dir: *is_dir },
            Probe::Unmanaged { is_dir } => ProbeModel::Unmanaged { is_dir: *is_dir },
        }
    }
}

impl DeepView for Probe {
    type V = ProbeModel;

    open spec fn deep_view(&self) -> ProbeModel {
        self.view()
    }
}

/// The id can be a name in the holding directory; one that cannot be is no id
/// of ours.
pub open spec fn is_usable(id: Seq<char>) -> bool {
    id.len() > 0 && id != seq!['.'] && id != seq!['.', '.'] && !id.contains('/') && !id.contains(
        '\0',
    )
}

/// Whether the id can be a name in the holding directory.
pub fn usable_id(id: &str) -> (r: bool)
    ensures
        r == is_usable(id@),
{
    let chars = chars_of(id);
    let n: usize = chars.len();
    if n == 0 {
        return false;
    }
    if chars[0] == '.' {
        if n == 1 {
            assert(chars@ =~= seq!['.']);
            return false;
        }
        if n == 2 && chars[1] == '.' {
            assert(chars@ =~= seq!['.', '.']);
            return false;
        }
    }
    assert(id@ != seq!['.'] && id@ != seq!['.', '.']) by {
        if id@ == seq!['.'] {
            assert(chars@[0] == '.');
        }
        if id@ == seq!['.', '.'] {
            assert(chars@[0] == '.' && chars@[1] == '.');
        }
    }
    let mut i: usize = 0;
    while i < n
        invariant
            n == chars@.len(),
            chars@ == id@,
            i <= n,
            forall|k: int| 0 <= k < i ==> chars@[k] != '/' && chars@[k] != '\0',
        decreases n - i,
    {
        if chars[i] == '/' || chars[i] == '\0' {
            assert(id@.contains(chars@[i as int]));
            return false;
        }
        i += 1;
    }
    true
}

/// What a name is whose `fstatat` said `mode`, or failed, and which carries the
/// item id `id`.
pub open spec fn probed(mode: Result<u32, i32>, id: Option<Seq<u8>>) -> Result<ProbeModel, i32> {
    match mode {
        Err(e) => if e == 2 {
            Ok(ProbeModel::Absent)
        } else {
            Err(e)
        },
        Ok(mode) => {
            let ty = type_of_mode(mode);
            let is_dir = ty == Type::Dir;
            if ty != Type::Dir && ty != Type::File {
                Ok(ProbeModel::Unmanaged { is_dir: false })
            } else {
                match id {
                    Some(id) => if is_usable(text_of(id)) {
                        Ok(ProbeModel::Managed { id: text_of(id), is_dir })
                    } else {
                        Ok(ProbeModel::Unmanaged { is_dir })
                    },
                    None => Ok(ProbeModel::Unmanaged { is_dir }),
                }
            }
        },
    }
}

/// Whether the item id of something of `mode` is to be read.
pub fn carries_id(mode: u32) -> (r: bool)
    ensures
        r == (type_of_mode(mode) == Type::Dir || type_of_mode(mode) == Type::File),
{
    match Type::of_mode(mode) {
        Type::Dir | Type::File => true,
        _ => false,
    }
}

/// What a name is whose `fstatat` said `mode`, or failed with an error, and
/// which carries the item id `id`.
pub fn probe(mode: Result<u32, i32>, id: Option<Vec<u8>>) -> (r: Result<Probe, i32>)
    ensures
        (match r {
            Ok(p) => Ok::<ProbeModel, i32>(p@),
            Err(e) => Err(e),
        }) == probed(
            mode,
            match id {
                Some(v) => Some(v@),
                None => None,
            },
        ),
{
    let mode = match mode {
        Ok(mode) => mode,
        Err(e) => {
            return if e == enoent() {
                Ok(Probe::Absent)
            } else {
                Err(e)
            };
        },
    };
    let is_dir = match Type::of_mode(mode) {
        Type::Dir => true,
        Type::File => false,
        _ => return Ok(Probe::Unmanaged { is_dir: false }),
    };
    match id {
        Some(id) => {
            let id = lossy(&id);
            if usable_id(id.as_str()) {
                Ok(Probe::Managed { id, is_dir })
            } else {
                Ok(Probe::Unmanaged { is_dir })
            }
        },
        None => Ok(Probe::Unmanaged { is_dir }),
    }
}

/// What a name's probe says of a directory: nothing for something absent.
pub open spec fn probe_is_dir(p: ProbeModel) -> bool {
    match p {
        ProbeModel::Absent => false,
        ProbeModel::Managed { is_dir, .. } => is_dir,
        ProbeModel::Unmanaged { is_dir } => is_dir,
    }
}

impl Probe {
    /// Whether it is a directory. One that changes parents needs write
    /// permission on itself as well: its `..` changes.
    pub fn is_dir(&self) -> (r: bool)
        ensures
            r == probe_is_dir(self@),
    {
        match self {
            Probe::Absent => false,
            Probe::Managed { is_dir, .. } => *is_dir,
            Probe::Unmanaged { is_dir } => *is_dir,
        }
    }
}

/// This thread's holds on the directories' modes. Windows nest: only the
/// outermost takes the lock.
pub struct DirModes {
    pub held: usize,
}

/// One hold more than `held`, and whether it takes the lock.
pub open spec fn held_once_more(held: int) -> (int, bool) {
    (held + 1, held == 0)
}

/// One hold less than `held`, and whether it lets the lock go.
pub open spec fn held_once_less(held: int) -> (int, bool) {
    (held - 1, held == 1)
}

/// One more hold; whether it is the outermost, which takes the lock.
pub fn dir_modes(modes: &mut DirModes) -> (outermost: bool)
    requires
        old(modes).held < usize::MAX,
    ensures
        final(modes).held == old(modes).held + 1,
        outermost == (old(modes).held == 0),
        (final(modes).held as int, outermost) == held_once_more(old(modes).held as int),
{
    modes.held = modes.held + 1;
    modes.held == 1
}

/// One hold less; whether it was the outermost, which lets the lock go.
pub fn release_modes(modes: &mut DirModes) -> (outermost: bool)
    requires
        old(modes).held > 0,
    ensures
        final(modes).held == old(modes).held - 1,
        outermost == (final(modes).held == 0),
        (final(modes).held as int, outermost) == held_once_less(old(modes).held as int),
{
    modes.held = modes.held - 1;
    modes.held == 0
}

/// What a change made in a window comes to, the directory having been locked
/// again or not.
pub open spec fn window_result<T>(result: Result<T, i32>, relocked: Result<(), i32>) -> Result<T, i32> {
    match (result, relocked) {
        (Ok(value), Ok(_)) => Ok(value),
        (Ok(_), Err(e)) => Err(e),
        (Err(e), _) => Err(e),
    }
}

/// What a change made in a window comes to, the directory having been locked
/// again or not: the change's own error goes before the lock's.
pub fn windowed<T>(result: Result<T, i32>, relocked: Result<(), i32>) -> (r: Result<T, i32>)
    ensures
        match (result, relocked) {
            (Ok(value), Ok(_)) => r == Ok::<T, i32>(value),
            (Ok(_), Err(e)) => r == Err::<T, i32>(e),
            (Err(e), _) => r == Err::<T, i32>(e),
        },
        r == window_result(result, relocked),
{
    match (result, relocked) {
        (Ok(value), Ok(_)) => Ok(value),
        (Ok(_), Err(e)) => Err(e),
        (Err(e), _) => Err(e),
    }
}

/// The modes of a locked folder's entries, and ordinary ones.
#[derive(Debug, Clone, Copy, PartialEq, Eq, Structural)]
pub struct Modes {
    pub locked_dir: u32,
    pub locked_file: u32,
    pub open_dir: u32,
    pub open_file: u32,
}

/// The mode an entry of `mode` is to be given in a folder that is `locked` or
/// not: nothing when it has it already, or is neither a file nor a directory.
pub open spec fn mode_wanted(m: Modes, locked: bool, mode: u32) -> Option<u32> {
    let want = match type_of_mode(mode) {
        Type::Dir => Some(m.locked_dir),
        Type::File => Some(m.locked_file),
        _ => None,
    };
    match want {
        Some(want) => if locked && mode % 0o10000 != want {
            Some(want)
        } else {
            None
        },
        None => None,
    }
}

impl Modes {
    /// The mode an entry of `mode` is to be given in a folder that is `locked`
    /// or not.
    pub fn enforce_mode(&self, locked: bool, mode: u32) -> (r: Option<u32>)
        ensures
            r == mode_wanted(*self, locked, mode),
    {
        if !locked {
            return None;
        }
        let want = match Type::of_mode(mode) {
            Type::Dir => self.locked_dir,
            Type::File => self.locked_file,
            _ => return None,
        };
        if mode % 0o10000 != want {
            Some(want)
        } else {
            None
        }
    }
}

/// A locked folder's modes are stable: an entry given the permissions it is to
/// have, its type as it was, is left as it is from then on.
pub proof fn law_an_enforced_mode_stays(m: Modes, locked: bool, mode: u32, given: u32)
    requires
        mode_wanted(m, locked, mode) == Some(given),
        given < 0o10000,
    ensures
        mode_wanted(m, locked, (mode & 0xffff_f000) | given) is None,
{
    let now = (mode & 0xffff_f000) | given;
    assert(now & 0o170000 == mode & 0o170000 && now % 0o10000 == given) by (bit_vector)
        requires
            now == (mode & 0xffff_f000) | given,
            given < 0o10000,
    ;
}

} // verus!
