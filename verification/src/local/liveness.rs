//! "Is this object still there, and where?" — asked of a base item missing
//! from where it was.
//!
//! Decided by the object, never by events: a move out of the folder whose
//! event was lost is still recognised, and a placeholder that left is never
//! taken for a delete. Only the helper can open a file handle, so the answer
//! is the helper's: a stale handle is gone, a descriptor says where the object
//! is, and anything else decides nothing.

use vstd::prelude::*;
use vstd::string::*;
use vstd::utf8::encode_utf8;
use crate::os::{absent, errno_absent, estale};
use crate::path::{same_bytes, AbsPath};
use crate::text::{push_char, same_text};
use crate::tree::{FileHandle, Inode, InodeModel, OutboxKind, OutboxRow, OutboxRowModel};

verus! {

#[derive(Debug)]
pub enum Whereabouts {
    /// The handle is stale, or the object has no link left: it was deleted.
    Gone,
    /// Still alive, at this absolute path. Inside the folder it is a move the
    /// batch did not see; outside it, a move out.
    At(AbsPath),
}

#[verifier::ext_equal]
pub enum WhereaboutsModel {
    Gone,
    At(Seq<u8>),
}

impl View for Whereabouts {
    type V = WhereaboutsModel;

    open spec fn view(&self) -> WhereaboutsModel {
        match self {
            Whereabouts::Gone => WhereaboutsModel::Gone,
            Whereabouts::At(path) => WhereaboutsModel::At(path@),
        }
    }
}

impl DeepView for Whereabouts {
    type V = WhereaboutsModel;

    open spec fn deep_view(&self) -> WhereaboutsModel {
        self.view()
    }
}

/// Why a question about an object was not answered; it decides nothing.
#[derive(Debug, Clone, Copy, PartialEq, Eq, Structural)]
pub enum Unanswered {
    /// Nothing can open a file handle yet.
    NoHelper,
    /// The helper refused with this error number.
    Refused(i32),
    /// The object is not where its descriptor's path says.
    Elsewhere,
    /// No answer came.
    Failed,
}

pub trait Liveness {
    /// Where the object `handle` names is. An error decides nothing: the
    /// item is examined again later.
    fn whereabouts(&self, handle: &FileHandle) -> Result<Whereabouts, Unanswered>;
}

/// No helper to ask (yet): every question is left open.
#[derive(Debug, Clone, Copy)]
pub struct NoLiveness;

impl Liveness for NoLiveness {
    fn whereabouts(&self, _handle: &FileHandle) -> (r: Result<Whereabouts, Unanswered>)
        ensures
            r == Err::<Whereabouts, Unanswered>(Unanswered::NoHelper),
    {
        Err(Unanswered::NoHelper)
    }
}

/// What the helper answered.
#[derive(Debug)]
pub enum Answer {
    /// A descriptor of the object: the path it reads as, and whether that
    /// path, opened again, is the object.
    Object { path: AbsPath, same_place: bool },
    Refused(i32),
    Failed,
}

/// What the helper's answer says of the object.
pub open spec fn said_by(answer: Answer) -> Result<WhereaboutsModel, Unanswered> {
    match answer {
        Answer::Object { path, same_place } => if same_place {
            Ok(WhereaboutsModel::At(path@))
        } else {
            Err(Unanswered::Elsewhere)
        },
        Answer::Refused(e) => if e == 116 {
            Ok(WhereaboutsModel::Gone)
        } else {
            Err(Unanswered::Refused(e))
        },
        Answer::Failed => Err(Unanswered::Failed),
    }
}

/// Where the helper's answer says the object is: a stale handle is gone; a
/// descriptor names the place, when opening it again proves it; any other
/// refusal — `EPERM` is never gone — or no answer decides nothing.
pub fn answered(answer: Answer) -> (r: Result<Whereabouts, Unanswered>)
    ensures
        said_by(answer) == match r {
            Ok(whereabouts) => Ok::<WhereaboutsModel, Unanswered>(whereabouts@),
            Err(e) => Err(e),
        },
        match answer {
            Answer::Object { path, same_place } => if same_place {
                r matches Ok(Whereabouts::At(p)) && p@ == path@
            } else {
                r == Err::<Whereabouts, Unanswered>(Unanswered::Elsewhere)
            },
            // `ESTALE`.
            Answer::Refused(e) => if e == 116 {
                r matches Ok(Whereabouts::Gone)
            } else {
                r == Err::<Whereabouts, Unanswered>(Unanswered::Refused(e))
            },
            Answer::Failed => r == Err::<Whereabouts, Unanswered>(Unanswered::Failed),
        },
{
    match answer {
        Answer::Object { path, same_place } => {
            if !same_place {
                return Err(Unanswered::Elsewhere);
            }
            Ok(Whereabouts::At(path))
        },
        Answer::Refused(e) => {
            if e == estale() {
                Ok(Whereabouts::Gone)
            } else {
                Err(Unanswered::Refused(e))
            }
        },
        Answer::Failed => Err(Unanswered::Failed),
    }
}

/// What stands at a name: the error that opening its directory or taking its
/// handle gave, or its handle.
#[derive(Debug)]
pub enum Standing {
    NoDir(i32),
    NoHandle(i32),
    There(FileHandle),
}

#[verifier::ext_equal]
pub enum StandingModel {
    NoDir(i32),
    NoHandle(i32),
    There(Seq<u8>),
}

impl View for Standing {
    type V = StandingModel;

    open spec fn view(&self) -> StandingModel {
        match self {
            Standing::NoDir(e) => StandingModel::NoDir(*e),
            Standing::NoHandle(e) => StandingModel::NoHandle(*e),
            Standing::There(handle) => StandingModel::There(handle@),
        }
    }
}

impl DeepView for Standing {
    type V = StandingModel;

    open spec fn deep_view(&self) -> StandingModel {
        self.view()
    }
}

/// The object `handle` is proved absent from a name: the directory or the
/// name is not there, or another object stands there.
pub open spec fn proved_absent(standing: StandingModel, handle: Seq<u8>) -> bool {
    match standing {
        StandingModel::NoDir(e) => errno_absent(e),
        StandingModel::NoHandle(e) => errno_absent(e),
        StandingModel::There(there) => there != handle,
    }
}

/// Whether the object `handle` names is proved absent from a name — the
/// evidence a stale handle needs before it counts as a delete. The object
/// itself there, or any other answer (`EIO` above all), is no evidence.
pub fn absent_below(standing: &Standing, handle: &FileHandle) -> (r: bool)
    ensures
        r == proved_absent(standing@, handle@),
{
    match standing {
        Standing::NoDir(e) => absent(*e),
        Standing::NoHandle(e) => absent(*e),
        Standing::There(there) => !there.same(handle),
    }
}

/// The hexadecimal digit `d`.
pub open spec fn hex_digit(d: int) -> char {
    if d < 10 {
        (48 + d) as char
    } else {
        (87 + d) as char
    }
}

/// Bytes in hexadecimal.
pub open spec fn hex(bytes: Seq<u8>) -> Seq<char>
    decreases bytes.len(),
{
    if bytes.len() == 0 {
        Seq::empty()
    } else {
        hex(bytes.drop_last()).push(hex_digit(bytes.last() as int / 16)).push(
            hex_digit(bytes.last() as int % 16),
        )
    }
}

fn push_hex_digit(s: &mut String, d: u8)
    requires
        d < 16,
    ensures
        final(s)@ == old(s)@.push(hex_digit(d as int)),
{
    if d < 10 {
        push_char(s, (48u8 + d) as char);
    } else {
        push_char(s, (87u8 + d) as char);
    }
}

fn push_hex(s: &mut String, bytes: &[u8])
    ensures
        final(s)@ == old(s)@ + hex(bytes@),
{
    let ghost was = s@;
    let mut i: usize = 0;
    assert(bytes@.subrange(0, 0) =~= Seq::<u8>::empty());
    assert(was + hex(bytes@.subrange(0, 0)) =~= was);
    while i < bytes.len()
        invariant
            i <= bytes@.len(),
            s@ == was + hex(bytes@.subrange(0, i as int)),
        decreases bytes@.len() - i,
    {
        push_hex_digit(s, bytes[i] / 16);
        push_hex_digit(s, bytes[i] % 16);
        i += 1;
        proof {
            let now = bytes@.subrange(0, i as int);
            assert(now.drop_last() =~= bytes@.subrange(0, i - 1));
            assert(now.last() == bytes@[i - 1]);
            assert(s@ =~= was + hex(now));
        }
    }
    assert(bytes@.subrange(0, i as int) =~= bytes@);
}

/// The filesystem's UUID as the kernel hands it out: a length and up to 16
/// bytes; nothing when the call failed or it has none.
pub open spec fn uuid_of(ok: bool, buf: Seq<u8>) -> Option<Seq<u8>> {
    let len = if buf[0] < 16 {
        buf[0] as int
    } else {
        16
    };
    if ok && len > 0 {
        Some(buf.subrange(1, len + 1))
    } else {
        None
    }
}

/// The UUID in what the kernel wrote, if it gave one.
pub fn fs_uuid(ok: bool, buf: &[u8]) -> (r: Option<Vec<u8>>)
    requires
        buf@.len() == 17,
    ensures
        match r {
            Some(uuid) => uuid_of(ok, buf@) == Some(uuid@),
            None => uuid_of(ok, buf@) is None,
        },
{
    let len: usize = if buf[0] < 16 {
        buf[0] as usize
    } else {
        16
    };
    if ok && len > 0 {
        Some(crate::path::copy_bytes(vstd::slice::slice_subrange(buf, 1, len + 1)))
    } else {
        None
    }
}

/// What names the filesystem the folder's handles belong to.
pub open spec fn namespace_text(root: Seq<u8>, uuid: Option<Seq<u8>>) -> Seq<char> {
    match uuid {
        Some(uuid) => "root:"@ + hex(root) + ";uuid:"@ + hex(uuid),
        None => "root:"@ + hex(root),
    }
}

/// The filesystem the folder's handles belong to: the root directory's own
/// handle, and the filesystem's UUID where the kernel gives one. Both survive
/// a reboot, a remount and a renumbered device; both change when the folder is
/// on another filesystem or subvolume.
pub fn handle_namespace(root: &FileHandle, uuid: Option<Vec<u8>>) -> (r: String)
    ensures
        r@ == namespace_text(
            root@,
            match uuid {
                Some(u) => Some(u@),
                None => None,
            },
        ),
{
    let mut s = "root:".to_owned();
    push_hex(&mut s, &root.bytes);
    if let Some(uuid) = uuid {
        s.append(";uuid:");
        push_hex(&mut s, &uuid);
    }
    s
}

/// What the store says of the filesystem its handles were taken on, against
/// the one the folder is on now.
#[derive(Debug)]
pub enum Handles {
    Current,
    /// Nothing recorded yet: this is the filesystem to record.
    Unrecorded(String),
    /// Recorded for another filesystem: this is the one to record once the
    /// handles are taken again.
    Changed(String),
    /// The folder's own handle, or what is recorded, cannot be read.
    Unknown,
}

#[verifier::ext_equal]
pub enum HandlesModel {
    Current,
    Unrecorded(Seq<char>),
    Changed(Seq<char>),
    Unknown,
}

impl View for Handles {
    type V = HandlesModel;

    open spec fn view(&self) -> HandlesModel {
        match self {
            Handles::Current => HandlesModel::Current,
            Handles::Unrecorded(now) => HandlesModel::Unrecorded(now@),
            Handles::Changed(now) => HandlesModel::Changed(now@),
            Handles::Unknown => HandlesModel::Unknown,
        }
    }
}

/// How handles recorded for the filesystem `recorded` stand on `now`.
pub open spec fn handles_on(now: Option<Seq<char>>, recorded: Option<Option<Seq<char>>>) -> HandlesModel {
    match (now, recorded) {
        (Some(n), Some(Some(was))) => if was == n {
            HandlesModel::Current
        } else {
            HandlesModel::Changed(n)
        },
        (Some(n), Some(None)) => HandlesModel::Unrecorded(n),
        _ => HandlesModel::Unknown,
    }
}

/// Whether a stale handle may mean "deleted".
pub open spec fn may_tell(h: HandlesModel, stored: bool) -> bool {
    h is Current || (h is Unrecorded && stored)
}

/// How the recorded handles stand: `now` names the filesystem the folder is
/// on, `recorded` what the store names; nothing for what cannot be read.
pub fn handles(now: Option<String>, recorded: Option<Option<String>>) -> (r: Handles)
    ensures
        r@ == handles_on(now.deep_view(), recorded.deep_view()),
        match (now, recorded) {
            (Some(n), Some(Some(was))) => if was@ == n@ {
                r is Current
            } else {
                r matches Handles::Changed(text) && text@ == n@
            },
            (Some(n), Some(None)) => r matches Handles::Unrecorded(text) && text@ == n@,
            _ => r is Unknown,
        },
{
    let now = match now {
        Some(now) => now,
        None => return Handles::Unknown,
    };
    match recorded {
        Some(Some(was)) => {
            if same_text(was.as_str(), now.as_str()) {
                Handles::Current
            } else {
                Handles::Changed(now)
            }
        },
        Some(None) => Handles::Unrecorded(now),
        None => Handles::Unknown,
    }
}

/// Whether the recorded handles were taken on the filesystem the folder is on
/// now, and so whether a stale one may mean "deleted": `stored` says whether
/// the filesystem, where none was recorded, has been recorded now.
pub fn handles_current(handles: &Handles, stored: bool) -> (r: bool)
    ensures
        r == (handles is Current || (handles is Unrecorded && stored)),
        r == may_tell(handles@, stored),
{
    match handles {
        Handles::Current => true,
        Handles::Unrecorded(_) => stored,
        Handles::Changed(_) | Handles::Unknown => false,
    }
}

/// What stands at the place a `move-out` row last proved.
#[derive(Debug)]
pub struct Found {
    /// The item id it carries.
    pub carries: Option<Vec<u8>>,
    pub inode: Inode,
}

/// What becomes of a row when the folder's filesystem changed.
#[derive(Debug)]
pub enum Renewal {
    /// Not a move out of an item: as it is.
    Keep,
    /// The object found there is the row's now.
    Amend(Inode),
    /// The item stays in OneDrive and is placed again.
    Drop,
}

#[verifier::ext_equal]
pub enum RenewalModel {
    Keep,
    Amend(InodeModel),
    Drop,
}

impl View for Renewal {
    type V = RenewalModel;

    open spec fn view(&self) -> RenewalModel {
        match self {
            Renewal::Keep => RenewalModel::Keep,
            Renewal::Amend(inode) => RenewalModel::Amend(inode@),
            Renewal::Drop => RenewalModel::Drop,
        }
    }
}

impl DeepView for Renewal {
    type V = RenewalModel;

    open spec fn deep_view(&self) -> RenewalModel {
        self.view()
    }
}

/// A row's renewal: a move out takes the handle of what stands at the absolute
/// place it last proved, if that carries the row's item id, and goes
/// otherwise.
pub open spec fn renewal_of(row: OutboxRowModel, found: Option<(Option<Seq<u8>>, InodeModel)>) -> RenewalModel {
    if row.kind != OutboxKind::MoveOut || row.item_id is None {
        RenewalModel::Keep
    } else {
        let absolute = row.target_name matches Some(at) && at.len() > 0 && at[0] == '/';
        match found {
            Some((carries, inode)) => if absolute && carries == Some(encode_utf8(row.item_id->0)) {
                RenewalModel::Amend(inode)
            } else {
                RenewalModel::Drop
            },
            None => RenewalModel::Drop,
        }
    }
}

/// What was found, as the rule reads it.
pub open spec fn found_model(found: Option<Found>) -> Option<(Option<Seq<u8>>, InodeModel)> {
    match found {
        Some(f) => Some(
            (
                match f.carries {
                    Some(c) => Some(c@),
                    None => None,
                },
                f.inode@,
            ),
        ),
        None => None,
    }
}

fn renewal(row: &OutboxRow, found: Option<Found>) -> (r: Renewal)
    ensures
        r@ == renewal_of(row@, found_model(found)),
{
    let id = match (&row.kind, &row.item_id) {
        (OutboxKind::MoveOut, Some(id)) => id,
        _ => return Renewal::Keep,
    };
    let absolute = match &row.target_name {
        Some(at) => at.as_str().unicode_len() > 0 && at.as_str().get_char(0) == '/',
        None => false,
    };
    match found {
        Some(f) => {
            let carried = match &f.carries {
                Some(c) => same_bytes(c, id.as_str().as_bytes()),
                None => false,
            };
            if absolute && carried {
                Renewal::Amend(f.inode)
            } else {
                Renewal::Drop
            }
        },
        None => Renewal::Drop,
    }
}

/// How many of the first `n` renewals drop their row.
pub open spec fn dropped_upto(renewals: Seq<RenewalModel>, n: int) -> nat
    decreases n,
{
    if n <= 0 {
        0
    } else if renewals[n - 1] == RenewalModel::Drop {
        dropped_upto(renewals, n - 1) + 1
    } else {
        dropped_upto(renewals, n - 1)
    }
}

/// The folder's filesystem changed: its recorded handles say nothing any
/// more. Every row's renewal, and how many rows go.
pub fn renew_handles(rows: &Vec<OutboxRow>, found: Vec<Option<Found>>) -> (r: (Vec<Renewal>, usize))
    requires
        found@.len() == rows@.len(),
    ensures
        r.0@.len() == rows@.len(),
        forall|i: int|
            0 <= i < rows@.len() ==> (#[trigger] r.0@[i])@ == renewal_of(
                rows@[i]@,
                found_model(found@[i]),
            ),
        r.1 == dropped_upto(r.0.deep_view(), rows@.len() as int),
{
    let mut out: Vec<Renewal> = Vec::new();
    let mut dropped: usize = 0;
    let mut found = found;
    let ghost given = found@;
    let mut i: usize = 0;
    while i < rows.len()
        invariant
            i <= rows@.len(),
            given.len() == rows@.len(),
            found@.len() == rows@.len(),
            forall|j: int| i <= j < rows@.len() ==> found@[j] == given[j],
            out@.len() == i,
            dropped <= i,
            dropped == dropped_upto(out.deep_view(), i as int),
            forall|j: int|
                0 <= j < i ==> (#[trigger] out@[j])@ == renewal_of(rows@[j]@, found_model(given[j])),
        decreases rows@.len() - i,
    {
        let mut one: Option<Found> = None;
        std::mem::swap(&mut one, &mut found[i]);
        let next = renewal(&rows[i], one);
        let ghost before = out.deep_view();
        let goes = matches!(next, Renewal::Drop);
        out.push(next);
        proof {
            assert(out.deep_view() =~= before.push(next@));
            lemma_dropped_prefix(before, next@, i as int);
        }
        if goes {
            dropped += 1;
        }
        i += 1;
    }
    (out, dropped)
}

proof fn lemma_dropped_prefix(s: Seq<RenewalModel>, x: RenewalModel, n: int)
    requires
        n <= s.len(),
    ensures
        dropped_upto(s.push(x), n) == dropped_upto(s, n),
    decreases n,
{
    if n > 0 {
        lemma_dropped_prefix(s, x, n - 1);
    }
}

} // verus!
