//! Where a rescued file goes, and what becomes of it there.

use vstd::prelude::*;
use vstd::string::*;
use vstd::utf8::*;
use crate::calendar::{civil_from_days, day_number, is_date};
use crate::clock::{unix_of, unix_seconds};
use crate::disk::{Probe, ProbeModel};
use crate::local::entry::State;
use crate::os::{eexist, exdev};
use crate::path::{copy_bytes, joined, parts_of, split, AbsPath, PathModel, RelPath};
use crate::text::{decimal, digit, push_char, push_decimal, text_of};

verus! {

/// `n` in decimal, at least `width` characters wide, padded with zeros behind
/// the sign.
pub open spec fn padded(n: int, width: nat) -> Seq<char> {
    if n < 0 {
        seq!['-'] + zeros((width - 1 - decimal((-n) as nat).len()) as int) + decimal((-n) as nat)
    } else {
        zeros(width - decimal(n as nat).len()) + decimal(n as nat)
    }
}

/// So many zeros.
pub open spec fn zeros(n: int) -> Seq<char> {
    Seq::new(
        if n <= 0 {
            0
        } else {
            n as nat
        },
        |i: int| '0',
    )
}

proof fn lemma_decimal_len(n: nat)
    ensures
        decimal(n).len() >= 1,
        n < 10 ==> decimal(n).len() == 1,
        10 <= n < 100 ==> decimal(n).len() == 2,
        100 <= n < 1000 ==> decimal(n).len() == 3,
        n >= 1000 ==> decimal(n).len() >= 4,
    decreases n,
{
    if n >= 10 {
        lemma_decimal_len(n / 10);
    }
}

/// Appends `n`, at least four characters wide.
fn push_year(s: &mut String, n: i64)
    requires
        n > i64::MIN,
    ensures
        final(s)@ == old(s)@ + padded(n as int, 4),
{
    let magnitude: u128 = if n < 0 {
        (-n) as u128
    } else {
        n as u128
    };
    proof {
        lemma_decimal_len(magnitude as nat);
    }
    if n < 0 {
        push_char(s, '-');
        if magnitude < 100 {
            push_char(s, '0');
        }
        if magnitude < 10 {
            push_char(s, '0');
        }
    } else {
        if magnitude < 1000 {
            push_char(s, '0');
        }
        if magnitude < 100 {
            push_char(s, '0');
        }
        if magnitude < 10 {
            push_char(s, '0');
        }
    }
    push_decimal(s, magnitude);
    assert(s@ =~= old(s)@ + padded(n as int, 4));
}

/// Appends `n`, at least two characters wide.
fn push_two(s: &mut String, n: i64)
    requires
        0 <= n,
    ensures
        final(s)@ == old(s)@ + padded(n as int, 2),
{
    proof {
        lemma_decimal_len(n as nat);
    }
    if n < 10 {
        push_char(s, '0');
    }
    push_decimal(s, n as u128);
    assert(s@ =~= old(s)@ + padded(n as int, 2));
}

/// The stamp of the second `rest` of the date.
pub open spec fn stamp_text(year: int, month: int, day: int, rest: int) -> Seq<char> {
    padded(year, 4) + seq!['-'] + padded(month, 2) + seq!['-'] + padded(day, 2) + seq!['T'] + padded(
        rest / 3600,
        2,
    ) + seq!['-'] + padded(rest % 3600 / 60, 2) + seq!['-'] + padded(rest % 60, 2) + seq!['Z']
}

/// `text` is the stamp of the moment `seconds` (Unix): the date of its day, in
/// UTC, and the time in it.
pub open spec fn is_stamp(text: Seq<char>, seconds: int) -> bool {
    exists|year: int, month: int, day: int|
        is_date(year, month, day) && #[trigger] day_number(year, month, day) == seconds / 86_400
            && text == stamp_text(year, month, day, seconds % 86_400)
}

/// `2026-09-24T10-00-00Z`: the name of one cycle's rescue directory. `since`:
/// how many seconds after the epoch it is now; nothing before it.
pub fn rescue_stamp(since: Option<u64>) -> (r: String)
    ensures
        is_stamp(r@, unix_seconds(since) as int),
{
    let seconds: i64 = unix_of(since);
    let (days, rest): (i64, i64) = if seconds >= 0 {
        (seconds / 86_400, seconds % 86_400)
    } else {
        let back: i64 = -(seconds + 1);
        (-(back / 86_400) - 1, 86_399 - back % 86_400)
    };
    assert(days == (seconds as int) / 86_400);
    assert(rest == (seconds as int) % 86_400);
    let (year, month, day) = civil_from_days(days);
    proof {
        lemma_year_bound(year as int, month as int, day as int);
    }
    let mut out = String::new();
    push_year(&mut out, year);
    push_char(&mut out, '-');
    push_two(&mut out, month);
    push_char(&mut out, '-');
    push_two(&mut out, day);
    push_char(&mut out, 'T');
    push_two(&mut out, rest / 3600);
    push_char(&mut out, '-');
    push_two(&mut out, rest % 3600 / 60);
    push_char(&mut out, '-');
    push_two(&mut out, rest % 60);
    push_char(&mut out, 'Z');
    assert(out@ =~= stamp_text(year as int, month as int, day as int, rest as int));
    assert(day_number(year as int, month as int, day as int) == seconds as int / 86_400);
    out
}

/// A day that can be counted in 64 bits is in a year that can be.
proof fn lemma_year_bound(year: int, month: int, day: int)
    requires
        is_date(year, month, day),
        i64::MIN / 2 <= day_number(year, month, day),
    ensures
        year > i64::MIN,
{
}

/// Where the rescued file named `shown` goes when `n` names before it were
/// taken: to `into/<shown>`, then to `<shown>.1`, `<shown>.2`, ...
pub open spec fn rescue_dest(into: Seq<u8>, shown: PathModel, n: nat) -> Seq<u8> {
    if n == 0 {
        joined(into, shown)
    } else {
        joined(
            into,
            seq![encode_utf8(text_of(joined(Seq::empty(), shown)) + seq!['.'] + decimal(n))],
        )
    }
}

/// A rescue under way: how many names were taken already.
pub struct Rescue {
    pub n: u64,
}

/// What comes of a try to move a file out of the folder.
pub enum Tried {
    /// The name is taken: the next one is tried.
    Again,
    /// It cannot be rescued there, and is left where it is.
    Failed(String),
    /// It failed with this error.
    Error(i32),
}

impl Rescue {
    pub fn new() -> (r: Self)
        ensures
            r.n == 0,
    {
        Rescue { n: 0 }
    }

    /// Where it is tried to be moved.
    pub fn dest(&self, into: &AbsPath, shown: &RelPath) -> (r: AbsPath)
        ensures
            r@ == rescue_dest(into@, shown@, self.n as nat),
    {
        if self.n == 0 {
            return into.join(shown);
        }
        let plain = AbsPath { raw: Vec::new() };
        assert(plain@ =~= Seq::<u8>::empty());
        let mut text = plain.join(shown).display();
        push_char(&mut text, '.');
        push_decimal(&mut text, self.n as u128);
        let mut name = RelPath::root();
        name = name.join(text.as_str().as_bytes());
        proof {
            let want = text_of(joined(Seq::<u8>::empty(), shown@)) + seq!['.'] + decimal(
                self.n as nat,
            );
            assert(text@ =~= want);
            assert(name@ =~= seq![encode_utf8(want)]);
        }
        into.join(&name)
    }

    /// The rename, never over anything, failed with `errno`. A taken name sends
    /// it on; another filesystem ends it, naming both paths: a rescue is never
    /// a copy.
    pub fn failed(&mut self, errno: i32, source: &str, dest: &str) -> (r: Tried)
        requires
            old(self).n < u64::MAX,
        ensures
            if errno == 17 {
                r is Again && final(self).n == old(self).n + 1
            } else {
                &&& *final(self) == *old(self)
                &&& if errno == 18 {
                    r matches Tried::Failed(text) && text@ == source@ + " cannot be rescued to "@
                        + dest@
                        + ": they are on different filesystems, and a rescue is never a copy; it is left where it is"@
                } else {
                    r == Tried::Error(errno)
                }
            },
    {
        if errno == eexist() {
            self.n = self.n + 1;
            Tried::Again
        } else if errno == exdev() {
            let mut text = source.to_owned();
            text.append(" cannot be rescued to ");
            text.append(dest);
            text.append(
                ": they are on different filesystems, and a rescue is never a copy; it is left where it is",
            );
            Tried::Failed(text)
        } else {
            Tried::Error(errno)
        }
    }
}

proof fn lemma_decimal_differs(n: nat, m: nat)
    requires
        n != m,
    ensures
        decimal(n) != decimal(m),
    decreases n,
{
    lemma_decimal_len(n);
    lemma_decimal_len(m);
    if n >= 10 && m >= 10 {
        let (a, b) = (decimal(n / 10), decimal(m / 10));
        assert(decimal(n).last() == digit((n % 10) as int));
        assert(decimal(m).last() == digit((m % 10) as int));
        if n / 10 != m / 10 {
            lemma_decimal_differs(n / 10, m / 10);
            assert(decimal(n).drop_last() =~= a);
            assert(decimal(m).drop_last() =~= b);
        }
    } else if n < 10 && m < 10 {
        assert(decimal(n)[0] == digit(n as int));
        assert(decimal(m)[0] == digit(m as int));
    } else {
        lemma_decimal_len(n / 10);
        lemma_decimal_len(m / 10);
    }
}

/// A rescue tries a new name each time: of those it goes on to once the first
/// is taken, no two are the same.
pub proof fn law_the_names_tried_differ(into: Seq<u8>, shown: PathModel, n: nat, m: nat)
    requires
        0 < n < m,
    ensures
        rescue_dest(into, shown, n) != rescue_dest(into, shown, m),
{
    let stem = text_of(joined(Seq::empty(), shown)) + seq!['.'];
    let (a, b) = (stem + decimal(n), stem + decimal(m));
    lemma_decimal_differs(n, m);
    assert(a.subrange(stem.len() as int, a.len() as int) =~= decimal(n));
    assert(b.subrange(stem.len() as int, b.len() as int) =~= decimal(m));
    encode_utf8_decode_utf8(a);
    encode_utf8_decode_utf8(b);
    let (x, y) = (seq![encode_utf8(a)], seq![encode_utf8(b)]);
    assert(x.drop_last() =~= Seq::<Seq<u8>>::empty());
    assert(y.drop_last() =~= Seq::<Seq<u8>>::empty());
    let before = if into.len() > 0 && into.last() != 47 {
        into.push(47)
    } else {
        into
    };
    assert(joined(into, x.drop_last()) == into);
    assert(joined(into, y.drop_last()) == into);
    let (p, q) = (joined(into, x), joined(into, y));
    assert(p == before + encode_utf8(a));
    assert(q == before + encode_utf8(b));
    assert(p.subrange(before.len() as int, p.len() as int) =~= encode_utf8(a));
    assert(q.subrange(before.len() as int, q.len() as int) =~= encode_utf8(b));
}

/// What is done with an entry that left the folder.
#[derive(Debug, Clone, Copy, PartialEq, Eq, Structural)]
pub enum Release {
    Nothing,
    /// It becomes the user's own, and so does everything in it.
    Directory,
    /// It becomes the user's own.
    File,
    /// It is removed: it holds no content of its own.
    Remove,
}

/// The file's state says it holds no content of its own.
pub open spec fn is_empty_state(s: Option<State>) -> bool {
    s == Some(State::OnlineOnly) || s == Some(State::Hydrating) || s == Some(State::Dehydrating)
}

/// What is done with something rescued, or inside a directory that was
/// (`inside`).
pub open spec fn release_of(p: ProbeModel, state: Option<State>, inside: bool) -> Release {
    match p {
        ProbeModel::Absent => Release::Nothing,
        ProbeModel::Managed { is_dir, .. } => if is_dir {
            Release::Directory
        } else if inside && is_empty_state(state) {
            Release::Remove
        } else {
            Release::File
        },
        ProbeModel::Unmanaged { is_dir } => if is_dir {
            Release::Directory
        } else {
            Release::File
        },
    }
}

/// What is done with something rescued, or inside a directory that was: a file
/// of ours in there that holds no content of its own would read as zeros, and
/// the cloud still has it.
pub fn release(p: &Probe, state: Option<State>, inside: bool) -> (r: Release)
    ensures
        r == release_of(p@, state, inside),
{
    match p {
        Probe::Absent => Release::Nothing,
        Probe::Managed { is_dir, .. } => if *is_dir {
            Release::Directory
        } else {
            let empty = match state {
                Some(State::OnlineOnly) | Some(State::Hydrating) | Some(State::Dehydrating) => true,
                _ => false,
            };
            if inside && empty {
                Release::Remove
            } else {
                Release::File
            }
        },
        Probe::Unmanaged { is_dir } => if *is_dir {
            Release::Directory
        } else {
            Release::File
        },
    }
}

/// Nothing the user made is removed from a rescue: only a file of ours inside a
/// rescued directory, that holds no content.
pub proof fn law_a_rescue_removes_nothing_of_the_users(p: ProbeModel, state: Option<State>, inside: bool)
    requires
        release_of(p, state, inside) == Release::Remove,
    ensures
        p is Managed,
        inside,
        is_empty_state(state),
{
}

/// Beside the folder at `root`: `<root's parent>/.konedrive-rescued-<name>`.
pub open spec fn beside(root: Seq<u8>) -> Option<Seq<u8>> {
    let parts = parts_of(root);
    let top = if root.len() > 0 && root[0] == 47 {
        seq![47u8]
    } else {
        Seq::empty()
    };
    if parts.len() == 0 || parts.last() == seq![46u8, 46u8] {
        None
    } else {
        Some(
            joined(
                top,
                parts.drop_last().push(encode_utf8(".konedrive-rescued-"@) + parts.last()),
            ),
        )
    }
}

/// The nearest of the preferred place and its ancestors that exists, by its
/// device, from the `k`th on.
pub open spec fn nearest_device(devices: Seq<Option<u64>>, k: int) -> Option<u64>
    decreases devices.len() - k,
{
    if k >= devices.len() {
        None
    } else {
        match devices[k] {
            Some(dev) => Some(dev),
            None => nearest_device(devices, k + 1),
        }
    }
}

/// Where a folder's rescued files go: the preferred place when its nearest
/// existing ancestor is on the root's device (`root_dev`, when the root can be
/// looked at), and otherwise beside the root, where one rename reaches.
pub open spec fn rescue_base_of(
    root: Seq<u8>,
    preferred: Seq<u8>,
    root_dev: Option<u64>,
    devices: Seq<Option<u64>>,
) -> Seq<u8> {
    if root_dev is None || nearest_device(devices, 0) == root_dev {
        preferred
    } else {
        match beside(root) {
            Some(path) => path,
            None => preferred,
        }
    }
}

fn beside_root(root: &AbsPath) -> (r: Option<AbsPath>)
    ensures
        r.deep_view() == beside(root@),
{
    let parts = split(&root.raw);
    let n: usize = parts.parts.len();
    if n == 0 {
        return None;
    }
    let up: [u8; 2] = [46u8, 46u8];
    assert(up@ =~= seq![46u8, 46u8]);
    proof {
        crate::path::lemma_deep_bytes(parts.parts@[n - 1]);
        assert(parts@.last() == parts.parts@[n - 1]@);
    }
    if crate::path::same_bytes(&parts.parts[n - 1], &up) {
        return None;
    }
    let mut name = copy_bytes(".konedrive-rescued-".as_bytes());
    let ghost start = name@;
    let mut i: usize = 0;
    while i < parts.parts[n - 1].len()
        invariant
            n == parts.parts@.len(),
            n > 0,
            i <= parts.parts@[n - 1]@.len(),
            name@ == start + parts.parts@[n - 1]@.subrange(0, i as int),
        decreases parts.parts@[n - 1]@.len() - i,
    {
        name.push(parts.parts[n - 1][i]);
        i += 1;
        assert(name@ =~= start + parts.parts@[n - 1]@.subrange(0, i as int));
    }
    assert(parts.parts@[n - 1]@.subrange(0, i as int) =~= parts.parts@[n - 1]@);
    let rel = parts.dir().join(&name);
    let mut top: Vec<u8> = Vec::new();
    if root.raw.len() > 0 && root.raw[0] == 47 {
        top.push(47);
        assert(top@ =~= seq![47u8]);
    } else {
        assert(top@ =~= Seq::<u8>::empty());
    }
    let base = AbsPath { raw: top };
    Some(base.join(&rel))
}

/// Where the rescued files of the folder at `root` go. A rescue is always one
/// rename, so it has to stay on the root's filesystem. `devices`: those of the
/// preferred place and of each directory above it, where they exist.
pub fn rescue_base(root: &AbsPath, preferred: &AbsPath, root_dev: Option<u64>, devices: &Vec<Option<u64>>) -> (r:
    AbsPath)
    ensures
        r@ == rescue_base_of(root@, preferred@, root_dev, devices@),
{
    let dev = match root_dev {
        None => return preferred.clone(),
        Some(dev) => dev,
    };
    let mut k: usize = 0;
    while k < devices.len()
        invariant
            k <= devices@.len(),
            nearest_device(devices@, 0) == nearest_device(devices@, k as int),
            root_dev == Some(dev),
        ensures
            k <= devices@.len(),
            nearest_device(devices@, 0) == nearest_device(devices@, k as int),
            k == devices@.len() || devices@[k as int] is Some,
        decreases devices@.len() - k,
    {
        if devices[k].is_some() {
            break ;
        }
        k += 1;
    }
    if k < devices.len() {
        if let Some(found) = devices[k] {
            if found == dev {
                return preferred.clone();
            }
        }
    }
    match beside_root(root) {
        Some(path) => path,
        None => preferred.clone(),
    }
}

} // verus!
