//! What the sync tells the user about itself: the activity log, the
//! conflicts, the downloads under way, and the space the folder takes.

pub mod laws;
pub mod log;
pub mod space;
pub mod transfers;

use vstd::prelude::*;
use vstd::string::*;
use crate::clock::unix_now;
use crate::local::run::push_to;
use crate::os::{edquot, eio, enospc};
use crate::text::{decimal, digit, push_char, push_decimal, same_text};

verus! {

/// An incremental cycle logs at most this many events of each kind, plus one
/// "and N more".
pub const PER_KIND: usize = 50;

/// The folder's space is measured at most this often after a download or a
/// free-up, in seconds.
pub const SPACE_SPACING: u64 = 5;

/// What a `failed` or `update-failed` event says when the disk is full.
pub const NO_DISK_SPACE: &'static str = "not enough disk space";

/// What an event records.
#[derive(Debug, Clone, Copy, PartialEq, Eq, Structural)]
pub enum Kind {
    /// A file was downloaded. Detail: its size.
    Downloaded,
    /// A file's space was freed up. Detail: how much.
    Freed,
    /// Added in OneDrive, placed here by an incremental cycle.
    Added,
    /// Changed in OneDrive: a placeholder took the new version, or a
    /// downloaded file was replaced by it.
    Updated,
    /// Removed from OneDrive, and so from here.
    Removed,
    /// Moved or renamed in OneDrive. Detail: where it was.
    Moved,
    /// A listing, or a full reconcile: one event for the whole folder.
    Listed,
    /// A local version moved out of the way. The path is where it was; the
    /// detail, where it is now.
    Conflict,
    /// A download that failed. Detail: why.
    Failed,
    /// A file changed in OneDrive that could not be replaced here. Detail: why.
    UpdateFailed,
}

/// A kind's name.
pub open spec fn kind_name(k: Kind) -> Seq<char> {
    match k {
        Kind::Downloaded => "downloaded"@,
        Kind::Freed => "freed"@,
        Kind::Added => "added"@,
        Kind::Updated => "updated"@,
        Kind::Removed => "removed"@,
        Kind::Moved => "moved"@,
        Kind::Listed => "listed"@,
        Kind::Conflict => "conflict"@,
        Kind::Failed => "failed"@,
        Kind::UpdateFailed => "update-failed"@,
    }
}

impl Kind {
    /// Every kind there is.
    pub fn all() -> (r: [Kind; 10])
        ensures
            forall|k: Kind| #[trigger] r@.contains(k),
            r@.no_duplicates(),
    {
        let all = [
            Kind::Downloaded,
            Kind::Freed,
            Kind::Added,
            Kind::Updated,
            Kind::Removed,
            Kind::Moved,
            Kind::Listed,
            Kind::Conflict,
            Kind::Failed,
            Kind::UpdateFailed,
        ];
        assert forall|k: Kind| #[trigger] all@.contains(k) by {
            let i: int = match k {
                Kind::Downloaded => 0,
                Kind::Freed => 1,
                Kind::Added => 2,
                Kind::Updated => 3,
                Kind::Removed => 4,
                Kind::Moved => 5,
                Kind::Listed => 6,
                Kind::Conflict => 7,
                Kind::Failed => 8,
                Kind::UpdateFailed => 9,
            };
            assert(all@[i] == k);
        }
        all
    }

    pub fn as_str(self) -> (r: &'static str)
        ensures
            r@ == kind_name(self),
    {
        match self {
            Kind::Downloaded => "downloaded",
            Kind::Freed => "freed",
            Kind::Added => "added",
            Kind::Updated => "updated",
            Kind::Removed => "removed",
            Kind::Moved => "moved",
            Kind::Listed => "listed",
            Kind::Conflict => "conflict",
            Kind::Failed => "failed",
            Kind::UpdateFailed => "update-failed",
        }
    }
}

/// One event of the activity log.
#[derive(Debug)]
pub struct Event {
    /// Unix seconds.
    pub at: i64,
    /// The name of its kind.
    pub kind: String,
    /// A full path.
    pub path: String,
    pub detail: String,
}

#[verifier::ext_equal]
pub struct EventModel {
    pub at: i64,
    pub kind: Seq<char>,
    pub path: Seq<char>,
    pub detail: Seq<char>,
}

impl View for Event {
    type V = EventModel;

    open spec fn view(&self) -> EventModel {
        EventModel { at: self.at, kind: self.kind@, path: self.path@, detail: self.detail@ }
    }
}

impl DeepView for Event {
    type V = EventModel;

    open spec fn deep_view(&self) -> EventModel {
        self.view()
    }
}

impl Clone for Event {
    fn clone(&self) -> (r: Self)
        ensures
            r@ == self@,
    {
        Event {
            at: self.at,
            kind: self.kind.clone(),
            path: self.path.clone(),
            detail: self.detail.clone(),
        }
    }
}

/// The event of `kind` at `at`.
pub open spec fn event_of(at: i64, kind: Kind, path: Seq<char>, detail: Seq<char>) -> EventModel {
    EventModel { at, kind: kind_name(kind), path, detail }
}

/// The event of `kind` at `at`.
pub fn event_at(at: i64, kind: Kind, path: String, detail: String) -> (r: Event)
    ensures
        r@ == event_of(at, kind, path@, detail@),
{
    Event { at, kind: kind.as_str().to_owned(), path, detail }
}

/// An event that happens now.
pub fn event(kind: Kind, path: String, detail: String) -> (r: Event)
    ensures
        r@ == event_of(r.at, kind, path@, detail@),
{
    event_at(unix_now(), kind, path, detail)
}

/// The whole number nearest to `n / d`; of two as near, the even one.
pub open spec fn nearest(n: nat, d: nat) -> nat {
    let q = n / d;
    let r = n % d;
    if 2 * r > d || (2 * r == d && q % 2 == 1) {
        q + 1
    } else {
        q
    }
}

/// The whole number nearest to `n / d`; of two as near, the even one.
fn round(n: u128, d: u128) -> (r: u128)
    requires
        0 < d <= 0x8000_0000_0000_0000,
        n <= 0x1_0000_0000_0000_0000_0000,
    ensures
        r == nearest(n as nat, d as nat),
        r <= n + 1,
{
    let q = n / d;
    let rest = n % d;
    proof {
        vstd::arithmetic::div_mod::lemma_div_is_ordered_by_denominator(n as int, 1, d as int);
        vstd::arithmetic::div_mod::lemma_div_basics(n as int);
    }
    if 2 * rest > d || (2 * rest == d && q % 2 == 1) {
        q + 1
    } else {
        q
    }
}

/// How far apart the numbers of 53 binary digits near `n` are.
pub open spec fn step_of(n: nat) -> nat
    decreases n,
{
    if n < 0x20_0000_0000_0000 {
        1
    } else {
        2 * step_of(n / 2)
    }
}

/// `n`, as far as 53 binary digits tell it.
pub open spec fn significant(n: nat) -> nat {
    nearest(n, step_of(n)) * step_of(n)
}

fn step(n: u64) -> (r: u64)
    ensures
        r == step_of(n as nat),
        0 < r <= 0x1000,
        n >= 0x20_0000_0000_0000 ==> r <= n / 0x10_0000_0000_0000,
        n < 0x20_0000_0000_0000 ==> r == 1,
    decreases n,
{
    if n < 0x20_0000_0000_0000 {
        1
    } else {
        2 * step(n / 2)
    }
}

/// The unit a size is told in: bytes, then each 1024 times the one before.
pub open spec fn unit_of(n: nat) -> nat {
    if n < 0x400 {
        0
    } else if n < 0x10_0000 {
        1
    } else if n < 0x4000_0000 {
        2
    } else if n < 0x100_0000_0000 {
        3
    } else {
        4
    }
}

/// How many bytes the unit is.
pub open spec fn unit_bytes(unit: nat) -> nat {
    if unit == 0 {
        1
    } else if unit == 1 {
        0x400
    } else if unit == 2 {
        0x10_0000
    } else if unit == 3 {
        0x4000_0000
    } else {
        0x100_0000_0000
    }
}

pub open spec fn unit_name(unit: nat) -> Seq<char> {
    if unit == 0 {
        " B"@
    } else if unit == 1 {
        " KiB"@
    } else if unit == 2 {
        " MiB"@
    } else if unit == 3 {
        " GiB"@
    } else {
        " TiB"@
    }
}

/// A size as it is told: `1536` is `1.5 KiB`, to the nearest tenth.
pub open spec fn human_text(bytes: nat) -> Seq<char> {
    let unit = unit_of(bytes);
    if unit == 0 {
        decimal(bytes) + unit_name(0)
    } else {
        let tenths = nearest(significant(bytes) * 10, unit_bytes(unit));
        decimal(tenths / 10) + seq!['.', digit((tenths % 10) as int)] + unit_name(unit)
    }
}

/// `1536` is `1.5 KiB`: the size a `downloaded` or `freed` event's detail
/// gives.
pub fn human_size(bytes: u64) -> (r: String)
    ensures
        r@ == human_text(bytes as nat),
{
    let mut out = String::new();
    let (size, name) = if bytes < 0x400 {
        push_decimal(&mut out, bytes as u128);
        out.append(" B");
        assert(out@ =~= human_text(bytes as nat));
        return out;
    } else if bytes < 0x10_0000 {
        (0x400u128, " KiB")
    } else if bytes < 0x4000_0000 {
        (0x10_0000u128, " MiB")
    } else if bytes < 0x100_0000_0000 {
        (0x4000_0000u128, " GiB")
    } else {
        (0x100_0000_0000u128, " TiB")
    };
    let apart = step(bytes);
    let whole = round(bytes as u128, apart as u128);
    assert(whole * apart <= 0x1_0000_0000_0000_0000 * 0x1000) by (nonlinear_arith)
        requires
            whole <= 0x1_0000_0000_0000_0000,
            apart <= 0x1000,
    ;
    let told = whole * (apart as u128);
    let tenths = round(told * 10, size);
    push_decimal(&mut out, tenths / 10);
    push_char(&mut out, '.');
    push_char(&mut out, (48u8 + (tenths % 10) as u8) as char);
    out.append(name);
    assert(out@ =~= human_text(bytes as nat));
    out
}

/// An error of the system's.
#[verifier::external_type_specification]
#[verifier::external_body]
pub struct ExIoError(std::io::Error);

/// `std::io::Error::from_raw_os_error`; nothing is claimed of the value.
#[verifier::external_body]
pub(crate) fn os_error(errno: i32) -> (r: std::io::Error)
{
    std::io::Error::from_raw_os_error(errno)
}

/// `std::io::Error`, as it displays itself: the system's own words, which rest
/// on the C library and its locale; nothing is claimed of them.
#[verifier::external_body]
pub(crate) fn os_error_text(e: &std::io::Error) -> (r: String)
{
    e.to_string()
}

/// Why a fill failed, when this library says so itself.
pub open spec fn known_failure(errno: i32) -> Option<Seq<char>> {
    if errno == 28 || errno == 122 {
        Some(NO_DISK_SPACE@)
    } else if errno == 5 {
        Some("it could not be downloaded"@)
    } else {
        None
    }
}

/// Why a fill failed, for a `failed` event's detail: a full disk or quota, or
/// everything a fill could not get from OneDrive, in fixed words; any other
/// error in the system's own.
pub fn failure_reason(errno: i32) -> (r: String)
    ensures
        known_failure(errno) matches Some(text) ==> r@ == text,
{
    if errno == enospc() || errno == edquot() {
        NO_DISK_SPACE.to_owned()
    } else if errno == eio() {
        "it could not be downloaded".to_owned()
    } else {
        os_error_text(&os_error(errno))
    }
}

/// `n items`, `1 item`.
pub open spec fn items_text(n: nat) -> Seq<char> {
    if n == 1 {
        "1 item"@
    } else {
        decimal(n) + " items"@
    }
}

/// `n items`, `1 item`: a `listed` event's detail.
pub fn items(n: u64) -> (r: String)
    ensures
        r@ == items_text(n as nat),
{
    if n == 1 {
        "1 item".to_owned()
    } else {
        let mut out = String::new();
        push_decimal(&mut out, n as u128);
        out.append(" items");
        assert(out@ =~= items_text(n as nat));
        out
    }
}

/// How many of the first `n` events are of `kind`.
pub open spec fn count_of(events: Seq<EventModel>, kind: Seq<char>, n: int) -> nat
    decreases n,
{
    if n <= 0 {
        0
    } else {
        count_of(events, kind, n - 1) + if events[n - 1].kind == kind {
            1nat
        } else {
            0nat
        }
    }
}

/// The first `per_kind` of each kind among the first `n` events, in their
/// order.
pub open spec fn first_of_each(events: Seq<EventModel>, per_kind: nat, n: int) -> Seq<EventModel>
    decreases n,
{
    if n <= 0 {
        Seq::empty()
    } else {
        let before = first_of_each(events, per_kind, n - 1);
        if count_of(events, events[n - 1].kind, n - 1) < per_kind {
            before.push(events[n - 1])
        } else {
            before
        }
    }
}

/// The kinds of the first `n` events, in the order they first appeared.
pub open spec fn kinds_of(events: Seq<EventModel>, n: int) -> Seq<Seq<char>>
    decreases n,
{
    if n <= 0 {
        Seq::empty()
    } else {
        let before = kinds_of(events, n - 1);
        if before.contains(events[n - 1].kind) {
            before
        } else {
            before.push(events[n - 1].kind)
        }
    }
}

/// One event for each of the first `m` kinds that had more.
pub open spec fn more_of_each(
    events: Seq<EventModel>,
    per_kind: nat,
    root: Seq<char>,
    at: i64,
    m: int,
) -> Seq<EventModel>
    decreases m,
{
    if m <= 0 {
        Seq::empty()
    } else {
        let before = more_of_each(events, per_kind, root, at, m - 1);
        let kind = kinds_of(events, events.len() as int)[m - 1];
        let n = count_of(events, kind, events.len() as int);
        if n > per_kind {
            before.push(
                EventModel {
                    at,
                    kind,
                    path: root,
                    detail: "and "@ + decimal((n - per_kind) as nat) + " more"@,
                },
            )
        } else {
            before
        }
    }
}

/// At most `per_kind` events of each kind, in the order they came; then for
/// each kind that had more one event of that kind at `root`, saying how many,
/// in the order the kinds first appeared.
pub open spec fn capped_of(events: Seq<EventModel>, per_kind: nat, root: Seq<char>, at: i64) -> Seq<
    EventModel,
> {
    first_of_each(events, per_kind, events.len() as int) + more_of_each(
        events,
        per_kind,
        root,
        at,
        kinds_of(events, events.len() as int).len() as int,
    )
}

proof fn lemma_kinds(events: Seq<EventModel>, n: int)
    requires
        0 <= n <= events.len(),
    ensures
        kinds_of(events, n).no_duplicates(),
        kinds_of(events, n).len() <= n,
        forall|k: Seq<char>| #[trigger] kinds_of(events, n).contains(k) <==> count_of(events, k, n) > 0,
    decreases n,
{
    if n > 0 {
        lemma_kinds(events, n - 1);
        let before = kinds_of(events, n - 1);
        let kind = events[n - 1].kind;
        assert forall|k: Seq<char>| #[trigger] kinds_of(events, n).contains(k) <==> count_of(
            events,
            k,
            n,
        ) > 0 by {
            assert(before.contains(k) <==> count_of(events, k, n - 1) > 0);
            if !before.contains(kind) {
                let now = before.push(kind);
                assert(now[before.len() as int] == kind);
                if before.contains(k) {
                    let j = choose|j: int| 0 <= j < before.len() && before[j] == k;
                    assert(now[j] == k);
                }
                if now.contains(k) && k != kind {
                    let j = choose|j: int| 0 <= j < now.len() && now[j] == k;
                    assert(before[j] == k);
                }
            }
        }
    }
}

proof fn lemma_count(events: Seq<EventModel>, kind: Seq<char>, n: int)
    requires
        0 <= n,
    ensures
        count_of(events, kind, n) <= n,
    decreases n,
{
    if n > 0 {
        lemma_count(events, kind, n - 1);
    }
}

/// The number of the count of `kind`.
fn counted(counts: &Vec<(String, usize)>, kind: &str) -> (r: Option<usize>)
    ensures
        match r {
            Some(i) => i < counts@.len() && counts@[i as int].0@ == kind@,
            None => forall|j: int| 0 <= j < counts@.len() ==> (#[trigger] counts@[j]).0@ != kind@,
        },
{
    let mut i: usize = 0;
    while i < counts.len()
        invariant
            i <= counts@.len(),
            forall|j: int| 0 <= j < i ==> (#[trigger] counts@[j]).0@ != kind@,
        decreases counts@.len() - i,
    {
        if same_text(counts[i].0.as_str(), kind) {
            return Some(i);
        }
        i += 1;
    }
    None
}

/// [`capped`], the events saying how many more being of `at`.
pub fn capped_at(events: Vec<Event>, per_kind: usize, root: &str, at: i64) -> (r: Vec<Event>)
    ensures
        r.deep_view() == capped_of(events.deep_view(), per_kind as nat, root@, at),
{
    let ghost all = events.deep_view();
    let total: usize = events.len();
    let mut counts: Vec<(String, usize)> = Vec::new();
    let mut out: Vec<Event> = Vec::new();
    assert(out.deep_view() =~= Seq::<EventModel>::empty());
    for event in it: events
        invariant
            it.seq() == events@,
            all == events.deep_view(),
            all.len() == total,
            out.deep_view() == first_of_each(all, per_kind as nat, it.index()),
            counts@.len() == kinds_of(all, it.index()).len(),
            forall|j: int|
                0 <= j < counts@.len() ==> (#[trigger] counts@[j]).0@ == kinds_of(
                    all,
                    it.index(),
                )[j] && counts@[j].1 == count_of(all, counts@[j].0@, it.index()),
    {
        let ghost n = it.index();
        assert(all[n] == events@[n]@);
        assert(event@ == all[n]);
        proof {
            lemma_kinds(all, n);
            lemma_count(all, all[n].kind, n);
        }
        let ghost kinds = kinds_of(all, n);
        let found = counted(&counts, event.kind.as_str());
        let i = match found {
            Some(i) => {
                assert(kinds[i as int] == all[n].kind);
                i
            },
            None => {
                proof {
                    if kinds.contains(all[n].kind) {
                        let j = choose|j: int| 0 <= j < kinds.len() && kinds[j] == all[n].kind;
                        assert(counts@[j].0@ == all[n].kind);
                    }
                    assert(!kinds.contains(all[n].kind));
                }
                let i: usize = counts.len();
                counts.push((event.kind.clone(), 0));
                i
            },
        };
        let seen = counts[i].1;
        assert(seen == count_of(all, all[n].kind, n));
        counts[i].1 = seen + 1;
        assert forall|j: int| 0 <= j < counts@.len() implies (#[trigger] counts@[j]).0@ == kinds_of(
            all,
            n + 1,
        )[j] && counts@[j].1 == count_of(all, counts@[j].0@, n + 1) by {
            if j != i {
                assert(kinds_of(all, n + 1)[j] == kinds[j]);
                assert(kinds[j] != all[n].kind) by {
                    if i < kinds.len() {
                        assert(kinds[i as int] == all[n].kind);
                    } else {
                        assert(kinds.contains(kinds[j]));
                    }
                }
            }
        }
        if seen < per_kind {
            push_to(&mut out, event);
        }
    }
    let ghost n = all.len() as int;
    let ghost first = out.deep_view();
    let mut i: usize = 0;
    assert(first + more_of_each(all, per_kind as nat, root@, at, 0) =~= first);
    while i < counts.len()
        invariant
            n == all.len(),
            i <= counts@.len(),
            counts@.len() == kinds_of(all, n).len(),
            forall|j: int|
                0 <= j < counts@.len() ==> (#[trigger] counts@[j]).0@ == kinds_of(all, n)[j]
                    && counts@[j].1 == count_of(all, counts@[j].0@, n),
            out.deep_view() == first + more_of_each(all, per_kind as nat, root@, at, i as int),
        decreases counts@.len() - i,
    {
        let seen = counts[i].1;
        if seen > per_kind {
            let mut detail = "and ".to_owned();
            push_decimal(&mut detail, (seen - per_kind) as u128);
            detail.append(" more");
            let ghost before = out.deep_view();
            let more = Event { at, kind: counts[i].0.clone(), path: root.to_owned(), detail };
            let ghost told = more@;
            push_to(&mut out, more);
            assert(out.deep_view() =~= first + more_of_each(
                all,
                per_kind as nat,
                root@,
                at,
                i + 1,
            ));
        }
        i += 1;
    }
    out
}

/// At most `per_kind` events of each kind, in the order they came, then — for
/// each kind that had more — one event of that kind at `root` saying "and N
/// more", in the order the kinds first appeared.
pub fn capped(events: Vec<Event>, per_kind: usize, root: &str) -> (r: Vec<Event>)
    ensures
        exists|at: i64|
            r.deep_view() == #[trigger] capped_of(events.deep_view(), per_kind as nat, root@, at),
{
    let at = unix_now();
    capped_at(events, per_kind, root, at)
}

proof fn lemma_count_agrees(a: Seq<EventModel>, b: Seq<EventModel>, kind: Seq<char>, n: int)
    requires
        0 <= n <= a.len(),
        n <= b.len(),
        forall|i: int| 0 <= i < n ==> a[i] == b[i],
    ensures
        count_of(a, kind, n) == count_of(b, kind, n),
    decreases n,
{
    if n > 0 {
        lemma_count_agrees(a, b, kind, n - 1);
    }
}

proof fn lemma_count_push(s: Seq<EventModel>, e: EventModel, kind: Seq<char>)
    ensures
        count_of(s.push(e), kind, s.len() as int + 1) == count_of(s, kind, s.len() as int) + if e.kind == kind {
            1nat
        } else {
            0nat
        },
{
    lemma_count_agrees(s.push(e), s, kind, s.len() as int);
}

proof fn lemma_count_both(a: Seq<EventModel>, b: Seq<EventModel>, kind: Seq<char>, n: int)
    requires
        0 <= n <= b.len(),
    ensures
        count_of(a + b, kind, a.len() + n) == count_of(a, kind, a.len() as int) + count_of(b, kind, n),
    decreases n,
{
    if n > 0 {
        lemma_count_both(a, b, kind, n - 1);
        assert((a + b)[a.len() + n - 1] == b[n - 1]);
    } else {
        lemma_count_agrees(a + b, a, kind, a.len() as int);
    }
}

proof fn lemma_first_of_each(events: Seq<EventModel>, per_kind: nat, kind: Seq<char>, n: int)
    requires
        0 <= n <= events.len(),
    ensures
        ({
            let kept = first_of_each(events, per_kind, n);
            let all = count_of(events, kind, n);
            count_of(kept, kind, kept.len() as int) == if all < per_kind {
                all
            } else {
                per_kind
            }
        }),
    decreases n,
{
    if n > 0 {
        lemma_first_of_each(events, per_kind, kind, n - 1);
        lemma_count_push(first_of_each(events, per_kind, n - 1), events[n - 1], kind);
    }
}

proof fn lemma_more_of_each(
    events: Seq<EventModel>,
    per_kind: nat,
    root: Seq<char>,
    at: i64,
    kind: Seq<char>,
    m: int,
)
    requires
        0 <= m <= kinds_of(events, events.len() as int).len(),
    ensures
        ({
            let kinds = kinds_of(events, events.len() as int);
            let more = more_of_each(events, per_kind, root, at, m);
            count_of(more, kind, more.len() as int) == if kinds.subrange(0, m).contains(kind) && count_of(
                events,
                kind,
                events.len() as int,
            ) > per_kind {
                1nat
            } else {
                0nat
            }
        }),
    decreases m,
{
    let kinds = kinds_of(events, events.len() as int);
    lemma_kinds(events, events.len() as int);
    if m > 0 {
        lemma_more_of_each(events, per_kind, root, at, kind, m - 1);
        let before = kinds.subrange(0, m - 1);
        let last = kinds[m - 1];
        assert(kinds.subrange(0, m) =~= before.push(last));
        vstd::seq_lib::lemma_seq_contains_after_push(before, last, kind);
        if before.contains(last) {
            let j = choose|j: int| 0 <= j < before.len() && before[j] == last;
            assert(kinds[j] == kinds[m - 1]);
        }
        let n = count_of(events, last, events.len() as int);
        if n > per_kind {
            lemma_count_push(
                more_of_each(events, per_kind, root, at, m - 1),
                EventModel {
                    at,
                    kind: last,
                    path: root,
                    detail: "and "@ + decimal((n - per_kind) as nat) + " more"@,
                },
                kind,
            );
        }
    }
}

/// At most `per_kind` events of a kind are kept, and one more where there were
/// more of them — never more, whatever came, and none where none came.
pub proof fn law_no_kind_says_more_than_its_share(
    events: Seq<EventModel>,
    per_kind: nat,
    root: Seq<char>,
    at: i64,
    kind: Seq<char>,
)
    ensures
        ({
            let said = capped_of(events, per_kind, root, at);
            let all = count_of(events, kind, events.len() as int);
            count_of(said, kind, said.len() as int) == if all <= per_kind {
                all
            } else {
                per_kind + 1
            }
        }),
{
    let n = events.len() as int;
    let kinds = kinds_of(events, n);
    let kept = first_of_each(events, per_kind, n);
    let more = more_of_each(events, per_kind, root, at, kinds.len() as int);
    lemma_kinds(events, n);
    lemma_first_of_each(events, per_kind, kind, n);
    lemma_more_of_each(events, per_kind, root, at, kind, kinds.len() as int);
    assert(kinds.subrange(0, kinds.len() as int) =~= kinds);
    lemma_count_both(kept, more, kind, more.len() as int);
}

} // verus!
