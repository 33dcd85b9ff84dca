//! What holds of everything the sync tells the user.

use vstd::arithmetic::div_mod::{lemma_div_denominator, lemma_fundamental_div_mod};
use vstd::prelude::*;
use vstd::utf8::encode_utf8;
use crate::activity::log::{
    all_beneath, all_inside, attaching, beneath_of, gone_of, inside_of, is_inside, recording,
    still_there, ActivityModel, ConflictModel,
};
use crate::activity::space::{
    counts, files_of, is_reserved, published_space, sum_of, walked, WalkEntry, WalkModel,
};
use crate::activity::transfers::{progressed, reading_on, started, TransferModel};
use crate::activity::{
    capped_of, count_of, event_of, first_of_each, human_text, items_text, kind_name, kinds_of,
    known_failure, more_of_each, nearest, significant, step_of, unit_bytes, unit_of, EventModel,
    Kind,
};
use crate::local::decisions::begins_with;
use crate::os::Type;
use crate::path::{path_begins, PathModel};
use crate::text::{decimal, digit};

verus! {

/// What each kind of event is called.
pub proof fn law_what_events_are_called(k: Kind)
    ensures
        kind_name(Kind::Downloaded) == "downloaded"@,
        kind_name(Kind::Freed) == "freed"@,
        kind_name(Kind::Added) == "added"@,
        kind_name(Kind::Updated) == "updated"@,
        kind_name(Kind::Removed) == "removed"@,
        kind_name(Kind::Moved) == "moved"@,
        kind_name(Kind::Listed) == "listed"@,
        kind_name(Kind::Conflict) == "conflict"@,
        kind_name(Kind::Failed) == "failed"@,
        kind_name(Kind::UpdateFailed) == "update-failed"@,
{
}

/// An event keeps what it is made with, each thing in its own place.
pub proof fn law_an_event_keeps_what_it_is_made_with(at: i64, kind: Kind, path: Seq<char>, detail: Seq<char>)
    ensures
        event_of(at, kind, path, detail).at == at,
        event_of(at, kind, path, detail).kind == kind_name(kind),
        event_of(at, kind, path, detail).path == path,
        event_of(at, kind, path, detail).detail == detail,
{
}

/// Rounding goes to the nearest: it is never off by more than half, and of two as
/// near the even one is taken.
pub proof fn law_rounding_goes_to_the_nearest(n: nat, d: nat)
    requires
        d > 0,
    ensures
        -(d as int) <= 2 * (n - d * nearest(n, d)) <= d,
        2 * (n - d * nearest(n, d)) == d || 2 * (n - d * nearest(n, d)) == -(d as int) ==> nearest(n, d)
            % 2 == 0,
{
    lemma_fundamental_div_mod(n as int, d as int);
    let q = n / d;
    assert(d * (q + 1) == d * q + d) by (nonlinear_arith);
}

proof fn lemma_step(n: nat)
    ensures
        step_of(n) >= 1,
        n < 0x20_0000_0000_0000 ==> step_of(n) == 1,
        n >= 0x20_0000_0000_0000 ==> 0x10_0000_0000_0000 <= n / step_of(n) < 0x20_0000_0000_0000,
    decreases n,
{
    if n >= 0x20_0000_0000_0000 {
        lemma_step(n / 2);
        let s = step_of(n / 2);
        lemma_div_denominator(n as int, 2, s as int);
        assert((n as int / 2) / (s as int) == n as int / (2 * s as int));
        if n / 2 < 0x20_0000_0000_0000 {
            assert(s == 1);
            assert(n / 2 >= 0x10_0000_0000_0000);
            assert((n / 2) as int / 1 == (n / 2) as int);
        }
    }
}

/// A size is told to 53 binary digits: as it is while it has no more, and else to
/// the nearest that has.
pub proof fn law_sizes_are_told_as_far_as_digits_go(n: nat)
    ensures
        n < 0x20_0000_0000_0000 ==> significant(n) == n,
        step_of(n) > 1 ==> 0x10_0000_0000_0000 <= n / step_of(n) < 0x20_0000_0000_0000,
        -(step_of(n) as int) <= 2 * (n - significant(n)) <= step_of(n),
{
    lemma_step(n);
    law_rounding_goes_to_the_nearest(n, step_of(n));
    let s = step_of(n);
    assert(s * nearest(n, s) == nearest(n, s) * s) by (nonlinear_arith);
    if n < 0x20_0000_0000_0000 {
        assert(n / 1 == n && n % 1 == 0);
        assert(nearest(n, 1) == n);
    }
}

/// A size is told in the largest unit it reaches, each 1024 times the one before;
/// in bytes as it is, and else with one digit behind the point, to the nearest.
pub proof fn law_how_a_size_is_told(n: nat)
    ensures
        n < 1024 ==> human_text(n) == decimal(n) + " B"@,
        n >= 1024 ==> {
            let unit = unit_of(n);
            let tenths = nearest(significant(n) * 10, unit_bytes(unit));
            &&& 1 <= unit <= 4
            &&& unit_bytes(unit) <= n
            &&& unit < 4 ==> n < 1024 * unit_bytes(unit)
            &&& unit_bytes(unit) == 1024 * unit_bytes((unit - 1) as nat)
            &&& unit_bytes(0) == 1
            &&& human_text(n) == decimal(tenths / 10) + seq!['.', digit((tenths % 10) as int)] + (if unit
                == 1 {
                " KiB"@
            } else if unit == 2 {
                " MiB"@
            } else if unit == 3 {
                " GiB"@
            } else {
                " TiB"@
            })
            &&& -(unit_bytes(unit) as int) <= 2 * (significant(n) * 10 - unit_bytes(unit) * tenths)
                <= unit_bytes(unit)
        },
{
    if n >= 1024 {
        law_rounding_goes_to_the_nearest(significant(n) * 10, unit_bytes(unit_of(n)));
    }
}

/// Of which failures this library itself says why, and what: a full disk, a full
/// quota, and what could not be downloaded.
pub proof fn law_of_which_failures_is_said_why(errno: i32)
    ensures
        known_failure(28) == Some("not enough disk space"@),
        known_failure(122) == Some("not enough disk space"@),
        known_failure(5) == Some("it could not be downloaded"@),
        errno != 28 && errno != 122 && errno != 5 ==> known_failure(errno) is None,
{
}

/// Items are counted as they are spoken of: one in the singular, any other number
/// of them, none too, in the plural.
pub proof fn law_how_items_are_counted(n: nat)
    ensures
        items_text(1) == "1 item"@,
        n != 1 ==> items_text(n) == decimal(n) + " items"@,
{
}

proof fn lemma_kept_events(events: Seq<EventModel>, per_kind: nat, n: int, e: EventModel)
    requires
        0 <= n <= events.len(),
    ensures
        first_of_each(events, per_kind, n).contains(e) <==> exists|i: int|
            0 <= i < n && #[trigger] events[i] == e && count_of(events, e.kind, i) < per_kind,
    decreases n,
{
    if n > 0 {
        lemma_kept_events(events, per_kind, n - 1, e);
        let before = first_of_each(events, per_kind, n - 1);
        vstd::seq_lib::lemma_seq_contains_after_push(before, events[n - 1], e);
        let told = exists|i: int|
            0 <= i < n && #[trigger] events[i] == e && count_of(events, e.kind, i) < per_kind;
        if told {
            let i = choose|i: int|
                0 <= i < n && #[trigger] events[i] == e && count_of(events, e.kind, i) < per_kind;
            if i < n - 1 {
                assert(events[i] == e);
            }
        }
        if first_of_each(events, per_kind, n).contains(e) && !before.contains(e) {
            assert(events[n - 1] == e);
        }
    }
}

/// The kinds are counted where they stand: of the first `n` events as many are of
/// a kind as are.
pub open spec fn is_of_kind(events: Seq<EventModel>, kind: Seq<char>, i: int) -> bool {
    events[i].kind == kind
}

/// Of each kind the first come, first kept; and what says how many more there were
/// says so at the folder, of that kind, with the number that was left out.
pub proof fn law_which_events_are_kept(
    events: Seq<EventModel>,
    per_kind: nat,
    root: Seq<char>,
    at: i64,
    e: EventModel,
    m: int,
)
    ensures
        capped_of(events, per_kind, root, at).contains(e) ==> (exists|i: int|
            0 <= i < events.len() && #[trigger] events[i] == e && count_of(events, e.kind, i) < per_kind)
            || (e.at == at && e.path == root && count_of(events, e.kind, events.len() as int) > per_kind
            && e.detail == "and "@ + decimal(
            (count_of(events, e.kind, events.len() as int) - per_kind) as nat,
        ) + " more"@),
        0 <= m < events.len() && count_of(events, events[m].kind, m) < per_kind ==> capped_of(
            events,
            per_kind,
            root,
            at,
        ).contains(events[m]),
{
    let n = events.len() as int;
    let kept = first_of_each(events, per_kind, n);
    let kinds = kinds_of(events, n);
    let more = more_of_each(events, per_kind, root, at, kinds.len() as int);
    let all = capped_of(events, per_kind, root, at);
    lemma_kept_events(events, per_kind, n, e);
    if all.contains(e) {
        let k = choose|k: int| 0 <= k < all.len() && all[k] == e;
        if k < kept.len() {
            assert(kept[k] == e);
        } else {
            assert(more[k - kept.len()] == e);
            lemma_more_events(events, per_kind, root, at, kinds.len() as int, k - kept.len());
        }
    }
    if 0 <= m < events.len() && count_of(events, events[m].kind, m) < per_kind {
        lemma_kept_events(events, per_kind, n, events[m]);
        assert(events[m] == events[m]);
        let k = choose|k: int| 0 <= k < kept.len() && kept[k] == events[m];
        assert(all[k] == events[m]);
    }
}

proof fn lemma_more_events(events: Seq<EventModel>, per_kind: nat, root: Seq<char>, at: i64, m: int, k: int)
    requires
        0 <= m <= kinds_of(events, events.len() as int).len(),
        0 <= k < more_of_each(events, per_kind, root, at, m).len(),
    ensures
        ({
            let e = more_of_each(events, per_kind, root, at, m)[k];
            let n = count_of(events, e.kind, events.len() as int);
            e.at == at && e.path == root && n > per_kind && e.detail == "and "@ + decimal(
                (n - per_kind) as nat,
            ) + " more"@
        }),
    decreases m,
{
    if m > 0 {
        let before = more_of_each(events, per_kind, root, at, m - 1);
        if k < before.len() {
            lemma_more_events(events, per_kind, root, at, m - 1, k);
        }
    }
}

/// Counting goes up by one at each event of the kind, and at no other.
pub proof fn law_events_are_counted_one_by_one(events: Seq<EventModel>, kind: Seq<char>, n: int)
    requires
        0 <= n < events.len(),
    ensures
        count_of(events, kind, 0) == 0,
        count_of(events, kind, n + 1) == count_of(events, kind, n) + (if is_of_kind(events, kind, n) {
            1int
        } else {
            0int
        }),
{
}

proof fn lemma_inside(events: Seq<EventModel>, root: Seq<char>, n: int, e: EventModel)
    requires
        0 <= n <= events.len(),
    ensures
        inside_of(events, root, n).contains(e) <==> is_inside(root, e.path) && exists|i: int|
            0 <= i < n && #[trigger] events[i] == e,
        beneath_of(events, encode_utf8(root), n).contains(e) <==> path_begins(
            encode_utf8(e.path),
            encode_utf8(root),
        ) && exists|i: int| 0 <= i < n && #[trigger] events[i] == e,
    decreases n,
{
    if n > 0 {
        lemma_inside(events, root, n - 1, e);
        let last = events[n - 1];
        vstd::seq_lib::lemma_seq_contains_after_push(inside_of(events, root, n - 1), last, e);
        vstd::seq_lib::lemma_seq_contains_after_push(
            beneath_of(events, encode_utf8(root), n - 1),
            last,
            e,
        );
        if exists|i: int| 0 <= i < n && #[trigger] events[i] == e {
            let i = choose|i: int| 0 <= i < n && #[trigger] events[i] == e;
            assert(i < n - 1 || e == last);
        }
    }
}

/// Every event inside the folder counts, and no other; nothing is inside no
/// folder; and what a store gets of memory is what is about its own folder.
pub proof fn law_which_events_count(events: Seq<EventModel>, root: Seq<char>, e: EventModel)
    ensures
        all_inside(events, root).contains(e) <==> events.contains(e) && root.len() > 0 && path_begins(
            encode_utf8(e.path),
            encode_utf8(root),
        ),
        all_beneath(events, encode_utf8(root)).contains(e) <==> events.contains(e) && path_begins(
            encode_utf8(e.path),
            encode_utf8(root),
        ),
{
    lemma_inside(events, root, events.len() as int, e);
    if events.contains(e) {
        let k = choose|k: int| 0 <= k < events.len() && events[k] == e;
        assert(events[k] == e);
    }
}

/// Memory keeps the newest, in their order, and no more than it may; a log that a
/// store keeps is not kept in memory too.
pub proof fn law_memory_keeps_the_newest(
    a: ActivityModel,
    events: Seq<EventModel>,
    root: Seq<char>,
    k: int,
)
    ensures
        a.stored ==> recording(a, events, root) == a,
        !a.stored ==> {
            let all = a.memory + all_inside(events, root);
            let now = recording(a, events, root);
            &&& now.kept == a.kept && !now.stored
            &&& now.memory.len() == if all.len() < a.kept {
                all.len()
            } else {
                a.kept
            }
            &&& 0 <= k < now.memory.len() ==> now.memory[now.memory.len() - 1 - k] == all[all.len() - 1
                - k]
        },
        attaching(a).stored && attaching(a).memory.len() == 0 && attaching(a).kept == a.kept,
{
}

proof fn lemma_conflicts(rows: Seq<ConflictModel>, gone: Seq<bool>, n: int, row: ConflictModel, path: Seq<char>)
    requires
        0 <= n <= rows.len(),
        rows.len() == gone.len(),
    ensures
        still_there(rows, gone, n).contains(row) <==> exists|i: int|
            0 <= i < n && #[trigger] rows[i] == row && !gone[i],
        gone_of(rows, gone, n).contains(path) <==> exists|i: int|
            0 <= i < n && (#[trigger] rows[i]).rescued == path && gone[i],
    decreases n,
{
    if n > 0 {
        lemma_conflicts(rows, gone, n - 1, row, path);
        let last = rows[n - 1];
        vstd::seq_lib::lemma_seq_contains_after_push(still_there(rows, gone, n - 1), last, row);
        vstd::seq_lib::lemma_seq_contains_after_push(gone_of(rows, gone, n - 1), last.rescued, path);
        if exists|i: int| 0 <= i < n && #[trigger] rows[i] == row && !gone[i] {
            let i = choose|i: int| 0 <= i < n && #[trigger] rows[i] == row && !gone[i];
            assert(i < n - 1 || (row == last && !gone[n - 1]));
        }
        if exists|i: int| 0 <= i < n && (#[trigger] rows[i]).rescued == path && gone[i] {
            let i = choose|i: int| 0 <= i < n && (#[trigger] rows[i]).rescued == path && gone[i];
            assert(i < n - 1 || (path == last.rescued && gone[n - 1]));
        }
        if still_there(rows, gone, n).contains(row) && !still_there(rows, gone, n - 1).contains(row) {
            assert(rows[n - 1] == row);
        }
        if gone_of(rows, gone, n).contains(path) && !gone_of(rows, gone, n - 1).contains(path) {
            assert(rows[n - 1].rescued == path);
        }
    }
}

/// A conflict is listed while its rescued file is there, and dropped, by where
/// that was, once it is not: each is one or the other.
pub proof fn law_a_conflict_is_listed_while_its_file_is_there(
    rows: Seq<ConflictModel>,
    gone: Seq<bool>,
    k: int,
    row: ConflictModel,
    path: Seq<char>,
)
    requires
        rows.len() == gone.len(),
        0 <= k < rows.len(),
    ensures
        ({
            let n = rows.len() as int;
            &&& !gone[k] ==> still_there(rows, gone, n).contains(rows[k])
            &&& gone[k] ==> gone_of(rows, gone, n).contains(rows[k].rescued)
            &&& still_there(rows, gone, n).contains(row) ==> exists|i: int|
                0 <= i < n && #[trigger] rows[i] == row && !gone[i]
            &&& gone_of(rows, gone, n).contains(path) ==> exists|i: int|
                0 <= i < n && (#[trigger] rows[i]).rescued == path && gone[i]
            &&& still_there(rows, gone, n).len() + gone_of(rows, gone, n).len() == n
        }),
{
    let n = rows.len() as int;
    lemma_conflicts(rows, gone, n, row, path);
    lemma_conflicts(rows, gone, n, rows[k], rows[k].rescued);
    assert(rows[k] == rows[k]);
    lemma_conflicts_len(rows, gone, n);
}

proof fn lemma_conflicts_len(rows: Seq<ConflictModel>, gone: Seq<bool>, n: int)
    requires
        0 <= n <= rows.len(),
    ensures
        still_there(rows, gone, n).len() + gone_of(rows, gone, n).len() == n,
    decreases n,
{
    if n > 0 {
        lemma_conflicts_len(rows, gone, n - 1);
    }
}

/// What takes space: every regular file that konedrive does not keep for itself;
/// and every other directory of the folder's own filesystem is walked, as deep as
/// the walk may go.
pub proof fn law_what_takes_space(w: WalkModel, dir: PathModel, entries: Seq<WalkEntry>, n: int, k: int)
    requires
        0 <= k < n <= entries.len() <= usize::MAX,
    ensures
        ({
            let e = entries[k];
            let own = begins_with(e.name@, ".konedrive-"@);
            &&& is_reserved(e.name@) <==> own
            &&& !own && e.ty == Type::File ==> files_of(entries, n).contains(k as usize)
            &&& own || e.ty != Type::File ==> !files_of(entries, n).contains(k as usize)
            &&& !own && e.ty == Type::Dir && e.dev == w.root_dev && dir.len() < w.max_depth ==> walked(
                w,
                dir,
                entries,
                n,
            ).dirs.contains(dir.push(e.name@))
            &&& walked(w, dir, entries, n).root_dev == w.root_dev && walked(w, dir, entries, n).max_depth
                == w.max_depth
        }),
    decreases n,
{
    lemma_files(entries, n, k);
    let before = walked(w, dir, entries, n - 1);
    let own = dir.push(entries[n - 1].name@);
    vstd::seq_lib::lemma_seq_contains_after_push(before.dirs, own, dir.push(entries[k].name@));
    lemma_walk(w, dir, entries, n);
    if k < n - 1 {
        law_what_takes_space(w, dir, entries, n - 1, k);
    }
}

proof fn lemma_walk(w: WalkModel, dir: PathModel, entries: Seq<WalkEntry>, n: int)
    requires
        0 <= n <= entries.len(),
    ensures
        walked(w, dir, entries, n).root_dev == w.root_dev,
        walked(w, dir, entries, n).max_depth == w.max_depth,
    decreases n,
{
    if n > 0 {
        lemma_walk(w, dir, entries, n - 1);
    }
}

proof fn lemma_files(entries: Seq<WalkEntry>, n: int, k: int)
    requires
        0 <= n <= entries.len() <= usize::MAX,
        0 <= k <= usize::MAX,
    ensures
        files_of(entries, n).contains(k as usize) <==> k < n && counts(entries[k]),
    decreases n,
{
    if n > 0 {
        lemma_files(entries, n - 1, k);
        vstd::seq_lib::lemma_seq_contains_after_push(
            files_of(entries, n - 1),
            (n - 1) as usize,
            k as usize,
        );
    }
}

/// The space the folder takes is the sum over its files, whatever parts they are
/// counted in.
pub proof fn law_space_adds_up(s: Seq<u64>, t: Seq<u64>, n: int)
    requires
        0 <= n <= t.len(),
    ensures
        sum_of(s + t, s.len() + n) == sum_of(s, s.len() as int) + sum_of(t, n),
        n > 0 ==> sum_of(t, n) == sum_of(t, n - 1) + t[n - 1],
        sum_of(t, 0) == 0,
    decreases n,
{
    if n > 0 {
        law_space_adds_up(s, t, n - 1);
        assert((s + t)[s.len() + n - 1] == t[n - 1]);
    } else {
        lemma_same_sum(s + t, s, s.len() as int);
    }
}

proof fn lemma_same_sum(a: Seq<u64>, b: Seq<u64>, n: int)
    requires
        0 <= n <= a.len(),
        n <= b.len(),
        forall|i: int| 0 <= i < n ==> a[i] == b[i],
    ensures
        sum_of(a, n) == sum_of(b, n),
    decreases n,
{
    if n > 0 {
        lemma_same_sum(a, b, n - 1);
    }
}

/// What a walk found is published for the folder that was walked, and for no
/// other.
pub proof fn law_space_is_published_for_its_own_folder(
    published: u64,
    root: Seq<char>,
    other: Seq<char>,
    bytes: u64,
)
    ensures
        published_space(published, root, root, bytes) == bytes,
        root != other ==> published_space(published, root, other, bytes) == published,
{
}

/// A download begins with nothing done and leaves the others alone; its progress
/// is kept and told only where it changed, its path never does, and no other
/// download's does; and one that is not under way makes none.
pub proof fn law_each_download_is_its_own(
    all: Map<u64, TransferModel>,
    id: u64,
    other: u64,
    path: Seq<char>,
    done: u64,
    total: u64,
)
    requires
        id != other,
    ensures
        started(all, id, path, total)[id] == (TransferModel { path, done: 0, total }),
        started(all, id, path, total).contains_key(other) <==> all.contains_key(other),
        all.contains_key(other) ==> started(all, id, path, total)[other] == all[other],
        ({
            let (now, changed) = progressed(all, id, done, total);
            &&& now.dom() == all.dom()
            &&& now[other] == all[other]
            &&& all.contains_key(id) ==> now[id].path == all[id].path && now[id].done == done && now[id].total
                == total
            &&& changed <==> now != all
        }),
{
    let (now, changed) = progressed(all, id, done, total);
    assert(now.dom() =~= all.dom());
    if all.contains_key(id) {
        if changed {
            assert(now[id] != all[id]);
        }
    }
}

/// What is read on is told by where reading stands now: as far on as more was
/// read, and not at all where nothing was.
pub proof fn law_what_is_read_on_is_told(at: u64, before: usize, after: usize)
    requires
        before <= after,
        at + (after - before) <= u64::MAX,
    ensures
        before == after ==> reading_on(at, before, after) is None,
        before < after ==> (reading_on(at, before, after) matches Some(now) && now - at == after - before),
{
}

} // verus!
