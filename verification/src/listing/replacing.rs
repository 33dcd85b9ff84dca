//! What becomes of every file that changed in OneDrive and is downloaded here.

use vstd::prelude::*;
use crate::activity::human_text;
use crate::listing::replacement::{
    asked_for, ending, failure_of, follows, in_flight, is_news, note_of, recording, replacement_event,
    retrying, spawned, spawning, stands_in, FailureModel, InFlightModel, ReplaceOutcome,
    ReplacementModel, ReplacementsModel,
};
use crate::sorted::lemma_inserted_holds;
use crate::text::decimal;

verus! {

/// The version `r` is on its way: under way itself with nothing newer after it,
/// or next behind the one under way.
pub open spec fn is_on_its_way(replacing: Map<Seq<char>, InFlightModel>, r: ReplacementModel) -> bool {
    &&& replacing.contains_key(r.id)
    &&& (replacing[r.id].ctag == r.ctag && replacing[r.id].next is None) || replacing[r.id].next == Some(r)
}

proof fn lemma_spawning_keeps(
    replacing: Map<Seq<char>, InFlightModel>,
    fresh: Seq<ReplacementModel>,
    i: int,
    start: Seq<ReplacementModel>,
    id: Seq<char>,
)
    requires
        0 <= i,
        forall|j: int| i <= j < fresh.len() ==> (#[trigger] fresh[j]).id != id,
    ensures
        spawning(replacing, fresh, i, start).0.contains_key(id) <==> replacing.contains_key(id),
        spawning(replacing, fresh, i, start).0[id] == replacing[id],
    decreases fresh.len() - i,
{
    if i < fresh.len() {
        let next = if replacing.contains_key(fresh[i].id) {
            start
        } else {
            start.push(fresh[i])
        };
        lemma_spawning_keeps(asked_for(replacing, fresh[i]), fresh, i + 1, next, id);
    }
}

proof fn lemma_spawning_starts(
    replacing: Map<Seq<char>, InFlightModel>,
    fresh: Seq<ReplacementModel>,
    i: int,
    start: Seq<ReplacementModel>,
    r: ReplacementModel,
)
    requires
        0 <= i,
        start.contains(r),
    ensures
        spawning(replacing, fresh, i, start).1.contains(r),
    decreases fresh.len() - i,
{
    if i < fresh.len() {
        let next = if replacing.contains_key(fresh[i].id) {
            start
        } else {
            start.push(fresh[i])
        };
        vstd::seq_lib::lemma_seq_contains_after_push(start, fresh[i], r);
        lemma_spawning_starts(asked_for(replacing, fresh[i]), fresh, i + 1, next, r);
    }
}

proof fn lemma_spawning_at(
    replacing: Map<Seq<char>, InFlightModel>,
    fresh: Seq<ReplacementModel>,
    i: int,
    start: Seq<ReplacementModel>,
    k: int,
)
    requires
        0 <= i <= k < fresh.len(),
        forall|j: int| k < j < fresh.len() ==> (#[trigger] fresh[j]).id != fresh[k].id,
    ensures
        is_on_its_way(spawning(replacing, fresh, i, start).0, fresh[k]),
        !replacing.contains_key(fresh[k].id) && (forall|j: int|
            i <= j < k ==> (#[trigger] fresh[j]).id != fresh[k].id) ==> spawning(
            replacing,
            fresh,
            i,
            start,
        ).1.contains(fresh[k]),
    decreases fresh.len() - i,
{
    let next = if replacing.contains_key(fresh[i].id) {
        start
    } else {
        start.push(fresh[i])
    };
    let now = asked_for(replacing, fresh[i]);
    if i == k {
        lemma_spawning_keeps(now, fresh, i + 1, next, fresh[k].id);
        if !replacing.contains_key(fresh[k].id) {
            vstd::seq_lib::lemma_seq_contains_after_push(start, fresh[i], fresh[k]);
            lemma_spawning_starts(now, fresh, i + 1, next, fresh[k]);
        }
    } else {
        lemma_spawning_at(now, fresh, i + 1, next, k);
    }
}

proof fn lemma_retrying_keeps(
    m: ReplacementsModel,
    replacing: Map<Seq<char>, InFlightModel>,
    fresh: Seq<ReplacementModel>,
    k: int,
    start: Seq<ReplacementModel>,
    r: ReplacementModel,
)
    requires
        0 <= k,
    ensures
        replacing.contains_key(r.id) ==> retrying(m, replacing, fresh, k, start).0.contains_key(r.id)
            && retrying(m, replacing, fresh, k, start).0[r.id] == replacing[r.id],
        start.contains(r) ==> retrying(m, replacing, fresh, k, start).1.contains(r),
    decreases m.order.len() - k,
{
    if k < m.order.len() {
        let what = m.failed[m.order[k]].what;
        if stands_in(fresh, what.id) || replacing.contains_key(what.id) {
            lemma_retrying_keeps(m, replacing, fresh, k + 1, start, r);
        } else {
            vstd::seq_lib::lemma_seq_contains_after_push(start, what, r);
            lemma_retrying_keeps(
                m,
                replacing.insert(what.id, in_flight(what)),
                fresh,
                k + 1,
                start.push(what),
                r,
            );
        }
    }
}

proof fn lemma_retrying_at(
    m: ReplacementsModel,
    replacing: Map<Seq<char>, InFlightModel>,
    fresh: Seq<ReplacementModel>,
    k: int,
    start: Seq<ReplacementModel>,
    n: int,
)
    requires
        0 <= k <= n < m.order.len(),
        forall|j: int|
            k <= j < n ==> m.failed[#[trigger] m.order[j]].what.id != m.failed[m.order[n]].what.id,
        !stands_in(fresh, m.failed[m.order[n]].what.id),
        !replacing.contains_key(m.failed[m.order[n]].what.id),
    ensures
        retrying(m, replacing, fresh, k, start).1.contains(m.failed[m.order[n]].what),
        is_on_its_way(retrying(m, replacing, fresh, k, start).0, m.failed[m.order[n]].what),
    decreases m.order.len() - k,
{
    let what = m.failed[m.order[k]].what;
    let wanted = m.failed[m.order[n]].what;
    if k == n {
        let now = replacing.insert(what.id, in_flight(what));
        vstd::seq_lib::lemma_seq_contains_after_push(start, what, what);
        lemma_retrying_keeps(m, now, fresh, k + 1, start.push(what), what);
    } else {
        assert(m.failed[m.order[k]].what.id != wanted.id);
        if stands_in(fresh, what.id) || replacing.contains_key(what.id) {
            lemma_retrying_at(m, replacing, fresh, k + 1, start, n);
        } else {
            lemma_retrying_at(
                m,
                replacing.insert(what.id, in_flight(what)),
                fresh,
                k + 1,
                start.push(what),
                n,
            );
        }
    }
}

/// Every file a cycle asks to replace is on its way in the version asked for last;
/// and it starts at once where none of that file was under way.
pub proof fn law_everything_asked_for_is_on_its_way(m: ReplacementsModel, fresh: Seq<ReplacementModel>, k: int)
    requires
        0 <= k < fresh.len(),
        forall|j: int| k < j < fresh.len() ==> (#[trigger] fresh[j]).id != fresh[k].id,
    ensures
        is_on_its_way(spawned(m, fresh).0, fresh[k]),
        !m.replacing.contains_key(fresh[k].id) && (forall|j: int|
            0 <= j < k ==> (#[trigger] fresh[j]).id != fresh[k].id) ==> spawned(m, fresh).1.contains(
            fresh[k],
        ),
{
    lemma_spawning_at(m.replacing, fresh, 0, Seq::empty(), k);
    let (replacing, start) = spawning(m.replacing, fresh, 0, Seq::empty());
    lemma_retrying_keeps(m, replacing, fresh, 0, start, fresh[k]);
}

/// What failed is tried again after every cycle: the very version that failed,
/// unless a newer one of that file was asked for or one is under way; and what was
/// under way stays so.
pub proof fn law_what_failed_is_tried_again(
    m: ReplacementsModel,
    fresh: Seq<ReplacementModel>,
    n: int,
    r: ReplacementModel,
)
    requires
        0 <= n < m.order.len(),
        forall|j: int|
            0 <= j < n ==> m.failed[#[trigger] m.order[j]].what.id != m.failed[m.order[n]].what.id,
    ensures
        ({
            let what = m.failed[m.order[n]].what;
            (forall|j: int| 0 <= j < fresh.len() ==> (#[trigger] fresh[j]).id != what.id)
                && !m.replacing.contains_key(what.id) ==> spawned(m, fresh).1.contains(what)
                && is_on_its_way(spawned(m, fresh).0, what)
        }),
        m.replacing.contains_key(r.id) && (forall|j: int|
            0 <= j < fresh.len() ==> (#[trigger] fresh[j]).id != r.id) ==> spawned(m, fresh).0[r.id]
            == m.replacing[r.id] && spawned(m, fresh).0.contains_key(r.id),
{
    let what = m.failed[m.order[n]].what;
    let (replacing, start) = spawning(m.replacing, fresh, 0, Seq::empty());
    if (forall|j: int| 0 <= j < fresh.len() ==> (#[trigger] fresh[j]).id != what.id)
        && !m.replacing.contains_key(what.id) {
        lemma_spawning_keeps(m.replacing, fresh, 0, Seq::empty(), what.id);
        lemma_retrying_at(m, replacing, fresh, 0, start, n);
    }
    if m.replacing.contains_key(r.id) && (forall|j: int|
        0 <= j < fresh.len() ==> (#[trigger] fresh[j]).id != r.id) {
        lemma_spawning_keeps(m.replacing, fresh, 0, Seq::empty(), r.id);
        lemma_retrying_keeps(m, replacing, fresh, 0, start, r);
    }
}

/// One that ends ends for its own file alone: every other is under way as before,
/// and of its own only the newer version that was waiting, if it was not cut
/// short.
pub proof fn law_one_that_ends_ends_alone(m: ReplacementsModel, id: Seq<char>, stopped: bool, other: Seq<char>)
    requires
        m.replacing.contains_key(id),
        m.replacing[id].next matches Some(next) ==> next.id == id,
        other != id,
    ensures
        ending(m, id, stopped).replacing.contains_key(other) <==> m.replacing.contains_key(other),
        ending(m, id, stopped).replacing[other] == m.replacing[other],
        ending(m, id, stopped).failed == m.failed && ending(m, id, stopped).order == m.order,
        ending(m, id, true).replacing.contains_key(id) == false,
        follows(m, id, true) is None,
        follows(m, id, false) == m.replacing[id].next,
        match m.replacing[id].next {
            Some(next) => ending(m, id, false).replacing.contains_key(id) && ending(m, id, false).replacing[id].ctag
                == next.ctag && ending(m, id, false).replacing[id].next is None,
            None => !ending(m, id, false).replacing.contains_key(id),
        },
{
}

/// A failure is kept with why, whether the disk was full or not; one that went
/// through, or had nothing to do, is none any more; and no other file's failure
/// changes.
pub proof fn law_what_a_replacement_comes_to_is_kept(
    m: ReplacementsModel,
    r: ReplacementModel,
    why: String,
    other: Seq<char>,
)
    requires
        other != r.id,
    ensures
        recording(m, r, ReplaceOutcome::Failed(why)).failed[r.id] == (FailureModel { what: r, why: why@ }),
        recording(m, r, ReplaceOutcome::NoSpace(why)).failed[r.id] == (FailureModel { what: r, why: why@ }),
        recording(m, r, ReplaceOutcome::Failed(why)).failed.contains_key(r.id),
        recording(m, r, ReplaceOutcome::NoSpace(why)).failed.contains_key(r.id),
        recording(m, r, ReplaceOutcome::Failed(why)).order.contains(r.id),
        recording(m, r, ReplaceOutcome::NoSpace(why)).order.contains(r.id),
        !recording(m, r, ReplaceOutcome::Replaced).failed.contains_key(r.id),
        !recording(m, r, ReplaceOutcome::Current).failed.contains_key(r.id),
        recording(m, r, ReplaceOutcome::Failed(why)).failed[other] == m.failed[other],
        recording(m, r, ReplaceOutcome::Replaced).failed[other] == m.failed[other],
        recording(m, r, ReplaceOutcome::Failed(why)).failed.contains_key(other) <==> m.failed.contains_key(
            other,
        ),
        recording(m, r, ReplaceOutcome::Replaced).failed.contains_key(other) <==> m.failed.contains_key(
            other,
        ),
        recording(m, r, ReplaceOutcome::Replaced).replacing == m.replacing,
        recording(m, r, ReplaceOutcome::Failed(why)).replacing == m.replacing,
        is_news(m, r, ReplaceOutcome::Replaced),
        !is_news(m, r, ReplaceOutcome::Current),
{
    lemma_inserted_holds::<String>(m.order, r.id, r.id);
}

/// What the log says of it: what was replaced as updated, with its size; what
/// could not be as a failed update, with why; and of what needed nothing, nothing.
pub proof fn law_what_is_said_of_a_replacement(why: String, at: i64, shown: Seq<char>, size: u64)
    ensures
        replacement_event(ReplaceOutcome::Current, at, shown, size) is None,
        replacement_event(ReplaceOutcome::Replaced, at, shown, size) matches Some(e) && e.at == at
            && e.kind == "updated"@ && e.path == shown && e.detail == human_text(size as nat),
        replacement_event(ReplaceOutcome::Failed(why), at, shown, size) matches Some(e) && e.at == at
            && e.kind == "update-failed"@ && e.path == shown && e.detail == why@,
        replacement_event(ReplaceOutcome::NoSpace(why), at, shown, size) matches Some(e) && e.at == at
            && e.kind == "update-failed"@ && e.path == shown && e.detail == "not enough disk space"@,
        failure_of(ReplaceOutcome::Failed(why)) == Some(why@),
        failure_of(ReplaceOutcome::NoSpace(why)) == Some(why@),
        failure_of(ReplaceOutcome::Replaced) is None,
        failure_of(ReplaceOutcome::Current) is None,
{
}

/// The status says how many files could not be updated, and why the first could
/// not; and nothing while there is none.
pub proof fn law_what_the_status_says_of_failures(m: ReplacementsModel)
    ensures
        m.order.len() == 0 ==> note_of(m) == Seq::<char>::empty(),
        m.order.len() > 0 ==> note_of(m) == decimal(m.order.len())
            + " file(s) changed in OneDrive could not be updated here yet: "@ + m.failed[m.order[0]].why,
{
}

} // verus!
