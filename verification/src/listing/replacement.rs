//! Replacements of downloaded files by the version OneDrive has now.

use vstd::prelude::*;
use vstd::string::*;
use crate::activity::{
    event_at, event_of, human_size, human_text, Event, EventModel, Kind, NO_DISK_SPACE,
};
use crate::local::run::push_to;
use crate::path::{PathModel, RelPath};
use crate::sorted::{inserted, lemma_inserted_holds, without, SortedMap};
use crate::text::{decimal, push_decimal, same_text};

verus! {

/// A downloaded file to replace by a newer version.
#[derive(Debug)]
pub struct Replacement {
    /// The item.
    pub id: String,
    /// Where it is in the folder.
    pub rel: RelPath,
    /// The version fetched.
    pub ctag: String,
    pub size: u64,
}

#[verifier::ext_equal]
pub struct ReplacementModel {
    pub id: Seq<char>,
    pub rel: PathModel,
    pub ctag: Seq<char>,
    pub size: u64,
}

impl View for Replacement {
    type V = ReplacementModel;

    open spec fn view(&self) -> ReplacementModel {
        ReplacementModel { id: self.id@, rel: self.rel@, ctag: self.ctag@, size: self.size }
    }
}

impl DeepView for Replacement {
    type V = ReplacementModel;

    open spec fn deep_view(&self) -> ReplacementModel {
        self.view()
    }
}

impl Clone for Replacement {
    fn clone(&self) -> (r: Self)
        ensures
            r@ == self@,
    {
        Replacement {
            id: self.id.clone(),
            rel: self.rel.clone(),
            ctag: self.ctag.clone(),
            size: self.size,
        }
    }
}

/// A replacement under way: the version it fetches, and a newer version of the
/// same file that arrived meanwhile, fetched when it ends.
#[derive(Debug)]
pub struct InFlight {
    pub ctag: String,
    pub next: Option<Replacement>,
}

#[verifier::ext_equal]
pub struct InFlightModel {
    pub ctag: Seq<char>,
    pub next: Option<ReplacementModel>,
}

impl View for InFlight {
    type V = InFlightModel;

    open spec fn view(&self) -> InFlightModel {
        InFlightModel { ctag: self.ctag@, next: self.next.deep_view() }
    }
}

impl DeepView for InFlight {
    type V = InFlightModel;

    open spec fn deep_view(&self) -> InFlightModel {
        self.view()
    }
}

/// A replacement that failed, and why.
#[derive(Debug)]
pub struct Failure {
    pub what: Replacement,
    pub why: String,
}

#[verifier::ext_equal]
pub struct FailureModel {
    pub what: ReplacementModel,
    pub why: Seq<char>,
}

impl View for Failure {
    type V = FailureModel;

    open spec fn view(&self) -> FailureModel {
        FailureModel { what: self.what@, why: self.why@ }
    }
}

impl DeepView for Failure {
    type V = FailureModel;

    open spec fn deep_view(&self) -> FailureModel {
        self.view()
    }
}

/// What a replacement came to.
#[derive(Debug)]
pub enum ReplaceOutcome {
    Replaced,
    /// There was nothing to do.
    Current,
    Failed(String),
    /// The disk cannot hold both versions.
    NoSpace(String),
}

/// Why it failed, if it did.
pub open spec fn failure_of(outcome: ReplaceOutcome) -> Option<Seq<char>> {
    match outcome {
        ReplaceOutcome::Failed(why) => Some(why@),
        ReplaceOutcome::NoSpace(why) => Some(why@),
        _ => None,
    }
}

/// The replacements under way, and those that failed, each by its item.
pub struct Replacements {
    replacing: SortedMap<String, InFlight>,
    failed: SortedMap<String, Failure>,
}

#[verifier::ext_equal]
pub struct ReplacementsModel {
    pub replacing: Map<Seq<char>, InFlightModel>,
    pub failed: Map<Seq<char>, FailureModel>,
    /// The items whose replacement failed, in their order.
    pub order: Seq<Seq<char>>,
}

impl View for Replacements {
    type V = ReplacementsModel;

    closed spec fn view(&self) -> ReplacementsModel {
        ReplacementsModel {
            replacing: self.replacing@,
            failed: self.failed@,
            order: self.failed.keys(),
        }
    }
}

/// `r` starts, with nothing newer after it.
pub open spec fn in_flight(r: ReplacementModel) -> InFlightModel {
    InFlightModel { ctag: r.ctag, next: None }
}

/// The replacements under way once `r` is asked for: it starts unless one of
/// that file is under way — of this very version, and then nothing newer
/// follows, or of another, and then it follows.
pub open spec fn asked_for(replacing: Map<Seq<char>, InFlightModel>, r: ReplacementModel) -> Map<
    Seq<char>,
    InFlightModel,
> {
    if !replacing.contains_key(r.id) {
        replacing.insert(r.id, in_flight(r))
    } else if replacing[r.id].ctag == r.ctag {
        replacing.insert(r.id, InFlightModel { next: None, ..replacing[r.id] })
    } else {
        replacing.insert(r.id, InFlightModel { next: Some(r), ..replacing[r.id] })
    }
}

/// The replacements under way, and those to start after `start`, once the
/// `fresh` ones from `i` on are asked for.
pub open spec fn spawning(
    replacing: Map<Seq<char>, InFlightModel>,
    fresh: Seq<ReplacementModel>,
    i: int,
    start: Seq<ReplacementModel>,
) -> (Map<Seq<char>, InFlightModel>, Seq<ReplacementModel>)
    decreases fresh.len() - i,
{
    if i >= fresh.len() {
        (replacing, start)
    } else {
        spawning(
            asked_for(replacing, fresh[i]),
            fresh,
            i + 1,
            if replacing.contains_key(fresh[i].id) {
                start
            } else {
                start.push(fresh[i])
            },
        )
    }
}

/// A fresh replacement of the file stands for the failed one.
pub open spec fn stands_in(fresh: Seq<ReplacementModel>, id: Seq<char>) -> bool {
    exists|k: int| 0 <= k < fresh.len() && (#[trigger] fresh[k]).id == id
}

/// The same once those that failed, from the `k`th on, are retried: only where
/// no fresher replacement of the file stands for it, and none is under way.
pub open spec fn retrying(
    m: ReplacementsModel,
    replacing: Map<Seq<char>, InFlightModel>,
    fresh: Seq<ReplacementModel>,
    k: int,
    start: Seq<ReplacementModel>,
) -> (Map<Seq<char>, InFlightModel>, Seq<ReplacementModel>)
    decreases m.order.len() - k,
{
    if k >= m.order.len() {
        (replacing, start)
    } else {
        let r = m.failed[m.order[k]].what;
        if stands_in(fresh, r.id) || replacing.contains_key(r.id) {
            retrying(m, replacing, fresh, k + 1, start)
        } else {
            retrying(m, replacing.insert(r.id, in_flight(r)), fresh, k + 1, start.push(r))
        }
    }
}

/// What is under way once a cycle has asked for the `fresh` replacements, and
/// what is to start.
pub open spec fn spawned(m: ReplacementsModel, fresh: Seq<ReplacementModel>) -> (
    Map<Seq<char>, InFlightModel>,
    Seq<ReplacementModel>,
) {
    let (replacing, start) = spawning(m.replacing, fresh, 0, Seq::empty());
    retrying(m, replacing, fresh, 0, start)
}

/// The newer version to fetch now that the replacement of `id` has ended;
/// none when it was cut short.
pub open spec fn follows(m: ReplacementsModel, id: Seq<char>, stopped: bool) -> Option<ReplacementModel> {
    if m.replacing.contains_key(id) && !stopped {
        m.replacing[id].next
    } else {
        None
    }
}

/// What is under way once the replacement of `id` has ended.
pub open spec fn ending(m: ReplacementsModel, id: Seq<char>, stopped: bool) -> ReplacementsModel {
    let rest = m.replacing.remove(id);
    ReplacementsModel {
        replacing: match follows(m, id, stopped) {
            Some(next) => rest.insert(next.id, in_flight(next)),
            None => rest,
        },
        ..m
    }
}

/// Whether what a replacement came to is news: one that went through is; a
/// failure only when it is new for this file — a first failure, one of another
/// version, or for another reason than the last.
pub open spec fn is_news(m: ReplacementsModel, r: ReplacementModel, outcome: ReplaceOutcome) -> bool {
    match outcome {
        ReplaceOutcome::Replaced => true,
        ReplaceOutcome::Current => false,
        _ => !(m.failed.contains_key(r.id) && m.failed[r.id].what.ctag == r.ctag && Some(
            m.failed[r.id].why,
        ) == failure_of(outcome)),
    }
}

/// The replacements once one of them, `r`, came to `outcome`: a failure is
/// kept, anything else is none any more.
pub open spec fn recording(m: ReplacementsModel, r: ReplacementModel, outcome: ReplaceOutcome) -> ReplacementsModel {
    match failure_of(outcome) {
        Some(why) => ReplacementsModel {
            failed: m.failed.insert(r.id, FailureModel { what: r, why }),
            order: inserted::<String>(m.order, r.id),
            ..m
        },
        None => ReplacementsModel {
            failed: m.failed.remove(r.id),
            order: without(m.order, r.id),
            ..m
        },
    }
}

/// What the status says of the replacements that failed.
pub open spec fn note_of(m: ReplacementsModel) -> Seq<char> {
    if m.order.len() == 0 {
        Seq::empty()
    } else {
        decimal(m.order.len()) + " file(s) changed in OneDrive could not be updated here yet: "@
            + m.failed[m.order[0]].why
    }
}

/// What comes of a replacement that ended.
pub struct Recorded {
    /// It is news for the activity log.
    pub news: bool,
    /// The next cycle is to be a full one: only that works out from the disk
    /// and the tree what the file needs now.
    pub full: bool,
    /// What the status says.
    pub note: String,
}

impl Replacements {
    pub closed spec fn wf(&self) -> bool {
        self.replacing.wf() && self.failed.wf()
    }

    pub fn new() -> (r: Self)
        ensures
            r.wf(),
            r@ == (ReplacementsModel {
                replacing: Map::empty(),
                failed: Map::empty(),
                order: Seq::empty(),
            }),
    {
        Replacements { replacing: SortedMap::new(), failed: SortedMap::new() }
    }

    /// `r` is asked for; whether it is to start.
    fn ask(&mut self, r: &Replacement) -> (start: bool)
        requires
            old(self).wf(),
        ensures
            final(self).wf(),
            final(self)@ == (ReplacementsModel {
                replacing: asked_for(old(self)@.replacing, r@),
                ..old(self)@
            }),
            start == !old(self)@.replacing.contains_key(r@.id),
    {
        let (ctag, next, start) = match self.replacing.get(&r.id) {
            None => (r.ctag.clone(), None, true),
            Some(running) => if same_text(running.ctag.as_str(), r.ctag.as_str()) {
                (running.ctag.clone(), None, false)
            } else {
                (running.ctag.clone(), Some(r.clone()), false)
            },
        };
        let running = InFlight { ctag, next };
        self.replacing.set(r.id.clone(), running);
        assert(self@ =~= (ReplacementsModel {
            replacing: asked_for(old(self)@.replacing, r@),
            ..old(self)@
        }));
        start
    }

    fn stood_for(fresh: &Vec<Replacement>, id: &str) -> (r: bool)
        ensures
            r == stands_in(fresh.deep_view(), id@),
    {
        let mut i: usize = 0;
        while i < fresh.len()
            invariant
                i <= fresh@.len(),
                forall|k: int| 0 <= k < i ==> (#[trigger] fresh.deep_view()[k]).id != id@,
            decreases fresh@.len() - i,
        {
            assert(fresh.deep_view()[i as int] == fresh@[i as int]@);
            if same_text(fresh[i].id.as_str(), id) {
                return true;
            }
            i += 1;
        }
        false
    }

    /// Asks for a replacement of each of `fresh`, and retries those that
    /// failed; what is returned is to start.
    pub fn spawn(&mut self, fresh: Vec<Replacement>) -> (start: Vec<Replacement>)
        requires
            old(self).wf(),
        ensures
            final(self).wf(),
            ({
                let (replacing, begun) = spawned(old(self)@, fresh.deep_view());
                &&& final(self)@ == (ReplacementsModel { replacing, ..old(self)@ })
                &&& start.deep_view() == begun
            }),
    {
        let ghost first = self@;
        let ghost want = spawned(first, fresh.deep_view());
        let mut start: Vec<Replacement> = Vec::new();
        assert(start.deep_view() =~= Seq::<ReplacementModel>::empty());
        let mut i: usize = 0;
        while i < fresh.len()
            invariant
                self.wf(),
                first == old(self)@,
                i <= fresh@.len(),
                self@ == (ReplacementsModel { replacing: self@.replacing, ..first }),
                spawning(first.replacing, fresh.deep_view(), 0, Seq::empty()) == spawning(
                    self@.replacing,
                    fresh.deep_view(),
                    i as int,
                    start.deep_view(),
                ),
            decreases fresh@.len() - i,
        {
            assert(fresh.deep_view()[i as int] == fresh@[i as int]@);
            if self.ask(&fresh[i]) {
                push_to(&mut start, fresh[i].clone());
            }
            i += 1;
        }
        let mut k: usize = 0;
        while k < self.failed.len()
            invariant
                self.wf(),
                first == old(self)@,
                want == spawned(first, fresh.deep_view()),
                k <= first.order.len(),
                self@ == (ReplacementsModel { replacing: self@.replacing, ..first }),
                want == retrying(
                    first,
                    self@.replacing,
                    fresh.deep_view(),
                    k as int,
                    start.deep_view(),
                ),
            decreases first.order.len() - k,
        {
            let r = self.failed.val(k).what.clone();
            assert(r@ == first.failed[first.order[k as int]].what);
            if !Self::stood_for(&fresh, r.id.as_str()) && !self.replacing.contains_key(&r.id) {
                self.replacing.set(r.id.clone(), InFlight { ctag: r.ctag.clone(), next: None });
                assert(self@ =~= (ReplacementsModel { replacing: self@.replacing, ..first }));
                push_to(&mut start, r);
            }
            k += 1;
        }
        start
    }

    /// The replacement of `id` has ended, or was cut short (`stopped`); what is
    /// returned is to start in its place.
    pub fn ended(&mut self, id: &String, stopped: bool) -> (next: Option<Replacement>)
        requires
            old(self).wf(),
        ensures
            final(self).wf(),
            final(self)@ == ending(old(self)@, id@, stopped),
            next.deep_view() == follows(old(self)@, id@, stopped),
    {
        let next = match self.replacing.get(id) {
            Some(running) => if stopped {
                None
            } else {
                match &running.next {
                    Some(next) => Some(next.clone()),
                    None => None,
                }
            },
            None => None,
        };
        self.replacing.unset(id);
        if let Some(next) = &next {
            self.replacing.set(next.id.clone(), InFlight { ctag: next.ctag.clone(), next: None });
        }
        assert(self@ =~= ending(old(self)@, id@, stopped));
        next
    }

    fn news(&self, r: &Replacement, outcome: &ReplaceOutcome) -> (b: bool)
        requires
            self.wf(),
        ensures
            b == is_news(self@, r@, *outcome),
    {
        match outcome {
            ReplaceOutcome::Replaced => true,
            ReplaceOutcome::Current => false,
            ReplaceOutcome::Failed(why) | ReplaceOutcome::NoSpace(why) => match self.failed.get(
                &r.id,
            ) {
                None => true,
                Some(before) => !(same_text(before.what.ctag.as_str(), r.ctag.as_str()) && same_text(
                    before.why.as_str(),
                    why.as_str(),
                )),
            },
        }
    }

    /// What a replacement came to: one that went through, or found nothing to
    /// do, is no failure any more; one that failed is kept, said, and retried
    /// after every cycle.
    pub fn record_replacement(&mut self, r: &Replacement, outcome: ReplaceOutcome) -> (said: Recorded)
        requires
            old(self).wf(),
        ensures
            final(self).wf(),
            final(self)@ == recording(old(self)@, r@, outcome),
            said.news == is_news(old(self)@, r@, outcome),
            said.full == (outcome is Current),
            said.note@ == note_of(final(self)@),
    {
        let news = self.news(r, &outcome);
        let full = match outcome {
            ReplaceOutcome::Current => true,
            _ => false,
        };
        match outcome {
            ReplaceOutcome::Replaced | ReplaceOutcome::Current => {
                self.failed.unset(&r.id);
            },
            ReplaceOutcome::Failed(why) | ReplaceOutcome::NoSpace(why) => {
                self.failed.set(r.id.clone(), Failure { what: r.clone(), why });
            },
        }
        let n: usize = self.failed.len();
        let mut note = String::new();
        if n > 0 {
            push_decimal(&mut note, n as u128);
            note.append(" file(s) changed in OneDrive could not be updated here yet: ");
            note.append(self.failed.val(0).why.as_str());
            assert(note@ =~= note_of(self@));
        } else {
            assert(note@ =~= note_of(self@));
        }
        Recorded { news, full, note }
    }
}

/// What the activity log would say of a replacement that ended so, `size` being
/// that of what was downloaded.
pub open spec fn replacement_event(outcome: ReplaceOutcome, at: i64, shown: Seq<char>, size: u64) -> Option<
    EventModel,
> {
    match outcome {
        ReplaceOutcome::Replaced => Some(event_of(at, Kind::Updated, shown, human_text(size as nat))),
        ReplaceOutcome::Failed(why) => Some(event_of(at, Kind::UpdateFailed, shown, why@)),
        ReplaceOutcome::NoSpace(_) => Some(event_of(at, Kind::UpdateFailed, shown, NO_DISK_SPACE@)),
        ReplaceOutcome::Current => None,
    }
}

impl ReplaceOutcome {
    /// What the activity log would say of it, at `at`.
    pub fn event(&self, at: i64, shown: String, size: u64) -> (r: Option<Event>)
        ensures
            r.deep_view() == replacement_event(*self, at, shown@, size),
    {
        match self {
            ReplaceOutcome::Replaced => Some(event_at(at, Kind::Updated, shown, human_size(size))),
            ReplaceOutcome::Failed(why) => Some(
                event_at(at, Kind::UpdateFailed, shown, why.clone()),
            ),
            ReplaceOutcome::NoSpace(_) => Some(
                event_at(at, Kind::UpdateFailed, shown, NO_DISK_SPACE.to_owned()),
            ),
            ReplaceOutcome::Current => None,
        }
    }
}

/// Two replacements of one file never run at once: what starts was not under
/// way, no two that start are of one file, and all of it is under way then.
pub proof fn law_one_replacement_of_a_file_at_a_time(m: ReplacementsModel, fresh: Seq<ReplacementModel>)
    ensures
        ({
            let (replacing, start) = spawned(m, fresh);
            &&& forall|k: int|
                0 <= k < start.len() ==> !m.replacing.contains_key((#[trigger] start[k]).id)
            &&& forall|k: int|
                0 <= k < start.len() ==> replacing.contains_key((#[trigger] start[k]).id)
            &&& forall|i: int, j: int|
                0 <= i < j < start.len() ==> (#[trigger] start[i]).id != (#[trigger] start[j]).id
        }),
{
    lemma_spawning(m.replacing, m.replacing, fresh, 0, Seq::empty());
    let (replacing, start) = spawning(m.replacing, fresh, 0, Seq::empty());
    lemma_retrying(m, replacing, fresh, 0, start);
}

/// What starts so far was not under way in `first`, is now, and is of
/// different files; and nothing under way has gone.
spec fn begun_well(
    first: Map<Seq<char>, InFlightModel>,
    replacing: Map<Seq<char>, InFlightModel>,
    start: Seq<ReplacementModel>,
) -> bool {
    &&& forall|id: Seq<char>| #[trigger] first.contains_key(id) ==> replacing.contains_key(id)
    &&& forall|k: int| 0 <= k < start.len() ==> !first.contains_key((#[trigger] start[k]).id)
    &&& forall|k: int| 0 <= k < start.len() ==> replacing.contains_key((#[trigger] start[k]).id)
    &&& forall|i: int, j: int|
        0 <= i < j < start.len() ==> (#[trigger] start[i]).id != (#[trigger] start[j]).id
}

proof fn lemma_spawning(
    first: Map<Seq<char>, InFlightModel>,
    replacing: Map<Seq<char>, InFlightModel>,
    fresh: Seq<ReplacementModel>,
    i: int,
    start: Seq<ReplacementModel>,
)
    requires
        begun_well(first, replacing, start),
    ensures
        ({
            let (r, s) = spawning(replacing, fresh, i, start);
            begun_well(first, r, s)
        }),
    decreases fresh.len() - i,
{
    if i < fresh.len() {
        let next = asked_for(replacing, fresh[i]);
        if replacing.contains_key(fresh[i].id) {
            lemma_spawning(first, next, fresh, i + 1, start);
        } else {
            let more = start.push(fresh[i]);
            assert(begun_well(first, next, more));
            lemma_spawning(first, next, fresh, i + 1, more);
        }
    }
}

proof fn lemma_retrying(
    m: ReplacementsModel,
    replacing: Map<Seq<char>, InFlightModel>,
    fresh: Seq<ReplacementModel>,
    k: int,
    start: Seq<ReplacementModel>,
)
    requires
        begun_well(m.replacing, replacing, start),
    ensures
        ({
            let (r, s) = retrying(m, replacing, fresh, k, start);
            begun_well(m.replacing, r, s)
        }),
    decreases m.order.len() - k,
{
    if k < m.order.len() {
        let r = m.failed[m.order[k]].what;
        if stands_in(fresh, r.id) || replacing.contains_key(r.id) {
            lemma_retrying(m, replacing, fresh, k + 1, start);
        } else {
            let next = replacing.insert(r.id, in_flight(r));
            assert(begun_well(m.replacing, next, start.push(r)));
            lemma_retrying(m, next, fresh, k + 1, start.push(r));
        }
    }
}

/// The version asked for last is always on its way: under way itself, with
/// nothing newer after it, or next in line behind the one under way — and then
/// it starts as soon as that one ends, unless it is cut short.
pub proof fn law_the_newest_version_is_on_its_way(m: ReplacementsModel, r: ReplacementModel)
    ensures
        ({
            let now = ReplacementsModel { replacing: asked_for(m.replacing, r), ..m };
            let running = now.replacing[r.id];
            &&& now.replacing.contains_key(r.id)
            &&& (running.ctag == r.ctag && running.next is None) || running.next == Some(r)
            &&& running.next == Some(r) ==> follows(now, r.id, false) == Some(r) && ending(
                now,
                r.id,
                false,
            ).replacing[r.id] == in_flight(r)
            &&& follows(now, r.id, true) is None
        }),
{
}

/// The same failure of the same version is said once: a retry that fails in the
/// same way is no news, and one for another reason, or of another version, is.
pub proof fn law_a_repeated_failure_is_said_once(
    m: ReplacementsModel,
    r: ReplacementModel,
    why: String,
    again: ReplacementModel,
    then: String,
)
    requires
        again.id == r.id,
    ensures
        ({
            let kept = ReplacementsModel {
                failed: m.failed.insert(r.id, FailureModel { what: r, why: why@ }),
                ..m
            };
            is_news(kept, again, ReplaceOutcome::Failed(then)) <==> again.ctag != r.ctag || then@
                != why@
        }),
{
}

/// No replacement under way, and none that failed.
pub open spec fn no_replacements() -> ReplacementsModel {
    ReplacementsModel { replacing: Map::empty(), failed: Map::empty(), order: Seq::empty() }
}

/// The replacements once all that `calls` says came of them was recorded.
pub open spec fn all_recorded(calls: Seq<(ReplacementModel, ReplaceOutcome)>) -> ReplacementsModel
    decreases calls.len(),
{
    if calls.len() == 0 {
        no_replacements()
    } else {
        recording(all_recorded(calls.drop_last()), calls.last().0, calls.last().1)
    }
}

/// The failure of item `id` that `calls` said last, unless it went through, or
/// there was nothing to do, since.
pub open spec fn last_failure(calls: Seq<(ReplacementModel, ReplaceOutcome)>, id: Seq<char>) -> Option<
    FailureModel,
>
    decreases calls.len(),
{
    if calls.len() == 0 {
        None
    } else if calls.last().0.id == id {
        match failure_of(calls.last().1) {
            Some(why) => Some(FailureModel { what: calls.last().0, why }),
            None => None,
        }
    } else {
        last_failure(calls.drop_last(), id)
    }
}

proof fn lemma_without(s: Seq<Seq<char>>, x: Seq<char>, y: Seq<char>)
    ensures
        without(s, x).contains(y) <==> (s.contains(y) && y != x),
    decreases s.len(),
{
    reveal(Seq::filter);
    if s.len() > 0 {
        let rest = s.drop_last();
        let kept = without(rest, x);
        lemma_without(rest, x, y);
        if s.contains(y) {
            let i = choose|i: int| 0 <= i < s.len() && s[i] == y;
            if i < rest.len() {
                assert(rest[i] == y);
            }
        }
        if rest.contains(y) {
            let i = choose|i: int| 0 <= i < rest.len() && rest[i] == y;
            assert(s[i] == y);
        }
        if s.last() != x {
            let all = without(s, x);
            assert(all =~= kept.push(s.last()));
            if kept.contains(y) {
                let i = choose|i: int| 0 <= i < kept.len() && kept[i] == y;
                assert(all[i] == y);
            }
            assert(all[kept.len() as int] == s.last());
            if all.contains(y) {
                let i = choose|i: int| 0 <= i < all.len() && all[i] == y;
                if i < kept.len() {
                    assert(kept[i] == y);
                }
            }
        } else {
            assert(without(s, x) =~= kept);
        }
        assert(s[s.len() - 1] == s.last());
    }
}

proof fn lemma_recorded(calls: Seq<(ReplacementModel, ReplaceOutcome)>, id: Seq<char>)
    ensures
        all_recorded(calls).failed.get(id) == last_failure(calls, id),
        all_recorded(calls).failed.contains_key(id) <==> all_recorded(calls).order.contains(id),
    decreases calls.len(),
{
    if calls.len() > 0 {
        let before = all_recorded(calls.drop_last());
        let r = calls.last().0;
        lemma_recorded(calls.drop_last(), id);
        lemma_inserted_holds::<String>(before.order, r.id, id);
        lemma_without(before.order, r.id, id);
    }
}

/// Whatever came of the replacements one after the other: one that went through
/// is news, and a failure is unless the last one of that item since it went
/// through was of the same version and for the same reason; and the status says
/// something exactly while some item's last replacement failed.
pub proof fn law_what_is_said_follows_the_last_failures(
    calls: Seq<(ReplacementModel, ReplaceOutcome)>,
    r: ReplacementModel,
    outcome: ReplaceOutcome,
)
    ensures
        is_news(all_recorded(calls), r, outcome) <==> (outcome is Replaced || (failure_of(
            outcome,
        ) is Some && !(last_failure(calls, r.id) matches Some(last) && last.what.ctag == r.ctag && Some(
            last.why,
        ) == failure_of(outcome)))),
        recording(all_recorded(calls), r, outcome) == all_recorded(calls.push((r, outcome))),
        note_of(all_recorded(calls)).len() == 0 <==> forall|id: Seq<char>| #[trigger]
            last_failure(calls, id) is None,
{
    let m = all_recorded(calls);
    lemma_recorded(calls, r.id);
    assert(calls.push((r, outcome)).drop_last() =~= calls);
    if m.order.len() == 0 {
        assert forall|id: Seq<char>| #[trigger] last_failure(calls, id) is None by {
            lemma_recorded(calls, id);
        }
    } else {
        reveal_strlit(" file(s) changed in OneDrive could not be updated here yet: ");
        assert(m.order.contains(m.order[0]));
        lemma_recorded(calls, m.order[0]);
        assert(last_failure(calls, m.order[0]) is Some);
    }
}

} // verus!
