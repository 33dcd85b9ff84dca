//! What a reconcile that went through records: its conflicts, and what the
//! activity log says of it.

use vstd::prelude::*;
use vstd::string::*;
use crate::activity::log::{ConflictModel, ConflictRow};
use crate::activity::{
    capped_at, capped_of, event_at, event_of, items, items_text, Event, EventModel, Kind, PER_KIND,
};
use crate::listing::reconcile::{
    append_to, Applied, AppliedModel, Changed, ChangedModel, Rescued, RescuedModel, Said,
};
use crate::local::run::push_to;
use crate::path::{joined, AbsPath, PathModel, RelPath};
use crate::text::text_of;

verus! {

/// The full path of `rel` in the folder at `root`, as it is shown.
pub open spec fn shown_of(root: Seq<u8>, rel: PathModel) -> Seq<char> {
    text_of(joined(root, rel))
}

/// The full path of `rel` in the folder at `root`, as it is shown.
pub fn shown(root: &AbsPath, rel: &RelPath) -> (r: String)
    ensures
        r@ == shown_of(root@, rel@),
{
    root.join(rel).display()
}

/// The event of one change; of a move, saying where it was.
pub open spec fn change_event(root: Seq<u8>, c: ChangedModel, at: i64) -> EventModel {
    event_of(
        at,
        c.kind,
        shown_of(root, c.rel),
        match c.from {
            Some(from) => "from "@ + shown_of(root, from),
            None => Seq::empty(),
        },
    )
}

/// The events of the changes, each on its own.
pub open spec fn change_events(root: Seq<u8>, changes: Seq<ChangedModel>, at: i64) -> Seq<EventModel> {
    Seq::new(changes.len(), |k: int| change_event(root, changes[k], at))
}

/// The conflicts of what was rescued.
pub open spec fn conflict_rows(root: Seq<u8>, rescued: Seq<RescuedModel>, at: i64) -> Seq<ConflictModel> {
    Seq::new(
        rescued.len(),
        |k: int|
            ConflictModel {
                at,
                original: shown_of(root, rescued[k].original),
                rescued: text_of(rescued[k].rescued),
            },
    )
}

/// The events of the conflicts, each on its own.
pub open spec fn conflict_events(rows: Seq<ConflictModel>) -> Seq<EventModel> {
    Seq::new(
        rows.len(),
        |k: int| event_of(rows[k].at, Kind::Conflict, rows[k].original, rows[k].rescued),
    )
}

/// What is said of the reconcile itself.
pub open spec fn said_events(root: Seq<u8>, applied: AppliedModel, said: Said, listed: u64, at: i64) -> Seq<
    EventModel,
> {
    match said {
        Said::Listed => seq![
            event_of(at, Kind::Listed, text_of(root), items_text(listed as nat)),
        ],
        Said::EachChange => capped_of(
            change_events(root, applied.changes, at),
            PER_KIND as nat,
            text_of(root),
            at,
        ),
        Said::Nothing => Seq::empty(),
    }
}

/// All the events: what is said of the reconcile, then its conflicts, each kind
/// capped.
pub open spec fn recorded_events(root: Seq<u8>, applied: AppliedModel, said: Said, listed: u64, at: i64) -> Seq<
    EventModel,
> {
    said_events(root, applied, said, listed, at) + capped_of(
        conflict_events(conflict_rows(root, applied.rescued, at)),
        PER_KIND as nat,
        text_of(root),
        at,
    )
}

fn each_change(root: &AbsPath, changes: &Vec<Changed>, at: i64) -> (r: Vec<Event>)
    ensures
        r.deep_view() == change_events(root@, changes.deep_view(), at),
{
    let ghost want = change_events(root@, changes.deep_view(), at);
    let mut out: Vec<Event> = Vec::new();
    let mut i: usize = 0;
    assert(out.deep_view() =~= want.subrange(0, 0));
    while i < changes.len()
        invariant
            i <= changes@.len(),
            want == change_events(root@, changes.deep_view(), at),
            out.deep_view() == want.subrange(0, i as int),
        decreases changes@.len() - i,
    {
        assert(changes.deep_view()[i as int] == changes@[i as int]@);
        let detail = match &changes[i].from {
            Some(from) => {
                let mut text = "from ".to_owned();
                text.append(shown(root, from).as_str());
                text
            },
            None => String::new(),
        };
        assert(detail@ =~= change_event(root@, changes@[i as int]@, at).detail);
        push_to(&mut out, event_at(at, changes[i].kind, shown(root, &changes[i].rel), detail));
        i += 1;
        assert(out.deep_view() =~= want.subrange(0, i as int));
    }
    assert(want.subrange(0, i as int) =~= want);
    out
}

fn each_conflict(root: &AbsPath, rescued: &Vec<Rescued>, at: i64) -> (r: (Vec<ConflictRow>, Vec<Event>))
    ensures
        r.0.deep_view() == conflict_rows(root@, rescued.deep_view(), at),
        r.1.deep_view() == conflict_events(conflict_rows(root@, rescued.deep_view(), at)),
{
    let ghost rows_want = conflict_rows(root@, rescued.deep_view(), at);
    let ghost events_want = conflict_events(rows_want);
    let mut rows: Vec<ConflictRow> = Vec::new();
    let mut events: Vec<Event> = Vec::new();
    let mut i: usize = 0;
    assert(rows.deep_view() =~= rows_want.subrange(0, 0));
    assert(events.deep_view() =~= events_want.subrange(0, 0));
    while i < rescued.len()
        invariant
            i <= rescued@.len(),
            rows_want == conflict_rows(root@, rescued.deep_view(), at),
            events_want == conflict_events(rows_want),
            rows.deep_view() == rows_want.subrange(0, i as int),
            events.deep_view() == events_want.subrange(0, i as int),
        decreases rescued@.len() - i,
    {
        assert(rescued.deep_view()[i as int] == rescued@[i as int]@);
        let original = shown(root, &rescued[i].original);
        let now = rescued[i].rescued.display();
        push_to(&mut events, event_at(at, Kind::Conflict, original.clone(), now.clone()));
        push_to(&mut rows, ConflictRow { at, original, rescued: now });
        i += 1;
        assert(rows.deep_view() =~= rows_want.subrange(0, i as int));
        assert(events.deep_view() =~= events_want.subrange(0, i as int));
    }
    assert(rows_want.subrange(0, i as int) =~= rows_want);
    assert(events_want.subrange(0, i as int) =~= events_want);
    (rows, events)
}

/// What a reconcile of the folder at `root` records at `at`, `listed` items
/// being listed now: each rescue as a conflict, and the activity `said` — one
/// event for the whole folder, what it did item by item, at most
/// [`PER_KIND`] of each kind plus one saying how many more, or nothing but the
/// conflicts, which are capped the same way.
pub fn record(root: &AbsPath, applied: &Applied, said: Said, listed: u64, at: i64) -> (r: (
    Vec<ConflictRow>,
    Vec<Event>,
))
    ensures
        r.0.deep_view() == conflict_rows(root@, applied@.rescued, at),
        r.1.deep_view() == recorded_events(root@, applied@, said, listed, at),
{
    let folder = root.display();
    let mut events = match said {
        Said::Listed => {
            let mut one: Vec<Event> = Vec::new();
            assert(one.deep_view() =~= Seq::<EventModel>::empty());
            push_to(&mut one, event_at(at, Kind::Listed, root.display(), items(listed)));
            assert(one.deep_view() =~= said_events(root@, applied@, said, listed, at));
            one
        },
        Said::EachChange => capped_at(
            each_change(root, &applied.changes, at),
            PER_KIND,
            folder.as_str(),
            at,
        ),
        Said::Nothing => {
            let none: Vec<Event> = Vec::new();
            assert(none.deep_view() =~= said_events(root@, applied@, said, listed, at));
            none
        },
    };
    let (rows, each) = each_conflict(root, &applied.rescued, at);
    append_to(&mut events, capped_at(each, PER_KIND, folder.as_str(), at));
    (rows, events)
}

/// The events of rows dropped because their items are gone from OneDrive.
pub open spec fn dropped_events(root: Seq<u8>, rels: Seq<PathModel>, at: i64) -> Seq<EventModel> {
    Seq::new(
        rels.len(),
        |k: int|
            event_of(at, Kind::Removed, shown_of(root, rels[k]), "already removed in OneDrive"@),
    )
}

/// The events of rows dropped because their items, at `rels`, are already gone
/// from OneDrive.
pub fn record_dropped(root: &AbsPath, rels: &Vec<RelPath>, at: i64) -> (r: Vec<Event>)
    ensures
        r.deep_view() == dropped_events(root@, rels.deep_view(), at),
{
    let ghost want = dropped_events(root@, rels.deep_view(), at);
    let mut out: Vec<Event> = Vec::new();
    let mut i: usize = 0;
    assert(out.deep_view() =~= want.subrange(0, 0));
    while i < rels.len()
        invariant
            i <= rels@.len(),
            want == dropped_events(root@, rels.deep_view(), at),
            out.deep_view() == want.subrange(0, i as int),
        decreases rels@.len() - i,
    {
        assert(rels.deep_view()[i as int] == rels@[i as int]@);
        push_to(
            &mut out,
            event_at(
                at,
                Kind::Removed,
                shown(root, &rels[i]),
                "already removed in OneDrive".to_owned(),
            ),
        );
        i += 1;
        assert(out.deep_view() =~= want.subrange(0, i as int));
    }
    assert(want.subrange(0, i as int) =~= want);
    out
}

/// Every rescued file is a conflict, however many there are and whatever the
/// activity log says.
pub proof fn law_every_rescue_is_a_conflict(root: Seq<u8>, applied: AppliedModel, at: i64, k: int)
    requires
        0 <= k < applied.rescued.len(),
    ensures
        conflict_rows(root, applied.rescued, at).len() == applied.rescued.len(),
        conflict_rows(root, applied.rescued, at)[k].rescued == text_of(applied.rescued[k].rescued),
{
}

} // verus!
