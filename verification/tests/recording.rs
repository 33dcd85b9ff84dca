use konedrive_sync::activity::transfers::Transfer;
use konedrive_sync::activity::Kind;
use konedrive_sync::dbus::{
    to_fault, Coalesced, Fault, Property, PropertyValue, Published, Snapshot, Sync1, SyncError, SyncErrorKind, COALESCE,
};
use konedrive_sync::listing::feed::{Change, Fetched};
use konedrive_sync::listing::reconcile::{Applied, Changed, Commit, Look, Reconciled, Rescued, Said, Scope};
use konedrive_sync::listing::record::{record, record_dropped, shown};
use konedrive_sync::listing::replacement::{Replacement, ReplaceOutcome, Replacements};
use konedrive_sync::listing::rw::{examine_batch, rw_commit, settle, stale, Committed, RwCommit, Unshown};
use konedrive_sync::listing::rw_cycle::{RwAction, RwCycle, RwEvent, RwNext};
use konedrive_sync::listing::{CycleError, DriveError, DriveKind};
use konedrive_sync::path::{AbsPath, RelPath};
use konedrive_sync::sorted::SortedMap;
use konedrive_sync::tree::{Kind as ItemKind, Placement, Row};

fn root() -> AbsPath {
    AbsPath { raw: b"/home/u/OneDrive".to_vec() }
}

fn changed(kind: Kind, rel: &str, from: Option<&str>) -> Changed {
    Changed { kind, rel: RelPath::of(rel), from: from.map(RelPath::of) }
}

fn rescued(name: &str) -> Rescued {
    Rescued { original: RelPath::of(name), rescued: AbsPath { raw: format!("/rescue/{name}").into_bytes() } }
}

#[test]
fn a_full_reconcile_is_one_event_for_the_folder() {
    let applied = Applied { changes: vec![changed(Kind::Added, "a", None)], ..Applied::default() };
    let (conflicts, events) = record(&root(), &applied, Said::Listed, 1, 7);
    assert!(conflicts.is_empty());
    assert_eq!(events.len(), 1);
    let e = &events[0];
    assert_eq!((e.at, e.kind.as_str(), e.path.as_str(), e.detail.as_str()), (7, "listed", "/home/u/OneDrive", "1 item"));
    let (_, events) = record(&root(), &applied, Said::Listed, 3, 7);
    assert_eq!(events[0].detail, "3 items");
    assert!(record(&root(), &applied, Said::Nothing, 3, 7).1.is_empty());
}

#[test]
fn each_change_is_said_with_where_it_was() {
    let applied = Applied {
        changes: vec![changed(Kind::Moved, "docs/b", Some("a")), changed(Kind::Removed, "c", None)],
        ..Applied::default()
    };
    let (_, events) = record(&root(), &applied, Said::EachChange, 0, 7);
    let said: Vec<_> = events.iter().map(|e| (e.kind.as_str(), e.path.as_str(), e.detail.as_str())).collect();
    assert_eq!(
        said,
        [
            ("moved", "/home/u/OneDrive/docs/b", "from /home/u/OneDrive/a"),
            ("removed", "/home/u/OneDrive/c", "")
        ]
    );
    assert_eq!(shown(&root(), &RelPath::of("docs/b")), "/home/u/OneDrive/docs/b");
}

/// Fifty of a kind and "and N more", of changes and of conflicts alike; every
/// conflict is still a row.
#[test]
fn events_are_capped_and_conflicts_are_not() {
    let applied = Applied {
        changes: (0..53).map(|n| changed(Kind::Added, &format!("f{n}"), None)).collect(),
        rescued: (0..52).map(|n| rescued(&format!("r{n}"))).collect(),
        ..Applied::default()
    };
    let (conflicts, events) = record(&root(), &applied, Said::EachChange, 0, 7);
    assert_eq!((conflicts.len(), events.len()), (52, 102));
    assert_eq!((events[50].path.as_str(), events[50].detail.as_str()), ("/home/u/OneDrive", "and 3 more"));
    assert_eq!((events[51].kind.as_str(), events[51].detail.as_str()), ("conflict", "/rescue/r0"));
    assert_eq!(events[101].detail, "and 2 more");
    assert_eq!((conflicts[51].at, conflicts[51].original.as_str()), (7, "/home/u/OneDrive/r51"));
    assert_eq!(conflicts[51].rescued, "/rescue/r51");
    let (conflicts, events) = record(&root(), &applied, Said::Nothing, 0, 7);
    assert_eq!((conflicts.len(), events.len()), (52, 51), "a page's conflicts are said with the page");
}

fn replacement(ctag: &str) -> Replacement {
    Replacement { id: "F".to_owned(), rel: RelPath::of("f.txt"), ctag: ctag.to_owned(), size: 2048 }
}

fn ctags(all: &[Replacement]) -> Vec<&str> {
    all.iter().map(|r| r.ctag.as_str()).collect()
}

/// A newer version that arrives while an older one is being fetched is fetched
/// after it, not dropped.
#[test]
fn a_newer_version_is_fetched_after_the_one_under_way() {
    let mut all = Replacements::new();
    assert_eq!(ctags(&all.spawn(vec![replacement("c2")])), ["c2"]);
    assert!(all.spawn(vec![replacement("c3")]).is_empty());
    assert!(all.spawn(vec![replacement("c4")]).is_empty());
    assert_eq!(all.ended(&"F".to_owned(), false).unwrap().ctag, "c4");
    assert!(all.spawn(vec![replacement("c5"), replacement("c4")]).is_empty(), "c4 is on its way again");
    assert!(all.ended(&"F".to_owned(), false).is_none());
    assert_eq!(ctags(&all.spawn(vec![replacement("c5")])), ["c5"]);
    assert!(all.spawn(vec![replacement("c6")]).is_empty());
    assert!(all.ended(&"F".to_owned(), true).is_none(), "cut short: nothing after it");
}

/// A failure is said, kept and retried after every cycle, until a fresher
/// replacement stands for it.
#[test]
fn a_failed_replacement_is_retried() {
    let mut all = Replacements::new();
    all.spawn(vec![replacement("c2")]);
    let said = all.record_replacement(&replacement("c2"), ReplaceOutcome::Failed("offline".to_owned()));
    assert!(said.news && !said.full);
    assert_eq!(said.note, "1 file(s) changed in OneDrive could not be updated here yet: offline");
    all.ended(&"F".to_owned(), false);
    assert_eq!(ctags(&all.spawn(Vec::new())), ["c2"], "as it is");
    assert!(all.spawn(Vec::new()).is_empty(), "it is under way");
    all.ended(&"F".to_owned(), false);
    assert_eq!(ctags(&all.spawn(vec![replacement("c3")])), ["c3"]);
    let said = all.record_replacement(&replacement("c3"), ReplaceOutcome::Replaced);
    assert!(said.news && !said.full && said.note.is_empty());
    all.ended(&"F".to_owned(), false);
    assert!(all.spawn(Vec::new()).is_empty());
}

#[test]
fn the_same_failure_is_news_once() {
    let mut all = Replacements::new();
    let failed = |why: &str| ReplaceOutcome::Failed(why.to_owned());
    assert!(all.record_replacement(&replacement("c2"), failed("offline")).news);
    assert!(!all.record_replacement(&replacement("c2"), failed("offline")).news);
    assert!(all.record_replacement(&replacement("c2"), ReplaceOutcome::NoSpace("full".to_owned())).news);
    assert!(all.record_replacement(&replacement("c3"), failed("full")).news, "a newer version");
    let nothing = all.record_replacement(&replacement("c3"), ReplaceOutcome::Current);
    assert!(!nothing.news && nothing.full && nothing.note.is_empty(), "the next cycle works out what it needs");
    assert!(all.record_replacement(&replacement("c3"), failed("full")).news);
}

#[test]
fn the_status_says_how_many_replacements_failed_last() {
    let mut all = Replacements::new();
    let of = |id: &str| Replacement { id: id.to_owned(), ..replacement("c2") };
    let failed = |why: &str| ReplaceOutcome::Failed(why.to_owned());
    let note = |count: &str, why: &str| format!("{count} file(s) changed in OneDrive could not be updated here yet: {why}");
    assert_eq!(all.record_replacement(&of("G"), failed("offline")).note, note("1", "offline"));
    assert_eq!(all.record_replacement(&of("F"), failed("full")).note, note("2", "full"), "the first by its id");
    assert_eq!(all.record_replacement(&of("F"), ReplaceOutcome::Replaced).note, note("1", "offline"));
    assert_eq!(all.record_replacement(&of("G"), ReplaceOutcome::Current).note, "");
}

#[test]
fn a_replacement_is_recorded_as_updated_or_not() {
    let said = |outcome: ReplaceOutcome| outcome.event(7, "/r/f".to_owned(), 2048).map(|e| (e.kind, e.detail));
    assert_eq!(said(ReplaceOutcome::Replaced), Some(("updated".to_owned(), "2.0 KiB".to_owned())));
    assert_eq!(said(ReplaceOutcome::Failed("why".to_owned())), Some(("update-failed".to_owned(), "why".to_owned())));
    assert_eq!(
        said(ReplaceOutcome::NoSpace("ENOSPC".to_owned())),
        Some(("update-failed".to_owned(), "not enough disk space".to_owned()))
    );
    assert_eq!(said(ReplaceOutcome::Current), None);
}

fn upsert(id: &str, etag: Option<&str>) -> Change {
    Change::Upsert(Row {
        id: id.to_owned(),
        parent_id: Some("R".to_owned()),
        name: format!("{id}.txt"),
        kind: ItemKind::File,
        size: 1,
        mtime: 0,
        etag: etag.map(str::to_owned),
        ctag: None,
        quickxor: None,
        mime: None,
        placement: Placement::Placed,
    })
}

fn committed(all: &[(&str, bool, Option<&str>)]) -> SortedMap<String, Committed> {
    let mut map = SortedMap::new();
    for (id, gone, etag) in all {
        map.set(id.to_string(), Committed { gone: *gone, etag: etag.map(str::to_owned) });
    }
    map
}

/// An entry of an item the outbox committed is read again, unless it is the
/// commit itself.
#[test]
fn only_the_commit_itself_is_not_stale() {
    let since = committed(&[("F", false, Some("e2")), ("G", true, None), ("H", false, None)]);
    assert!(!stale(&upsert("A", Some("e1")), &since));
    assert!(!stale(&upsert("F", Some("e2")), &since));
    assert!(stale(&upsert("F", Some("e1")), &since));
    assert!(stale(&upsert("F", None), &since) && stale(&upsert("H", None), &since));
    assert!(stale(&upsert("G", Some("e2")), &since), "it is deleted");
    assert!(stale(&Change::Delete("F".to_owned()), &since));
}

fn go(next: RwNext) -> (RwCycle, RwAction) {
    match next {
        RwNext::Go(cycle, action) => (cycle, action),
        RwNext::Done(..) => panic!("it is done"),
    }
}

fn step(cycle: RwCycle, event: RwEvent) -> (RwCycle, RwAction) {
    go(cycle.next(event).unwrap())
}

fn delta(changes: Vec<Change>, full: bool) -> RwCycle {
    go(RwCycle::begin(Fetched::Changes { changes, link: "L2".to_owned() }, full, 10)).0
}

fn strings(all: &[&str]) -> Vec<String> {
    all.iter().map(|s| s.to_string()).collect()
}

#[test]
fn what_was_committed_meanwhile_is_read_again_before_it_is_staged() {
    let changes = vec![upsert("F", Some("e1")), upsert("A", Some("e1")), upsert("G", Some("e1"))];
    let since = committed(&[("F", false, Some("e2")), ("G", true, None)]);
    let (cycle, action) = step(delta(changes, false), RwEvent::Committed(since));
    assert!(matches!(action, RwAction::ReadAgain(id) if id == "F"));
    let (cycle, action) = step(cycle, RwEvent::Item(Ok(upsert("F", Some("e3")))));
    assert!(matches!(action, RwAction::ReadAgain(id) if id == "G"));
    let gone = DriveError { kind: DriveKind::NotFound, text: String::new() };
    let (cycle, action) = step(cycle, RwEvent::Item(Err(gone)));
    assert!(matches!(action, RwAction::ReadWaiting));
    let waiting = RwEvent::Waiting {
        deferred: vec![upsert("D", None)],
        rows: strings(&["D"]),
        revisit: strings(&["V"]),
        unplaced: 0,
    };
    let (cycle, action) = step(cycle, waiting);
    match action {
        RwAction::Stage(changes) => {
            let ids: Vec<&str> = changes.iter().map(|c| c.id().as_str()).collect();
            assert_eq!(ids, ["D", "F", "A", "G"], "what was deferred goes first");
            assert!(matches!(&changes[1], Change::Upsert(row) if row.etag.as_deref() == Some("e3")));
            assert!(matches!(&changes[3], Change::Delete(_)));
        }
        other => panic!("{other:?}"),
    }
    let staged = RwEvent::Staged { changed: strings(&["G", "F"]), without: strings(&["F", "U"]) };
    let (cycle, action) = step(cycle, staged);
    match action {
        RwAction::Reconcile {
            scope: Scope::Changed(ids),
            commit: Commit::Swap { link, listing },
            consumed,
            upload_differences,
        } => {
            assert!(!upload_differences, "a delta leaves nothing out");
            assert_eq!(ids, ["F", "G", "U", "V"], "each once, in order");
            assert_eq!((link.as_str(), listing, consumed), ("L2", false, strings(&["D"])));
        }
        other => panic!("{other:?}"),
    }
    match cycle.next(RwEvent::Reconciled(Reconciled::default())).unwrap() {
        RwNext::Done(done, count) => assert_eq!((done.full, count), (false, 3)),
        RwNext::Go(..) => panic!("it goes on"),
    }
}

/// Trouble reading an item again ends the cycle, with nothing staged.
#[test]
fn an_item_that_cannot_be_read_again_ends_the_cycle() {
    let since = committed(&[("F", true, None)]);
    let (cycle, _) = step(delta(vec![upsert("F", Some("e1"))], false), RwEvent::Committed(since));
    let offline = DriveError { kind: DriveKind::Other, text: "off".to_owned() };
    assert!(matches!(cycle.next(RwEvent::Item(Err(offline))), Err(CycleError::Offline(why)) if why == "off"));
}

fn waiting(deferred: &[&str], rows: &[&str], revisit: &[&str], unplaced: usize) -> RwEvent {
    RwEvent::Waiting {
        deferred: deferred.iter().map(|id| upsert(id, None)).collect(),
        rows: strings(rows),
        revisit: strings(revisit),
        unplaced,
    }
}

#[test]
fn an_idle_cycle_stores_only_its_link() {
    let after = |full: bool, event: RwEvent| {
        let (cycle, action) = step(delta(Vec::new(), full), RwEvent::Committed(SortedMap::new()));
        assert!(matches!(action, RwAction::ReadWaiting));
        step(cycle, event).1
    };
    assert!(matches!(after(false, waiting(&[], &[], &[], 0)), RwAction::StoreLink(link) if link == "L2"));
    assert!(matches!(after(false, waiting(&["D"], &["D", "E"], &[], 0)), RwAction::StoreLink(_)));
    assert!(matches!(after(false, waiting(&["D"], &["E"], &[], 0)), RwAction::Stage(_)), "no row holds it any more");
    assert!(matches!(after(false, waiting(&[], &[], &["V"], 0)), RwAction::Stage(_)));
    assert!(matches!(after(false, waiting(&[], &[], &[], 1)), RwAction::Stage(_)));
    assert!(matches!(after(true, waiting(&[], &[], &[], 0)), RwAction::Stage(_)));
    let (cycle, _) = step(delta(Vec::new(), false), RwEvent::Committed(SortedMap::new()));
    let (cycle, _) = step(cycle, waiting(&[], &[], &[], 0));
    assert!(matches!(cycle.next(RwEvent::Stored), Ok(RwNext::Done(_, 0))));
}

#[test]
fn a_listing_has_what_was_committed_meanwhile_staged_over_it() {
    let (cycle, _) = go(RwCycle::begin(Fetched::Listed { link: "L9".to_owned(), upload_differences: true }, false, 10));
    let (cycle, action) = step(cycle, RwEvent::Committed(committed(&[("F", false, Some("e2"))])));
    assert!(matches!(action, RwAction::ReadAgain(id) if id == "F"));
    let (cycle, action) = step(cycle, RwEvent::Item(Ok(upsert("F", Some("e2")))));
    assert!(matches!(action, RwAction::StageOver(changes) if changes.len() == 1));
    let (_, action) = step(cycle, RwEvent::Over(strings(&["D"])));
    match action {
        RwAction::Reconcile { scope: Scope::Full, consumed, upload_differences, .. } => {
            assert_eq!(consumed, ["D"]);
            assert!(upload_differences, "as the resync said");
        }
        other => panic!("{other:?}"),
    }
    assert!(matches!(
        RwCycle::begin(Fetched::Placed(Reconciled::default()), true, 10),
        RwNext::Done(_, 0)
    ));
}

#[test]
fn what_the_disk_does_not_show_yet_waits() {
    let unshown = Unshown {
        removing: strings(&["R"]),
        held: strings(&["H", "R"]),
        unsettled: strings(&["U"]),
        content_waits: strings(&["C", "H", "R"]),
    };
    let changed = strings(&["A", "C", "H", "R", "U"]);
    let swap = Commit::Swap { link: "L2".to_owned(), listing: false };
    match rw_commit(&swap, &changed, &unshown) {
        RwCommit::Swap { link, defer, content } => {
            assert_eq!((link.as_str(), defer, content), ("L2", strings(&["H", "U"]), strings(&["C"])))
        }
        RwCommit::Page { .. } => panic!("no page"),
    }
    let page = Commit::Page { next: "P2".to_owned() };
    assert!(matches!(rw_commit(&page, &changed, &unshown), RwCommit::Page { next } if next == "P2"));
}

#[test]
fn a_settled_reconcile_says_what_was_dropped_first() {
    let applied = Applied {
        changes: vec![changed(Kind::Added, "a", None)],
        rescued: vec![rescued("r")],
        examine: vec![
            Look { rel: RelPath::of("d/f"), below: false },
            Look { rel: RelPath::of("e"), below: true },
            Look { rel: RelPath::root(), below: false },
        ],
        ..Applied::default()
    };
    let dropped = vec![RelPath::of("gone.txt")];
    let settled = settle(&root(), &applied, Said::EachChange, &dropped, 0, 7);
    let said: Vec<_> = settled.events.iter().map(|e| (e.kind.as_str(), e.detail.as_str())).collect();
    assert_eq!(
        said,
        [("removed", "already removed in OneDrive"), ("added", ""), ("conflict", "/rescue/r")]
    );
    assert_eq!(settled.events[0].path, "/home/u/OneDrive/gone.txt");
    assert_eq!(settled.conflicts.len(), 1);
    let batch = settled.examine.unwrap();
    assert_eq!((batch.dirs.len(), batch.trees.len(), batch.full), (1, 1, false));
    assert_eq!(batch.trees[0].parts, vec![b"e".to_vec()]);
    assert_eq!(batch.dirs.key(0).parts, vec![b"d".to_vec()]);
    let nothing = settle(&root(), &Applied::default(), Said::Nothing, &Vec::new(), 0, 7);
    assert!(nothing.examine.is_none() && nothing.events.is_empty() && nothing.conflicts.is_empty());
    assert!(examine_batch(&Vec::new()).is_empty());
    assert_eq!(record_dropped(&root(), &dropped, 9)[0].at, 9);
}

fn snapshot(items_listed: u64) -> Snapshot {
    Snapshot {
        items_listed,
        items_placed: 0,
        skipped_count: 0,
        last_checked: 0,
        local_bytes: 0,
        conflict_count: 0,
        pinned_count: 0,
        pending_count: 0,
        pending_bytes: 0,
        blocked_count: 0,
        held_count: 0,
        uploads: Vec::new(),
    }
}

fn downloading(done: u64) -> Vec<Transfer> {
    vec![Transfer { path: "/r/f.bin".to_owned(), done, total: 1000 }]
}

fn told(sent: Vec<(Property, PropertyValue)>) -> Vec<Property> {
    sent.into_iter().map(|(p, _)| p).collect()
}

/// What changed goes out with the value there is now.
#[test]
fn each_property_that_changed_goes_out_with_its_value() {
    let line = || vec![Transfer { path: "/r/a".to_owned(), done: 1, total: 2 }];
    let old = Coalesced::of(&Snapshot { pending_bytes: 5, ..snapshot(3) }, &Vec::new());
    let new = Coalesced::of(
        &Snapshot { pending_bytes: 7, held_count: 2, uploads: line(), ..snapshot(3) },
        &Vec::new(),
    );
    let sent = new.changed_since(&old);
    assert_eq!(sent.len(), 3);
    for (p, v) in sent {
        match (p.as_str(), v) {
            ("PendingBytes", PropertyValue::U64(7)) | ("HeldCount", PropertyValue::U32(2)) => {}
            ("Uploads", PropertyValue::Transfers(all)) => {
                assert_eq!((all[0].path.as_str(), all[0].done, all[0].total, all.len()), ("/r/a", 1, 2, 1));
            }
            (name, other) => panic!("{name}: {other:?}"),
        }
    }
    assert!(new.changed_since(&new).is_empty());
    assert_eq!(told(old.changed_since(&new)), told(new.changed_since(&old)));
    assert!(matches!(old.value_of(Property::PendingBytes), PropertyValue::U64(5)));
}

/// One message carries everything that changed, and the last value arrives.
#[test]
fn a_message_carries_everything_that_changed() {
    let mut bus = Sync1::new(Coalesced::of(&snapshot(0), &Vec::new()));
    assert!(bus.coalesce(Coalesced::of(&snapshot(0), &Vec::new())).is_empty());
    let sent = bus.coalesce(Coalesced::of(&snapshot(10), &downloading(100)));
    assert!(matches!(sent[0], (Property::ItemsListed, PropertyValue::U64(10))));
    assert_eq!(told(sent), [Property::ItemsListed, Property::Transfers]);
    assert_eq!(told(bus.coalesce(Coalesced::of(&snapshot(10), &downloading(1000)))), [Property::Transfers]);
    assert!(bus.coalesce(Coalesced::of(&snapshot(10), &downloading(1000))).is_empty());
    assert_eq!(told(bus.coalesce(Coalesced::of(&snapshot(10), &Vec::new()))), [Property::Transfers], "it ended");
    assert_eq!(COALESCE, 250);
}

#[test]
fn every_property_is_told_apart() {
    let none = Coalesced::of(&snapshot(0), &Vec::new());
    let all = Coalesced::of(
        &Snapshot {
            items_listed: 1,
            items_placed: 1,
            skipped_count: 1,
            last_checked: 1,
            local_bytes: 1,
            conflict_count: 1,
            pinned_count: 1,
            pending_count: 1,
            pending_bytes: 1,
            blocked_count: 1,
            held_count: 1,
            uploads: downloading(1),
        },
        &downloading(1),
    );
    let names: Vec<&str> = told(all.changed_since(&none)).into_iter().map(Property::as_str).collect();
    let mut expected = vec![
        "BlockedCount",
        "ConflictCount",
        "HeldCount",
        "ItemsListed",
        "ItemsPlaced",
        "LastChecked",
        "LocalBytes",
        "PendingBytes",
        "PendingCount",
        "PinnedCount",
        "SkippedCount",
        "Transfers",
        "Uploads",
    ];
    let mut sorted = names.clone();
    sorted.sort();
    expected.sort();
    assert_eq!((names.len(), sorted), (13, expected));
}

#[test]
fn a_pause_is_published_at_once() {
    let published = |paused_until: Option<i64>, state: &str| Published {
        root_path: "/r".to_owned(),
        state: state.to_owned(),
        error: String::new(),
        paused_until,
    };
    let changes = published(Some(0), "error").changes(&published(None, "ready"));
    assert_eq!((changes.root, changes.state, changes.error, changes.paused), (false, true, false, true));
    let changes = published(Some(0), "ready").changes(&published(Some(0), "ready"));
    assert!(!changes.paused && !changes.state);
    assert!(published(Some(5), "ready").changes(&published(Some(0), "ready")).paused);
}

#[test]
fn every_refusal_keeps_its_name() {
    let all = [
        (SyncErrorKind::Overlaps, Fault::Overlaps, "org.konedrive.Error.Overlaps"),
        (SyncErrorKind::NotEmpty, Fault::NotEmpty, "org.konedrive.Error.NotEmpty"),
        (SyncErrorKind::ForeignFolder, Fault::NotEmpty, "org.konedrive.Error.NotEmpty"),
        (SyncErrorKind::Unsupported, Fault::Unsupported, "org.konedrive.Error.Unsupported"),
        (SyncErrorKind::InUse, Fault::InUse, "org.konedrive.Error.InUse"),
        (SyncErrorKind::NoRoot, Fault::NoRoot, "org.konedrive.Error.NoRoot"),
        (SyncErrorKind::NoHelper, Fault::NoHelper, "org.konedrive.Error.NoHelper"),
        (SyncErrorKind::NotManaged, Fault::NotManaged, "org.konedrive.Error.NotManaged"),
        (SyncErrorKind::NotHydrated, Fault::NotHydrated, "org.konedrive.Error.NotHydrated"),
        (SyncErrorKind::ModifiedLocally, Fault::ModifiedLocally, "org.konedrive.Error.ModifiedLocally"),
        (SyncErrorKind::OutsideRoot, Fault::OutsideRoot, "org.konedrive.Error.OutsideRoot"),
        (SyncErrorKind::AlreadyRegistered, Fault::AlreadyRegistered, "org.konedrive.Error.AlreadyRegistered"),
        (SyncErrorKind::NotSignedIn, Fault::NotSignedIn, "org.konedrive.Error.NotSignedIn"),
        (SyncErrorKind::NoSource, Fault::NoSource, "org.konedrive.Error.NoSource"),
        (SyncErrorKind::NoConflict, Fault::NoConflict, "org.konedrive.Error.NoConflict"),
        (SyncErrorKind::NotAllowed, Fault::NotAllowed, "org.konedrive.Error.NotAllowed"),
        (SyncErrorKind::NotUploaded, Fault::NotUploaded, "org.konedrive.Error.NotUploaded"),
        (SyncErrorKind::PendingUploads, Fault::PendingUploads, "org.konedrive.Error.PendingUploads"),
        (SyncErrorKind::InvalidArgs, Fault::InvalidArgs, "org.freedesktop.DBus.Error.InvalidArgs"),
        (SyncErrorKind::Io, Fault::Failed, "org.konedrive.Error.Failed"),
    ];
    for (kind, name, on_the_bus) in all {
        let fault = to_fault(SyncError { kind, text: "why".to_owned() });
        assert_eq!((fault.name, fault.name.as_str(), fault.message.as_str()), (name, on_the_bus, "why"));
    }
}
