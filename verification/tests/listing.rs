use std::collections::{BTreeMap, VecDeque};

use konedrive_sync::listing::cycle::{Action, Cycle, Event, Next, Prepare};
use konedrive_sync::listing::feed::{
    ids, listed, Change, CycleReport, DeltaFrom, DeltaNext, Fetched, Page,
};
use konedrive_sync::listing::poller::{Ended, Poller, Schedule};
use konedrive_sync::listing::reconcile::{
    Applied, Applying, Begun, Commit, Passed, Reconciled, Rescued, Said, Scope,
};
use konedrive_sync::listing::{
    applying, check_account, drive_error, record_drive, refused, ApplyError, ApplyKind, CycleError, DriveError,
    DriveKind, DriveRecord, Outcome, Turns, FULL_THRESHOLD, REPLACEMENT_SLOTS,
};
use konedrive_sync::path::{AbsPath, RelPath};
use konedrive_sync::tree::{Kind, Placement, Row};

const RESYNC: DriveKind = DriveKind::ResyncRequired { upload_differences: false };

fn row(id: &str, parent: &str, name: &str) -> Row {
    Row {
        id: id.to_owned(),
        parent_id: Some(parent.to_owned()),
        name: name.to_owned(),
        kind: Kind::File,
        size: 10,
        mtime: 1_714_557_600,
        etag: None,
        ctag: Some("c1".to_owned()),
        quickxor: None,
        mime: None,
        placement: Placement::Placed,
    }
}

fn root_item() -> Change {
    Change::Root("R".to_owned())
}

fn file(id: &str, name: &str) -> Change {
    Change::Upsert(row(id, "R", name))
}

fn gone(id: &str) -> Change {
    Change::Delete(id.to_owned())
}

fn trouble(kind: DriveKind) -> DriveError {
    DriveError { kind, text: "no".to_owned() }
}

/// A drive, a folder's store and what was done to the folder, in memory. The
/// first pages that are not root-first are fine: nothing here looks into them.
struct World {
    drive: Result<&'static str, DriveKind>,
    /// What the feed answers from the start and from each link, in turn.
    feed: BTreeMap<String, VecDeque<Result<Page, DriveKind>>>,
    asked: Vec<String>,
    drive_id: Option<String>,
    delta_link: Option<String>,
    listing_next: Option<String>,
    items: BTreeMap<String, String>,
    staging: BTreeMap<String, String>,
    /// Items the folder holds.
    folder: Vec<Option<String>>,
    record: Option<DriveRecord>,
    recorded: bool,
    written_beside: Option<String>,
    intercepted: bool,
    connected: bool,
    threshold: usize,
    /// How each reconcile was asked to look, and what it committed.
    reconciled: Vec<String>,
    /// Passes over the folder that fail first.
    failing: VecDeque<ApplyKind>,
    deferred: usize,
    said: Vec<Said>,
    turns: Turns,
}

fn world() -> World {
    World {
        drive: Ok("D1"),
        feed: BTreeMap::new(),
        asked: Vec::new(),
        drive_id: None,
        delta_link: None,
        listing_next: None,
        items: BTreeMap::new(),
        staging: BTreeMap::new(),
        folder: Vec::new(),
        record: None,
        recorded: false,
        written_beside: None,
        intercepted: true,
        connected: true,
        threshold: FULL_THRESHOLD,
        reconciled: Vec::new(),
        failing: VecDeque::new(),
        deferred: 0,
        said: Vec::new(),
        turns: Turns::new(),
    }
}

fn text_of(scope: &Scope) -> String {
    match scope {
        Scope::Full => "full".to_owned(),
        Scope::Changed(ids) => ids.join(","),
    }
}

impl World {
    /// The feed from `from` ("" for the start) answers with these, once.
    fn page(&mut self, from: &str, changes: Vec<Change>, next: &str) {
        let page = Page { changes, next: DeltaNext::Page(next.to_owned()) };
        self.feed.entry(from.to_owned()).or_default().push_back(Ok(page));
    }

    fn last_page(&mut self, from: &str, changes: Vec<Change>, link: &str) {
        let page = Page { changes, next: DeltaNext::Done(link.to_owned()) };
        self.feed.entry(from.to_owned()).or_default().push_back(Ok(page));
    }

    fn refuse(&mut self, from: &str, kind: DriveKind) {
        self.feed.entry(from.to_owned()).or_default().push_back(Err(kind));
    }

    fn ask(&mut self, from: &DeltaFrom) -> Result<Page, DriveError> {
        let from = match from {
            DeltaFrom::Start => String::new(),
            DeltaFrom::Link(link) => link.clone(),
        };
        self.asked.push(from.clone());
        match self.feed.get_mut(&from).and_then(|answers| answers.pop_front()) {
            Some(Ok(page)) => Ok(page),
            Some(Err(kind)) => Err(trouble(kind)),
            None => Err(trouble(DriveKind::Other)),
        }
    }

    fn stage(&mut self, changes: &Vec<Change>) {
        for change in changes {
            match change {
                Change::Root(id) => {
                    self.staging.insert(id.clone(), String::new());
                }
                Change::Upsert(row) => {
                    self.staging.insert(row.id.clone(), row.name.clone());
                }
                Change::Delete(id) => {
                    self.staging.remove(id);
                }
            }
        }
    }

    fn reconcile(&mut self, scope: Scope, commit: Commit) -> Result<Reconciled, CycleError> {
        let root_known = self.staging.contains_key("R");
        let mut look = text_of(&scope);
        let mut applying = match Applying::begin(self.intercepted, self.connected, root_known, &scope, commit)? {
            Begun::Waits(next) => {
                self.items = self.staging.clone();
                self.listing_next = Some(next);
                self.reconciled.push("waits".to_owned());
                return Ok(Reconciled::default());
            }
            Begun::Apply(applying) => applying,
        };
        loop {
            self.reconciled.push(look);
            let got = match self.failing.pop_front() {
                Some(kind) => Err(ApplyError { kind, text: "it did not match".to_owned() }),
                None => Ok(Applied { deferred: self.deferred, created: 1, ..Applied::default() }),
            };
            match applying.passed(got, Applied::default())? {
                Passed::Again(again) => {
                    applying = again;
                    look = "full".to_owned();
                }
                Passed::Commit(committing) => {
                    match committing.commit() {
                        Commit::Swap { link, .. } => {
                            self.delta_link = Some(link.clone());
                            self.listing_next = None;
                        }
                        Commit::Page { next } => self.listing_next = Some(next.clone()),
                    }
                    self.items = self.staging.clone();
                    self.folder = self.items.keys().filter(|id| *id != "R").cloned().map(Some).collect();
                    let (done, said) = committing.committed();
                    self.said.push(said);
                    return Ok(done);
                }
            }
        }
    }

    fn cycle(&mut self) -> Result<CycleReport, CycleError> {
        let full = self.turns.begin();
        let result = self.sync_once(full);
        self.turns.end(result.is_ok());
        result
    }

    fn sync_once(&mut self, full: bool) -> Result<CycleReport, CycleError> {
        let record = self.record.as_ref().map(|r| DriveRecord {
            config_file: AbsPath { raw: r.config_file.raw.clone() },
            root_id: r.root_id.clone(),
            recorded: r.recorded.clone(),
        });
        let (mut cycle, mut action) =
            Cycle::begin(self.intercepted, self.connected, false, full, self.threshold, record, self.recorded)?;
        loop {
            let event = match action {
                Action::AskDrive => Event::Drive {
                    id: self.drive.map(str::to_owned).map_err(trouble),
                    stored: self.drive_id.clone(),
                },
                Action::ReadLinks(account) => {
                    if account.in_store {
                        self.drive_id = self.drive.ok().map(str::to_owned);
                    }
                    if account.beside_root {
                        self.recorded = true;
                        let record = self.record.as_ref().unwrap();
                        self.written_beside = record_drive(record, self.drive.unwrap(), "root-1", "");
                    }
                    Event::Links { stored: self.delta_link.clone(), resume_at: self.listing_next.clone() }
                }
                Action::LookAtFolder => {
                    Event::Folder { none_listed: self.items.is_empty(), ids: self.folder.clone() }
                }
                Action::Ask { prepare, from } => {
                    match prepare {
                        Prepare::Nothing => {}
                        Prepare::Placing { mark } => {
                            if mark {
                                self.listing_next = Some(String::new());
                            }
                            self.staging = self.items.clone();
                        }
                        Prepare::Listing => self.staging.clear(),
                        Prepare::Again => {
                            self.listing_next = None;
                            self.staging.clear();
                        }
                    }
                    Event::Page(self.ask(&from))
                }
                Action::StagePage { changes, listed } => {
                    self.stage(&changes);
                    assert!(listed as usize <= self.staging.len());
                    Event::Staged(Vec::new())
                }
                Action::StageDelta { changes, read } => {
                    self.staging = self.items.clone();
                    self.stage(&changes);
                    Event::Staged(if read { ids(&changes) } else { Vec::new() })
                }
                Action::Place { changes, scope, commit } => {
                    self.stage(&changes);
                    Event::Reconciled(self.reconcile(scope, commit)?)
                }
                Action::Reconcile { scope, commit } => Event::Reconciled(self.reconcile(scope, commit)?),
                Action::StoreLink(link) => {
                    self.delta_link = Some(link);
                    Event::Stored
                }
            };
            assert!(cycle.counts(&event));
            match cycle.next(event)? {
                Next::Go(then, todo) => {
                    cycle = then;
                    action = todo;
                }
                Next::Done { report, full_next } => {
                    if full_next {
                        self.turns.request();
                    }
                    return Ok(report);
                }
                Next::Fetched(_) => panic!("the folder is read-only"),
            }
        }
    }

    /// Listed once: docs, with the link L1 to go on from.
    fn listed() -> World {
        let mut w = world();
        w.last_page("", vec![root_item(), file("F", "f.txt"), file("G", "g.txt")], "L1");
        w.cycle().unwrap();
        w.asked.clear();
        w.reconciled.clear();
        w.said.clear();
        w
    }

    fn names(&self) -> Vec<&str> {
        self.items.values().filter(|name| !name.is_empty()).map(String::as_str).collect()
    }
}

#[test]
fn a_first_listing_places_page_by_page_and_stores_the_link() {
    let mut w = world();
    w.page("", vec![root_item(), file("F", "f.txt")], "P2");
    w.page("P2", vec![file("G", "g.txt")], "P3");
    w.last_page("P3", vec![file("H", "h.txt")], "L1");
    let report = w.cycle().unwrap();
    assert_eq!(w.asked, ["", "P2", "P3"]);
    assert_eq!(w.reconciled, ["full", "G", "H"], "the first in full, then each page's own entries");
    assert_eq!((w.delta_link.as_deref(), w.listing_next.as_deref()), (Some("L1"), None));
    assert_eq!(w.names(), ["f.txt", "g.txt", "h.txt"]);
    assert_eq!(w.said, [Said::Nothing, Said::Nothing, Said::Listed]);
    assert!(report.full);
    assert_eq!((report.changes, report.applied.created), (0, 3));
    assert!(!w.turns.needs_full);
}

/// Nothing on a page can be placed before the drive's root has come; the pages
/// stay full until one is placed at all.
#[test]
fn nothing_is_placed_before_the_drives_root_has_come() {
    let mut w = world();
    w.page("", vec![file("F", "f.txt")], "P2");
    w.page("P2", vec![root_item()], "P3");
    w.last_page("P3", vec![file("H", "h.txt")], "L1");
    w.cycle().unwrap();
    assert_eq!(w.reconciled, ["waits", "full", "H"]);
    let mut w = world();
    w.last_page("", vec![file("F", "f.txt")], "L1");
    match w.cycle() {
        Err(CycleError::Apply(why)) => assert_eq!(why, "the drive's listing has no root"),
        other => panic!("{other:?}"),
    }
}

#[test]
fn a_later_cycle_looks_only_at_what_changed() {
    let mut w = World::listed();
    w.last_page("L1", vec![file("F", "renamed.txt"), gone("G")], "L2");
    let report = w.cycle().unwrap();
    assert!(!report.full);
    assert_eq!((report.changes, w.reconciled.clone()), (2, vec!["F,G".to_owned()]));
    assert_eq!(w.names(), ["renamed.txt"]);
    assert_eq!((w.delta_link.as_deref(), w.said.clone()), (Some("L2"), vec![Said::EachChange]));
}

/// Nothing changes until all of a delta is in, however many pages it has.
#[test]
fn a_delta_of_many_pages_is_reconciled_once() {
    let mut w = World::listed();
    w.page("L1", vec![file("H", "h.txt")], "P2");
    w.page("P2", vec![file("I", "i.txt")], "P3");
    w.last_page("P3", vec![gone("F")], "L2");
    w.cycle().unwrap();
    assert_eq!(w.asked, ["L1", "P2", "P3"]);
    assert_eq!(w.reconciled, ["H,I,F"]);
    let mut w = World::listed();
    w.page("L1", vec![gone("F")], "P2");
    w.refuse("P2", DriveKind::Other);
    assert!(w.cycle().is_err());
    assert!(w.reconciled.is_empty() && w.delta_link.as_deref() == Some("L1"), "the same changes come again");
}

#[test]
fn an_empty_delta_stores_only_its_link() {
    let mut w = World::listed();
    w.last_page("L1", Vec::new(), "L2");
    let report = w.cycle().unwrap();
    assert_eq!((report.full, report.changes, w.delta_link.as_deref()), (false, 0, Some("L2")));
    assert!(w.reconciled.is_empty());
}

#[test]
fn an_expired_feed_lists_the_drive_again() {
    let mut w = World::listed();
    w.refuse("L1", RESYNC);
    w.page("", vec![root_item(), file("F", "f.txt")], "P2");
    w.last_page("P2", vec![file("H", "h.txt")], "L9");
    let report = w.cycle().unwrap();
    assert_eq!(w.asked, ["L1", "", "P2"]);
    assert_eq!(w.reconciled, ["full"], "once, at its end");
    assert!(report.full && report.changes == 0);
    assert_eq!(w.names(), ["f.txt", "h.txt"], "what it no longer has is gone");
    assert_eq!(w.delta_link.as_deref(), Some("L9"));
}

#[test]
fn a_delta_over_the_threshold_is_reconciled_in_full() {
    let mut w = World::listed();
    w.threshold = 1;
    w.last_page("L1", vec![gone("F")], "L2");
    w.last_page("L2", vec![file("F", "f.txt"), gone("G")], "L3");
    assert!(!w.cycle().unwrap().full);
    assert!(w.cycle().unwrap().full);
    assert_eq!(w.reconciled, ["F", "full"]);
}

#[test]
fn a_new_sync_starts_with_the_whole_folder() {
    let mut w = World::listed();
    w.turns = Turns::new();
    w.last_page("L1", Vec::new(), "L2");
    assert!(w.cycle().unwrap().full, "though nothing changed");
    assert_eq!(w.reconciled, ["full"]);
}

/// A folder that shows the drive already is listed whole and reconciled once.
#[test]
fn a_folder_with_items_of_ours_is_not_filled_page_by_page() {
    let mut w = world();
    w.folder = vec![None, Some("F".to_owned())];
    w.page("", vec![root_item(), file("F", "f.txt")], "P2");
    w.last_page("P2", vec![file("G", "g.txt")], "L1");
    w.cycle().unwrap();
    assert_eq!(w.reconciled, ["full"]);
    let mut w = world();
    w.items.insert("F".to_owned(), "f.txt".to_owned());
    w.last_page("", vec![root_item()], "L1");
    w.cycle().unwrap();
    assert_eq!(w.listing_next, None);
}

#[test]
fn another_account_is_asked_for_nothing() {
    let mut w = World::listed();
    w.drive = Ok("D2");
    match w.cycle() {
        Err(e) => {
            assert_eq!(
                e.message(),
                "this folder was listed from another OneDrive account (drive D1); forget it and register \
                 a folder for the account signed in now"
            );
            assert!(e.blocking());
        }
        Ok(_) => panic!("it went on"),
    }
    assert!(w.asked.is_empty() && w.reconciled.is_empty());
    w.drive = Err(DriveKind::SignedOut);
    let e = w.cycle().unwrap_err();
    assert_eq!(e.message(), "signed out: sign in again to keep this folder in step with OneDrive");
    assert!(e.blocking());
}

/// The drive a folder was listed from is kept beside its root too.
#[test]
fn a_store_rebuilt_empty_still_refuses_another_account() {
    let record = |recorded: Option<&str>| DriveRecord {
        config_file: AbsPath { raw: b"/c/config.toml".to_vec() },
        root_id: "root-1".to_owned(),
        recorded: recorded.map(str::to_owned),
    };
    let mut w = world();
    w.record = Some(record(None));
    w.last_page("", vec![root_item()], "L1");
    w.cycle().unwrap();
    assert_eq!(w.written_beside.as_deref(), Some("D1"));
    let mut w = world();
    w.record = Some(record(Some("D1")));
    w.drive = Ok("D2");
    assert!(matches!(w.cycle(), Err(CycleError::OtherAccount(d)) if d == "D1"));
    let known = check_account(Ok("D1".to_owned()), &Some("D1".to_owned()), &Some(record(Some("D0"))), false);
    let known = known.unwrap();
    assert!(!known.in_store && !known.beside_root, "the store's own record goes first");
    let first = check_account(Ok("D1".to_owned()), &None, &Some(record(None)), true).unwrap();
    assert!(first.in_store && !first.beside_root, "written once");
    assert_eq!(record_drive(&record(None), "D1", "root-2", ""), None, "another root");
    assert_eq!(record_drive(&record(None), "D1", "root-1", "D7"), None, "one is recorded");
}

#[test]
fn no_network_is_said_and_blocks_nothing() {
    let mut w = World::listed();
    w.refuse("L1", DriveKind::Other);
    let e = w.cycle().unwrap_err();
    assert_eq!(e.message(), "cannot reach OneDrive (no); trying again");
    assert!(!e.blocking());
    let mut outcome = Outcome { trouble: None, waits_for_helper: true, last_checked: 7 };
    outcome.publish_outcome(&Err(e), 100);
    let trouble = outcome.trouble.as_ref().unwrap();
    assert_eq!((trouble.text.as_str(), trouble.blocking), ("cannot reach OneDrive (no); trying again", false));
    assert!(outcome.waits_for_helper);
    outcome.publish_outcome(&Err(CycleError::Cancelled), 101);
    assert!(outcome.trouble.is_some());
    assert_eq!(outcome.last_checked, 7, "a failed cycle checked nothing");
    outcome.publish_outcome(&Ok(()), 102);
    assert_eq!(outcome.last_checked, 102);
    assert!(outcome.trouble.is_none() && !outcome.waits_for_helper);
    outcome.publish_outcome(&Err(CycleError::NoHelper), 103);
    assert_eq!(outcome.last_checked, 102);
    assert!(outcome.trouble.is_none() && outcome.waits_for_helper);
}

#[test]
fn nothing_is_asked_without_the_helper() {
    for (intercepted, connected) in [(true, false), (false, true)] {
        let mut w = World::listed();
        w.intercepted = intercepted;
        w.connected = connected;
        let e = w.cycle().unwrap_err();
        assert_eq!(e.message(), "the helper is not connected; the folder is brought up to date when it is back");
        assert!(e.blocking() && w.asked.is_empty());
    }
}

#[test]
fn a_failed_cycle_makes_the_next_one_full() {
    let mut w = World::listed();
    w.last_page("L1", vec![gone("G")], "L2");
    w.failing.push_back(ApplyKind::Other);
    let e = w.cycle().unwrap_err();
    assert_eq!(e.message(), "the folder could not be brought up to date: it did not match");
    assert_eq!(w.delta_link.as_deref(), Some("L1"), "nothing was committed");
    w.last_page("L1", vec![gone("G")], "L2");
    assert!(w.cycle().unwrap().full);
    assert_eq!(w.reconciled, ["G", "full"]);
    assert!(!w.turns.needs_full);
}

/// A request made while a cycle runs outlives it.
#[test]
fn a_request_made_meanwhile_is_not_swallowed() {
    let mut turns = Turns::new();
    assert!(turns.begin());
    turns.request();
    turns.end(true);
    assert!(turns.begin());
    turns.end(true);
    assert!(!turns.begin());
}

#[test]
fn a_folder_that_does_not_match_is_reconciled_whole_in_the_same_run() {
    let mut w = World::listed();
    w.last_page("L1", vec![gone("G")], "L2");
    w.failing.push_back(ApplyKind::NeedFull);
    assert!(w.cycle().unwrap().full);
    assert_eq!(w.reconciled, ["G", "full"]);
    assert_eq!(w.said, [Said::Listed]);
    w.last_page("L2", vec![gone("F")], "L3");
    w.failing.extend([ApplyKind::Io, ApplyKind::Io]);
    assert!(matches!(w.cycle(), Err(CycleError::Apply(_))), "it hands over once");
    assert_eq!(w.delta_link.as_deref(), Some("L2"));
}

#[test]
fn files_left_for_later_make_the_next_cycle_full() {
    let mut w = World::listed();
    w.deferred = 1;
    w.last_page("L1", vec![file("F", "f.txt")], "L2");
    assert!(!w.cycle().unwrap().full);
    w.deferred = 0;
    w.last_page("L2", Vec::new(), "L3");
    assert!(w.cycle().unwrap().full);
    assert!(!w.turns.needs_full);
}

#[test]
fn a_stopped_listing_goes_on_where_it_stopped() {
    let mut w = world();
    w.page("", vec![root_item(), file("F", "f.txt")], "P2");
    w.refuse("P2", DriveKind::Other);
    assert!(w.cycle().is_err());
    assert_eq!((w.listing_next.as_deref(), w.names()), (Some("P2"), vec!["f.txt"]));
    w.asked.clear();
    w.last_page("P2", vec![file("G", "g.txt")], "L1");
    w.cycle().unwrap();
    assert_eq!((w.asked.clone(), w.names()), (vec!["P2".to_owned()], vec!["f.txt", "g.txt"]));
    assert_eq!((w.delta_link.as_deref(), w.listing_next.as_deref()), (Some("L1"), None));
}

/// One stopped before its first page is committed begins again, and is still
/// placed page by page.
#[test]
fn a_listing_stopped_before_its_first_page_starts_again() {
    let mut w = world();
    w.refuse("", DriveKind::Other);
    assert!(w.cycle().is_err());
    assert_eq!(w.listing_next.as_deref(), Some(""));
    w.folder = vec![Some("F".to_owned())];
    w.page("", vec![root_item()], "P2");
    w.last_page("P2", vec![file("F", "f.txt")], "L1");
    w.cycle().unwrap();
    assert_eq!(w.reconciled, ["full", "F"]);
}

#[test]
fn a_refused_resume_link_lists_the_drive_again() {
    for kind in [RESYNC, DriveKind::NotFound, DriveKind::Failed] {
        let mut w = world();
        w.listing_next = Some("P2".to_owned());
        w.items.insert("F".to_owned(), "f.txt".to_owned());
        w.refuse("P2", kind);
        w.last_page("", vec![root_item(), file("F", "f.txt")], "L1");
        w.cycle().unwrap();
        assert_eq!((w.asked.len(), w.reconciled.clone()), (2, vec!["full".to_owned()]));
        assert_eq!((w.listing_next.as_deref(), w.delta_link.as_deref()), (None, Some("L1")));
    }
    assert!(!refused(&trouble(DriveKind::SignedOut)) && !refused(&trouble(DriveKind::Other)));
    assert!(matches!(drive_error(trouble(DriveKind::NotFound)), CycleError::Offline(_)));
}

/// Only the link a stopped listing left may send it back to the start.
#[test]
fn a_next_page_turned_down_fails_the_cycle() {
    let mut w = world();
    w.page("", vec![root_item()], "P2");
    w.refuse("P2", DriveKind::Failed);
    assert!(matches!(w.cycle(), Err(CycleError::Offline(_))));
    assert_eq!((w.asked.clone(), w.listing_next.as_deref()), (vec![String::new(), "P2".to_owned()], Some("P2")));
}

/// A later page that had to hand over has the end of the listing reconciled
/// once more.
#[test]
fn a_page_that_handed_over_makes_the_next_cycle_full() {
    let mut w = world();
    w.page("", vec![root_item()], "P2");
    w.page("P2", vec![file("F", "f.txt")], "P3");
    w.last_page("P3", vec![file("G", "g.txt")], "L1");
    // The first pass of the second page finds the folder not matching.
    w.cycle_with_failure_at(1);
    assert_eq!(w.reconciled, ["full", "F", "full", "G"]);
    assert!(w.turns.needs_full);
}

impl World {
    /// A cycle whose pass numbered `n` finds the folder not matching.
    fn cycle_with_failure_at(&mut self, n: usize) {
        let full = self.turns.begin();
        let (mut cycle, _) = Cycle::begin(true, true, false, full, self.threshold, None, false).unwrap();
        let mut event = Event::Drive { id: Ok("D1".to_owned()), stored: None };
        let mut passes = 0;
        loop {
            match cycle.next(event).unwrap() {
                Next::Fetched(_) => panic!("the folder is read-only"),
                Next::Done { full_next, .. } => {
                    if full_next {
                        self.turns.request();
                    }
                    self.turns.end(true);
                    return;
                }
                Next::Go(then, action) => {
                    cycle = then;
                    event = match action {
                        Action::ReadLinks(_) => Event::Links { stored: None, resume_at: None },
                        Action::LookAtFolder => Event::Folder { none_listed: true, ids: Vec::new() },
                        Action::Ask { from, .. } => Event::Page(self.ask(&from)),
                        Action::Place { changes, scope, commit } => {
                            self.stage(&changes);
                            if passes == n {
                                self.failing.push_back(ApplyKind::NeedFull);
                            }
                            passes += 1;
                            Event::Reconciled(self.reconcile(scope, commit).unwrap())
                        }
                        other => panic!("{other:?}"),
                    };
                }
            }
        }
    }
}

/// A read-write folder takes up what was fetched in its own way.
#[test]
fn a_read_write_folder_takes_up_what_was_fetched() {
    let begun = || {
        let (cycle, _) = Cycle::begin(true, true, true, false, 10, None, false).unwrap();
        let drive = Event::Drive { id: Ok("D1".to_owned()), stored: None };
        let Ok(Next::Go(cycle, _)) = cycle.next(drive) else { panic!("it ended") };
        let links = Event::Links { stored: Some("L1".to_owned()), resume_at: None };
        let Ok(Next::Go(cycle, _)) = cycle.next(links) else { panic!("it ended") };
        cycle
    };
    let page = Page { changes: vec![gone("F")], next: DeltaNext::Done("L2".to_owned()) };
    match begun().next(Event::Page(Ok(page))) {
        Ok(Next::Fetched(Fetched::Changes { changes, link })) => {
            assert_eq!((ids(&changes), link.as_str()), (vec!["F".to_owned()], "L2"))
        }
        _ => panic!("it was staged"),
    }
    for keep in [false, true] {
        let expired = trouble(DriveKind::ResyncRequired { upload_differences: keep });
        let Ok(Next::Go(cycle, _)) = begun().next(Event::Page(Err(expired))) else { panic!("it ended") };
        let page = Page { changes: vec![root_item()], next: DeltaNext::Done("L9".to_owned()) };
        let Ok(Next::Go(cycle, _)) = cycle.next(Event::Page(Ok(page))) else { panic!("it ended") };
        match cycle.next(Event::Staged(Vec::new())) {
            Ok(Next::Fetched(Fetched::Listed { link, upload_differences })) => {
                assert_eq!((link.as_str(), upload_differences), ("L9", keep));
            }
            _ => panic!("it was reconciled"),
        }
    }
}

/// An answer nobody waits for ends the cycle.
#[test]
fn an_event_out_of_turn_cuts_the_cycle_short() {
    let (cycle, action) = Cycle::begin(true, true, false, false, 10, None, false).unwrap();
    assert!(matches!(action, Action::AskDrive));
    match cycle.next(Event::Stored) {
        Err(e) => assert_eq!(e.message(), "cancelled"),
        Ok(_) => panic!("it went on"),
    }
}

/// What the first pass moved out of the way is a conflict though the second
/// finds nothing left to move.
#[test]
fn what_a_pass_rescued_before_it_handed_over_stands() {
    let rescued = |name: &str| Rescued {
        original: RelPath::of(name),
        rescued: AbsPath { raw: format!("/rescue/{name}").into_bytes() },
    };
    let commit = Commit::Swap { link: "L2".to_owned(), listing: false };
    let scope = Scope::Changed(vec!["F".to_owned()]);
    let Ok(Begun::Apply(first)) = Applying::begin(true, true, true, &scope, commit) else { panic!("it waits") };
    let kept = Applied { rescued: vec![rescued("a")], created: 4, ..Applied::default() };
    let failed = Err(ApplyError { kind: ApplyKind::Io, text: "moved".to_owned() });
    let Ok(Passed::Again(second)) = first.passed(failed, kept) else { panic!("it did not go on") };
    let made = Applied { rescued: vec![rescued("b")], created: 1, ..Applied::default() };
    let Ok(Passed::Commit(committing)) = second.passed(Ok(made), Applied::default()) else { panic!("it failed") };
    assert_eq!(committing.done().applied.rescued.len(), 2);
    let (done, said) = committing.committed();
    assert!(done.full && said == Said::Listed);
    assert_eq!(done.applied.created, 1, "the second pass counts what there is to count");
    assert_eq!(done.applied.rescued[0].rescued.raw, b"/rescue/a");
    assert_eq!(done.applied.rescued[1].rescued.raw, b"/rescue/b");
}

#[test]
fn what_the_folder_ran_into_is_said() {
    let error = |kind: ApplyKind| ApplyError { kind, text: "why".to_owned() };
    assert!(matches!(applying(error(ApplyKind::Cancelled)), CycleError::Cancelled));
    assert!(matches!(applying(error(ApplyKind::Io)), CycleError::Apply(why) if why == "why"));
    assert_eq!(CycleError::Store("why".to_owned()).message(), "the tree store: why");
    assert!(CycleError::Store(String::new()).blocking());
    assert!(!CycleError::Apply(String::new()).blocking() && !CycleError::Cancelled.blocking());
}

#[test]
fn only_items_are_counted_as_listed() {
    let changes = vec![root_item(), file("F", "f"), gone("G"), file("H", "h")];
    assert_eq!(listed(&changes), 2);
    assert_eq!(ids(&changes), ["R", "F", "G", "H"]);
    assert_eq!((FULL_THRESHOLD, REPLACEMENT_SLOTS), (5000, 2));
}

#[test]
fn pages_add_up() {
    let mut all = Reconciled::default();
    let page = |full: bool| Reconciled {
        applied: Applied { created: 2, moved: 1, deferred: 1, ..Applied::default() },
        full,
    };
    assert!(all.has_room(&page(false)));
    all.add(page(false));
    all.add(page(true));
    all.add(page(false));
    assert_eq!((all.applied.created, all.applied.moved, all.applied.deferred, all.full), (6, 3, 3, true));
    let most = Reconciled { applied: Applied { created: usize::MAX, ..Applied::default() }, full: false };
    assert!(!all.has_room(&most));
}

/// A failed cycle is retried on the retry schedule, and then at the ordinary
/// interval.
#[test]
fn a_failure_is_retried_sooner() {
    let schedule = Schedule::default();
    assert_eq!((schedule.interval, schedule.retry.clone()), (60_000, vec![5_000, 15_000, 30_000]));
    let mut poller = Poller::new();
    let waits: Vec<_> = (0..5).map(|_| poller.ended(&schedule, Ended::Failed)).collect();
    assert_eq!(waits, [Some(5_000), Some(15_000), Some(30_000), Some(60_000), Some(60_000)]);
    assert_eq!(poller.ended(&schedule, Ended::Well), Some(60_000));
    assert_eq!(poller.ended(&schedule, Ended::Failed), Some(5_000), "a good cycle resets it");
    assert_eq!(poller.ended(&schedule, Ended::Cancelled), None);
}
