use konedrive_sync::graph_source::{mtime_of, source_error, DriveItem, Downloaded, GraphSource, Link, SourceError};
use konedrive_sync::helper::{
    handshake_error, helper_presence, Clearance, Handshake, HandshakeKind, HandshakeStep, HelperError, HelperLink,
    HelperPresence, Message, NotCleared, Received, Request, Waited, CALL_TIMEOUT, REGISTER_ROOT_TIMEOUT,
};
use konedrive_sync::helper_status::{
    no_such_unit, HelperState, HelperUnit, NotAsked, Systemd, HELPER_UNIT, RECHECK,
};
use konedrive_sync::hub::{
    beneath_root, overlapping, route, verified, Backoff, Folder, HelperHub, MovedOuts, Other, Placed, Route, StoreSays,
};
use konedrive_sync::listing::{DriveError, DriveKind};
use konedrive_sync::path::AbsPath;

#[test]
fn systemds_states_map_to_the_helpers() {
    assert_eq!(HelperState::of_unit("not-found", "inactive"), HelperState::NotInstalled);
    assert_eq!(HelperState::of_unit("loaded", "inactive"), HelperState::Stopped);
    assert_eq!(HelperState::of_unit("loaded", "deactivating"), HelperState::Stopped);
    assert_eq!(HelperState::of_unit("loaded", "failed"), HelperState::Failed);
    assert_eq!(HelperState::of_unit("bad-setting", "inactive"), HelperState::Failed);
    assert_eq!(HelperState::of_unit("loaded", "active"), HelperState::Unknown, "running, and no link yet");
    assert_eq!(HelperState::Connected.advice(), None);
    assert!(HelperState::Stopped.advice().unwrap().contains("sudo systemctl start konedrive-helper"));
}

#[test]
fn a_link_goes_before_what_systemd_says() {
    let failed = Some(("loaded".to_owned(), "failed".to_owned()));
    assert_eq!(HelperState::of(true, &failed), HelperState::Connected);
    assert_eq!(HelperState::of(false, &failed), HelperState::Failed);
    assert_eq!(HelperState::of(false, &NotAsked.states()), HelperState::Unknown);
    assert_eq!(HelperState::of(false, &Some(no_such_unit())), HelperState::NotInstalled);
    assert_eq!(HelperState::default(), HelperState::Unknown);
    let names: Vec<&str> = [
        HelperState::Connected,
        HelperState::NotInstalled,
        HelperState::Stopped,
        HelperState::Failed,
        HelperState::Unknown,
    ]
    .into_iter()
    .map(HelperState::as_str)
    .collect();
    assert_eq!(names, ["connected", "not-installed", "stopped", "failed", "unknown"]);
    let systemd = Systemd::default();
    assert_eq!((systemd.unit.as_str(), systemd.timeout, RECHECK), (HELPER_UNIT, 5, 30));
}

fn answer(r: Received) -> Option<(u64, Option<String>)> {
    match r {
        Received::Answer { caller, result } => Some((caller, result.err().map(|e| e.message()))),
        _ => None,
    }
}

/// Callers are answered in the order they called, whatever the helper sends in
/// between.
#[test]
fn two_concurrent_callers_are_answered_in_order() {
    let mut link = HelperLink::new(3);
    link.sending(10);
    link.sending(11);
    assert!(matches!(link.received(Message::Hydrate { req_id: 7, has_fd: true }), Received::Fill(7)));
    assert_eq!(answer(link.received(Message::Ack { errno: 0 })), Some((10, None)));
    link.sending(12);
    let refused = answer(link.received(Message::Ack { errno: 13 }));
    assert_eq!(refused, Some((11, Some("the helper refused the request (errno 13)".to_owned()))));
    assert_eq!(answer(link.received(Message::Ack { errno: 0 })), Some((12, None)));
    assert!(answer(link.received(Message::Ack { errno: 0 })).is_none(), "nobody waits for it");
}

#[test]
fn the_helper_greets_once() {
    let mut link = HelperLink::new(3);
    assert!(matches!(link.received(Message::Welcome { version: 3 }), Received::Greeted(Ok(()))));
    assert!(matches!(link.received(Message::Welcome { version: 4 }), Received::Nothing));
    assert!(matches!(link.received(Message::Hydrate { req_id: 7, has_fd: false }), Received::Nothing));
    let mut link = HelperLink::new(3);
    match link.received(Message::Welcome { version: 4 }) {
        Received::Greeted(Err(e)) => {
            assert_eq!(e.message(), "the helper greeted with protocol version 4, expected 3")
        }
        _ => panic!("another version was taken"),
    }
}

#[test]
fn a_dropped_connection_is_told_to_everyone_who_waits() {
    let mut link = HelperLink::new(3);
    link.sending(1);
    link.sending(2);
    link.sending(3);
    assert_eq!(link.send_failed(), Some(3), "what never left is answered at once");
    let ended = link.closed();
    assert_eq!((ended.greeting, ended.callers), (true, vec![1, 2]));
    assert_eq!(HelperLink::new(3).send_failed(), None);
}

#[test]
fn a_call_whose_time_is_up_tears_the_connection_down() {
    let (result, torn) = Waited::Elapsed.call();
    assert_eq!(result.unwrap_err().message(), "the helper did not respond within its call timeout");
    assert!(torn);
    let (result, torn) = Waited::Dropped.call();
    assert_eq!(result.unwrap_err().message(), "the konedrive helper is not running");
    assert!(!torn);
    let (result, torn) = Waited::Answered(Ok(())).call();
    assert!(result.is_ok() && !torn);
}

#[test]
fn an_unregistration_gets_the_walks_bound() {
    assert_eq!(Request::UnregisterRoot.bound(CALL_TIMEOUT, REGISTER_ROOT_TIMEOUT), 120_000);
    assert_eq!(Request::RegisterRoot.bound(1, 2), 2);
    for other in [
        Request::Hello,
        Request::MarkDir,
        Request::UnmarkDir,
        Request::MarkFile,
        Request::ClearIgnore,
        Request::HydrateDone,
    ] {
        assert_eq!(other.bound(CALL_TIMEOUT, REGISTER_ROOT_TIMEOUT), 30_000);
    }
}

#[test]
fn hello_is_said_after_a_greeting_and_both_must_come() {
    assert!(matches!(Handshake::Greeting.next(Waited::Answered(Ok(()))), HandshakeStep::SayHello));
    assert!(matches!(Handshake::Hello.next(Waited::Answered(Ok(()))), HandshakeStep::Done));
    for step in [Handshake::Greeting, Handshake::Hello] {
        assert!(matches!(step.next(Waited::Elapsed), HandshakeStep::Failed(HelperError::Timeout)));
        assert!(matches!(step.next(Waited::Dropped), HandshakeStep::Failed(HelperError::NotRunning)));
        let refused = Waited::Answered(Err(HelperError::Refused(-71)));
        assert!(matches!(step.next(refused), HandshakeStep::Failed(HelperError::Refused(-71))));
    }
}

#[test]
fn every_state_without_a_link_says_how_to_start_the_helper() {
    for state in [HelperState::NotInstalled, HelperState::Stopped, HelperState::Failed, HelperState::Unknown] {
        assert!(state.advice().unwrap().contains("sudo systemctl start konedrive-helper"));
    }
}

#[test]
fn a_failed_handshake_is_a_clear_error() {
    let (kind, text) = handshake_error(HelperError::Refused(-71), 3);
    assert_eq!(kind, HandshakeKind::InvalidData);
    assert_eq!(text, "the helper rejected our protocol version 3 during the handshake (errno -71)");
    let (kind, text) = handshake_error(HelperError::Timeout, 3);
    assert_eq!((kind, text.as_str()), (HandshakeKind::TimedOut, "the helper did not complete the handshake in time"));
    let (kind, text) = handshake_error(HelperError::NotRunning, 3);
    assert_eq!((kind, text.as_str()), (HandshakeKind::BrokenPipe, "the helper connection closed during the handshake"));
    let (kind, text) = handshake_error(HelperError::Io("no".to_owned()), 3);
    assert_eq!((kind, text.as_str()), (HandshakeKind::Other, "no"));
}

/// The probe tells a bound helper from none without connecting.
#[test]
fn the_probes_error_says_whether_a_helper_is_bound() {
    assert!(matches!(helper_presence(Some(2), "/s"), HelperPresence::Absent));
    assert!(matches!(helper_presence(Some(111), "/s"), HelperPresence::Absent));
    assert!(matches!(helper_presence(Some(91), "/s"), HelperPresence::Present));
    for odd in [None, Some(11), Some(115)] {
        match helper_presence(odd, "/s") {
            HelperPresence::Unknown(why) => assert_eq!(why, "/s is a stream socket, not the helper's"),
            other => panic!("{other:?}"),
        }
    }
    match helper_presence(Some(13), "/s") {
        HelperPresence::Unknown(why) => assert_eq!(why, "/s: EACCES: Permission denied"),
        other => panic!("{other:?}"),
    }
}

#[test]
fn a_punch_follows_only_a_clear_answer() {
    assert!(Clearance::Link(Ok(())).clear().is_ok());
    assert!(Clearance::NoLink(HelperPresence::Absent).clear().is_ok());
    let said = |c: Clearance| c.clear().unwrap_err().message();
    assert_eq!(
        said(Clearance::Link(Err(HelperError::NotRunning))),
        "the helper did not clear the ignore mark: the konedrive helper is not running"
    );
    assert_eq!(
        said(Clearance::NoLink(HelperPresence::Present)),
        "a konedrive helper is running and this daemon is not connected to it yet, so the \
         file's ignore mark cannot be cleared"
    );
    assert_eq!(
        said(Clearance::NoLink(HelperPresence::Unknown("why".to_owned()))),
        "cannot tell whether a konedrive helper is running: why"
    );
    assert!(matches!(Clearance::NoLink(HelperPresence::Present).clear(), Err(NotCleared::Unlinked)));
}

fn placed(account: u64, device: u64) -> Placed {
    Placed { account, device: Some(device), unplaced: false }
}

/// The one account whose folder is on the file's filesystem is the answer — a
/// file moved out of its folder included.
#[test]
fn the_one_folder_on_the_files_filesystem_is_taken() {
    let accounts = vec![placed(1, 10), placed(2, 20)];
    assert!(matches!(route(None, Some(10), &accounts), Route::To(1)));
    assert!(matches!(route(None, Some(20), &accounts), Route::To(2)));
    assert!(matches!(route(None, Some(30), &accounts), Route::Nobody));
    assert!(matches!(route(None, None, &accounts), Route::Nobody));
}

/// Two folders on one filesystem are told apart by the name the kernel has for
/// the file, and else by its item id; a file nothing verifies is no one's.
#[test]
fn two_folders_on_one_filesystem_are_verified() {
    let accounts = vec![placed(1, 10), placed(2, 10), placed(3, 20)];
    match route(None, Some(10), &accounts) {
        Route::Verify(candidates) => {
            assert_eq!(candidates, vec![1, 2]);
            assert_eq!(verified(&candidates, &vec![true, false], &vec![false, false]), Some(1));
            assert_eq!(verified(&candidates, &vec![false, true], &vec![true, false]), Some(2), "renamed");
            assert_eq!(verified(&candidates, &vec![false, false], &vec![false, true]), Some(2), "by its item id");
            assert_eq!(verified(&candidates, &vec![false, false], &vec![false, false]), None, "never a guess");
        }
        _ => panic!("taken on trust"),
    }
}

/// With another account's folder not placed, even one candidate is verified.
#[test]
fn one_candidate_is_verified_while_another_folder_is_unplaced() {
    let accounts = vec![placed(1, 10), Placed { account: 2, device: None, unplaced: true }];
    assert!(matches!(route(None, Some(10), &accounts), Route::Verify(c) if c == vec![1]));
}

fn ids(all: &[&str]) -> Vec<String> {
    all.iter().map(|s| s.to_string()).collect()
}

/// The fill of an object that left an account's folder goes to that account, by
/// its item id.
#[test]
fn a_moved_out_object_goes_to_the_account_it_left() {
    let accounts = vec![placed(1, 10), placed(2, 20)];
    let mut moved = MovedOuts::new();
    assert!(matches!(route(moved.by_moved_out("ITEM-A", &vec![1, 2]), Some(20), &accounts), Route::To(2)));
    moved.set_moved_out(1, ids(&["ITEM-A"]), &vec![1, 2]);
    assert!(matches!(route(moved.by_moved_out("ITEM-A", &vec![1, 2]), Some(20), &accounts), Route::To(1)));
    assert!(matches!(route(moved.by_moved_out("ITEM-B", &vec![1, 2]), Some(20), &accounts), Route::To(2)));
    moved.set_moved_out(1, Vec::new(), &vec![1, 2]);
    assert_eq!(moved.by_moved_out("ITEM-A", &vec![1, 2]), None, "the row went");
    moved.set_moved_out(3, ids(&["X"]), &vec![1, 2, 3]);
    moved.set_moved_out(1, ids(&["Y"]), &vec![1, 2]);
    let moved_by = moved.by_moved_out("Y", &vec![2]);
    assert!(matches!(route(moved_by, Some(20), &accounts), Route::To(2)), "its account went: routed by its device");
    assert_eq!((moved.by_moved_out("X", &vec![1, 2]), moved.by_moved_out("Y", &vec![1, 2])), (None, Some(1)), "account 3 went");
}

/// An item id is another account's while that account's outbox waits to fetch
/// it, its tree store knows it, or the id names its drive; never an account's
/// own.
#[test]
fn another_accounts_ids_are_claimed() {
    let mut moved = MovedOuts::new();
    let none = |account: u64| Other { account, store: StoreSays::Nothing };
    assert!(!moved.claimed_elsewhere(&vec![none(1), none(2)], 2, "ITEM-A"), "nothing says so yet");
    moved.set_moved_out(1, ids(&["ITEM-A"]), &vec![1, 2]);
    assert!(moved.claimed_elsewhere(&vec![none(1), none(2)], 2, "ITEM-A"));
    assert!(!moved.claimed_elsewhere(&vec![none(1), none(2)], 1, "ITEM-A"), "never one's own");
    let read = |known: bool| {
        vec![Other { account: 1, store: StoreSays::Read { known, drive: Some("abc123".to_owned()) } }]
    };
    assert!(moved.claimed_elsewhere(&read(true), 2, "ITEM-S"), "its tree knows it");
    assert!(moved.claimed_elsewhere(&read(false), 2, "ABC123!42"), "the id names its drive");
    assert!(!moved.claimed_elsewhere(&read(false), 2, "DEF456!42"));
    assert!(!moved.claimed_elsewhere(&read(false), 2, "abc123"), "no drive is named");
    assert!(!moved.claimed_elsewhere(&read(true), 1, "ITEM-S"));
    let broken = vec![Other { account: 1, store: StoreSays::Unreadable }];
    assert!(moved.claimed_elsewhere(&broken, 2, "ITEM-S"), "a store that cannot be read claims it");
}

fn abs(path: &str) -> AbsPath {
    AbsPath { raw: path.as_bytes().to_vec() }
}

#[test]
fn a_file_is_looked_for_beneath_its_folder() {
    let rel = beneath_root(&abs("/home/u/A/d/f"), &abs("/home/u/A/")).unwrap();
    assert_eq!(rel.parts, vec![b"d".to_vec(), b"f".to_vec()]);
    assert!(beneath_root(&abs("/home/u/A"), &abs("/home/u/A")).is_none());
    assert!(beneath_root(&abs("/home/u/AA/f"), &abs("/home/u/A")).is_none());
}

#[test]
fn folders_that_nest_overlap() {
    let folder = |path: &str, identity: Option<(u64, u64)>| Folder {
        label: format!("label of {path}"),
        path: abs(path),
        identity,
    };
    let folders = vec![folder("/h/A", Some((1, 5))), folder("/h/B", None)];
    assert_eq!(overlapping(&folders, &abs("/h/B/in"), None).as_deref(), Some("label of /h/B"));
    assert_eq!(overlapping(&folders, &abs("/h"), None).as_deref(), Some("label of /h/A"));
    assert_eq!(overlapping(&folders, &abs("/h/AB"), None), None);
    assert_eq!(overlapping(&folders, &abs("/m/A"), Some((1, 5))).as_deref(), Some("label of /h/A"), "another way");
    assert_eq!(overlapping(&folders, &abs("/m/A"), Some((1, 6))), None);
}

#[test]
fn a_link_that_came_up_meanwhile_wins() {
    let mut hub = HelperHub::new();
    assert!(hub.check(HelperState::Stopped));
    assert!(!hub.check(HelperState::Stopped));
    assert!(hub.set_link(true));
    assert!(!hub.check(HelperState::Failed));
    assert_eq!(hub.state, HelperState::Connected);
    assert!(hub.set_link(false));
    assert_eq!(hub.state, HelperState::Unknown);
}

#[test]
fn the_wait_doubles_up_to_the_longest() {
    let mut backoff = Backoff::new(100, 500);
    let waits: Vec<u64> = (0..5).map(|_| backoff.tried(false)).collect();
    assert_eq!(waits, [100, 200, 400, 500, 500]);
    assert_eq!(backoff.tried(true), 100, "a connection resets it");
    assert_eq!(backoff.tried(false), 200);
}

fn trouble(kind: DriveKind) -> DriveError {
    DriveError { kind, text: "said".to_owned() }
}

fn item(url: Option<&str>) -> DriveItem {
    DriveItem {
        deleted: false,
        is_file: true,
        ctag: Some("c1".to_owned()),
        quick_xor: Some(vec![1, 2]),
        download_url: url.map(str::to_owned),
        size: Some(300_000),
        mtime: 1_714_557_600,
    }
}

#[test]
fn a_fetch_tells_the_version_it_read() {
    let mut source = GraphSource::new("I".to_owned());
    assert!(matches!(source.item(Ok(item(Some("/dl/1")))), Ok(Link::At(url)) if url == "/dl/1"));
    match source.download(Ok(100_000)).unwrap_or_else(|_| panic!("it failed")) {
        Downloaded::Done(got) => {
            assert_eq!((got.served_from, got.size, got.mtime), (100_000, 300_000, 1_714_557_600));
            let version = got.version.unwrap();
            assert_eq!((version.ctag.as_str(), version.quick_xor), ("c1", Some(vec![1, 2])));
        }
        Downloaded::AskAgain => panic!("it asked again"),
    }
}

/// A single fetch recovers from an expired link once: metadata is asked again.
#[test]
fn an_expired_download_link_is_asked_for_again_once() {
    let mut source = GraphSource::new("I".to_owned());
    source.item(Ok(item(Some("/dl/1")))).unwrap_or_else(|_| panic!("it failed"));
    assert!(matches!(source.download(Err(trouble(DriveKind::UrlExpired))), Ok(Downloaded::AskAgain)));
    source.item(Ok(item(Some("/dl/2")))).unwrap_or_else(|_| panic!("it failed"));
    match source.download(Err(trouble(DriveKind::UrlExpired))) {
        Err(SourceError::Transient(text)) => assert_eq!(text, "said"),
        _ => panic!("it asked twice"),
    }
}

#[test]
fn without_a_download_url_the_content_link_is_asked_for() {
    let mut source = GraphSource::new("I".to_owned());
    let mut bare = item(None);
    bare.ctag = None;
    bare.size = None;
    assert!(matches!(source.item(Ok(bare)), Ok(Link::Ask)));
    assert_eq!(source.content_url(Ok("/dl/2".to_owned())).unwrap_or_default(), "/dl/2");
    match source.download(Ok(0)) {
        Ok(Downloaded::Done(got)) => assert!(got.version.is_none() && got.size == 0),
        _ => panic!("it failed"),
    }
}

#[test]
fn an_item_gone_from_onedrive_ends_the_fetch_at_once() {
    let mut source = GraphSource::new("I".to_owned());
    assert!(matches!(source.item(Err(trouble(DriveKind::NotFound))), Err(SourceError::NotFound(_))));
    for (deleted, is_file) in [(true, true), (false, false)] {
        let mut gone = item(None);
        gone.deleted = deleted;
        gone.is_file = is_file;
        match source.item(Ok(gone)) {
            Err(SourceError::NotFound(text)) => assert_eq!(text, "I is not a file in OneDrive any more"),
            _ => panic!("it went on"),
        }
    }
    assert!(matches!(source.content_url(Err(trouble(DriveKind::SignedOut))), Err(SourceError::NotFound(_))));
    assert!(matches!(source_error(trouble(DriveKind::UrlExpired)), SourceError::Transient(_)));
    assert_eq!((mtime_of(-5), mtime_of(0), mtime_of(7)), (0, 0, 7));
}
