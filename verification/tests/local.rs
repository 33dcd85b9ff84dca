use konedrive_sync::local::batch::{Batch, DirScope};
use konedrive_sync::local::ignore::IgnoreList;
use konedrive_sync::local::liveness::{
    absent_below, answered, fs_uuid, handle_namespace, handles, handles_current, renew_handles, Answer, Found, Handles,
    Liveness, NoLiveness, Renewal, Standing, Unanswered, Whereabouts,
};
use konedrive_sync::local::names::{refused, Refused, MAX_FILE_SIZE};
use konedrive_sync::local::order::{order_of, PlaceKey, Slot};
use konedrive_sync::local::{record_replaced, snapshot, CEILING, QUIET};
use konedrive_sync::path::{AbsPath, RelPath};
use konedrive_sync::tree::{FileHandle, Inode, OutboxKind, OutboxRow, OutboxState};

fn rel(path: &str) -> RelPath {
    RelPath::of(path)
}

fn scope(batch: &Batch, dir: &str) -> Option<Vec<String>> {
    match batch.dirs.get(&rel(dir)).unwrap() {
        DirScope::Whole => None,
        DirScope::Names(names) => Some(names.iter().map(|n| String::from_utf8(n.clone()).unwrap()).collect()),
    }
}

fn gathered(part: usize) -> Batch {
    let mut batch = Batch::new();
    match part {
        0 => {
            batch.name(&rel("d"), b"b");
            batch.written(&rel("d"), b"b", Some(FileHandle { bytes: vec![2] }));
        }
        1 => {
            batch.name(&rel("d"), b"a");
            batch.object(FileHandle { bytes: vec![1] });
            batch.tree(&rel("t"));
        }
        _ => {
            batch.name(&rel("d"), b"b");
            batch.dir(&rel("e"));
        }
    }
    batch
}

#[test]
fn batches_merge_in_any_order_to_the_same() {
    let mut all = Vec::new();
    for order in [[0, 1, 2], [2, 1, 0], [1, 0, 2], [1, 2, 0]] {
        let mut batch = Batch::new();
        for part in order {
            batch.merge(gathered(part));
        }
        batch.merge(gathered(order[0]));
        all.push(format!("{batch:?}"));
        assert_eq!(scope(&batch, "d"), Some(vec!["a".to_owned(), "b".to_owned()]));
        assert_eq!(scope(&batch, "e"), None);
    }
    let mut right = gathered(1);
    right.merge(gathered(2));
    let mut batch = gathered(0);
    batch.merge(right);
    all.push(format!("{batch:?}"));
    assert!(all.iter().all(|one| *one == all[0]), "{all:?}");
}

#[test]
fn names_gather_per_directory_and_a_whole_directory_wins() {
    let mut batch = Batch::new();
    assert!(batch.is_empty());
    batch.name(&rel("d"), b"a");
    batch.name(&rel("d/e"), b".");
    batch.name(&rel(""), b".");
    assert_eq!(scope(&batch, "d"), Some(vec!["a".to_owned(), "e".to_owned()]));
    assert_eq!(batch.dirs.len(), 1, "the root's own event is not a change");
    let mut other = Batch::new();
    other.dir(&rel("d"));
    batch.merge(other);
    batch.name(&rel("d"), b"b");
    assert_eq!(scope(&batch, "d"), None);
}

#[test]
fn a_merged_batch_holds_what_both_held() {
    let mut a = Batch::new();
    a.name(&rel("d"), b"x");
    a.tree(&rel("t"));
    let mut b = Batch::full();
    b.name(&rel("d"), b"a");
    b.object(FileHandle { bytes: vec![1] });
    b.written(&rel("e"), b"w", Some(FileHandle { bytes: vec![2] }));
    a.merge(b);
    assert!(a.is_full() && !a.is_empty());
    assert_eq!(scope(&a, "d"), Some(vec!["a".to_owned(), "x".to_owned()]));
    assert_eq!(scope(&a, "e"), Some(vec!["w".to_owned()]));
    assert_eq!((a.trees.len(), a.objects.len(), a.written_handles.len(), a.written_rels.len()), (1, 2, 1, 1));
}

fn ignored(name: &str) -> bool {
    IgnoreList::default().matches(name.as_bytes())
}

#[test]
fn the_defaults_catch_editors_temporary_files_and_nothing_else() {
    for name in [
        ".report.txt.swp",
        "notes.txt~",
        ".~lock.budget.ods#",
        "~$budget.xlsx",
        "#draft.org#",
        ".#draft.org",
        ".goutputstream-ABC123",
        "file.kate-swp",
        "movie.mkv.part",
        "setup.exe.crdownload",
        "lu12345abc.tmp",
        ".fuse_hidden0001",
        ".nfs000123",
    ] {
        assert!(ignored(name), "{name}");
    }
    for name in ["report.txt", "swp", "a.swp.txt", "~notes", "lock.budget.ods#", "draft#", "tmp"] {
        assert!(!ignored(name), "{name}");
    }
}

fn list(patterns: &[&str]) -> IgnoreList {
    IgnoreList::new(patterns.iter().map(|p| p.to_string()).collect())
}

#[test]
fn globs_have_classes_escapes_and_are_case_sensitive() {
    let some = list(&["[a-c]?.log", "[!x]z", "\\*star", "*.TMP"]);
    assert!(some.matches(b"b1.log"));
    assert!(!some.matches(b"d1.log"));
    assert!(some.matches(b"yz") && !some.matches(b"xz"));
    assert!(some.matches(b"*star") && !some.matches(b"astar"));
    assert!(some.matches(b"A.TMP") && !some.matches(b"a.tmp"));
    assert!(list(&["[unclosed"]).matches(b"[unclosed"));
    assert!(list(&["a*b*c"]).matches(b"aXbYbZc"));
    assert!(!list(&[]).matches(b"x.swp"));
}

#[test]
fn odd_globs_mean_what_they_say() {
    assert!(list(&["[]]"]).matches(b"]") && list(&["[!]]"]).matches(b"a"));
    assert!(list(&["[a-]"]).matches(b"-") && list(&["x\\"]).matches(b"x\\"));
    assert!(list(&["*"]).matches(b"") && list(&["***"]).matches(b"any"));
    assert!(!list(&["?"]).matches(b"") && !list(&["a"]).matches(b"aa"));
    assert!(list(&["caf\u{fffd}"]).matches(b"caf\xe9"), "a name that is not UTF-8 is matched as it reads");
    let own = IgnoreList::configured(Some(vec!["x".to_owned()]));
    assert_eq!(own.patterns(), &vec!["x".to_owned()]);
    assert_eq!(IgnoreList::configured(None).patterns().len(), 15);
}

#[test]
fn a_pattern_that_cannot_be_one_is_told() {
    assert_eq!(IgnoreList::invalid(" \t"), Some("a pattern cannot be empty"));
    assert_eq!(IgnoreList::invalid("a/b"), Some("a pattern matches a name, not a path: it cannot hold '/'"));
    assert_eq!(IgnoreList::invalid("a\0"), Some("a pattern cannot hold a NUL"));
    assert_eq!(
        IgnoreList::invalid(&"é".repeat(128)),
        Some("a pattern cannot be longer than a name (255 bytes)")
    );
    assert_eq!(IgnoreList::invalid(&"a".repeat(255)), None);
}

#[test]
fn names_onedrive_refuses_are_found_and_others_pass() {
    let cases = [
        ("a:b.txt", Some(Refused::Characters)),
        ("what?", Some(Refused::Characters)),
        ("pipe|.txt", Some(Refused::Characters)),
        (" lead", Some(Refused::Spaces)),
        ("trail ", Some(Refused::Spaces)),
        ("CON", Some(Refused::Reserved)),
        ("com7", Some(Refused::Reserved)),
        ("LPT0", Some(Refused::Reserved)),
        ("Desktop.ini", Some(Refused::Reserved)),
        (".lock", Some(Refused::Reserved)),
        ("my_vti_file", Some(Refused::Reserved)),
        ("~$doc.docx", Some(Refused::Reserved)),
        ("CON.txt", None),
        ("COM10", None),
        ("console", None),
        ("Отчёт 2024.docx", None),
        ("a b", None),
        (".hidden", None),
    ];
    for (name, expected) in cases {
        assert_eq!(refused(name.as_bytes()), expected, "{name:?}");
    }
    assert_eq!(refused(b"caf\xe9"), Some(Refused::NotUtf8));
}

#[test]
fn the_case_of_a_name_does_not_matter_and_characters_come_first() {
    for name in ["con", "CON", "Con", "com7", "COM7", "DESKTOP.INI", "desktop.ini", ".LOCK", "MY_VTI_FILE"] {
        assert_eq!(refused(name.as_bytes()), Some(Refused::Reserved), "{name:?}");
    }
    for name in [" a?", "a: ", "~$a*", "my_vti_<"] {
        assert_eq!(refused(name.as_bytes()), Some(Refused::Characters), "{name:?}");
    }
}

#[test]
fn every_refusal_has_its_code() {
    let codes = [Refused::Characters, Refused::Spaces, Refused::Reserved, Refused::NotUtf8, Refused::TooLarge];
    let codes: Vec<&str> = codes.into_iter().map(Refused::as_str).collect();
    assert_eq!(codes, ["name-characters", "name-spaces", "name-reserved", "name-not-utf8", "too-large"]);
    assert_eq!(MAX_FILE_SIZE, 250 << 30);
}

#[test]
fn a_snapshot_is_the_size_and_the_time() {
    assert_eq!(snapshot(5, 1_700_000_000, 7), "5 1700000000000000007");
    assert_eq!(snapshot(0, -1, 5), "0 -999999995");
    assert_eq!(snapshot(u64::MAX, i64::MAX, 0), "18446744073709551615 9223372036854775807000000000");
    assert_eq!((QUIET, CEILING), (2000, 30_000));
}

fn handle(n: u8) -> FileHandle {
    FileHandle { bytes: vec![n] }
}

#[test]
fn only_a_stale_handle_is_gone() {
    let at = || AbsPath { raw: b"/r/a".to_vec() };
    assert!(matches!(answered(Answer::Object { path: at(), same_place: true }), Ok(Whereabouts::At(p)) if p.raw == b"/r/a"));
    assert!(matches!(answered(Answer::Object { path: at(), same_place: false }), Err(Unanswered::Elsewhere)));
    assert!(matches!(answered(Answer::Refused(116)), Ok(Whereabouts::Gone)));
    assert!(matches!(answered(Answer::Refused(1)), Err(Unanswered::Refused(1))));
    assert!(matches!(answered(Answer::Failed), Err(Unanswered::Failed)));
    assert!(matches!(NoLiveness.whereabouts(&handle(1)), Err(Unanswered::NoHelper)));
}

#[test]
fn a_stale_handle_needs_evidence() {
    assert!(absent_below(&Standing::NoDir(2), &handle(1)));
    assert!(absent_below(&Standing::NoHandle(20), &handle(1)));
    assert!(absent_below(&Standing::There(handle(2)), &handle(1)));
    assert!(!absent_below(&Standing::There(handle(1)), &handle(1)));
    assert!(!absent_below(&Standing::NoHandle(5), &handle(1)));
    assert!(!absent_below(&Standing::NoDir(13), &handle(1)));
}

#[test]
fn the_filesystem_is_named_by_its_root_and_uuid() {
    let mut buf = vec![2u8, 0xab, 0x01];
    buf.resize(17, 9);
    assert_eq!(fs_uuid(true, &buf), Some(vec![0xab, 0x01]));
    assert_eq!(fs_uuid(false, &buf), None);
    assert_eq!(fs_uuid(true, &[0u8; 17]), None);
    let root = FileHandle { bytes: vec![0x0f, 0xf0] };
    assert_eq!(handle_namespace(&root, Some(vec![0xab])), "root:0ff0;uuid:ab");
    assert_eq!(handle_namespace(&root, None), "root:0ff0");
}

#[test]
fn handles_are_current_only_on_their_filesystem() {
    let t = |s: &str| s.to_owned();
    assert!(matches!(handles(Some(t("a")), Some(Some(t("a")))), Handles::Current));
    assert!(matches!(handles(Some(t("b")), Some(Some(t("a")))), Handles::Changed(now) if now == "b"));
    assert!(matches!(handles(Some(t("b")), Some(None)), Handles::Unrecorded(now) if now == "b"));
    assert!(matches!(handles(None, Some(None)), Handles::Unknown));
    assert!(matches!(handles(Some(t("b")), None), Handles::Unknown));
    assert!(handles_current(&Handles::Current, false));
    assert!(handles_current(&Handles::Unrecorded(t("b")), true) && !handles_current(&Handles::Unrecorded(t("b")), false));
    assert!(!handles_current(&Handles::Changed(t("b")), true) && !handles_current(&Handles::Unknown, true));
}

fn row(kind: OutboxKind, id: Option<&str>, went: Option<&str>) -> OutboxRow {
    OutboxRow {
        seq: 1,
        kind,
        item_id: id.map(str::to_owned),
        inode: None,
        rel: rel("a"),
        base: None,
        target_parent: None,
        target_name: went.map(str::to_owned),
        state: OutboxState::Ready,
        reason: None,
        next_try: None,
        snapshot: None,
        confirmed: false,
    }
}

fn found(id: &str) -> Option<Found> {
    Some(Found { carries: Some(id.as_bytes().to_vec()), inode: Inode { dev: 1, ino: 9, handle: None } })
}

#[test]
fn a_move_out_is_renewed_where_it_was_proved_or_dropped() {
    let rows = vec![
        row(OutboxKind::MoveOut, Some("A"), Some("/out/a")),
        row(OutboxKind::MoveOut, Some("A"), Some("/out/a")),
        row(OutboxKind::MoveOut, Some("A"), Some("out/a")),
        row(OutboxKind::MoveOut, Some("A"), None),
        row(OutboxKind::Delete, Some("A"), Some("/out/a")),
        row(OutboxKind::MoveOut, None, Some("/out/a")),
    ];
    let (renewals, dropped) =
        renew_handles(&rows, vec![found("A"), found("B"), found("A"), None, found("A"), found("A")]);
    assert!(matches!(&renewals[0], Renewal::Amend(i) if i.ino == 9));
    assert!(matches!((&renewals[1], &renewals[2], &renewals[3]), (Renewal::Drop, Renewal::Drop, Renewal::Drop)));
    assert!(matches!((&renewals[4], &renewals[5]), (Renewal::Keep, Renewal::Keep)));
    assert_eq!(dropped, 3);
}

/// A replacement's new object is recorded only while it still stands there.
#[test]
fn a_replacement_is_recorded_where_the_item_still_stands() {
    let there = Some(b"F1".to_vec());
    let (dir, name) = record_replaced("F1", &RelPath::of("docs/f.txt"), &there).unwrap();
    assert_eq!((dir.parts, name), (vec![b"docs".to_vec()], b"f.txt".to_vec()));
    assert!(record_replaced("F2", &RelPath::of("docs/f.txt"), &there).is_none());
    assert!(record_replaced("F1", &RelPath::of("docs/f.txt"), &None).is_none());
    assert!(record_replaced("F1", &RelPath::root(), &there).is_none());
}

fn place(parent: &str, name: &str) -> Option<PlaceKey> {
    Some(PlaceKey { parent: parent.to_owned(), name: name.to_owned() })
}

/// What frees a name is written before what takes it, then shallowest first, in
/// the order found.
#[test]
fn rows_that_free_a_name_are_written_first() {
    let slots = vec![
        Slot { depth: 2, frees: None, takes: place("D", "x") },
        Slot { depth: 1, frees: None, takes: place("R", "a") },
        Slot { depth: 3, frees: place("R", "a"), takes: place("D", "y") },
        Slot { depth: 1, frees: None, takes: None },
    ];
    assert_eq!(order_of(&slots), vec![3, 0, 2, 1]);
}

/// Two items that swap names would wait for each other for ever: the shallowest
/// goes first.
#[test]
fn a_circle_of_names_is_broken_at_its_first_row() {
    let slots = vec![
        Slot { depth: 2, frees: place("R", "a"), takes: place("R", "b") },
        Slot { depth: 1, frees: place("R", "b"), takes: place("R", "a") },
        Slot { depth: 1, frees: place("D", "a"), takes: None },
    ];
    assert_eq!(order_of(&slots), vec![2, 1, 0]);
    assert!(order_of(&Vec::new()).is_empty());
}

#[test]
fn a_name_read_as_text_is_matched_by_every_pattern() {
    let own = list(&["*.tmp", "~$*"]);
    assert!(own.matches_text("a.tmp") && own.matches_text("~$b.docx"));
    assert!(!own.matches_text("a.txt"));
    assert!(own.matches(b"\xff.tmp"));
}
