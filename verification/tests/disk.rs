use konedrive_sync::calendar::civil_from_days;
use konedrive_sync::disk::rescue::{release, rescue_base, rescue_stamp, Release, Rescue, Tried};
use konedrive_sync::disk::scan::{Entry, Locking, Named, Scan, Unlocking};
use konedrive_sync::disk::{
    carries_id, dir_modes, probe, release_modes, usable_id, windowed, DirModes, Modes, Probe, HOLDING, NEW_PREFIX,
};
use konedrive_sync::local::entry::{read, Attrs, Stat, State, StateAttr};
use konedrive_sync::os::Type;
use konedrive_sync::path::{AbsPath, RelPath};

const ENOENT: i32 = 2;
const EIO: i32 = 5;
const EEXIST: i32 = 17;
const EXDEV: i32 = 18;
const ENOTDIR: i32 = 20;

const DIR: u32 = 0o040755;
const FILE: u32 = 0o100644;

fn abs(path: &str) -> AbsPath {
    AbsPath { raw: path.as_bytes().to_vec() }
}

fn text(path: &AbsPath) -> String {
    String::from_utf8(path.raw.clone()).unwrap()
}

/// Rescues go where the user expects them whenever a rename can get them
/// there: the preferred place, not yet made, on the root's filesystem.
#[test]
fn the_rescue_base_is_the_preferred_one_on_the_roots_filesystem() {
    let preferred = abs("/data/konedrive/rescued");
    let base = rescue_base(&abs("/home/u/OneDrive"), &preferred, Some(7), &vec![None, None, Some(7), Some(1)]);
    assert_eq!(text(&base), text(&preferred));
}

/// On another filesystem a rescue would need a copy; it goes beside the root
/// instead, where one rename reaches.
#[test]
fn the_rescue_base_is_beside_the_root_when_the_preferred_one_is_on_another_filesystem() {
    let preferred = abs("/data/konedrive/rescued");
    let base = rescue_base(&abs("/home/u/OneDrive"), &preferred, Some(7), &vec![None, None, Some(8), Some(7)]);
    assert_eq!(text(&base), "/home/u/.konedrive-rescued-OneDrive");
}

#[test]
fn a_root_that_cannot_be_looked_at_or_has_no_parent_keeps_the_preferred_base() {
    let preferred = abs("/data/rescued");
    assert_eq!(text(&rescue_base(&abs("/r"), &preferred, None, &vec![Some(1)])), "/data/rescued");
    assert_eq!(text(&rescue_base(&abs("/"), &preferred, Some(1), &vec![Some(2)])), "/data/rescued");
    assert_eq!(text(&rescue_base(&abs("/r"), &preferred, Some(1), &vec![])), "/.konedrive-rescued-r");
    assert_eq!(text(&rescue_base(&abs("u/r"), &preferred, Some(1), &vec![])), "u/.konedrive-rescued-r");
    assert_eq!(text(&rescue_base(&abs("r"), &preferred, Some(1), &vec![])), ".konedrive-rescued-r");
    assert_eq!(text(&rescue_base(&abs("u/.."), &preferred, Some(1), &vec![])), "/data/rescued");
}

/// An item id becomes a name in the holding directory, so an id that cannot be
/// one is never taken for ours.
#[test]
fn an_item_id_that_cannot_be_a_file_name_is_not_ours() {
    for id in [&b""[..], b".", b"..", b"a/b", b"a\0b"] {
        let found = probe(Ok(FILE), Some(id.to_vec())).unwrap();
        assert!(matches!(found, Probe::Unmanaged { is_dir: false }), "{id:?}");
        let attrs = Attrs { id: Some(id.to_vec()), state: StateAttr::Absent, stamp: None, ctag: None };
        let entry = read(&RelPath::root(), b"f", Ok(stat(FILE)), Ok(attrs), None).unwrap().unwrap();
        assert_eq!(entry.id, None, "{id:?}");
    }
    let found = probe(Ok(DIR), Some(b"..".to_vec())).unwrap();
    assert!(matches!(found, Probe::Unmanaged { is_dir: true }));
    match probe(Ok(FILE), Some(b"8F6C!101".to_vec())).unwrap() {
        Probe::Managed { id, is_dir } => assert_eq!((id.as_str(), is_dir), ("8F6C!101", false)),
        other => panic!("{other:?}"),
    }
    assert!(usable_id("a.b") && usable_id("...") && !usable_id(".."));
}

#[test]
fn a_probe_reads_what_a_name_is() {
    assert!(matches!(probe(Err(ENOENT), None), Ok(Probe::Absent)));
    assert!(matches!(probe(Err(EIO), None), Err(EIO)));
    assert!(matches!(probe(Ok(0o120777), Some(b"ID".to_vec())), Ok(Probe::Unmanaged { is_dir: false })));
    assert!(matches!(probe(Ok(DIR), None), Ok(Probe::Unmanaged { is_dir: true })));
    // What is not UTF-8 is read as far as it is.
    match probe(Ok(FILE), Some(vec![b'a', 0xff])) {
        Ok(Probe::Managed { id, .. }) => assert_eq!(id, "a\u{fffd}"),
        other => panic!("{other:?}"),
    }
    assert!(carries_id(DIR) && carries_id(FILE) && !carries_id(0o010644));
    assert!(probe(Ok(DIR), None).unwrap().is_dir() && !Probe::Absent.is_dir());
    assert_eq!((HOLDING, NEW_PREFIX), (".konedrive-holding", ".konedrive-new-"));
}

fn stat(mode: u32) -> Stat {
    Stat { mode, dev: 1, ino: 2, nlink: 1, size: 3, mtime_sec: 4, mtime_nsec: 5 }
}

fn attrs() -> Attrs {
    Attrs {
        id: Some(b"ID".to_vec()),
        state: StateAttr::Known(State::Hydrated),
        stamp: None,
        ctag: Some(b"c1".to_vec()),
    }
}

#[test]
fn an_entry_is_what_was_read_of_it() {
    let dir = RelPath::of("docs");
    let entry = read(&dir, b"a", Ok(stat(FILE)), Ok(attrs()), None).unwrap().unwrap();
    assert_eq!((entry.id.as_deref(), entry.ctag.as_deref(), entry.ty), (Some("ID"), Some("c1"), Type::File));
    assert_eq!(entry.rel.parts, vec![b"docs".to_vec(), b"a".to_vec()]);
    assert!(entry.hydrated() && entry.same_object(&entry));
    // Only a file or a directory has attributes.
    let link = read(&dir, b"l", Ok(stat(0o120777)), Ok(attrs()), None).unwrap().unwrap();
    assert_eq!((link.id, link.state, link.ty), (None, StateAttr::Absent, Type::Symlink));
    let link = read(&dir, b"l", Ok(stat(0o120777)), Err(EIO), None).unwrap();
    assert!(link.is_some());
    // Nothing there, or nothing any more.
    assert!(read(&dir, b"a", Err(ENOENT), Err(ENOENT), None).unwrap().is_none());
    assert!(read(&dir, b"a", Err(ENOTDIR), Ok(attrs()), None).unwrap().is_none());
    assert!(read(&dir, b"a", Ok(stat(FILE)), Err(ENOENT), None).unwrap().is_none());
    assert!(matches!(read(&dir, b"a", Err(EIO), Ok(attrs()), None), Err(EIO)));
    assert!(matches!(read(&dir, b"a", Ok(stat(FILE)), Err(EIO), None), Err(EIO)));
}

/// Whatever is already at the destination stays, and the file goes to the next
/// free `.<n>` name.
#[test]
fn a_rescue_goes_on_to_the_next_free_name() {
    let (into, shown) = (abs("/k"), RelPath::of("docs/f.txt"));
    let mut rescue = Rescue::new();
    let mut tried: Vec<String> = Vec::new();
    for _ in 0..3 {
        let dest = rescue.dest(&into, &shown);
        tried.push(text(&dest));
        assert!(matches!(rescue.failed(EEXIST, "/r/docs/f.txt", &dest.display()), Tried::Again));
    }
    assert_eq!(tried, ["/k/docs/f.txt", "/k/docs/f.txt.1", "/k/docs/f.txt.2"]);
}

/// Across filesystems the rescue fails, naming both paths.
#[test]
fn a_rescue_across_filesystems_fails_and_names_both_paths() {
    let mut rescue = Rescue::new();
    match rescue.failed(EXDEV, "/r/f.txt", "/k/docs/f.txt") {
        Tried::Failed(message) => assert_eq!(
            message,
            "/r/f.txt cannot be rescued to /k/docs/f.txt: they are on different filesystems, \
             and a rescue is never a copy; it is left where it is"
        ),
        _ => panic!("it went on"),
    }
    assert!(matches!(rescue.failed(EIO, "/r/f.txt", "/k/f.txt"), Tried::Error(EIO)));
    assert_eq!(rescue.n, 0);
}

#[test]
fn only_our_empty_files_inside_a_rescue_are_removed() {
    let ours = Probe::Managed { id: "A".to_owned(), is_dir: false };
    for state in [State::OnlineOnly, State::Hydrating, State::Dehydrating] {
        assert_eq!(release(&ours, Some(state), true), Release::Remove);
        assert_eq!(release(&ours, Some(state), false), Release::File);
        assert_eq!(release(&Probe::Unmanaged { is_dir: false }, Some(state), true), Release::File);
    }
    assert_eq!(release(&ours, Some(State::Hydrated), true), Release::File);
    assert_eq!(release(&ours, None, true), Release::File);
    assert_eq!(release(&Probe::Managed { id: "D".to_owned(), is_dir: true }, None, true), Release::Directory);
    assert_eq!(release(&Probe::Unmanaged { is_dir: true }, None, false), Release::Directory);
    assert_eq!(release(&Probe::Absent, None, true), Release::Nothing);
}

#[test]
fn a_day_has_its_date() {
    assert_eq!(civil_from_days(0), (1970, 1, 1));
    assert_eq!(civil_from_days(-1), (1969, 12, 31));
    assert_eq!(civil_from_days(11_016), (2000, 2, 29));
    assert_eq!(civil_from_days(11_017), (2000, 3, 1));
    assert_eq!(civil_from_days(-25_509), (1900, 2, 28));
    assert_eq!(civil_from_days(-25_508), (1900, 3, 1));
    assert_eq!(civil_from_days(-719_468), (0, 3, 1));
    assert_eq!(rescue_stamp(Some(1_709_251_199)), "2024-02-29T23-59-59Z");
    assert_eq!(rescue_stamp(None), "1970-01-01T00-00-00Z");
    assert_eq!(rescue_stamp(Some(253_402_300_800)), "10000-01-01T00-00-00Z");
}

#[test]
fn only_the_outermost_window_takes_the_lock() {
    let mut modes = DirModes { held: 0 };
    assert!(dir_modes(&mut modes));
    assert!(!dir_modes(&mut modes));
    assert!(!release_modes(&mut modes));
    assert!(release_modes(&mut modes));
}

#[test]
fn a_changes_own_error_goes_before_the_locks() {
    assert_eq!(windowed(Ok(3u8), Ok(())), Ok(3));
    assert_eq!(windowed(Ok(3u8), Err(1)), Err(1));
    assert_eq!(windowed(Err::<u8, i32>(2), Err(1)), Err(2));
    assert_eq!(windowed(Err::<u8, i32>(2), Ok(())), Err(2));
}

#[test]
fn a_mode_is_enforced_once() {
    let modes = Modes { locked_dir: 0o555, locked_file: 0o444, open_dir: 0o755, open_file: 0o644 };
    assert_eq!(modes.enforce_mode(true, DIR), Some(0o555));
    assert_eq!(modes.enforce_mode(true, 0o040555), None);
    assert_eq!(modes.enforce_mode(true, FILE), Some(0o444));
    assert_eq!(modes.enforce_mode(true, 0o120777), None);
    assert_eq!(modes.enforce_mode(false, FILE), None);
}

fn named(name: &str, what: Probe) -> Named {
    Named { name: name.as_bytes().to_vec(), what }
}

fn managed(id: &str, is_dir: bool) -> Probe {
    Probe::Managed { id: id.to_owned(), is_dir }
}

#[test]
fn a_scan_finds_everything_with_its_id_and_its_directorys() {
    let mut scan = Scan::new("R", 2);
    let root = scan.next_dir().unwrap();
    scan.seen(
        &root,
        &vec![
            named("d", managed("D", true)),
            named("gone", Probe::Absent),
            named("own", Probe::Unmanaged { is_dir: true }),
        ],
    );
    let own = scan.next_dir().unwrap();
    assert_eq!((own.rel.parts.clone(), own.id.clone()), (vec![b"own".to_vec()], None));
    scan.seen(&own, &vec![named("f", managed("F", false)), named("deep", managed("X", true))]);
    let d = scan.next_dir().unwrap();
    assert_eq!(d.id.as_deref(), Some("D"), "what is too deep is passed over");
    scan.seen(&d, &vec![named("g", Probe::Unmanaged { is_dir: false })]);
    assert!(scan.next_dir().is_none());
    let found: Vec<(usize, Option<String>, Option<String>, bool)> =
        scan.done().into_iter().map(|s| (s.depth, s.id, s.parent_id, s.is_dir)).collect();
    let some = |t: &str| Some(t.to_owned());
    assert_eq!(
        found,
        vec![
            (1, some("D"), some("R"), true),
            (1, None, some("R"), true),
            (2, some("F"), None, false),
            (2, some("X"), None, true),
            (2, None, some("D"), false),
        ]
    );
}

fn looked(name: &str, ty: Option<Type>) -> Entry {
    Entry { name: name.as_bytes().to_vec(), ty }
}

#[test]
fn the_root_is_unlocked_only_when_every_entry_was() {
    let mut walk = Unlocking::new();
    let root = walk.next_dir().unwrap();
    let files = walk.seen(
        &root,
        &vec![
            looked("a", Some(Type::File)),
            looked("d", Some(Type::Dir)),
            looked("l", Some(Type::Symlink)),
            looked("b", Some(Type::File)),
        ],
    );
    assert_eq!(files, vec![0, 3]);
    assert!(walk.end().is_err(), "nothing is answered for yet");
    walk.file(true);
    walk.file(true);
    assert_eq!(walk.next_dir().unwrap().parts, vec![b"d".to_vec()]);
    assert!(walk.seen(&RelPath::of("d"), &vec![looked("l", Some(Type::Symlink))]).is_empty());
    assert!(walk.next_dir().is_none());
    assert!(walk.end().is_ok());
}

/// What cannot be changed is counted, and passed over.
#[test]
fn an_entry_that_cannot_be_unlocked_keeps_the_root_locked() {
    let mut walk = Unlocking::new();
    let root = walk.next_dir().unwrap();
    let entries = vec![looked("a", Some(Type::File)), looked("d", Some(Type::Dir)), looked("b", Some(Type::File))];
    walk.seen(&root, &entries);
    walk.file(false);
    walk.file(true);
    assert_eq!(walk.next_dir().unwrap().parts, vec![b"d".to_vec()]);
    walk.seen(&RelPath::of("d"), &vec![looked("x", None), looked("e", Some(Type::Dir))]);
    assert_eq!(walk.next_dir().unwrap().parts, vec![b"d".to_vec(), b"e".to_vec()]);
    walk.fail();
    assert!(walk.room(usize::MAX - 3) && !walk.room(usize::MAX - 2), "three are counted");
    assert!(walk.next_dir().is_none());
    assert_eq!(walk.end().unwrap_err(), "3 entries could not be unlocked; the folder itself stays locked");
}

#[test]
fn only_what_carries_an_id_is_locked() {
    let mut walk = Locking::new();
    let root = walk.next_dir().unwrap();
    let lock = walk.seen(
        &root,
        &vec![
            named("own", Probe::Unmanaged { is_dir: true }),
            named("d", managed("D", true)),
            named("f", managed("F", false)),
            named("gone", Probe::Absent),
        ],
    );
    assert_eq!(lock, vec![1, 2]);
    assert_eq!(walk.next_dir().unwrap().parts, vec![b"d".to_vec()]);
    assert!(walk.next_dir().is_none());
}
