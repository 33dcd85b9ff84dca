use konedrive_sync::activity::log::{conflicts, inside, Activity, ConflictRow};
use konedrive_sync::activity::space::{local_bytes, measured, reserved, Walk, WalkEntry};
use konedrive_sync::activity::transfers::{read_on, Transfers};
use konedrive_sync::activity::{
    capped, capped_at, event, failure_reason, human_size, items, Event, Kind, NO_DISK_SPACE, PER_KIND, SPACE_SPACING,
};
use konedrive_sync::clock::{unix_now, unix_of};
use konedrive_sync::os::Type;

fn event_at(kind: &str, path: &str) -> Event {
    Event { at: 1, kind: kind.into(), path: path.into(), detail: String::new() }
}

/// The cap on its own: the first `per_kind` of each kind in the order they
/// came, then one "and N more" per kind that had more.
#[test]
fn capped_keeps_the_first_of_each_kind_and_counts_the_rest() {
    let mut events: Vec<Event> = (0..4).map(|n| event_at("added", &format!("/r/a{n}"))).collect();
    events.push(event_at("removed", "/r/x"));
    events.extend((4..6).map(|n| event_at("added", &format!("/r/a{n}"))));
    let out = capped(events, 3, "/r");
    let shown: Vec<_> = out.iter().map(|e| (e.kind.as_str(), e.path.as_str(), e.detail.as_str())).collect();
    assert_eq!(
        shown,
        vec![
            ("added", "/r/a0", ""),
            ("added", "/r/a1", ""),
            ("added", "/r/a2", ""),
            ("removed", "/r/x", ""),
            ("added", "/r", "and 3 more"),
        ]
    );
}

#[test]
fn the_event_saying_how_many_more_is_of_the_time_given() {
    let out = capped_at(vec![event_at("added", "/r/a"), event_at("added", "/r/b")], 0, "/r", 77);
    assert_eq!(out.len(), 1);
    assert_eq!((out[0].at, out[0].detail.as_str()), (77, "and 2 more"));
    assert_eq!(PER_KIND, 50);
}

fn recorded(path: &str) -> Event {
    event(Kind::Downloaded, path.to_owned(), "1 B".to_owned())
}

/// An event of the folder registered before is not carried into the store of
/// the one attached now.
#[test]
fn an_event_of_another_folder_is_not_carried_into_the_one_attached() {
    let mut activity = Activity::new(200);
    activity.record_blocking(vec![recorded("/a/f.bin")], "/a");
    activity.record_blocking(vec![recorded("/b/g.bin")], "/b");
    let moved = activity.attach(b"/b");
    let paths: Vec<String> = moved.into_iter().map(|e| e.path).collect();
    assert_eq!(paths, vec!["/b/g.bin".to_owned()]);
    assert!(activity.recent(10).is_none(), "the store is asked from now on");
}

/// Every path begins with no components at all.
#[test]
fn an_empty_root_carries_everything_over() {
    let mut activity = Activity::new(200);
    activity.record_blocking(vec![recorded("/a/f.bin")], "/a");
    activity.record_blocking(vec![recorded("/b/g.bin")], "/b");
    assert_eq!(activity.attach(b"").len(), 2);
}

/// Nothing recorded before the store is attached is lost, nor what is recorded
/// after.
#[test]
fn nothing_recorded_around_an_attach_is_lost() {
    let mut activity = Activity::new(200);
    activity.record_blocking((0..100).map(|n| recorded(&format!("/r/held{n}"))).collect(), "/r");
    activity.record_blocking((0..50).map(|n| recorded(&format!("/r/live{n}"))).collect(), "/r");
    let mut kept: Vec<String> = activity.attach(b"/r").into_iter().map(|e| e.path).collect();
    let after = activity.record_blocking((50..60).map(|n| recorded(&format!("/r/live{n}"))).collect(), "/r");
    kept.extend(after.into_iter().map(|e| e.path));
    let mut want: Vec<String> = (0..100).map(|n| format!("/r/held{n}")).collect();
    want.extend((0..60).map(|n| format!("/r/live{n}")));
    assert_eq!(kept, want);
}

#[test]
fn memory_keeps_the_newest_and_a_detach_forgets_them() {
    let mut activity = Activity::new(3);
    activity.record_blocking(vec![recorded("/r/a"), recorded("/elsewhere"), recorded("/r/b")], "/r");
    activity.record_blocking(vec![recorded("/r/c"), recorded("/r/d")], "/r");
    let paths = |a: &Activity, n: usize| -> Vec<String> {
        a.recent(n).unwrap().into_iter().map(|e| e.path).collect()
    };
    assert_eq!(paths(&activity, 10), ["/r/d", "/r/c", "/r/b"]);
    assert_eq!(paths(&activity, 1), ["/r/d"]);
    activity.record_blocking((0..9).map(|n| recorded(&format!("/r/{n}"))).collect(), "/r");
    assert_eq!(paths(&activity, 10), ["/r/8", "/r/7", "/r/6"]);
    assert!(activity.record_blocking(vec![recorded("/r/x")], "").is_empty(), "nothing is inside no folder");
    activity.detach();
    assert!(paths(&activity, 10).is_empty());
}

#[test]
fn a_path_is_inside_by_whole_names() {
    assert!(inside("/r", "/r/a"));
    assert!(inside("/r", "/r"));
    assert!(inside("/r/", "/r//a/./b"));
    assert!(!inside("/r", "/ra"));
    assert!(!inside("/r", "r/a"));
    assert!(!inside("", "/r/a"));
    assert!(!inside("/r/a", "/r"));
}

#[test]
fn a_conflict_whose_file_is_gone_drops_off() {
    let row = |n: i64| ConflictRow { at: n, original: format!("/r/{n}"), rescued: format!("/k/{n}") };
    let (kept, dropped) = conflicts(vec![row(1), row(2), row(3)], &vec![false, true, false]);
    let kept: Vec<i64> = kept.iter().map(|r| r.at).collect();
    assert_eq!((kept, dropped), (vec![1, 3], vec!["/k/2".to_owned()]));
}

#[test]
fn every_kind_has_its_name() {
    let names: Vec<&str> = Kind::all().into_iter().map(Kind::as_str).collect();
    assert_eq!(
        names,
        [
            "downloaded",
            "freed",
            "added",
            "updated",
            "removed",
            "moved",
            "listed",
            "conflict",
            "failed",
            "update-failed"
        ]
    );
    assert_eq!(event(Kind::UpdateFailed, "/r/a".to_owned(), String::new()).kind, "update-failed");
}

/// The same in floating point.
fn told(bytes: u64) -> String {
    let units = ["B", "KiB", "MiB", "GiB", "TiB"];
    let mut value = bytes as f64;
    let mut unit: usize = 0;
    while value >= 1024.0 && unit < units.len() - 1 {
        value /= 1024.0;
        unit += 1;
    }
    if unit == 0 {
        format!("{bytes} B")
    } else {
        format!("{value:.1} {}", units[unit])
    }
}

#[test]
fn a_size_is_told_to_the_nearest_tenth() {
    assert_eq!(human_size(0), "0 B");
    assert_eq!(human_size(1023), "1023 B");
    assert_eq!(human_size(1024), "1.0 KiB");
    assert_eq!(human_size(1536), "1.5 KiB");
    assert_eq!(human_size(1 << 20), "1.0 MiB");
    assert_eq!(human_size((1 << 20) - 1), "1024.0 KiB");
    assert_eq!(human_size(5 << 30), "5.0 GiB");
    assert_eq!(human_size(u64::MAX), "16777216.0 TiB");
    let mut n: u64 = 1;
    for k in 0..20000u64 {
        n = n.wrapping_mul(6364136223846793005).wrapping_add(1442695040888963407);
        let some = n >> (k % 64);
        assert_eq!(human_size(some), told(some), "{some}");
    }
    // Halves of a tenth, where they are whole bytes.
    for k in 0..4096u64 {
        let half = (1 << 20) / 20 * k;
        for some in [half * 1024, (1 << 30) / 4 * k + (1 << 30) / 8, 1024 * k + 256, 1024 * k + 768] {
            assert_eq!(human_size(some), told(some), "{some}");
        }
    }
    // Where a float no longer tells every number.
    for k in 53..64u32 {
        for off in [0u64, 1, 2, 3, 512, 513, 1023, 1024, 1025, 4097] {
            let some = (1u64 << k) + off;
            assert_eq!(human_size(some), told(some), "{some}");
            assert_eq!(human_size(some - 2 * off - 1), told(some - 2 * off - 1));
        }
    }
}

#[test]
fn a_full_disk_is_said_in_fixed_words() {
    assert_eq!(failure_reason(28), NO_DISK_SPACE);
    assert_eq!(failure_reason(122), "not enough disk space");
    assert_eq!(failure_reason(5), "it could not be downloaded");
    assert!(failure_reason(13).contains("denied"), "{}", failure_reason(13));
}

#[test]
fn items_are_counted_in_words() {
    assert_eq!(items(1), "1 item");
    assert_eq!(items(0), "0 items");
    assert_eq!(items(1_000_000), "1000000 items");
}

#[test]
fn transfers_are_listed_oldest_first_until_they_end() {
    let mut all = Transfers::new();
    assert!(all.room());
    let a = all.start("/r/a".to_owned(), 10);
    let b = all.start("/r/b".to_owned(), 0);
    assert!(all.progress(b, 5, 20));
    assert!(!all.progress(b, 5, 20), "no news");
    assert_eq!(all.total(b), 20);
    let shown: Vec<(String, u64, u64)> = all.list().into_iter().map(|t| (t.path, t.done, t.total)).collect();
    assert_eq!(shown, vec![("/r/a".to_owned(), 0, 10), ("/r/b".to_owned(), 5, 20)]);
    assert!(all.remove(a));
    assert!(!all.remove(a), "it has ended");
    assert!(!all.progress(a, 1, 1));
    assert_eq!(all.total(a), 0);
    let c = all.start("/r/c".to_owned(), 1);
    assert!(c != a && c != b, "a number is given once");
    assert_eq!(all.list().len(), 2);
}

#[test]
fn a_read_moves_a_download_on_by_what_it_read() {
    assert_eq!(read_on(100, 7, 12), Some(105));
    assert_eq!(read_on(100, 7, 7), None);
}

fn entry(name: &str, ty: Type, dev: u64) -> WalkEntry {
    WalkEntry { name: name.as_bytes().to_vec(), ty, dev }
}

/// What the files occupy counts: neither konedrive's own entries nor a
/// symbolic link, another filesystem, or anything too deep is looked at.
#[test]
fn a_walk_counts_regular_files_only() {
    let mut walk = Walk::new(1, 1);
    let root = walk.next_dir().unwrap();
    assert_eq!(root.depth(), 0);
    let files = walk.seen(
        &root,
        &vec![
            entry("online.bin", Type::File, 1),
            entry("docs", Type::Dir, 1),
            entry(".konedrive-holding", Type::Dir, 1),
            entry(".konedrive-new-X", Type::File, 1),
            entry("link.bin", Type::Symlink, 1),
            entry("mount", Type::Dir, 2),
            entry("here.bin", Type::File, 1),
        ],
    );
    assert_eq!(files, vec![0, 6]);
    let docs = walk.next_dir().unwrap();
    assert_eq!(docs.parts, vec![b"docs".to_vec()]);
    assert_eq!(walk.seen(&docs, &vec![entry("deeper", Type::Dir, 1), entry("f", Type::File, 1)]), vec![1]);
    assert!(walk.next_dir().is_none(), "nothing deeper than it may go");
    assert_eq!(local_bytes(&vec![8, 0, 128]), 136 * 512);
    assert!(reserved(b".konedrive-new-1") && !reserved(b"konedrive-new-1"));
}

#[test]
fn a_walk_of_a_folder_forgotten_meanwhile_says_nothing() {
    assert_eq!(measured(7, "/r", "/r", 4096), 4096);
    assert_eq!(measured(7, "/other", "/r", 4096), 7);
    assert_eq!(SPACE_SPACING, 5);
}

#[test]
fn the_clock_counts_seconds() {
    assert_eq!(unix_of(Some(1_700_000_000)), 1_700_000_000);
    assert_eq!(unix_of(None), 0);
    assert!(unix_now() > 1_700_000_000);
    assert!(event(Kind::Freed, "/r/a".to_owned(), String::new()).at > 1_700_000_000);
}
