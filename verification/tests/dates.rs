use konedrive_sync::baloo::excluded_folders;
use konedrive_sync::disk::rescue::rescue_stamp;

#[test]
fn a_rescue_stamp_is_the_utc_date_and_time() {
    assert_eq!(rescue_stamp(Some(1_714_557_600)), "2024-05-01T10-00-00Z");
}

#[test]
fn the_epoch_is_the_first_stamp() {
    assert_eq!(rescue_stamp(Some(0)), "1970-01-01T00-00-00Z");
}

#[test]
fn a_later_stamp_sorts_after_an_earlier_one() {
    let times = [0, 59, 60, 86_399, 86_400, 951_782_400, 951_868_800, 1_709_251_199, 1_709_251_200, 253_402_300_799];
    let stamps: Vec<String> = times.iter().map(|t| rescue_stamp(Some(*t))).collect();
    assert!(stamps.windows(2).all(|w| w[0].as_bytes() < w[1].as_bytes()), "{stamps:?}");
    assert!(stamps.iter().all(|s| s.len() == 20));
}

fn home() -> Vec<(String, String)> {
    vec![("HOME".to_owned(), "/home/u".to_owned())]
}

#[test]
fn the_exclusions_are_read_from_baloofilerc_as_kconfig_writes_them() {
    let text = "[Basic Settings]\nexclude folders=/not/general\n\
                [General]\nexclude folders[$e]=$HOME/tools/test/\nfolders[$e]=$HOME/\n";
    assert_eq!(excluded_folders(text, &home()), ["/home/u/tools/test"]);

    let text = "[General]\nexclude folders[$e]=${HOME}/a/,/srv/b\\,c/,relative/$UNSET,$$HOME/x\n\
                [General][Nested]\nexclude folders=/nested\n";
    assert_eq!(excluded_folders(text, &home()), ["/home/u/a", "/srv/b,c"]);
    assert_eq!(excluded_folders("[General]\nexclude folders=/plain/\n", &home()), ["/plain"]);
}
