use konedrive_sync::baloo::{excluded_folders, expand, is_excluded, list_items, settings_file, Baloo, DEFAULT_TIMEOUT};
use konedrive_sync::path::AbsPath;
use konedrive_sync::text::is_white_space;

fn file(xdg: Option<&str>, home: Option<&str>) -> Option<String> {
    let bytes = |t: Option<&str>| t.map(|t| t.as_bytes().to_vec());
    settings_file(bytes(xdg), bytes(home)).map(|p| String::from_utf8(p.raw).unwrap())
}

#[test]
fn the_settings_file_is_under_xdg_config_home_or_home() {
    assert_eq!(file(Some("/x/cfg"), Some("/home/u")).as_deref(), Some("/x/cfg/baloofilerc"));
    assert_eq!(file(Some("relative"), Some("/home/u")).as_deref(), Some("/home/u/.config/baloofilerc"));
    assert_eq!(file(None, Some("/home/u")).as_deref(), Some("/home/u/.config/baloofilerc"));
    assert_eq!(file(None, None), None);
}

#[test]
fn an_empty_variable_names_no_directory() {
    assert_eq!(file(Some(""), Some("")), None);
    assert_eq!(file(Some(""), Some("/")).as_deref(), Some("/.config/baloofilerc"));
    assert_eq!(file(Some("/cfg/"), None).as_deref(), Some("/cfg/baloofilerc"));
}

fn vars() -> Vec<(String, String)> {
    vec![("HOME".to_owned(), "/home/u".to_owned()), ("A_1".to_owned(), "x".to_owned())]
}

#[test]
fn white_space_is_what_unicode_says() {
    assert!(('\0'..=char::MAX).all(|c| is_white_space(c) == c.is_whitespace()));
}

#[test]
fn a_lists_items_are_split_and_their_escapes_undone() {
    assert_eq!(list_items(" a,b\\,c,,d\\se\\t\\\\ "), ["a", "b,c", "d e\t\\"]);
    assert_eq!(list_items("\\"), ["\\"]);
    assert!(list_items("  ").is_empty());
}

#[test]
fn variables_are_expanded_and_commands_never_run() {
    assert_eq!(expand("$HOME/a", &vars()), "/home/u/a");
    assert_eq!(expand("${HOME}a$A_1-$UNSET.", &vars()), "/home/uax-.");
    assert_eq!(expand("$$HOME", &vars()), "$HOME");
    assert_eq!(expand("$(rm -rf)", &vars()), "$(rm -rf)");
    assert_eq!(expand("$(echo $HOME)", &vars()), "$(echo $HOME)");
    assert_eq!(expand("$(echo $(echo ${HOME})$$)/$HOME", &vars()), "$(echo $(echo ${HOME})$$)//home/u");
    assert_eq!(expand("${HOME", &vars()), "${HOME");
    assert_eq!(expand("end$", &vars()), "end$");
}

/// Where no bracket closes it, there is no command and no braced name.
#[test]
fn what_no_bracket_closes_is_expanded() {
    assert_eq!(expand("$HOME/$(echo $HOME", &vars()), "/home/u/$(echo /home/u");
    assert_eq!(expand("$(/$A_1", &vars()), "$(/x");
    assert_eq!(expand("$($(a)$$${A_1}", &vars()), "$($(a)$x");
    assert_eq!(expand("${$A_1/$(", &vars()), "${x/$(");
}

/// A list splits at a comma that is not escaped, a value at a slash, and the
/// settings at a `[General]` line.
#[test]
fn settings_are_read_part_by_part() {
    assert_eq!(list_items("a\\\\,b\\,c"), ["a\\", "b,c"]);
    assert_eq!(expand("$HOME/$A_1", &vars()), "/home/u/x");
    assert_eq!(expand("${HOME}$(a/$A_1", &vars()), "/home/u$(a/x");
    assert_eq!(expand("$(a/$A_1)", &vars()), "$(a/$A_1)", "the bracket closes after the slash");
    assert_eq!(expand("plain (text)", &vars()), "plain (text)");
    let first = "[General]\nexclude folders=/a\n[Other]\nexclude folders=/b";
    let second = "[General]\nexclude folders=/c";
    assert_eq!(excluded_folders(&format!("{first}\n{second}"), &vars()), ["/a", "/c"]);
    assert!(excluded_folders("exclude folders=/a\n[Other]\nexclude folders=/b", &vars()).is_empty());
}

/// A folder counts as excluded only inside an excluded directory, not beside
/// one that shares its first letters.
#[test]
fn exclusions_respect_path_boundaries() {
    let text = "[General]\nexclude folders[$e]=/srv/u/,/srv/other\n";
    let excluded = excluded_folders(text, &vars());
    assert_eq!(excluded, ["/srv/u", "/srv/other"]);
    let holds = |folder: &str| is_excluded(Some(text), &vars(), &AbsPath { raw: folder.as_bytes().to_vec() });
    assert!(holds("/srv/u/OneDrive"), "inside an excluded directory");
    assert!(holds("/srv/u"));
    assert!(!holds("/srv/uu/OneDrive"), "a shared prefix is not inside");
    assert!(!is_excluded(None, &vars(), &AbsPath { raw: b"/srv/u".to_vec() }), "no file, nothing excluded");
    assert_eq!(excluded_folders(" [General] \r\n exclude folders = /,// \r\n", &vars()), ["/", "/"]);
}

#[test]
fn a_disabled_baloo_runs_and_reads_nothing() {
    let off = Baloo::disabled();
    assert!(off.program.is_none() && off.settings.is_none());
    assert_eq!(off.timeout, DEFAULT_TIMEOUT);
    let on = Baloo::of_user(None, Some(b"/home/u".to_vec()));
    assert_eq!(on.program.unwrap().raw, b"balooctl6");
    assert_eq!(on.settings.unwrap().raw, b"/home/u/.config/baloofilerc");
}
