//! What each part of the indexer's settings means.

use vstd::prelude::*;
use vstd::utf8::encode_utf8;
use crate::baloo::{
    excludes, expanded_from, first_at, folder_of, folders_of, items_from, items_of, line_folders,
    name_end, settings_path, slashes_end, trimmed, unescaped, variable_of, white_end, white_start,
};
use crate::path::{joined, path_begins};
use crate::text::white_space;

verus! {

/// Which characters are white space.
pub proof fn law_which_characters_are_white_space(c: char)
    ensures
        white_space(c) <==> {
            let n = c as int;
            9 <= n <= 13 || n == 32 || n == 133 || n == 160 || n == 5760 || 8192 <= n <= 8202 || n
                == 8232 || n == 8233 || n == 8239 || n == 8287 || n == 12288
        },
{
}

proof fn lemma_white_start(s: Seq<char>, i: int)
    requires
        0 <= i <= s.len(),
    ensures
        i <= white_start(s, i) <= s.len(),
        forall|j: int| i <= j < white_start(s, i) ==> white_space(#[trigger] s[j]),
        white_start(s, i) < s.len() ==> !white_space(s[white_start(s, i)]),
    decreases s.len() - i,
{
    if i < s.len() && white_space(s[i]) {
        lemma_white_start(s, i + 1);
    }
}

proof fn lemma_white_end(s: Seq<char>, n: int)
    requires
        0 <= n <= s.len(),
    ensures
        0 <= white_end(s, n) <= n,
        forall|j: int| white_end(s, n) <= j < n ==> white_space(#[trigger] s[j]),
        white_end(s, n) > 0 ==> !white_space(s[white_end(s, n) - 1]),
    decreases n,
{
    if n > 0 && white_space(s[n - 1]) {
        lemma_white_end(s, n - 1);
    }
}

/// Trimming takes the white space off both ends, all of it, and nothing else.
pub proof fn law_trimming_takes_the_white_space_off(s: Seq<char>)
    ensures
        trimmed(s).len() > 0 ==> !white_space(trimmed(s)[0]) && !white_space(
            trimmed(s)[trimmed(s).len() - 1],
        ),
        exists|a: int, b: int|
            0 <= a <= b <= s.len() && trimmed(s) == #[trigger] s.subrange(a, b) && (forall|j: int|
                0 <= j < a || b <= j < s.len() ==> white_space(#[trigger] s[j])),
{
    let n = s.len() as int;
    lemma_white_start(s, 0);
    lemma_white_end(s, n);
    let a = white_start(s, 0);
    let b = white_end(s, n);
    if a < b {
        assert(trimmed(s) == s.subrange(a, b));
    } else {
        assert(trimmed(s) =~= s.subrange(n, n));
        assert forall|j: int| 0 <= j < n || n <= j < s.len() implies white_space(#[trigger] s[j]) by {
            assert(j < a || b <= j);
        }
    }
}

proof fn lemma_first(s: Seq<char>, c: char, i: int, at: int)
    requires
        0 <= i <= at <= s.len(),
        forall|j: int| i <= j < at ==> #[trigger] s[j] != c,
        at < s.len() ==> s[at] == c,
    ensures
        first_at(s, c, i) == at,
    decreases at - i,
{
    if i < at {
        assert(s[i] != c);
        lemma_first(s, c, i + 1, at);
    }
}

proof fn lemma_variable(vars: Seq<(Seq<char>, Seq<char>)>, name: Seq<char>, k: int, m: int)
    requires
        0 <= k <= m <= vars.len(),
        forall|j: int| k <= j < m ==> (#[trigger] vars[j]).0 != name,
        m < vars.len() ==> vars[m].0 == name,
    ensures
        variable_of(vars, name, k) == if m < vars.len() {
            vars[m].1
        } else {
            Seq::empty()
        },
    decreases m - k,
{
    if k < m {
        assert(vars[k].0 != name);
        lemma_variable(vars, name, k + 1, m);
    }
}

/// A variable has the value of its first entry, and one that is not set has none.
pub proof fn law_a_variable_has_the_value_of_its_first_entry(
    vars: Seq<(Seq<char>, Seq<char>)>,
    name: Seq<char>,
    m: int,
)
    ensures
        0 <= m < vars.len() && vars[m].0 == name && (forall|j: int|
            0 <= j < m ==> (#[trigger] vars[j]).0 != name) ==> variable_of(vars, name, 0) == vars[m].1,
        (forall|j: int| 0 <= j < vars.len() ==> (#[trigger] vars[j]).0 != name) ==> variable_of(
            vars,
            name,
            0,
        ) == Seq::<char>::empty(),
{
    if 0 <= m < vars.len() && vars[m].0 == name && (forall|j: int|
        0 <= j < m ==> (#[trigger] vars[j]).0 != name) {
        lemma_variable(vars, name, 0, m);
    }
    if forall|j: int| 0 <= j < vars.len() ==> (#[trigger] vars[j]).0 != name {
        lemma_variable(vars, name, 0, vars.len() as int);
    }
}

/// `c` is a letter or a digit of ASCII, or `_`.
pub open spec fn is_word_char(c: char) -> bool {
    let n = c as int;
    97 <= n <= 122 || 65 <= n <= 90 || 48 <= n <= 57 || n == 95
}

proof fn lemma_name(s: Seq<char>, i: int, end: int)
    requires
        0 <= i <= end <= s.len(),
        forall|j: int| i <= j < end ==> is_word_char(#[trigger] s[j]),
        end < s.len() ==> !is_word_char(s[end]),
    ensures
        name_end(s, i) == end,
    decreases end - i,
{
    if i < end {
        assert(is_word_char(s[i]));
        lemma_name(s, i + 1, end);
    }
}

/// `$NAME`, for any name of letters, digits and `_`, and `${NAME}`, for any name
/// without a closing brace, are the variable's value; `$$` is a `$`, and so is a
/// `$` that nothing follows.
pub proof fn law_how_a_variable_is_written(vars: Seq<(Seq<char>, Seq<char>)>, name: Seq<char>)
    ensures
        name.len() > 0 && (forall|j: int| 0 <= j < name.len() ==> is_word_char(#[trigger] name[j]))
            ==> expanded_from(seq!['$'] + name, vars, 0) == variable_of(vars, name, 0),
        !name.contains('}') ==> expanded_from(seq!['$', '{'] + name + seq!['}'], vars, 0) == variable_of(
            vars,
            name,
            0,
        ),
        expanded_from(seq!['$', '$'], vars, 0) == seq!['$'],
        expanded_from(seq!['$'], vars, 0) == seq!['$'],
{
    let none = Seq::<char>::empty();
    if name.len() > 0 && (forall|j: int| 0 <= j < name.len() ==> is_word_char(#[trigger] name[j])) {
        let s = seq!['$'] + name;
        let n = s.len() as int;
        assert forall|j: int| 1 <= j < n implies is_word_char(#[trigger] s[j]) by {
            assert(s[j] == name[j - 1]);
        }
        lemma_name(s, 1, n);
        assert(is_word_char(name[0]) && s[1] == name[0]);
        assert(s.subrange(1, n) =~= name);
        assert(expanded_from(s, vars, n) =~= none);
        assert(variable_of(vars, name, 0) + none =~= variable_of(vars, name, 0));
    }
    if !name.contains('}') {
        let s = seq!['$', '{'] + name + seq!['}'];
        let n = s.len() as int;
        assert forall|j: int| 2 <= j < n - 1 implies #[trigger] s[j] != '}' by {
            assert(s[j] == name[j - 2]);
            assert(name.contains(name[j - 2]));
        }
        lemma_first(s, '}', 2, n - 1);
        assert(s.subrange(2, n - 1) =~= name);
        assert(expanded_from(s, vars, n) =~= none);
        assert(variable_of(vars, name, 0) + none =~= variable_of(vars, name, 0));
    }
    let two = seq!['$', '$'];
    assert(expanded_from(two, vars, 2) =~= none);
    assert(expanded_from(two, vars, 0) =~= seq!['$']);
    let one = seq!['$'];
    lemma_name(one, 1, 1);
    assert(expanded_from(one, vars, 1) =~= none);
    assert(expanded_from(one, vars, 0) =~= seq!['$']);
}

/// What a character written with a backslash before it stands for in a list: a
/// space, a tab, an end of line or a return for their letters, and any other,
/// a comma and a backslash among them, for itself.
pub proof fn law_what_an_escaped_character_stands_for(c: char)
    ensures
        items_from(seq!['\\', c], 0, Seq::empty()) == seq![
            seq![
                if c == 's' {
                    ' '
                } else if c == 't' {
                    '\t'
                } else if c == 'n' {
                    '\n'
                } else if c == 'r' {
                    '\r'
                } else {
                    c
                },
            ],
        ],
{
    let s = seq!['\\', c];
    let open = Seq::<char>::empty().push(unescaped(c));
    assert(open =~= seq![unescaped(c)]);
    assert(items_from(s, 2, open) =~= seq![open]);
    assert(items_from(s, 0, Seq::empty()) == items_from(s, 2, open));
}

proof fn lemma_slashes(s: Seq<char>, n: int)
    requires
        0 <= n <= s.len(),
    ensures
        0 <= slashes_end(s, n) <= n,
        forall|j: int| slashes_end(s, n) <= j < n ==> #[trigger] s[j] == '/',
        slashes_end(s, n) > 0 ==> s[slashes_end(s, n) - 1] != '/',
    decreases n,
{
    if n > 0 && s[n - 1] == '/' {
        lemma_slashes(s, n - 1);
    }
}

/// A folder is an absolute path as it is written, but for the slashes at its end,
/// of which only that of the root stays.
pub proof fn law_which_folder_an_item_names(s: Seq<char>)
    ensures
        folder_of(s) is Some <==> s.len() > 0 && s[0] == '/',
        folder_of(s) matches Some(f) ==> {
            &&& 0 < f.len() <= s.len() && f == s.subrange(0, f.len() as int)
            &&& f.len() == 1 || f[f.len() - 1] != '/'
            &&& forall|j: int| f.len() <= j < s.len() ==> #[trigger] s[j] == '/'
        },
{
    if s.len() > 0 && s[0] == '/' {
        lemma_slashes(s, s.len() as int);
        if slashes_end(s, s.len() as int) == 0 {
            assert(seq!['/'] =~= s.subrange(0, 1));
        } else {
            let f = folder_of(s)->0;
            assert(f[f.len() - 1] == s[f.len() - 1]);
        }
    }
}

proof fn lemma_folders(items: Seq<Seq<char>>, vars: Seq<(Seq<char>, Seq<char>)>, n: int, f: Seq<char>)
    requires
        0 <= n <= items.len(),
    ensures
        folders_of(items, vars, n).contains(f) <==> exists|k: int|
            0 <= k < n && folder_of(expanded_from(#[trigger] items[k], vars, 0)) == Some(f),
    decreases n,
{
    if n > 0 {
        lemma_folders(items, vars, n - 1, f);
        let before = folders_of(items, vars, n - 1);
        if let Some(last) = folder_of(expanded_from(items[n - 1], vars, 0)) {
            vstd::seq_lib::lemma_seq_contains_after_push(before, last, f);
        }
        if exists|k: int| 0 <= k < n && folder_of(expanded_from(#[trigger] items[k], vars, 0)) == Some(f) {
            let k = choose|k: int|
                0 <= k < n && folder_of(expanded_from(#[trigger] items[k], vars, 0)) == Some(f);
            if k < n - 1 {
                assert(folder_of(expanded_from(items[k], vars, 0)) == Some(f));
            }
        }
        if folders_of(items, vars, n).contains(f) && !before.contains(f) {
            assert(folder_of(expanded_from(items[n - 1], vars, 0)) == Some(f));
        }
    }
}

/// A line that sets the excluded folders, with a marker behind its key or without
/// one, excludes the folder each item of its value names, and no other.
pub proof fn law_which_folders_a_line_excludes(
    marker: Seq<char>,
    value: Seq<char>,
    vars: Seq<(Seq<char>, Seq<char>)>,
    f: Seq<char>,
)
    requires
        marker.len() == 0 || marker[0] == '[',
        !marker.contains('='),
    ensures
        line_folders("exclude folders"@ + marker + seq!['='] + value, vars).contains(f) <==> exists|k: int|
            0 <= k < items_of(value).len() && folder_of(
                expanded_from(#[trigger] items_of(value)[k], vars, 0),
            ) == Some(f),
{
    let name = "exclude folders"@;
    reveal_strlit("exclude folders");
    let key = name + marker;
    let line = key + seq!['='] + value;
    assert(name + marker + seq!['='] + value =~= line);
    assert forall|j: int| 0 <= j < key.len() implies #[trigger] line[j] != '=' by {
        if j < name.len() {
            assert(line[j] == name[j]);
        } else {
            assert(line[j] == marker[j - name.len()]);
            assert(marker.contains(marker[j - name.len()]));
        }
    }
    lemma_first(line, '=', 0, key.len() as int);
    assert(line.subrange(0, key.len() as int) =~= key);
    assert(line.subrange(key.len() as int + 1, line.len() as int) =~= value);
    assert forall|j: int| 0 <= j < name.len() implies #[trigger] key[j] != '[' by {
        assert(key[j] == name[j]);
    }
    lemma_first(key, '[', 0, name.len() as int);
    assert(key.subrange(0, name.len() as int) =~= name);
    law_trimming_takes_the_white_space_off(name);
    lemma_white_start(name, 0);
    lemma_white_end(name, name.len() as int);
    assert(white_start(name, 0) == 0) by {
        if white_start(name, 0) > 0 {
            assert(white_space(name[0]));
        }
    }
    assert(white_end(name, name.len() as int) == name.len()) by {
        if white_end(name, name.len() as int) < name.len() {
            assert(white_space(name[name.len() - 1]));
        }
    }
    assert(trimmed(name) =~= name);
    let items = items_of(value);
    lemma_folders(items, vars, items.len() as int, f);
}

/// A line that sets nothing, or something else, excludes nothing.
pub proof fn law_another_line_excludes_nothing(
    key: Seq<char>,
    value: Seq<char>,
    vars: Seq<(Seq<char>, Seq<char>)>,
)
    requires
        !key.contains('='),
    ensures
        line_folders(key, vars) == Seq::<Seq<char>>::empty(),
        !key.contains('[') && trimmed(key) != "exclude folders"@ ==> line_folders(
            key + seq!['='] + value,
            vars,
        ) == Seq::<Seq<char>>::empty(),
{
    assert forall|j: int| 0 <= j < key.len() implies #[trigger] key[j] != '=' by {
        assert(key.contains(key[j]));
    }
    lemma_first(key, '=', 0, key.len() as int);
    if !key.contains('[') {
        let line = key + seq!['='] + value;
        assert forall|j: int| 0 <= j < key.len() implies #[trigger] line[j] != '=' by {
            assert(line[j] == key[j]);
        }
        lemma_first(line, '=', 0, key.len() as int);
        assert(line.subrange(0, key.len() as int) =~= key);
        assert forall|j: int| 0 <= j < key.len() implies #[trigger] key[j] != '[' by {
            assert(key.contains(key[j]));
        }
        lemma_first(key, '[', 0, key.len() as int);
        assert(key.subrange(0, key.len() as int) =~= key);
    }
}

/// A folder is excluded where it is one of those named, or inside one.
pub proof fn law_what_is_inside_an_excluded_folder_is_excluded(
    excluded: Seq<Seq<char>>,
    folder: Seq<u8>,
    k: int,
)
    ensures
        0 <= k < excluded.len() && path_begins(folder, encode_utf8(excluded[k])) ==> excludes(
            excluded,
            folder,
        ),
        (forall|j: int| 0 <= j < excluded.len() ==> !path_begins(folder, encode_utf8(#[trigger] excluded[j])))
            ==> !excludes(excluded, folder),
{
}

/// The settings are in the directory that is set for them, if that is absolute,
/// and else in `.config` of the home directory, if there is one.
pub proof fn law_where_the_settings_are(xdg: Seq<u8>, home: Seq<u8>)
    ensures
        ({
            let own = xdg.len() > 0 && xdg[0] == 47;
            let at_home = if home.len() > 0 {
                Some(joined(home, seq![encode_utf8(".config"@), encode_utf8("baloofilerc"@)]))
            } else {
                None
            };
            &&& own ==> settings_path(Some(xdg), Some(home)) == Some(
                joined(xdg, seq![encode_utf8("baloofilerc"@)]),
            ) && settings_path(Some(xdg), None) == settings_path(Some(xdg), Some(home))
            &&& !own ==> settings_path(Some(xdg), Some(home)) == at_home && settings_path(Some(xdg), None)
                is None
            &&& settings_path(None, Some(home)) == at_home
            &&& settings_path(None, None) is None
        }),
{
}

} // verus!
