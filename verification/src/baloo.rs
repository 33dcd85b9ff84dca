//! Keeps KDE's file indexer out of a OneDrive folder: what its settings file
//! excludes already.

pub mod laws;
pub mod meaning;

use vstd::prelude::*;
use vstd::string::*;
use vstd::utf8::*;
use crate::local::run::push_to;
use crate::path::{begins_path, copy_bytes, joined, path_begins, AbsPath, RelPath};
use crate::text::{chars_of, is_white_space, push_char, same_text, string_of, white_space};

verus! {

/// How long one call may run before it is treated as unavailable, in
/// milliseconds.
pub const DEFAULT_TIMEOUT: u64 = 10_000;

/// How the indexer is talked to.
#[derive(Debug)]
pub struct Baloo {
    /// The program to run; nothing runs none.
    pub program: Option<AbsPath>,
    /// Its settings file, read to learn what is excluded already; nothing
    /// reads none.
    pub settings: Option<AbsPath>,
    /// How long one call may run, in milliseconds.
    pub timeout: u64,
}

impl Baloo {
    /// Runs nothing and reads nothing.
    pub fn disabled() -> (r: Self)
        ensures
            r.program is None,
            r.settings is None,
            r.timeout == DEFAULT_TIMEOUT,
    {
        Baloo { program: None, settings: None, timeout: DEFAULT_TIMEOUT }
    }

    /// `balooctl6`, and the settings file of the user whose `XDG_CONFIG_HOME`
    /// and `HOME` these are.
    pub fn of_user(xdg_config_home: Option<Vec<u8>>, home: Option<Vec<u8>>) -> (r: Self)
        ensures
            r.program matches Some(p) && p@ == encode_utf8("balooctl6"@),
            r.settings.deep_view() == settings_path(seq_of(xdg_config_home), seq_of(home)),
            r.timeout == DEFAULT_TIMEOUT,
    {
        Baloo {
            program: Some(AbsPath { raw: copy_bytes("balooctl6".as_bytes()) }),
            settings: settings_file(xdg_config_home, home),
            timeout: DEFAULT_TIMEOUT,
        }
    }
}

/// Optional bytes, read.
pub open spec fn seq_of(b: Option<Vec<u8>>) -> Option<Seq<u8>> {
    match b {
        Some(v) => Some(v@),
        None => None,
    }
}

/// `${XDG_CONFIG_HOME:-$HOME/.config}/baloofilerc`; an `XDG_CONFIG_HOME` that
/// is empty or relative is ignored.
pub open spec fn settings_path(xdg: Option<Seq<u8>>, home: Option<Seq<u8>>) -> Option<Seq<u8>> {
    let file = encode_utf8("baloofilerc"@);
    match xdg {
        Some(dir) if dir.len() > 0 && dir[0] == 47 => Some(joined(dir, seq![file])),
        _ => match home {
            Some(dir) if dir.len() > 0 => Some(
                joined(dir, seq![encode_utf8(".config"@), file]),
            ),
            _ => None,
        },
    }
}

/// Where the indexer's settings are, for a user with this `XDG_CONFIG_HOME` and
/// `HOME`.
pub fn settings_file(xdg_config_home: Option<Vec<u8>>, home: Option<Vec<u8>>) -> (r: Option<AbsPath>)
    ensures
        r.deep_view() == settings_path(seq_of(xdg_config_home), seq_of(home)),
{
    let file = RelPath::root().join("baloofilerc".as_bytes());
    assert(file@ =~= seq![encode_utf8("baloofilerc"@)]);
    if let Some(dir) = xdg_config_home {
        if dir.len() > 0 && dir[0] == 47 {
            return Some(AbsPath { raw: dir }.join(&file));
        }
    }
    match home {
        Some(dir) => {
            if dir.len() == 0 {
                return None;
            }
            let below = RelPath::root().join(".config".as_bytes()).join("baloofilerc".as_bytes());
            assert(below@ =~= seq![encode_utf8(".config"@), encode_utf8("baloofilerc"@)]);
            Some(AbsPath { raw: dir }.join(&below))
        },
        None => None,
    }
}

/// How many white-space characters `s` begins with.
pub open spec fn white_start(s: Seq<char>, i: int) -> int
    decreases s.len() - i,
{
    if i < s.len() && white_space(s[i]) {
        white_start(s, i + 1)
    } else {
        i
    }
}

/// Where the white space that `s` ends with begins.
pub open spec fn white_end(s: Seq<char>, n: int) -> int
    decreases n,
{
    if n > 0 && white_space(s[n - 1]) {
        white_end(s, n - 1)
    } else {
        n
    }
}

/// `s` without the white space around it.
pub open spec fn trimmed(s: Seq<char>) -> Seq<char> {
    let a = white_start(s, 0);
    let b = white_end(s, s.len() as int);
    if a < b {
        s.subrange(a, b)
    } else {
        Seq::empty()
    }
}

/// A part of `chars`, copied.
fn part(chars: &Vec<char>, a: usize, b: usize) -> (r: Vec<char>)
    requires
        a <= b <= chars@.len(),
    ensures
        r@ == chars@.subrange(a as int, b as int),
{
    let mut out: Vec<char> = Vec::new();
    let mut i: usize = a;
    while i < b
        invariant
            a <= i <= b <= chars@.len(),
            out@ == chars@.subrange(a as int, i as int),
        decreases b - i,
    {
        out.push(chars[i]);
        i += 1;
        assert(out@ =~= chars@.subrange(a as int, i as int));
    }
    out
}

fn trim(s: &Vec<char>) -> (r: Vec<char>)
    ensures
        r@ == trimmed(s@),
{
    let mut a: usize = 0;
    while a < s.len() && is_white_space(s[a])
        invariant
            a <= s@.len(),
            white_start(s@, 0) == white_start(s@, a as int),
        decreases s@.len() - a,
    {
        a += 1;
    }
    let mut b: usize = s.len();
    while b > 0 && is_white_space(s[b - 1])
        invariant
            b <= s@.len(),
            white_end(s@, s@.len() as int) == white_end(s@, b as int),
        decreases b,
    {
        b -= 1;
    }
    if a < b {
        part(s, a, b)
    } else {
        let none: Vec<char> = Vec::new();
        assert(none@ =~= trimmed(s@));
        none
    }
}

/// Where `c` first stands in `s`, from `i` on; the end when it does not.
pub open spec fn first_at(s: Seq<char>, c: char, i: int) -> int
    decreases s.len() - i,
{
    if i >= s.len() {
        s.len() as int
    } else if s[i] == c {
        i
    } else {
        first_at(s, c, i + 1)
    }
}

fn find(s: &Vec<char>, c: char, from: usize) -> (r: usize)
    requires
        from <= s@.len(),
    ensures
        r == first_at(s@, c, from as int),
        from <= r <= s@.len(),
        r < s@.len() ==> s@[r as int] == c,
{
    let mut i: usize = from;
    while i < s.len()
        invariant
            from <= i <= s@.len(),
            first_at(s@, c, from as int) == first_at(s@, c, i as int),
        decreases s@.len() - i,
    {
        if s[i] == c {
            return i;
        }
        i += 1;
    }
    i
}

/// The items of a list from `i` on, the one begun being `open`: split at every
/// comma not escaped, with the escapes undone; empty ones are dropped.
pub open spec fn items_from(s: Seq<char>, i: int, open: Seq<char>) -> Seq<Seq<char>>
    decreases s.len() - i,
{
    let ended = if open.len() == 0 {
        Seq::empty()
    } else {
        seq![open]
    };
    if i >= s.len() {
        ended
    } else if s[i] == ',' {
        ended + items_from(s, i + 1, Seq::empty())
    } else if s[i] == '\\' {
        if i + 1 < s.len() {
            items_from(s, i + 2, open.push(unescaped(s[i + 1])))
        } else {
            items_from(s, i + 1, open.push('\\'))
        }
    } else {
        items_from(s, i + 1, open.push(s[i]))
    }
}

/// What an escaped character stands for.
pub open spec fn unescaped(c: char) -> char {
    if c == 's' {
        ' '
    } else if c == 't' {
        '\t'
    } else if c == 'n' {
        '\n'
    } else if c == 'r' {
        '\r'
    } else {
        c
    }
}

fn unescape(c: char) -> (r: char)
    ensures
        r == unescaped(c),
{
    if c == 's' {
        ' '
    } else if c == 't' {
        '\t'
    } else if c == 'n' {
        '\n'
    } else if c == 'r' {
        '\r'
    } else {
        c
    }
}

/// A settings list value's items.
pub open spec fn items_of(value: Seq<char>) -> Seq<Seq<char>> {
    items_from(trimmed(value), 0, Seq::empty())
}

/// A settings list value's items: split at every comma not escaped as `\,`,
/// with `\s`, `\t`, `\n`, `\r` and `\\` undone.
pub fn list_items(value: &str) -> (r: Vec<String>)
    ensures
        r.deep_view() == items_of(value@),
{
    let s = trim(&chars_of(value));
    let ghost want = items_of(value@);
    let mut items: Vec<String> = Vec::new();
    let mut open = String::new();
    let mut i: usize = 0;
    assert(open@ =~= Seq::<char>::empty());
    assert(items.deep_view() + items_from(s@, 0, open@) =~= want);
    while i < s.len()
        invariant
            i <= s@.len(),
            items.deep_view() + items_from(s@, i as int, open@) == want,
        decreases s@.len() - i,
    {
        let c = s[i];
        let ghost before = items.deep_view();
        let ghost begun = open@;
        if c == ',' {
            if open.as_str().unicode_len() > 0 {
                push_to(&mut items, open);
                open = String::new();
            }
            assert(open@ =~= Seq::<char>::empty());
            assert(items.deep_view() + items_from(s@, i + 1, open@) =~= before + items_from(
                s@,
                i as int,
                begun,
            ));
            i += 1;
        } else if c == '\\' {
            if s.len() - i > 1 {
                push_char(&mut open, unescape(s[i + 1]));
                i += 2;
            } else {
                push_char(&mut open, '\\');
                i += 1;
            }
        } else {
            push_char(&mut open, c);
            i += 1;
        }
    }
    if open.as_str().unicode_len() > 0 {
        let ghost before = items.deep_view();
        let ghost last = open@;
        push_to(&mut items, open);
        assert(items.deep_view() =~= before + items_from(s@, i as int, last));
    } else {
        assert(items.deep_view() =~= want);
    }
    items
}

/// The value of the variable `name`: that of its first entry; nothing when it
/// is not set.
pub open spec fn variable_of(vars: Seq<(Seq<char>, Seq<char>)>, name: Seq<char>, k: int) -> Seq<char>
    decreases vars.len() - k,
{
    if k >= vars.len() {
        Seq::empty()
    } else if vars[k].0 == name {
        vars[k].1
    } else {
        variable_of(vars, name, k + 1)
    }
}

/// The environment, read.
pub open spec fn vars_of(vars: Seq<(String, String)>) -> Seq<(Seq<char>, Seq<char>)> {
    Seq::new(vars.len(), |k: int| (vars[k].0@, vars[k].1@))
}

fn variable(vars: &Vec<(String, String)>, name: &str) -> (r: String)
    ensures
        r@ == variable_of(vars_of(vars@), name@, 0),
{
    let mut k: usize = 0;
    while k < vars.len()
        invariant
            k <= vars@.len(),
            variable_of(vars_of(vars@), name@, 0) == variable_of(vars_of(vars@), name@, k as int),
        decreases vars@.len() - k,
    {
        if same_text(vars[k].0.as_str(), name) {
            return vars[k].1.clone();
        }
        k += 1;
    }
    let none = String::new();
    assert(none@ =~= Seq::<char>::empty());
    none
}

/// The character can stand in a variable's name.
pub open spec fn is_name_char(c: char) -> bool {
    ('a' <= c && c <= 'z') || ('A' <= c && c <= 'Z') || ('0' <= c && c <= '9') || c == '_'
}

/// Where the variable's name that begins at `i` ends.
pub open spec fn name_end(s: Seq<char>, i: int) -> int
    decreases s.len() - i,
{
    if i < s.len() && is_name_char(s[i]) {
        name_end(s, i + 1)
    } else {
        i
    }
}

/// A variable's name ends where it begins, or later.
pub proof fn lemma_name_end(s: Seq<char>, i: int)
    requires
        0 <= i <= s.len(),
    ensures
        i <= name_end(s, i) <= s.len(),
    decreases s.len() - i,
{
    if i < s.len() && is_name_char(s[i]) {
        lemma_name_end(s, i + 1);
    }
}

/// What is looked for from `i` on stands there, or later.
pub proof fn lemma_first_at(s: Seq<char>, c: char, i: int)
    requires
        0 <= i <= s.len(),
    ensures
        i <= first_at(s, c, i) <= s.len(),
    decreases s.len() - i,
{
    if i < s.len() && s[i] != c {
        lemma_first_at(s, c, i + 1);
    }
}

/// Where the command whose text goes on at `i`, `depth` brackets deep, ends:
/// after the bracket that closes it; nowhere when none does.
pub open spec fn command_end(s: Seq<char>, i: int, depth: nat) -> Option<int>
    decreases s.len() - i,
{
    if i >= s.len() {
        None
    } else if s[i] == ')' {
        if depth <= 1 {
            Some(i + 1)
        } else {
            command_end(s, i + 1, (depth - 1) as nat)
        }
    } else if s[i] == '(' {
        command_end(s, i + 1, depth + 1)
    } else {
        command_end(s, i + 1, depth)
    }
}

/// A command ends after where it goes on.
pub proof fn lemma_command_end(s: Seq<char>, i: int, depth: nat)
    ensures
        command_end(s, i, depth) matches Some(end) ==> i < end <= s.len(),
    decreases s.len() - i,
{
    if i < s.len() {
        if s[i] == ')' {
            if depth > 1 {
                lemma_command_end(s, i + 1, (depth - 1) as nat);
            }
        } else if s[i] == '(' {
            lemma_command_end(s, i + 1, depth + 1);
        } else {
            lemma_command_end(s, i + 1, depth);
        }
    }
}

/// `s` from `i` on with `$NAME`, `${NAME}` and `$$` expanded. A command is
/// never run: it stays as written, all of it. Where no bracket closes it there
/// is none, and the `$` stands for itself.
pub open spec fn expanded_from(s: Seq<char>, vars: Seq<(Seq<char>, Seq<char>)>, i: int) -> Seq<char>
    decreases s.len() - i,
{
    if i < 0 || i >= s.len() {
        Seq::empty()
    } else if s[i] != '$' {
        seq![s[i]] + expanded_from(s, vars, i + 1)
    } else if i + 1 < s.len() && s[i + 1] == '$' {
        seq!['$'] + expanded_from(s, vars, i + 2)
    } else if i + 1 < s.len() && s[i + 1] == '{' && first_at(s, '}', i + 2) < s.len() {
        let end = first_at(s, '}', i + 2);
        proof {
            lemma_first_at(s, '}', i + 2);
        }
        variable_of(vars, s.subrange(i + 2, end), 0) + expanded_from(s, vars, end + 1)
    } else if i + 1 < s.len() && s[i + 1] == '(' {
        proof {
            lemma_command_end(s, i + 2, 1);
        }
        match command_end(s, i + 2, 1) {
            Some(end) => s.subrange(i, end) + expanded_from(s, vars, end),
            None => seq!['$'] + expanded_from(s, vars, i + 1),
        }
    } else {
        let end = name_end(s, i + 1);
        proof {
            lemma_name_end(s, i + 1);
        }
        if end == i + 1 {
            seq!['$'] + expanded_from(s, vars, i + 1)
        } else {
            variable_of(vars, s.subrange(i + 1, end), 0) + expanded_from(s, vars, end)
        }
    }
}

/// Whether the character can stand in a variable's name.
fn names(c: char) -> (r: bool)
    ensures
        r == is_name_char(c),
{
    ('a' <= c && c <= 'z') || ('A' <= c && c <= 'Z') || ('0' <= c && c <= '9') || c == '_'
}

/// Where the command whose text begins at `from` ends, if a bracket closes it.
fn end_of_command(s: &Vec<char>, from: usize) -> (r: Option<usize>)
    requires
        0 < from <= s@.len(),
    ensures
        match command_end(s@, from as int, 1) {
            Some(end) => r matches Some(at) && at == end && from < at <= s@.len(),
            None => r is None,
        },
{
    let mut depth: usize = 1;
    let mut i: usize = from;
    while i < s.len()
        invariant
            0 < from <= i <= s@.len(),
            1 <= depth <= i - from + 1,
            command_end(s@, from as int, 1) == command_end(s@, i as int, depth as nat),
        decreases s@.len() - i,
    {
        if s[i] == ')' {
            if depth == 1 {
                return Some(i + 1);
            }
            depth -= 1;
        } else if s[i] == '(' {
            depth += 1;
        }
        i += 1;
    }
    None
}

/// `$NAME`, `${NAME}` and `$$` in a value, expanded through the variables
/// `vars`; one that is not set is empty. A command (`$(...)`) is never run: it
/// stays as written, up to the bracket that closes it, and so matches no
/// folder. A `$` that begins none of these stands for itself.
pub fn expand(item: &str, vars: &Vec<(String, String)>) -> (r: String)
    ensures
        r@ == expanded_from(item@, vars_of(vars@), 0),
{
    let s = chars_of(item);
    let ghost env = vars_of(vars@);
    let ghost want = expanded_from(s@, env, 0);
    let mut out = String::new();
    let mut i: usize = 0;
    assert(out@ + expanded_from(s@, env, 0) =~= want);
    while i < s.len()
        invariant
            i <= s@.len(),
            env == vars_of(vars@),
            out@ + expanded_from(s@, env, i as int) == want,
        decreases s@.len() - i,
    {
        let ghost before = out@;
        let n: usize = s.len();
        if s[i] != '$' {
            push_char(&mut out, s[i]);
            assert(out@ + expanded_from(s@, env, i + 1) =~= before + expanded_from(s@, env, i as int));
            i += 1;
        } else if n - i > 1 && s[i + 1] == '$' {
            push_char(&mut out, '$');
            assert(out@ + expanded_from(s@, env, i + 2) =~= before + expanded_from(s@, env, i as int));
            i += 2;
        } else {
            let braced = if n - i > 1 && s[i + 1] == '{' {
                find(&s, '}', i + 2)
            } else {
                n
            };
            if braced < n {
                let name = string_of(&part(&s, i + 2, braced));
                out.append(variable(vars, name.as_str()).as_str());
                assert(out@ + expanded_from(s@, env, braced + 1) =~= before + expanded_from(
                    s@,
                    env,
                    i as int,
                ));
                i = braced + 1;
            } else if n - i > 1 && s[i + 1] == '(' {
                let end: usize = match end_of_command(&s, i + 2) {
                    Some(end) => {
                        out.append(string_of(&part(&s, i, end)).as_str());
                        end
                    },
                    None => {
                        push_char(&mut out, '$');
                        i + 1
                    },
                };
                assert(out@ + expanded_from(s@, env, end as int) =~= before + expanded_from(
                    s@,
                    env,
                    i as int,
                ));
                i = end;
            } else {
                let mut end: usize = i + 1;
                while end < n && names(s[end])
                    invariant
                        i + 1 <= end <= n,
                        n == s@.len(),
                        name_end(s@, i + 1) == name_end(s@, end as int),
                    decreases n - end,
                {
                    end += 1;
                }
                if end == i + 1 {
                    push_char(&mut out, '$');
                } else {
                    let name = string_of(&part(&s, i + 1, end));
                    out.append(variable(vars, name.as_str()).as_str());
                }
                assert(out@ + expanded_from(s@, env, end as int) =~= before + expanded_from(
                    s@,
                    env,
                    i as int,
                ));
                i = end;
            }
        }
    }
    assert(out@ =~= want);
    out
}

/// Where the slashes that `s` ends with begin.
pub open spec fn slashes_end(s: Seq<char>, n: int) -> int
    decreases n,
{
    if n > 0 && s[n - 1] == '/' {
        slashes_end(s, n - 1)
    } else {
        n
    }
}

/// The folder an expanded item names: an absolute path without the slashes at
/// its end; nothing else can hold a folder.
pub open spec fn folder_of(expanded: Seq<char>) -> Option<Seq<char>> {
    if expanded.len() == 0 || expanded[0] != '/' {
        None
    } else {
        let end = slashes_end(expanded, expanded.len() as int);
        if end == 0 {
            Some(seq!['/'])
        } else {
            Some(expanded.subrange(0, end))
        }
    }
}

fn folder(expanded: &str) -> (r: Option<String>)
    ensures
        r.deep_view() == folder_of(expanded@),
{
    let s = chars_of(expanded);
    if s.len() == 0 || s[0] != '/' {
        return None;
    }
    let mut end: usize = s.len();
    while end > 0 && s[end - 1] == '/'
        invariant
            end <= s@.len(),
            slashes_end(s@, s@.len() as int) == slashes_end(s@, end as int),
        decreases end,
    {
        end -= 1;
    }
    if end == 0 {
        let top = "/".to_owned();
        proof {
            reveal_strlit("/");
            assert(top@ =~= seq!['/']);
        }
        Some(top)
    } else {
        Some(string_of(&part(&s, 0, end)))
    }
}

/// The folders the first `n` items name.
pub open spec fn folders_of(
    items: Seq<Seq<char>>,
    vars: Seq<(Seq<char>, Seq<char>)>,
    n: int,
) -> Seq<Seq<char>>
    decreases n,
{
    if n <= 0 {
        Seq::empty()
    } else {
        let before = folders_of(items, vars, n - 1);
        match folder_of(expanded_from(items[n - 1], vars, 0)) {
            Some(folder) => before.push(folder),
            None => before,
        }
    }
}

/// A line that begins a group says whether it is the general one; a line of the
/// general group that sets the excluded folders says which.
pub open spec fn line_folders(line: Seq<char>, vars: Seq<(Seq<char>, Seq<char>)>) -> Seq<Seq<char>> {
    let eq = first_at(line, '=', 0);
    if eq >= line.len() {
        Seq::empty()
    } else {
        let key = line.subrange(0, eq);
        let name = trimmed(key.subrange(0, first_at(key, '[', 0)));
        if name == "exclude folders"@ {
            let items = items_of(line.subrange(eq + 1, line.len() as int));
            folders_of(items, vars, items.len() as int)
        } else {
            Seq::empty()
        }
    }
}

/// The folders excluded by the lines of `text` from `i` on, `general`: the
/// general group is the one begun last.
pub open spec fn excluded_from(
    text: Seq<char>,
    vars: Seq<(Seq<char>, Seq<char>)>,
    i: int,
    general: bool,
) -> Seq<Seq<char>>
    decreases text.len() - i,
{
    if i < 0 || i > text.len() {
        Seq::empty()
    } else {
        let end = first_at(text, '\n', i);
        let line = trimmed(text.subrange(i, end));
        proof {
            lemma_first_at(text, '\n', i);
        }
        let group = line.len() > 0 && line[0] == '[';
        let now = if group {
            line == "[General]"@
        } else {
            general
        };
        let here = if !group && general {
            line_folders(line, vars)
        } else {
            Seq::empty()
        };
        if end >= text.len() {
            here
        } else {
            here + excluded_from(text, vars, end + 1, now)
        }
    }
}

fn folders_of_line(line: &Vec<char>, vars: &Vec<(String, String)>) -> (r: Vec<String>)
    ensures
        r.deep_view() == line_folders(line@, vars_of(vars@)),
{
    let mut out: Vec<String> = Vec::new();
    assert(out.deep_view() =~= Seq::<Seq<char>>::empty());
    let eq = find(line, '=', 0);
    if eq >= line.len() {
        return out;
    }
    let key = part(line, 0, eq);
    let stop = find(&key, '[', 0);
    let name = string_of(&trim(&part(&key, 0, stop)));
    if !same_text(name.as_str(), "exclude folders") {
        return out;
    }
    let value = string_of(&part(line, eq + 1, line.len()));
    let items = list_items(value.as_str());
    let mut k: usize = 0;
    while k < items.len()
        invariant
            k <= items@.len(),
            out.deep_view() == folders_of(items.deep_view(), vars_of(vars@), k as int),
        decreases items@.len() - k,
    {
        assert(items.deep_view()[k as int] == items@[k as int]@);
        let expanded = expand(items[k].as_str(), vars);
        if let Some(f) = folder(expanded.as_str()) {
            push_to(&mut out, f);
        }
        k += 1;
    }
    out
}

/// Every folder the settings `text` excludes: the `[General]` group's `exclude
/// folders` key, with or without a marker, as a comma-separated list, with
/// escapes undone, variables expanded through `vars`, and trailing slashes
/// dropped. Only absolute paths are kept.
pub fn excluded_folders(text: &str, vars: &Vec<(String, String)>) -> (r: Vec<String>)
    ensures
        r.deep_view() == excluded_from(text@, vars_of(vars@), 0, false),
{
    let s = chars_of(text);
    let ghost env = vars_of(vars@);
    let ghost want = excluded_from(s@, env, 0, false);
    let mut out: Vec<String> = Vec::new();
    let mut general = false;
    let mut i: usize = 0;
    assert(out.deep_view() + excluded_from(s@, env, 0, false) =~= want);
    loop
        invariant
            i <= s@.len(),
            env == vars_of(vars@),
            s@ == text@,
            want == excluded_from(text@, env, 0, false),
            out.deep_view() + excluded_from(s@, env, i as int, general) == want,
        decreases s@.len() - i,
    {
        let ghost before = out.deep_view();
        let end = find(&s, '\n', i);
        let line = trim(&part(&s, i, end));
        if line.len() > 0 && line[0] == '[' {
            let head = string_of(&line);
            let now = same_text(head.as_str(), "[General]");
            assert(end < s@.len() ==> before + excluded_from(s@, env, i as int, general)
                =~= before + excluded_from(s@, env, end + 1, now));
            general = now;
        } else if general {
            let here = folders_of_line(&line, vars);
            crate::listing::reconcile::append_to(&mut out, here);
            assert(end < s@.len() ==> before + excluded_from(s@, env, i as int, true)
                =~= out.deep_view() + excluded_from(s@, env, end + 1, true));
        } else {
            assert(end < s@.len() ==> before + excluded_from(s@, env, i as int, false)
                =~= before + excluded_from(s@, env, end + 1, false));
        }
        if end >= s.len() {
            assert(out.deep_view() =~= want);
            return out;
        }
        i = end + 1;
    }
}

/// The folder is, or is inside, one of `excluded`.
pub open spec fn excludes(excluded: Seq<Seq<char>>, folder: Seq<u8>) -> bool {
    exists|k: int|
        0 <= k < excluded.len() && path_begins(folder, encode_utf8(#[trigger] excluded[k]))
}

fn held_by(excluded: &Vec<String>, folder: &AbsPath) -> (r: bool)
    ensures
        r == excludes(excluded.deep_view(), folder@),
{
    let mut k: usize = 0;
    while k < excluded.len()
        invariant
            k <= excluded@.len(),
            forall|j: int|
                0 <= j < k ==> !path_begins(folder@, encode_utf8(#[trigger] excluded.deep_view()[j])),
        decreases excluded@.len() - k,
    {
        assert(excluded.deep_view()[k as int] == excluded@[k as int]@);
        if begins_path(&folder.raw, excluded[k].as_str().as_bytes()) {
            return true;
        }
        k += 1;
    }
    false
}

/// Whether `folder`, or a directory above it, is excluded by the settings
/// `text`; settings that cannot be read exclude nothing.
pub fn is_excluded(text: Option<&str>, vars: &Vec<(String, String)>, folder: &AbsPath) -> (r: bool)
    ensures
        r == match text {
            Some(text) => excludes(excluded_from(text@, vars_of(vars@), 0, false), folder@),
            None => false,
        },
{
    match text {
        Some(text) => held_by(&excluded_folders(text, vars), folder),
        None => false,
    }
}

} // verus!
