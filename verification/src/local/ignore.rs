//! The ignore list: names that stay local.
//!
//! Shell globs (`*`, `?`, `[...]`, `\` to escape) match the name, not the
//! path, case-sensitively, and `*` matches a leading dot too (a vim swap file
//! is `.name.swp`). The list applies only to local files without an item id:
//! an item that came from the cloud syncs whatever its name.

use vstd::prelude::*;
use vstd::string::*;
use crate::text::{chars_of, is_white_space, lossy, text_of, white_space};

verus! {

/// `p[i]`, `-` and another character but `]`: a range of a class.
pub open spec fn is_range(p: Seq<char>, i: int) -> bool {
    i + 2 < p.len() && p[i + 1] == '-' && p[i + 2] != ']'
}

/// Where the class whose members begin at `i` ends, just after its `]`;
/// nothing when it is never closed. A `]` that comes first is a member.
pub open spec fn class_end(p: Seq<char>, i: int, first: bool) -> Option<int>
    decreases p.len() - i,
{
    if i >= p.len() {
        None
    } else if p[i] == ']' && !first {
        Some(i + 1)
    } else if is_range(p, i) {
        class_end(p, i + 3, false)
    } else {
        class_end(p, i + 1, false)
    }
}

/// Whether `c` is a member of the class whose members begin at `i`.
pub open spec fn class_has(p: Seq<char>, i: int, first: bool, c: char) -> bool
    decreases p.len() - i,
{
    if i >= p.len() {
        false
    } else if p[i] == ']' && !first {
        false
    } else if is_range(p, i) {
        (p[i] <= c && c <= p[i + 2]) || class_has(p, i + 3, false, c)
    } else {
        p[i] == c || class_has(p, i + 1, false, c)
    }
}

/// Whether the class that opens at `start` is negated (`!` or `^`).
pub open spec fn class_negated(p: Seq<char>, start: int) -> bool {
    start + 1 < p.len() && (p[start + 1] == '!' || p[start + 1] == '^')
}

/// Where the members of the class that opens at `start` begin.
pub open spec fn class_members(p: Seq<char>, start: int) -> int {
    if class_negated(p, start) {
        start + 2
    } else {
        start + 1
    }
}

/// Where the one-character token at `i` ends. A `[` never closed is a token
/// of its own.
pub open spec fn token_end(p: Seq<char>, i: int) -> int {
    if p[i] == '[' {
        match class_end(p, class_members(p, i), true) {
            Some(end) => end,
            None => i + 1,
        }
    } else if p[i] == '\\' && i + 1 < p.len() {
        i + 2
    } else {
        i + 1
    }
}

/// Whether the one-character token at `i` stands for `c`.
pub open spec fn token_takes(p: Seq<char>, i: int, c: char) -> bool {
    if p[i] == '?' {
        true
    } else if p[i] == '[' {
        match class_end(p, class_members(p, i), true) {
            Some(_) => class_has(p, class_members(p, i), true, c) != class_negated(p, i),
            None => c == '[',
        }
    } else if p[i] == '\\' && i + 1 < p.len() {
        p[i + 1] == c
    } else {
        p[i] == c
    }
}

/// Whether the pattern from `i` on matches the name from `j` on: a `*` stands
/// for any run of characters, every other token for one.
pub open spec fn matches_from(p: Seq<char>, i: int, n: Seq<char>, j: int) -> bool
    decreases p.len() - i, n.len() - j,
    via matches_from_decreases
{
    if j > n.len() {
        false
    } else if i >= p.len() {
        j == n.len()
    } else if p[i] == '*' {
        matches_from(p, i + 1, n, j) || (j < n.len() && matches_from(p, i, n, j + 1))
    } else {
        j < n.len() && token_takes(p, i, n[j]) && matches_from(p, token_end(p, i), n, j + 1)
    }
}

#[via_fn]
proof fn matches_from_decreases(p: Seq<char>, i: int, n: Seq<char>, j: int) {
    if i < p.len() {
        lemma_token_end(p, i);
    }
}

/// Whether the glob `p` matches the whole name `n`.
pub open spec fn glob_matches(p: Seq<char>, n: Seq<char>) -> bool {
    matches_from(p, 0, n, 0)
}

proof fn lemma_class_end(p: Seq<char>, i: int, first: bool)
    ensures
        class_end(p, i, first) matches Some(end) ==> i < end <= p.len(),
    decreases p.len() - i,
{
    if i < p.len() && !(p[i] == ']' && !first) {
        if is_range(p, i) {
            lemma_class_end(p, i + 3, false);
        } else {
            lemma_class_end(p, i + 1, false);
        }
    }
}

proof fn lemma_token_end(p: Seq<char>, i: int)
    requires
        i < p.len(),
    ensures
        i < token_end(p, i) <= p.len(),
{
    lemma_class_end(p, class_members(p, i), true);
}

/// The pattern goes from `from` to `to` by `t` one-character tokens.
spec fn tokens(p: Seq<char>, from: int, t: nat, to: int) -> bool
    decreases t,
{
    if t == 0 {
        from == to
    } else {
        0 <= from < p.len() && p[from] != '*' && tokens(p, token_end(p, from), (t - 1) as nat, to)
    }
}

proof fn lemma_tokens_extend(p: Seq<char>, from: int, t: nat, to: int)
    requires
        tokens(p, from, t, to),
        0 <= to < p.len(),
        p[to] != '*',
    ensures
        tokens(p, from, t + 1, token_end(p, to)),
    decreases t,
{
    if t == 0 {
        assert(tokens(p, token_end(p, to), 0, token_end(p, to)));
    } else {
        lemma_tokens_extend(p, token_end(p, from), (t - 1) as nat, to);
    }
}

/// A match goes through `t` tokens one character each.
proof fn lemma_tokens_consume(p: Seq<char>, from: int, t: nat, to: int, n: Seq<char>, j: int)
    requires
        tokens(p, from, t, to),
        matches_from(p, from, n, j),
    ensures
        matches_from(p, to, n, j + t),
    decreases t,
{
    if t > 0 {
        lemma_tokens_consume(p, token_end(p, from), (t - 1) as nat, to, n, j + 1);
    }
}

/// A `*` that matches from further on in the name matches from `j` too.
proof fn lemma_star_absorbs(p: Seq<char>, i: int, n: Seq<char>, j: int, k: int)
    requires
        0 <= i < p.len(),
        p[i] == '*',
        0 <= j <= k,
        matches_from(p, i, n, k),
    ensures
        matches_from(p, i, n, j),
    decreases k - j,
{
    if j < k {
        lemma_star_absorbs(p, i, n, j + 1, k);
    }
}

/// What a `*` matches, something after it matches from there or further on.
proof fn lemma_star_ends(p: Seq<char>, i: int, n: Seq<char>, j: int) -> (k: int)
    requires
        0 <= i < p.len(),
        p[i] == '*',
        matches_from(p, i, n, j),
    ensures
        j <= k <= n.len(),
        matches_from(p, i + 1, n, k),
    decreases n.len() - j,
{
    if matches_from(p, i + 1, n, j) {
        j
    } else {
        lemma_star_ends(p, i, n, j + 1)
    }
}

/// `[...]` at `p[start]` against `c`: whether it matches, and where the
/// pattern goes on. `None` when there is no closing `]`: the `[` is literal.
pub fn class(p: &[char], start: usize, c: char) -> (r: Option<(bool, usize)>)
    requires
        start < p@.len(),
    ensures
        match class_end(p@, class_members(p@, start as int), true) {
            None => r is None,
            Some(end) => r == Some(
                (
                    class_has(p@, class_members(p@, start as int), true, c) != class_negated(
                        p@,
                        start as int,
                    ),
                    end as usize,
                ),
            ) && end <= p@.len(),
        },
{
    let len: usize = p.len();
    let mut i: usize = start + 1;
    let negate = i < len && (p[i] == '!' || p[i] == '^');
    if negate {
        i += 1;
    }
    let ghost begin = i as int;
    let mut matched = false;
    let mut first = true;
    proof {
        lemma_class_end(p@, begin, true);
    }
    while i < p.len()
        invariant
            start < p@.len(),
            negate == class_negated(p@, start as int),
            begin == class_members(p@, start as int),
            i <= p@.len(),
            class_end(p@, begin, true) == class_end(p@, i as int, first),
            class_has(p@, begin, true, c) == (matched || class_has(p@, i as int, first, c)),
            class_end(p@, begin, true) matches Some(end) ==> end <= p@.len(),
        decreases p@.len() - i,
    {
        if p[i] == ']' && !first {
            return Some((matched != negate, i + 1));
        }
        first = false;
        let low = p[i];
        if p.len() - i > 2 && p[i + 1] == '-' && p[i + 2] != ']' {
            matched = matched || (low <= c && c <= p[i + 2]);
            i += 3;
        } else {
            matched = matched || low == c;
            i += 1;
        }
    }
    None
}

/// Whether the glob `p` matches the name `n`.
pub fn glob(p: &[char], n: &[char]) -> (r: bool)
    ensures
        r == glob_matches(p@, n@),
{
    let mut pi: usize = 0;
    let mut ni: usize = 0;
    // The last `*` and where in the name it stands: backtracking goes there.
    let mut star: Option<(usize, usize)> = None;
    let ghost mut t: nat = 0;
    while ni < n.len()
        invariant
            pi <= p@.len(),
            ni <= n@.len(),
            star matches Some((sp, sn)) ==> sp < p@.len() && p@[sp as int] == '*' && sn + t == ni
                && tokens(p@, sp + 1, t, pi as int) && sp < pi,
            glob_matches(p@, n@) == (matches_from(p@, pi as int, n@, ni as int) || (star matches Some(
                (sp, sn),
            ) && matches_from(p@, sp as int, n@, sn + 1))),
        decreases
            match star {
                Some((_, sn)) => n@.len() - sn,
                None => n@.len() as int + 1,
            },
            match star {
                Some((sp, _)) => p@.len() - sp,
                None => p@.len() as int + 1,
            },
            n@.len() - ni,
    {
        if pi < p.len() && p[pi] == '*' {
            proof {
                if let Some((sp, sn)) = star {
                    if matches_from(p@, sp as int, n@, sn + 1) {
                        let k = lemma_star_ends(p@, sp as int, n@, sn + 1);
                        lemma_tokens_consume(p@, sp + 1, t, pi as int, n@, k);
                        lemma_star_absorbs(p@, pi as int, n@, ni as int, k + t);
                    }
                }
                t = 0;
            }
            star = Some((pi, ni));
            pi += 1;
            continue ;
        }
        let step: Option<usize> = if pi >= p.len() {
            None
        } else if p[pi] == '?' {
            Some(pi + 1)
        } else if p[pi] == '[' {
            match class(p, pi, n[ni]) {
                Some((true, next)) => Some(next),
                Some((false, _)) => None,
                None => if n[ni] == '[' {
                    Some(pi + 1)
                } else {
                    None
                },
            }
        } else if p[pi] == '\\' && pi + 1 < p.len() {
            if p[pi + 1] == n[ni] {
                Some(pi + 2)
            } else {
                None
            }
        } else if p[pi] == n[ni] {
            Some(pi + 1)
        } else {
            None
        };
        proof {
            if pi < p@.len() {
                lemma_token_end(p@, pi as int);
            }
        }
        match step {
            Some(next) => {
                proof {
                    if let Some((sp, _)) = star {
                        lemma_tokens_extend(p@, sp + 1, t, pi as int);
                    }
                    t = t + 1;
                }
                pi = next;
                ni += 1;
            },
            None => match star {
                Some((sp, sn)) => {
                    proof {
                        assert(matches_from(p@, sp as int, n@, sn + 1) == (matches_from(
                            p@,
                            sp + 1,
                            n@,
                            sn + 1,
                        ) || matches_from(p@, sp as int, n@, sn + 2)));
                        t = 0;
                    }
                    pi = sp + 1;
                    ni = sn + 1;
                    star = Some((sp, sn + 1));
                },
                None => return false,
            },
        }
    }
    proof {
        if let Some((sp, sn)) = star {
            if matches_from(p@, sp as int, n@, sn + 1) {
                let k = lemma_star_ends(p@, sp as int, n@, sn + 1);
                lemma_tokens_consume(p@, sp + 1, t, pi as int, n@, k);
            }
        }
    }
    while pi < p.len()
        invariant
            pi <= p@.len(),
            glob_matches(p@, n@) == matches_from(p@, pi as int, n@, n@.len() as int),
        decreases p@.len() - pi,
    {
        if p[pi] != '*' {
            return false;
        }
        pi += 1;
    }
    true
}

/// Whether some pattern of `patterns` matches the text `name`.
pub open spec fn some_matches(patterns: Seq<Seq<char>>, name: Seq<char>) -> bool {
    exists|i: int| 0 <= i < patterns.len() && #[trigger] glob_matches(patterns[i], name)
}

/// Whether some pattern of `patterns` matches the name `name`, read as text.
pub open spec fn ignored(patterns: Seq<Seq<char>>, name: Seq<u8>) -> bool {
    some_matches(patterns, text_of(name))
}

/// Editors' and browsers' temporary files, lock files and the like.
pub open spec fn default_patterns() -> Seq<Seq<char>> {
    seq![
        "*.swp"@,
        "*.swo"@,
        "*.swx"@,
        "~$*"@,
        ".~lock.*#"@,
        "*.part"@,
        "*.crdownload"@,
        "*.tmp"@,
        "*~"@,
        ".#*"@,
        "#*#"@,
        ".goutputstream-*"@,
        "*.kate-swp"@,
        ".fuse_hidden*"@,
        ".nfs*"@,
    ]
}

/// An account's ignore list.
#[derive(Debug)]
pub struct IgnoreList {
    patterns: Vec<String>,
}

impl View for IgnoreList {
    type V = Seq<Seq<char>>;

    closed spec fn view(&self) -> Seq<Seq<char>> {
        self.patterns.deep_view()
    }
}

impl Clone for IgnoreList {
    fn clone(&self) -> (r: Self)
        ensures
            r@ == self@,
    {
        let r = IgnoreList { patterns: self.patterns.clone() };
        assert(r@ =~= self@);
        r
    }
}

impl Default for IgnoreList {
    fn default() -> (r: Self)
        ensures
            r@ == default_patterns(),
    {
        let mut p: Vec<String> = Vec::new();
        p.push("*.swp".to_owned());
        p.push("*.swo".to_owned());
        p.push("*.swx".to_owned());
        p.push("~$*".to_owned());
        p.push(".~lock.*#".to_owned());
        p.push("*.part".to_owned());
        p.push("*.crdownload".to_owned());
        p.push("*.tmp".to_owned());
        p.push("*~".to_owned());
        p.push(".#*".to_owned());
        p.push("#*#".to_owned());
        p.push(".goutputstream-*".to_owned());
        p.push("*.kate-swp".to_owned());
        p.push(".fuse_hidden*".to_owned());
        p.push(".nfs*".to_owned());
        let r = IgnoreList { patterns: p };
        assert(r@ =~= default_patterns());
        r
    }
}

/// Why `pattern` is no pattern, in the order the reasons are looked for.
pub open spec fn pattern_fault(pattern: &str) -> Option<Seq<char>> {
    if forall|i: int| 0 <= i < pattern@.len() ==> white_space(pattern@[i]) {
        Some("a pattern cannot be empty"@)
    } else if pattern@.contains('/') {
        Some("a pattern matches a name, not a path: it cannot hold '/'"@)
    } else if pattern@.contains('\0') {
        Some("a pattern cannot hold a NUL"@)
    } else if pattern.spec_bytes().len() > 255 {
        Some("a pattern cannot be longer than a name (255 bytes)"@)
    } else {
        None
    }
}

impl IgnoreList {
    pub fn new(patterns: Vec<String>) -> (r: Self)
        ensures
            r@ == patterns.deep_view(),
    {
        IgnoreList { patterns }
    }

    /// The account's list: `patterns` from its config, or the defaults.
    pub fn configured(patterns: Option<Vec<String>>) -> (r: Self)
        ensures
            r@ == match patterns {
                Some(p) => p.deep_view(),
                None => default_patterns(),
            },
    {
        match patterns {
            Some(p) => IgnoreList::new(p),
            None => IgnoreList::default(),
        }
    }

    /// Why `pattern` is no pattern: empty, a `/` (a pattern matches a name,
    /// never a path), a NUL, or longer than a name can be.
    pub fn invalid(pattern: &str) -> (r: Option<&'static str>)
        ensures
            match r {
                Some(fault) => pattern_fault(pattern) == Some(fault@),
                None => pattern_fault(pattern) is None,
            },
    {
        let chars = chars_of(pattern);
        let mut blank = true;
        let mut slash = false;
        let mut nul = false;
        let mut i: usize = 0;
        while i < chars.len()
            invariant
                chars@ == pattern@,
                i <= chars@.len(),
                blank == (forall|j: int| 0 <= j < i ==> white_space(pattern@[j])),
                slash == (exists|j: int| 0 <= j < i && pattern@[j] == '/'),
                nul == (exists|j: int| 0 <= j < i && pattern@[j] == '\0'),
            decreases chars@.len() - i,
        {
            let c = chars[i];
            if !is_white_space(c) {
                blank = false;
            }
            if c == '/' {
                slash = true;
            }
            if c == '\0' {
                nul = true;
            }
            i += 1;
        }
        if blank {
            Some("a pattern cannot be empty")
        } else if slash {
            Some("a pattern matches a name, not a path: it cannot hold '/'")
        } else if nul {
            Some("a pattern cannot hold a NUL")
        } else if pattern.as_bytes().len() > 255 {
            Some("a pattern cannot be longer than a name (255 bytes)")
        } else {
            None
        }
    }

    pub fn patterns(&self) -> (r: &Vec<String>)
        ensures
            r.deep_view() == self@,
    {
        &self.patterns
    }

    /// Whether `name` stays local. A name that is not UTF-8 is matched as
    /// its lossy form.
    pub fn matches(&self, name: &[u8]) -> (r: bool)
        ensures
            r == ignored(self@, name@),
    {
        self.matches_text(lossy(name).as_str())
    }

    /// Whether a name that reads as `text` stays local.
    pub fn matches_text(&self, text: &str) -> (r: bool)
        ensures
            r == some_matches(self@, text@),
    {
        let n = chars_of(text);
        let mut i: usize = 0;
        while i < self.patterns.len()
            invariant
                n@ == text@,
                i <= self.patterns@.len(),
                forall|j: int| 0 <= j < i ==> !(#[trigger] glob_matches(self@[j], n@)),
            decreases self.patterns@.len() - i,
        {
            let p = chars_of(self.patterns[i].as_str());
            if glob(&p, &n) {
                assert(glob_matches(self@[i as int], n@));
                return true;
            }
            i += 1;
        }
        false
    }
}

proof fn lemma_class_end_shift(p: Seq<char>, k: int, i: int, first: bool)
    requires
        0 <= k <= p.len(),
        0 <= i,
    ensures
        class_end(p, k + i, first) == match class_end(p.subrange(k, p.len() as int), i, first) {
            Some(end) => Some(k + end),
            None => None,
        },
    decreases p.len() - k - i,
{
    let q = p.subrange(k, p.len() as int);
    if k + i < p.len() {
        assert(q[i] == p[k + i]);
        if k + i + 2 < p.len() {
            assert(q[i + 1] == p[k + i + 1]);
            assert(q[i + 2] == p[k + i + 2]);
        }
        if !(p[k + i] == ']' && !first) {
            if is_range(p, k + i) {
                lemma_class_end_shift(p, k, i + 3, false);
            } else {
                lemma_class_end_shift(p, k, i + 1, false);
            }
        }
    }
}

proof fn lemma_class_has_shift(p: Seq<char>, k: int, i: int, first: bool, c: char)
    requires
        0 <= k <= p.len(),
        0 <= i,
    ensures
        class_has(p, k + i, first, c) == class_has(p.subrange(k, p.len() as int), i, first, c),
    decreases p.len() - k - i,
{
    let q = p.subrange(k, p.len() as int);
    if k + i < p.len() {
        assert(q[i] == p[k + i]);
        if k + i + 2 < p.len() {
            assert(q[i + 1] == p[k + i + 1]);
            assert(q[i + 2] == p[k + i + 2]);
        }
        if !(p[k + i] == ']' && !first) {
            if is_range(p, k + i) {
                lemma_class_has_shift(p, k, i + 3, false, c);
            } else {
                lemma_class_has_shift(p, k, i + 1, false, c);
            }
        }
    }
}

proof fn lemma_token_shift(p: Seq<char>, k: int, i: int, c: char)
    requires
        0 <= k,
        0 <= i,
        k + i < p.len(),
    ensures
        token_end(p, k + i) == k + token_end(p.subrange(k, p.len() as int), i),
        token_takes(p, k + i, c) == token_takes(p.subrange(k, p.len() as int), i, c),
{
    let q = p.subrange(k, p.len() as int);
    assert(q[i] == p[k + i]);
    if k + i + 1 < p.len() {
        assert(q[i + 1] == p[k + i + 1]);
    }
    let m = class_members(q, i);
    assert(class_members(p, k + i) == k + m);
    lemma_class_end_shift(p, k, m, true);
    lemma_class_has_shift(p, k, m, true, c);
}

/// What matches from further on is what the rest of the pattern makes of the
/// rest of the name.
proof fn lemma_match_shift(p: Seq<char>, k: int, n: Seq<char>, l: int, i: int, j: int)
    requires
        0 <= k <= p.len(),
        0 <= l <= n.len(),
        0 <= i,
        0 <= j,
    ensures
        matches_from(p, k + i, n, l + j) == matches_from(
            p.subrange(k, p.len() as int),
            i,
            n.subrange(l, n.len() as int),
            j,
        ),
    decreases p.len() - k - i, n.len() - l - j,
{
    let q = p.subrange(k, p.len() as int);
    let m = n.subrange(l, n.len() as int);
    if l + j <= n.len() && k + i < p.len() {
        assert(q[i] == p[k + i]);
        if p[k + i] == '*' {
            lemma_match_shift(p, k, n, l, i + 1, j);
            if l + j < n.len() {
                lemma_match_shift(p, k, n, l, i, j + 1);
            }
        } else if l + j < n.len() {
            assert(m[j] == n[l + j]);
            lemma_token_shift(p, k, i, n[l + j]);
            lemma_token_end(p, k + i);
            lemma_match_shift(p, k, n, l, token_end(q, i), j + 1);
        }
    }
}

/// The rest of `s` after its first `k`.
pub open spec fn after(s: Seq<char>, k: int) -> Seq<char> {
    s.subrange(k, s.len() as int)
}

/// The empty pattern matches the empty name; a character that is no `*`, `?`,
/// `[` or `\\` matches itself and nothing else, and so does any after a `\\`; a
/// `?` matches any one; and what comes after matches the rest of the name.
pub proof fn law_a_pattern_matches_character_by_character(p: Seq<char>, n: Seq<char>)
    ensures
        p.len() == 0 ==> (glob_matches(p, n) <==> n.len() == 0),
        p.len() > 0 && p[0] != '*' && p[0] != '?' && p[0] != '[' && p[0] != '\\' ==> (glob_matches(p, n)
            <==> n.len() > 0 && n[0] == p[0] && glob_matches(after(p, 1), after(n, 1))),
        p.len() > 1 && p[0] == '\\' ==> (glob_matches(p, n) <==> n.len() > 0 && n[0] == p[1]
            && glob_matches(after(p, 2), after(n, 1))),
        p.len() > 0 && p[0] == '?' ==> (glob_matches(p, n) <==> n.len() > 0 && glob_matches(
            after(p, 1),
            after(n, 1),
        )),
{
    if p.len() > 0 && n.len() > 0 {
        lemma_match_shift(p, 1, n, 1, 0, 0);
        if p.len() > 1 {
            lemma_match_shift(p, 2, n, 1, 0, 0);
        }
    }
}

proof fn lemma_star(p: Seq<char>, n: Seq<char>, j: int)
    requires
        p.len() > 0,
        p[0] == '*',
        0 <= j <= n.len(),
    ensures
        matches_from(p, 0, n, j) <==> exists|k: int|
            j <= k <= n.len() && #[trigger] glob_matches(after(p, 1), after(n, k)),
    decreases n.len() - j,
{
    lemma_match_shift(p, 1, n, j, 0, 0);
    if j < n.len() {
        lemma_star(p, n, j + 1);
    }
    if matches_from(p, 1, n, j) {
        assert(glob_matches(after(p, 1), after(n, j)));
    }
    if exists|k: int| j <= k <= n.len() && #[trigger] glob_matches(after(p, 1), after(n, k)) {
        let k = choose|k: int| j <= k <= n.len() && #[trigger] glob_matches(after(p, 1), after(n, k));
        if k > j {
            assert(glob_matches(after(p, 1), after(n, k)));
        }
    }
}

/// A `*` matches any run of characters, also none, a leading dot as well.
pub proof fn law_a_star_matches_any_run(p: Seq<char>, n: Seq<char>)
    requires
        p.len() > 0,
        p[0] == '*',
    ensures
        glob_matches(p, n) <==> exists|k: int|
            0 <= k <= n.len() && #[trigger] glob_matches(after(p, 1), after(n, k)),
{
    lemma_star(p, n, 0);
}

/// `set` has no `]` and no `-`, and does not begin with `!` or `^`.
pub open spec fn is_plain_set(set: Seq<char>) -> bool {
    &&& set.len() > 0
    &&& set[0] != '!' && set[0] != '^'
    &&& forall|i: int| 0 <= i < set.len() ==> #[trigger] set[i] != ']' && set[i] != '-'
}

proof fn lemma_plain_set(p: Seq<char>, set: Seq<char>, from: int, i: int, c: char)
    requires
        is_plain_set(set),
        0 <= from,
        0 <= i <= set.len(),
        from + set.len() < p.len(),
        forall|m: int| 0 <= m < set.len() ==> #[trigger] p[from + m] == set[m],
        p[from + set.len()] == ']',
    ensures
        class_end(p, from + i, i == 0) == Some(from + set.len() + 1),
        class_has(p, from + i, i == 0, c) <==> exists|m: int| i <= m < set.len() && #[trigger] set[m] == c,
    decreases set.len() - i,
{
    if i < set.len() {
        assert(p[from + i] == set[i]);
        if i + 1 < set.len() {
            assert(p[from + (i + 1)] == set[i + 1]);
        }
        lemma_plain_set(p, set, from, i + 1, c);
        if set[i] == c {
            assert(set[i] == c);
        }
    } else {
        assert(p[from + i] == ']');
    }
}

/// A class `[...]` of characters matches any one of them; `[!...]` and `[^...]`
/// any one that is none of them; and `[a-z]` any from the first to the last.
pub proof fn law_a_class_matches_one_of_its_characters(
    set: Seq<char>,
    q: Seq<char>,
    n: Seq<char>,
    low: char,
    high: char,
)
    requires
        is_plain_set(set),
        low != '!' && low != '^' && low != ']',
        high != ']',
    ensures
        glob_matches(seq!['['] + set + seq![']'] + q, n) <==> n.len() > 0 && set.contains(n[0])
            && glob_matches(q, after(n, 1)),
        glob_matches(seq!['[', '!'] + set + seq![']'] + q, n) <==> n.len() > 0 && !set.contains(n[0])
            && glob_matches(q, after(n, 1)),
        glob_matches(seq!['[', '^'] + set + seq![']'] + q, n) <==> n.len() > 0 && !set.contains(n[0])
            && glob_matches(q, after(n, 1)),
        glob_matches(seq!['[', low, '-', high, ']'] + q, n) <==> n.len() > 0 && low <= n[0] <= high
            && glob_matches(q, after(n, 1)),
{
    if n.len() > 0 {
        let p = seq!['['] + set + seq![']'] + q;
        assert forall|m: int| 0 <= m < set.len() implies #[trigger] p[1 + m] == set[m] by {}
        lemma_plain_set(p, set, 1, 0, n[0]);
        assert(p[1] == set[0]);
        lemma_match_shift(p, set.len() as int + 2, n, 1, 0, 0);
        assert(p.subrange(set.len() as int + 2, p.len() as int) =~= q);
        let p = seq!['[', '!'] + set + seq![']'] + q;
        assert forall|m: int| 0 <= m < set.len() implies #[trigger] p[2 + m] == set[m] by {}
        lemma_plain_set(p, set, 2, 0, n[0]);
        lemma_match_shift(p, set.len() as int + 3, n, 1, 0, 0);
        assert(p.subrange(set.len() as int + 3, p.len() as int) =~= q);
        let p = seq!['[', '^'] + set + seq![']'] + q;
        assert forall|m: int| 0 <= m < set.len() implies #[trigger] p[2 + m] == set[m] by {}
        lemma_plain_set(p, set, 2, 0, n[0]);
        lemma_match_shift(p, set.len() as int + 3, n, 1, 0, 0);
        assert(p.subrange(set.len() as int + 3, p.len() as int) =~= q);
        let p = seq!['[', low, '-', high, ']'] + q;
        assert(is_range(p, 1));
        assert(p[4] == ']');
        assert(class_end(p, 4, false) == Some(5int));
        assert(class_end(p, 1, true) == Some(5int));
        assert(!class_has(p, 4, false, n[0]));
        assert(class_has(p, 1, true, n[0]) <==> low <= n[0] && n[0] <= high);
        lemma_match_shift(p, 5, n, 1, 0, 0);
        assert(p.subrange(5, p.len() as int) =~= q);
    }
}

proof fn lemma_plain(p: Seq<char>, n: Seq<char>)
    requires
        forall|i: int|
            0 <= i < p.len() ==> #[trigger] p[i] != '*' && p[i] != '?' && p[i] != '[' && p[i] != '\\',
    ensures
        glob_matches(p, n) <==> n == p,
    decreases p.len(),
{
    law_a_pattern_matches_character_by_character(p, n);
    if p.len() > 0 && n.len() > 0 {
        assert forall|i: int| 0 <= i < after(p, 1).len() implies #[trigger] after(p, 1)[i] != '*' && after(
            p,
            1,
        )[i] != '?' && after(p, 1)[i] != '[' && after(p, 1)[i] != '\\' by {
            assert(after(p, 1)[i] == p[i + 1]);
        }
        lemma_plain(after(p, 1), after(n, 1));
        if n[0] == p[0] && after(n, 1) == after(p, 1) {
            assert(n =~= seq![n[0]] + after(n, 1));
            assert(p =~= seq![p[0]] + after(p, 1));
        }
    } else if p.len() == 0 {
        assert(n.len() == 0 ==> n =~= p);
    }
}

/// A pattern without `*`, `?`, `[` or `\\` matches its own name, in this very
/// case, and no other; one that begins with a `*` and has no other matches what
/// ends like it, and one that ends with one what begins like it.
pub proof fn law_a_plain_pattern_matches_only_itself(p: Seq<char>, n: Seq<char>)
    requires
        forall|i: int|
            0 <= i < p.len() ==> #[trigger] p[i] != '*' && p[i] != '?' && p[i] != '[' && p[i] != '\\',
    ensures
        glob_matches(p, n) <==> n == p,
        glob_matches(seq!['*'] + p, n) <==> n.len() >= p.len() && after(n, n.len() - p.len()) == p,
{
    lemma_plain(p, n);
    let star = seq!['*'] + p;
    law_a_star_matches_any_run(star, n);
    assert(after(star, 1) =~= p);
    if n.len() >= p.len() && after(n, n.len() - p.len()) == p {
        lemma_plain(p, after(n, n.len() - p.len()));
        assert(glob_matches(after(star, 1), after(n, n.len() - p.len())));
    }
    if exists|k: int| 0 <= k <= n.len() && #[trigger] glob_matches(after(star, 1), after(n, k)) {
        let k = choose|k: int| 0 <= k <= n.len() && #[trigger] glob_matches(after(star, 1), after(n, k));
        lemma_plain(p, after(n, k));
        assert(k == n.len() - p.len());
    }
}

/// `text` begins with `a`, ends with `b`, and the two do not overlap.
pub open spec fn has_ends(text: Seq<char>, a: Seq<char>, b: Seq<char>) -> bool {
    &&& text.len() >= a.len() + b.len()
    &&& text.subrange(0, a.len() as int) == a
    &&& text.subrange(text.len() - b.len(), text.len() as int) == b
}

/// `p` has no character that stands for another.
pub open spec fn is_plain(p: Seq<char>) -> bool {
    forall|i: int|
        0 <= i < p.len() ==> #[trigger] p[i] != '*' && p[i] != '?' && p[i] != '[' && p[i] != '\\'
}

proof fn lemma_star_between(a: Seq<char>, b: Seq<char>, n: Seq<char>)
    requires
        is_plain(a),
        is_plain(b),
    ensures
        glob_matches(a + seq!['*'] + b, n) <==> has_ends(n, a, b),
    decreases a.len(),
{
    let p = a + seq!['*'] + b;
    if a.len() == 0 {
        assert(p =~= seq!['*'] + b);
        law_a_plain_pattern_matches_only_itself(b, n);
        assert(n.subrange(0, 0) =~= a);
    } else {
        law_a_pattern_matches_character_by_character(p, n);
        assert(p[0] == a[0]);
        if n.len() > 0 {
            let rest = after(a, 1);
            let m = after(n, 1);
            assert forall|i: int| 0 <= i < rest.len() implies #[trigger] rest[i] != '*' && rest[i] != '?'
                && rest[i] != '[' && rest[i] != '\\' by {
                assert(rest[i] == a[i + 1]);
            }
            assert(after(p, 1) =~= rest + seq!['*'] + b);
            lemma_star_between(rest, b, m);
            if n.len() >= a.len() + b.len() {
                assert(m.subrange(m.len() - b.len(), m.len() as int) =~= n.subrange(
                    n.len() - b.len(),
                    n.len() as int,
                ));
                let head = n.subrange(0, a.len() as int);
                let tail = m.subrange(0, rest.len() as int);
                if n[0] == a[0] && tail == rest {
                    assert forall|i: int| 0 <= i < a.len() implies head[i] == a[i] by {
                        if i > 0 {
                            assert(tail[i - 1] == rest[i - 1]);
                        }
                    }
                    assert(head =~= a);
                }
                if head == a {
                    assert(head[0] == a[0]);
                    assert forall|i: int| 0 <= i < rest.len() implies tail[i] == rest[i] by {
                        assert(head[i + 1] == a[i + 1]);
                    }
                    assert(tail =~= rest);
                }
            }
        }
    }
}

proof fn lemma_ends(a: Seq<char>, b: Seq<char>, p: Seq<char>, text: Seq<char>)
    requires
        is_plain(a),
        is_plain(b),
        p =~= a + seq!['*'] + b,
    ensures
        glob_matches(p, text) <==> has_ends(text, a, b),
{
    lemma_star_between(a, b, text);
}

/// The temporary, lock and partial files that stay local unless an account says
/// otherwise, by how their names begin and end.
pub open spec fn is_left_local_by_default(text: Seq<char>) -> bool {
    ||| has_ends(text, ""@, ".swp"@)
    ||| has_ends(text, ""@, ".swo"@)
    ||| has_ends(text, ""@, ".swx"@)
    ||| has_ends(text, "~$"@, ""@)
    ||| has_ends(text, ".~lock."@, "#"@)
    ||| has_ends(text, ""@, ".part"@)
    ||| has_ends(text, ""@, ".crdownload"@)
    ||| has_ends(text, ""@, ".tmp"@)
    ||| has_ends(text, ""@, "~"@)
    ||| has_ends(text, ".#"@, ""@)
    ||| has_ends(text, "#"@, "#"@)
    ||| has_ends(text, ".goutputstream-"@, ""@)
    ||| has_ends(text, ""@, ".kate-swp"@)
    ||| has_ends(text, ".fuse_hidden"@, ""@)
    ||| has_ends(text, ".nfs"@, ""@)
}

/// Unless an account says otherwise these names stay local, and no others.
pub proof fn law_what_stays_local_by_default(name: Seq<u8>)
    ensures
        ignored(default_patterns(), name) <==> is_left_local_by_default(text_of(name)),
{
    let text = text_of(name);
    reveal_strlit("");
    reveal_strlit("#");
    reveal_strlit("#*#");
    reveal_strlit("*.crdownload");
    reveal_strlit("*.kate-swp");
    reveal_strlit("*.part");
    reveal_strlit("*.swo");
    reveal_strlit("*.swp");
    reveal_strlit("*.swx");
    reveal_strlit("*.tmp");
    reveal_strlit("*~");
    reveal_strlit(".#");
    reveal_strlit(".#*");
    reveal_strlit(".crdownload");
    reveal_strlit(".fuse_hidden");
    reveal_strlit(".fuse_hidden*");
    reveal_strlit(".goutputstream-");
    reveal_strlit(".goutputstream-*");
    reveal_strlit(".kate-swp");
    reveal_strlit(".nfs");
    reveal_strlit(".nfs*");
    reveal_strlit(".part");
    reveal_strlit(".swo");
    reveal_strlit(".swp");
    reveal_strlit(".swx");
    reveal_strlit(".tmp");
    reveal_strlit(".~lock.");
    reveal_strlit(".~lock.*#");
    reveal_strlit("~");
    reveal_strlit("~$");
    reveal_strlit("~$*");
    assert(default_patterns()[0] == "*.swp"@);
    assert(default_patterns()[1] == "*.swo"@);
    assert(default_patterns()[2] == "*.swx"@);
    assert(default_patterns()[3] == "~$*"@);
    assert(default_patterns()[4] == ".~lock.*#"@);
    assert(default_patterns()[5] == "*.part"@);
    assert(default_patterns()[6] == "*.crdownload"@);
    assert(default_patterns()[7] == "*.tmp"@);
    assert(default_patterns()[8] == "*~"@);
    assert(default_patterns()[9] == ".#*"@);
    assert(default_patterns()[10] == "#*#"@);
    assert(default_patterns()[11] == ".goutputstream-*"@);
    assert(default_patterns()[12] == "*.kate-swp"@);
    assert(default_patterns()[13] == ".fuse_hidden*"@);
    assert(default_patterns()[14] == ".nfs*"@);
    lemma_ends(""@, ".swp"@, "*.swp"@, text);
    lemma_ends(""@, ".swo"@, "*.swo"@, text);
    lemma_ends(""@, ".swx"@, "*.swx"@, text);
    lemma_ends("~$"@, ""@, "~$*"@, text);
    lemma_ends(".~lock."@, "#"@, ".~lock.*#"@, text);
    lemma_ends(""@, ".part"@, "*.part"@, text);
    lemma_ends(""@, ".crdownload"@, "*.crdownload"@, text);
    lemma_ends(""@, ".tmp"@, "*.tmp"@, text);
    lemma_ends(""@, "~"@, "*~"@, text);
    lemma_ends(".#"@, ""@, ".#*"@, text);
    lemma_ends("#"@, "#"@, "#*#"@, text);
    lemma_ends(".goutputstream-"@, ""@, ".goutputstream-*"@, text);
    lemma_ends(""@, ".kate-swp"@, "*.kate-swp"@, text);
    lemma_ends(".fuse_hidden"@, ""@, ".fuse_hidden*"@, text);
    lemma_ends(".nfs"@, ""@, ".nfs*"@, text);
    assert(default_patterns().len() == 15);
}

/// A name stays local exactly when some pattern matches it, as it reads.
pub proof fn law_a_name_stays_local_when_a_pattern_matches(patterns: Seq<Seq<char>>, name: Seq<u8>)
    ensures
        ignored(patterns, name) <==> exists|k: int|
            0 <= k < patterns.len() && #[trigger] glob_matches(patterns[k], text_of(name)),
{
}

} // verus!
