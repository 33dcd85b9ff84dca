//! What holds of the settings file's values, whatever they hold.

use vstd::prelude::*;
use vstd::string::*;
use crate::baloo::{
    command_end, excluded_from, expanded_from, first_at, is_name_char, items_from, items_of,
    lemma_command_end, lemma_first_at, lemma_name_end, line_folders, name_end, trimmed, unescaped,
    white_end, white_start,
};
use crate::text::white_space;

verus! {

/// `a`, `c` and `b`, one after the other.
pub open spec fn around(a: Seq<char>, c: char, b: Seq<char>) -> Seq<char> {
    a + seq![c] + b
}

proof fn lemma_white_start(s: Seq<char>, i: int)
    requires
        0 <= i <= s.len(),
    ensures
        i <= white_start(s, i) <= s.len(),
        i < s.len() ==> (white_start(s, i) == i <==> !white_space(s[i])),
    decreases s.len() - i,
{
    if i < s.len() && white_space(s[i]) {
        lemma_white_start(s, i + 1);
    }
}

proof fn lemma_white_end(s: Seq<char>, n: int)
    requires
        0 <= n <= s.len(),
    ensures
        0 <= white_end(s, n) <= n,
        n > 0 ==> (white_end(s, n) == n <==> !white_space(s[n - 1])),
    decreases n,
{
    if n > 0 && white_space(s[n - 1]) {
        lemma_white_end(s, n - 1);
    }
}

/// Nothing is trimmed off a text exactly when no white space is at its ends.
proof fn lemma_trimmed(s: Seq<char>)
    ensures
        trimmed(s) == s <==> (s.len() == 0 || (!white_space(s[0]) && !white_space(s.last()))),
{
    lemma_white_start(s, 0);
    lemma_white_end(s, s.len() as int);
    if s.len() == 0 {
        assert(trimmed(s) =~= s);
    } else if !white_space(s[0]) && !white_space(s.last()) {
        assert(trimmed(s) =~= s);
    } else {
        assert(trimmed(s).len() < s.len());
    }
}

/// How many backslashes the first `n` characters of `s` end with.
pub open spec fn backslashes(s: Seq<char>, n: int) -> nat
    decreases n,
{
    if n > 0 && s[n - 1] == '\\' {
        backslashes(s, n - 1) + 1
    } else {
        0
    }
}

proof fn lemma_backslashes(s: Seq<char>, n: int)
    requires
        0 <= n <= s.len(),
    ensures
        backslashes(s, n) <= n,
        forall|k: int| n - backslashes(s, n) <= k < n ==> #[trigger] s[k] == '\\',
        backslashes(s, n) < n ==> s[n - backslashes(s, n) - 1] != '\\',
    decreases n,
{
    if n > 0 && s[n - 1] == '\\' {
        lemma_backslashes(s, n - 1);
    }
}

/// Read from `i` on, `s` does not end within an escape.
spec fn ends_whole(s: Seq<char>, i: int) -> bool
    decreases s.len() - i,
{
    if i >= s.len() {
        true
    } else if s[i] == '\\' {
        i + 1 < s.len() && ends_whole(s, i + 2)
    } else {
        ends_whole(s, i + 1)
    }
}

proof fn lemma_ends_whole(s: Seq<char>, i: int)
    requires
        0 <= i <= s.len(),
        if i <= s.len() - backslashes(s, s.len() as int) {
            backslashes(s, s.len() as int) % 2 == 0
        } else {
            (s.len() - i) % 2 == 0
        },
    ensures
        ends_whole(s, i),
    decreases s.len() - i,
{
    lemma_backslashes(s, s.len() as int);
    if i < s.len() {
        if s[i] == '\\' {
            lemma_ends_whole(s, i + 2);
        } else {
            lemma_ends_whole(s, i + 1);
        }
    }
}

/// The items from `k` on are those of the text that begins there.
proof fn lemma_items_shift(s: Seq<char>, k: int, i: int, open: Seq<char>)
    requires
        0 <= k <= s.len(),
        0 <= i,
    ensures
        items_from(s, k + i, open) == items_from(s.subrange(k, s.len() as int), i, open),
    decreases s.len() - k - i,
{
    let t = s.subrange(k, s.len() as int);
    if k + i < s.len() {
        assert(t[i] == s[k + i]);
        if s[k + i] == ',' {
            lemma_items_shift(s, k, i + 1, Seq::empty());
        } else if s[k + i] == '\\' {
            if k + i + 1 < s.len() {
                assert(t[i + 1] == s[k + i + 1]);
                lemma_items_shift(s, k, i + 2, open.push(unescaped(s[k + i + 1])));
            } else {
                lemma_items_shift(s, k, i + 1, open.push('\\'));
            }
        } else {
            lemma_items_shift(s, k, i + 1, open.push(s[k + i]));
        }
    }
}

proof fn lemma_items_split(a: Seq<char>, b: Seq<char>, i: int, open: Seq<char>)
    requires
        0 <= i <= a.len(),
        ends_whole(a, i),
    ensures
        items_from(around(a, ',', b), i, open) == items_from(a, i, open) + items_from(b, 0, Seq::empty()),
    decreases a.len() - i,
{
    let t = around(a, ',', b);
    let none = Seq::<char>::empty();
    if i < a.len() {
        assert(t[i] == a[i]);
        if a[i] == ',' {
            lemma_items_split(a, b, i + 1, none);
            assert(items_from(t, i, open) =~= items_from(a, i, open) + items_from(b, 0, none));
        } else if a[i] == '\\' {
            assert(t[i + 1] == a[i + 1]);
            lemma_items_split(a, b, i + 2, open.push(unescaped(a[i + 1])));
        } else {
            lemma_items_split(a, b, i + 1, open.push(a[i]));
        }
    } else {
        assert(t[i] == ',');
        lemma_items_shift(t, i + 1, 0, none);
        assert(t.subrange(i + 1, t.len() as int) =~= b);
        assert(items_from(t, i, open) =~= items_from(a, i, open) + items_from(b, 0, none));
    }
}

/// A list splits at a comma that is not escaped: what is before it, and what is
/// after, are lists of their own, where there is no white space to trim.
pub proof fn law_a_list_splits_at_a_comma(a: Seq<char>, b: Seq<char>)
    requires
        trimmed(a) == a,
        trimmed(b) == b,
        backslashes(a, a.len() as int) % 2 == 0,
    ensures
        items_of(around(a, ',', b)) == items_of(a) + items_of(b),
{
    let t = around(a, ',', b);
    lemma_trimmed(a);
    lemma_trimmed(b);
    lemma_trimmed(t);
    assert(t[0] == if a.len() > 0 {
        a[0]
    } else {
        ','
    });
    assert(t.last() == if b.len() > 0 {
        b.last()
    } else {
        ','
    });
    lemma_backslashes(a, a.len() as int);
    lemma_ends_whole(a, 0);
    lemma_items_split(a, b, 0, Seq::empty());
}

proof fn lemma_no_item_is_empty(s: Seq<char>, i: int, open: Seq<char>, k: int)
    requires
        0 <= k < items_from(s, i, open).len(),
    ensures
        items_from(s, i, open)[k].len() > 0,
    decreases s.len() - i,
{
    if i < s.len() {
        if s[i] == ',' {
            let rest = items_from(s, i + 1, Seq::empty());
            let ended: nat = if open.len() == 0 {
                0
            } else {
                1
            };
            if k >= ended {
                assert(items_from(s, i, open)[k] == rest[k - ended]);
                lemma_no_item_is_empty(s, i + 1, Seq::empty(), k - ended);
            }
        } else if s[i] == '\\' {
            if i + 1 < s.len() {
                lemma_no_item_is_empty(s, i + 2, open.push(unescaped(s[i + 1])), k);
            } else {
                lemma_no_item_is_empty(s, i + 1, open.push('\\'), k);
            }
        } else {
            lemma_no_item_is_empty(s, i + 1, open.push(s[i]), k);
        }
    }
}

/// No item of a list is empty.
pub proof fn law_no_item_of_a_list_is_empty(value: Seq<char>, k: int)
    requires
        0 <= k < items_of(value).len(),
    ensures
        items_of(value)[k].len() > 0,
{
    lemma_no_item_is_empty(trimmed(value), 0, Seq::empty(), k);
}

/// What begins in `a` at `i` or later, a braced name or a command, closes in `a`
/// or not at all, when a slash and `b` follow `a`.
pub open spec fn nothing_crosses(a: Seq<char>, b: Seq<char>, i: int) -> bool
    decreases a.len() - i,
{
    if i < 0 || i >= a.len() {
        true
    } else if a[i] != '$' {
        nothing_crosses(a, b, i + 1)
    } else if i + 1 < a.len() && a[i + 1] == '$' {
        nothing_crosses(a, b, i + 2)
    } else if i + 1 < a.len() && a[i + 1] == '{' {
        let end = first_at(a, '}', i + 2);
        proof {
            lemma_first_at(a, '}', i + 2);
        }
        if end < a.len() {
            nothing_crosses(a, b, end + 1)
        } else {
            !b.contains('}') && nothing_crosses(a, b, i + 1)
        }
    } else if i + 1 < a.len() && a[i + 1] == '(' {
        proof {
            lemma_command_end(a, i + 2, 1);
        }
        match command_end(a, i + 2, 1) {
            Some(end) => nothing_crosses(a, b, end),
            None => command_end(around(a, '/', b), i + 2, 1) is None && nothing_crosses(a, b, i + 1),
        }
    } else {
        proof {
            lemma_name_end(a, i + 1);
        }
        nothing_crosses(a, b, name_end(a, i + 1))
    }
}

proof fn lemma_first_shift(s: Seq<char>, c: char, k: int, i: int)
    requires
        0 <= k <= s.len(),
        0 <= i <= s.len() - k,
    ensures
        first_at(s, c, k + i) == k + first_at(s.subrange(k, s.len() as int), c, i),
    decreases s.len() - k - i,
{
    let t = s.subrange(k, s.len() as int);
    if k + i < s.len() {
        assert(t[i] == s[k + i]);
        if s[k + i] != c {
            lemma_first_shift(s, c, k, i + 1);
        }
    }
}

proof fn lemma_name_shift(s: Seq<char>, k: int, i: int)
    requires
        0 <= k <= s.len(),
        0 <= i <= s.len() - k,
    ensures
        name_end(s, k + i) == k + name_end(s.subrange(k, s.len() as int), i),
    decreases s.len() - k - i,
{
    let t = s.subrange(k, s.len() as int);
    if k + i < s.len() {
        assert(t[i] == s[k + i]);
        if is_name_char(s[k + i]) {
            lemma_name_shift(s, k, i + 1);
        }
    }
}

proof fn lemma_command_shift(s: Seq<char>, k: int, i: int, depth: nat)
    requires
        0 <= k <= s.len(),
        0 <= i,
    ensures
        command_end(s, k + i, depth) == match command_end(s.subrange(k, s.len() as int), i, depth) {
            Some(end) => Some(k + end),
            None => None,
        },
    decreases s.len() - k - i,
{
    let t = s.subrange(k, s.len() as int);
    if k + i < s.len() {
        assert(t[i] == s[k + i]);
        if s[k + i] == ')' {
            if depth > 1 {
                lemma_command_shift(s, k, i + 1, (depth - 1) as nat);
            }
        } else if s[k + i] == '(' {
            lemma_command_shift(s, k, i + 1, depth + 1);
        } else {
            lemma_command_shift(s, k, i + 1, depth);
        }
    }
}

/// What is expanded from `k` on is what the text that begins there expands to.
proof fn lemma_expanded_shift(s: Seq<char>, vars: Seq<(Seq<char>, Seq<char>)>, k: int, i: int)
    requires
        0 <= k <= s.len(),
        0 <= i,
    ensures
        expanded_from(s, vars, k + i) == expanded_from(s.subrange(k, s.len() as int), vars, i),
    decreases s.len() - k - i,
{
    let t = s.subrange(k, s.len() as int);
    let at = k + i;
    if at < s.len() {
        assert(t[i] == s[at]);
        if at + 1 < s.len() {
            assert(t[i + 1] == s[at + 1]);
        }
        if s[at] != '$' {
            lemma_expanded_shift(s, vars, k, i + 1);
        } else if at + 1 < s.len() && s[at + 1] == '$' {
            lemma_expanded_shift(s, vars, k, i + 2);
        } else {
            if at + 1 < s.len() {
                lemma_first_shift(s, '}', k, i + 2);
                lemma_first_at(s, '}', at + 2);
            }
            if at + 1 < s.len() && s[at + 1] == '{' && first_at(s, '}', at + 2) < s.len() {
                let end = first_at(s, '}', at + 2);
                assert(t.subrange(i + 2, end - k) =~= s.subrange(at + 2, end));
                lemma_expanded_shift(s, vars, k, end + 1 - k);
            } else if at + 1 < s.len() && s[at + 1] == '(' {
                lemma_command_shift(s, k, i + 2, 1);
                lemma_command_end(s, at + 2, 1);
                match command_end(s, at + 2, 1) {
                    Some(end) => {
                        assert(t.subrange(i, end - k) =~= s.subrange(at, end));
                        lemma_expanded_shift(s, vars, k, end - k);
                    },
                    None => {
                        lemma_expanded_shift(s, vars, k, i + 1);
                    },
                }
            } else {
                lemma_name_shift(s, k, i + 1);
                lemma_name_end(s, at + 1);
                let end = name_end(s, at + 1);
                assert(t.subrange(i + 1, end - k) =~= s.subrange(at + 1, end));
                lemma_expanded_shift(s, vars, k, end - k);
            }
        }
    }
}

/// A variable's name does not go past a slash.
proof fn lemma_name_before_slash(a: Seq<char>, b: Seq<char>, i: int)
    requires
        0 <= i <= a.len(),
    ensures
        name_end(around(a, '/', b), i) == name_end(a, i),
    decreases a.len() - i,
{
    let t = around(a, '/', b);
    if i < a.len() {
        assert(t[i] == a[i]);
        if is_name_char(a[i]) {
            lemma_name_before_slash(a, b, i + 1);
        }
    } else {
        assert(t[i] == '/');
    }
}

/// A command that ends in `a` ends there, whatever follows.
proof fn lemma_command_before(a: Seq<char>, b: Seq<char>, i: int, depth: nat)
    requires
        0 <= i,
        command_end(a, i, depth) is Some,
    ensures
        command_end(around(a, '/', b), i, depth) == command_end(a, i, depth),
    decreases a.len() - i,
{
    let t = around(a, '/', b);
    if i < a.len() {
        assert(t[i] == a[i]);
        if a[i] == ')' {
            if depth > 1 {
                lemma_command_before(a, b, i + 1, (depth - 1) as nat);
            }
        } else if a[i] == '(' {
            lemma_command_before(a, b, i + 1, depth + 1);
        } else {
            lemma_command_before(a, b, i + 1, depth);
        }
    }
}

/// What nowhere stands is not found.
proof fn lemma_first_nowhere(s: Seq<char>, c: char, i: int)
    requires
        0 <= i <= s.len(),
        !s.contains(c),
    ensures
        first_at(s, c, i) == s.len(),
    decreases s.len() - i,
{
    if i < s.len() {
        assert(s[i] != c);
        lemma_first_nowhere(s, c, i + 1);
    }
}

/// What is looked for stands in `a`, or else in `b`.
proof fn lemma_first_around(a: Seq<char>, b: Seq<char>, c: char, i: int)
    requires
        0 <= i <= a.len(),
        c != '/',
    ensures
        first_at(around(a, '/', b), c, i) == if first_at(a, c, i) < a.len() {
            first_at(a, c, i)
        } else {
            a.len() + 1 + first_at(b, c, 0)
        },
    decreases a.len() - i,
{
    let t = around(a, '/', b);
    if i < a.len() {
        assert(t[i] == a[i]);
        if a[i] != c {
            lemma_first_around(a, b, c, i + 1);
        }
    } else {
        assert(t[i] == '/');
        lemma_first_shift(t, c, i + 1, 0);
        assert(t.subrange(i + 1, t.len() as int) =~= b);
    }
}

proof fn lemma_expanded_split(a: Seq<char>, b: Seq<char>, vars: Seq<(Seq<char>, Seq<char>)>, i: int)
    requires
        0 <= i <= a.len(),
        nothing_crosses(a, b, i),
    ensures
        expanded_from(around(a, '/', b), vars, i) == around(
            expanded_from(a, vars, i),
            '/',
            expanded_from(b, vars, 0),
        ),
    decreases a.len() - i,
{
    let t = around(a, '/', b);
    let whole = expanded_from(t, vars, i);
    let want = around(expanded_from(a, vars, i), '/', expanded_from(b, vars, 0));
    if i < a.len() {
        assert(t[i] == a[i]);
        if i + 1 < a.len() {
            assert(t[i + 1] == a[i + 1]);
        } else {
            assert(t[i + 1] == '/');
        }
        if a[i] != '$' {
            lemma_expanded_split(a, b, vars, i + 1);
            assert(whole =~= want);
        } else if i + 1 < a.len() && a[i + 1] == '$' {
            lemma_expanded_split(a, b, vars, i + 2);
            assert(whole =~= want);
        } else if i + 1 < a.len() && a[i + 1] == '{' {
            let end = first_at(a, '}', i + 2);
            lemma_first_at(a, '}', i + 2);
            lemma_first_around(a, b, '}', i + 2);
            if end < a.len() {
                lemma_expanded_split(a, b, vars, end + 1);
                assert(t.subrange(i + 2, end) =~= a.subrange(i + 2, end));
            } else {
                lemma_first_nowhere(b, '}', 0);
                assert(name_end(a, i + 1) == i + 1);
                assert(name_end(t, i + 1) == i + 1);
                lemma_expanded_split(a, b, vars, i + 1);
            }
            assert(whole =~= want);
        } else if i + 1 < a.len() && a[i + 1] == '(' {
            lemma_command_end(a, i + 2, 1);
            match command_end(a, i + 2, 1) {
                Some(end) => {
                    lemma_command_before(a, b, i + 2, 1);
                    lemma_expanded_split(a, b, vars, end);
                    assert(t.subrange(i, end) =~= a.subrange(i, end));
                },
                None => {
                    lemma_expanded_split(a, b, vars, i + 1);
                },
            }
            assert(whole =~= want);
        } else {
            lemma_name_before_slash(a, b, i + 1);
            lemma_name_end(a, i + 1);
            let end = name_end(a, i + 1);
            lemma_expanded_split(a, b, vars, end);
            assert(t.subrange(i + 1, end) =~= a.subrange(i + 1, end));
            assert(whole =~= want);
        }
    } else {
        assert(t[i] == '/');
        lemma_expanded_shift(t, vars, i + 1, 0);
        assert(t.subrange(i + 1, t.len() as int) =~= b);
        assert(whole =~= want);
    }
}

/// A value expands part by part: what is before a slash, and what is after, on
/// its own, unless a braced name or a command begins before the slash and its
/// bracket closes after it.
pub proof fn law_a_value_expands_part_by_part(
    a: Seq<char>,
    b: Seq<char>,
    vars: Seq<(Seq<char>, Seq<char>)>,
)
    requires
        nothing_crosses(a, b, 0),
    ensures
        expanded_from(around(a, '/', b), vars, 0) == around(
            expanded_from(a, vars, 0),
            '/',
            expanded_from(b, vars, 0),
        ),
{
    lemma_expanded_split(a, b, vars, 0);
}

/// Where nothing closes, no command ends.
proof fn lemma_never_closed(s: Seq<char>, i: int, depth: nat)
    requires
        0 <= i,
        forall|j: int| i <= j < s.len() ==> #[trigger] s[j] != ')',
    ensures
        command_end(s, i, depth) is None,
    decreases s.len() - i,
{
    if i < s.len() {
        if s[i] == '(' {
            lemma_never_closed(s, i + 1, depth + 1);
        } else {
            lemma_never_closed(s, i + 1, depth);
        }
    }
}

/// A command that `a` leaves open stays open where `b` closes nothing.
proof fn lemma_left_open(a: Seq<char>, b: Seq<char>, i: int, depth: nat)
    requires
        0 <= i <= a.len(),
        command_end(a, i, depth) is None,
        !b.contains(')'),
    ensures
        command_end(around(a, '/', b), i, depth) is None,
    decreases a.len() - i,
{
    let t = around(a, '/', b);
    if i < a.len() {
        assert(t[i] == a[i]);
        if a[i] == ')' {
            lemma_left_open(a, b, i + 1, (depth - 1) as nat);
        } else if a[i] == '(' {
            lemma_left_open(a, b, i + 1, depth + 1);
        } else {
            lemma_left_open(a, b, i + 1, depth);
        }
    } else {
        assert forall|j: int| i <= j < t.len() implies #[trigger] t[j] != ')' by {
            if j > i {
                assert(t[j] == b[j - i - 1]);
            }
        }
        lemma_never_closed(t, i, depth);
    }
}

proof fn lemma_nothing_crosses(a: Seq<char>, b: Seq<char>, i: int)
    requires
        0 <= i <= a.len(),
        !a.contains('{') || !b.contains('}'),
        !a.contains('(') || !b.contains(')'),
    ensures
        nothing_crosses(a, b, i),
    decreases a.len() - i,
{
    if i < a.len() {
        if a[i] != '$' {
            lemma_nothing_crosses(a, b, i + 1);
        } else if i + 1 < a.len() && a[i + 1] == '$' {
            lemma_nothing_crosses(a, b, i + 2);
        } else if i + 1 < a.len() && a[i + 1] == '{' {
            lemma_first_at(a, '}', i + 2);
            let end = first_at(a, '}', i + 2);
            if end < a.len() {
                lemma_nothing_crosses(a, b, end + 1);
            } else {
                lemma_nothing_crosses(a, b, i + 1);
            }
        } else if i + 1 < a.len() && a[i + 1] == '(' {
            lemma_command_end(a, i + 2, 1);
            match command_end(a, i + 2, 1) {
                Some(end) => {
                    lemma_nothing_crosses(a, b, end);
                },
                None => {
                    lemma_left_open(a, b, i + 2, 1);
                    lemma_nothing_crosses(a, b, i + 1);
                },
            }
        } else {
            lemma_name_end(a, i + 1);
            lemma_nothing_crosses(a, b, name_end(a, i + 1));
        }
    }
}

/// Where no bracket can begin before a slash and close after it, a value
/// expands part by part.
pub proof fn law_a_value_without_brackets_around_a_slash_expands_part_by_part(
    a: Seq<char>,
    b: Seq<char>,
    vars: Seq<(Seq<char>, Seq<char>)>,
)
    requires
        !a.contains('{') || !b.contains('}'),
        !a.contains('(') || !b.contains(')'),
    ensures
        expanded_from(around(a, '/', b), vars, 0) == around(
            expanded_from(a, vars, 0),
            '/',
            expanded_from(b, vars, 0),
        ),
{
    lemma_nothing_crosses(a, b, 0);
    lemma_expanded_split(a, b, vars, 0);
}

proof fn lemma_nothing_expanded(s: Seq<char>, vars: Seq<(Seq<char>, Seq<char>)>, i: int)
    requires
        0 <= i <= s.len(),
        !s.contains('$'),
    ensures
        expanded_from(s, vars, i) == s.subrange(i, s.len() as int),
    decreases s.len() - i,
{
    if i < s.len() {
        assert(s[i] != '$');
        lemma_nothing_expanded(s, vars, i + 1);
    }
    assert(expanded_from(s, vars, i) =~= s.subrange(i, s.len() as int));
}

/// A value without a `$` stays as it is.
pub proof fn law_a_value_without_a_variable_stays(s: Seq<char>, vars: Seq<(Seq<char>, Seq<char>)>)
    requires
        !s.contains('$'),
    ensures
        expanded_from(s, vars, 0) == s,
{
    lemma_nothing_expanded(s, vars, 0);
    assert(s.subrange(0, s.len() as int) =~= s);
}

/// A command stays as written, whatever variables it names.
pub proof fn law_a_command_stays_as_written(s: Seq<char>, vars: Seq<(Seq<char>, Seq<char>)>)
    requires
        s.len() >= 2,
        s[0] == '$',
        s[1] == '(',
        command_end(s, 2, 1) == Some(s.len() as int),
    ensures
        expanded_from(s, vars, 0) == s,
{
    assert(expanded_from(s, vars, s.len() as int) =~= Seq::<char>::empty());
    assert(expanded_from(s, vars, 0) =~= s);
}

/// Where no bracket closes a command, what follows its `$` is expanded as it
/// would be on its own.
pub proof fn law_what_an_open_command_holds_is_expanded(
    s: Seq<char>,
    vars: Seq<(Seq<char>, Seq<char>)>,
)
    requires
        s.len() >= 2,
        s[0] == '$',
        s[1] == '(',
        command_end(s, 2, 1) is None,
    ensures
        expanded_from(s, vars, 0) == seq!['$'] + expanded_from(
            s.subrange(1, s.len() as int),
            vars,
            0,
        ),
{
    lemma_expanded_shift(s, vars, 1, 0);
}

/// The folders excluded from `k` on are those of the text that begins there.
proof fn lemma_excluded_shift(
    s: Seq<char>,
    vars: Seq<(Seq<char>, Seq<char>)>,
    k: int,
    i: int,
    general: bool,
)
    requires
        0 <= k <= s.len(),
        0 <= i,
    ensures
        excluded_from(s, vars, k + i, general) == excluded_from(
            s.subrange(k, s.len() as int),
            vars,
            i,
            general,
        ),
    decreases s.len() - k - i,
{
    let t = s.subrange(k, s.len() as int);
    if k + i <= s.len() {
        lemma_first_shift(s, '\n', k, i);
        lemma_first_at(s, '\n', k + i);
        let end = first_at(s, '\n', k + i);
        assert(t.subrange(i, end - k) =~= s.subrange(k + i, end));
        let line = trimmed(s.subrange(k + i, end));
        let now = if line.len() > 0 && line[0] == '[' {
            line == "[General]"@
        } else {
            general
        };
        if end < s.len() {
            lemma_excluded_shift(s, vars, k, end + 1 - k, now);
        }
    }
}

/// The first line of `t` is `[General]`.
spec fn begins_general(t: Seq<char>) -> bool {
    trimmed(t.subrange(0, first_at(t, '\n', 0))) == "[General]"@
}

/// Where a line is `[General]`, the group before it does not matter.
proof fn lemma_general_begins(t: Seq<char>, vars: Seq<(Seq<char>, Seq<char>)>, general: bool)
    requires
        begins_general(t),
    ensures
        excluded_from(t, vars, 0, general) == excluded_from(t, vars, 0, false),
{
    reveal_strlit("[General]");
    assert("[General]"@[0] == '[');
}

proof fn lemma_excluded_split(
    a: Seq<char>,
    b: Seq<char>,
    vars: Seq<(Seq<char>, Seq<char>)>,
    i: int,
    general: bool,
)
    requires
        0 <= i <= a.len(),
        begins_general(b),
    ensures
        excluded_from(around(a, '\n', b), vars, i, general) == excluded_from(a, vars, i, general)
            + excluded_from(b, vars, 0, false),
    decreases a.len() - i,
{
    let t = around(a, '\n', b);
    lemma_first_before(a, b, i);
    lemma_first_at(a, '\n', i);
    let end = first_at(a, '\n', i);
    assert(t.subrange(i, end) =~= a.subrange(i, end));
    let line = trimmed(a.subrange(i, end));
    let group = line.len() > 0 && line[0] == '[';
    let now = if group {
        line == "[General]"@
    } else {
        general
    };
    let here = if !group && general {
        line_folders(line, vars)
    } else {
        Seq::empty()
    };
    if end < a.len() {
        lemma_excluded_split(a, b, vars, end + 1, now);
        assert(excluded_from(t, vars, i, general) =~= here + excluded_from(t, vars, end + 1, now));
    } else {
        lemma_excluded_shift(t, vars, end + 1, 0, now);
        assert(t.subrange(end + 1, t.len() as int) =~= b);
        lemma_general_begins(b, vars, now);
        assert(excluded_from(t, vars, i, general) =~= here + excluded_from(t, vars, end + 1, now));
        assert(excluded_from(a, vars, i, general) =~= here);
    }
    assert(excluded_from(t, vars, i, general) =~= excluded_from(a, vars, i, general) + excluded_from(
        b,
        vars,
        0,
        false,
    ));
}

/// A line of `a` ends in `a`, or where `b` is put.
proof fn lemma_first_before(a: Seq<char>, b: Seq<char>, i: int)
    requires
        0 <= i <= a.len(),
    ensures
        first_at(around(a, '\n', b), '\n', i) == first_at(a, '\n', i),
    decreases a.len() - i,
{
    let t = around(a, '\n', b);
    if i < a.len() {
        assert(t[i] == a[i]);
        if a[i] != '\n' {
            lemma_first_before(a, b, i + 1);
        }
    } else {
        assert(t[i] == '\n');
    }
}

/// The settings split at a `[General]` line: what is before it, and what begins
/// with it, exclude their folders each on its own.
pub proof fn law_settings_split_at_a_general_line(
    a: Seq<char>,
    b: Seq<char>,
    vars: Seq<(Seq<char>, Seq<char>)>,
)
    ensures
        excluded_from(around(a, '\n', around("[General]"@, '\n', b)), vars, 0, false) == excluded_from(
            a,
            vars,
            0,
            false,
        ) + excluded_from(around("[General]"@, '\n', b), vars, 0, false),
{
    let general = "[General]"@;
    let rest = around(general, '\n', b);
    reveal_strlit("[General]");
    lemma_first_before(general, b, 0);
    assert(first_at(general, '\n', 0) == 9) by {
        reveal_with_fuel(first_at, 10);
    }
    assert(rest.subrange(0, 9) =~= general);
    lemma_trimmed(general);
    lemma_excluded_split(a, rest, vars, 0, false);
}

/// A line begins at `i`.
pub open spec fn line_begins(text: Seq<char>, i: int) -> bool {
    0 <= i <= text.len() && (i == 0 || text[i - 1] == '\n')
}

/// The line that begins at `i`, without the white space around it.
pub open spec fn line_at(text: Seq<char>, i: int) -> Seq<char> {
    trimmed(text.subrange(i, first_at(text, '\n', i)))
}

proof fn lemma_newline(s: Seq<char>, i: int)
    requires
        0 <= i <= s.len(),
    ensures
        first_at(s, '\n', i) < s.len() ==> s[first_at(s, '\n', i)] == '\n',
    decreases s.len() - i,
{
    if i < s.len() && s[i] != '\n' {
        lemma_newline(s, i + 1);
    }
}

proof fn lemma_nothing_excluded(text: Seq<char>, vars: Seq<(Seq<char>, Seq<char>)>, i: int)
    requires
        line_begins(text, i),
        forall|k: int| line_begins(text, k) ==> #[trigger] line_at(text, k) != "[General]"@,
    ensures
        excluded_from(text, vars, i, false) == Seq::<Seq<char>>::empty(),
    decreases text.len() - i,
{
    let end = first_at(text, '\n', i);
    lemma_first_at(text, '\n', i);
    lemma_newline(text, i);
    assert(line_at(text, i) != "[General]"@);
    if end < text.len() {
        lemma_nothing_excluded(text, vars, end + 1);
    }
    assert(excluded_from(text, vars, i, false) =~= Seq::<Seq<char>>::empty());
}

/// Settings without a `[General]` line exclude nothing.
pub proof fn law_settings_without_a_general_line_exclude_nothing(
    text: Seq<char>,
    vars: Seq<(Seq<char>, Seq<char>)>,
)
    requires
        forall|k: int| line_begins(text, k) ==> #[trigger] line_at(text, k) != "[General]"@,
    ensures
        excluded_from(text, vars, 0, false) == Seq::<Seq<char>>::empty(),
{
    lemma_nothing_excluded(text, vars, 0);
}

} // verus!
