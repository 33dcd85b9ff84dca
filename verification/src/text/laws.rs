//! What holds of every number and every name that is written.

use vstd::prelude::*;
use crate::text::{
    begins, decimal, lower, lower_char, occurs, signed_decimal, stands_at, upper, upper_char,
};

verus! {

/// The number that the decimal digits of `s` say.
pub open spec fn number_of(s: Seq<char>) -> int
    decreases s.len(),
{
    if s.len() == 0 {
        0
    } else {
        number_of(s.drop_last()) * 10 + (s.last() as int - 48)
    }
}

/// A number that is written is read back: its digits, and nothing else, the first
/// no zero but for zero itself.
pub proof fn law_a_number_is_read_back(n: nat)
    ensures
        number_of(decimal(n)) == n,
        decimal(n).len() > 0,
        forall|i: int| 0 <= i < decimal(n).len() ==> 48 <= #[trigger] decimal(n)[i] as int <= 57,
        n > 0 ==> decimal(n)[0] != '0',
    decreases n,
{
    reveal_with_fuel(number_of, 2);
    if n < 10 {
        assert(decimal(n).drop_last() =~= Seq::<char>::empty());
    } else {
        law_a_number_is_read_back(n / 10);
        assert(decimal(n).drop_last() =~= decimal(n / 10));
        assert(decimal(n)[0] == decimal(n / 10)[0]);
        assert forall|i: int| 0 <= i < decimal(n).len() implies 48 <= #[trigger] decimal(n)[i] as int <= 57 by {
            if i < decimal(n / 10).len() {
                assert(decimal(n)[i] == decimal(n / 10)[i]);
            }
        }
    }
}

/// No two numbers are written the same, with a sign or without one.
pub proof fn law_no_two_numbers_are_written_the_same(a: int, b: int)
    ensures
        signed_decimal(a) == signed_decimal(b) ==> a == b,
        a >= 0 ==> signed_decimal(a) == decimal(a as nat),
        a < 0 ==> signed_decimal(a) == seq!['-'] + decimal((-a) as nat),
{
    let p = (if a < 0 {
        -a
    } else {
        a
    }) as nat;
    let q = (if b < 0 {
        -b
    } else {
        b
    }) as nat;
    law_a_number_is_read_back(p);
    law_a_number_is_read_back(q);
    if signed_decimal(a) == signed_decimal(b) {
        let s = signed_decimal(a);
        if a < 0 {
            assert(s[0] == '-');
            if b >= 0 {
                assert(48 <= decimal(q)[0] as int);
            }
        } else if b < 0 {
            assert(signed_decimal(b)[0] == '-');
            assert(48 <= decimal(p)[0] as int);
        }
        if a < 0 && b < 0 {
            assert(s.subrange(1, s.len() as int) =~= decimal(p));
            assert(signed_decimal(b).subrange(1, s.len() as int) =~= decimal(q));
        }
    }
}

/// Letters of ASCII change their case, and nothing else does: upper case comes of
/// both cases of a letter alike, and so does lower case.
pub proof fn law_only_letters_have_a_case(c: char, s: Seq<char>)
    ensures
        97 <= c as int <= 122 ==> upper_char(c) as int == c as int - 32,
        !(97 <= c as int <= 122) ==> upper_char(c) == c,
        65 <= c as int <= 90 ==> lower_char(c) as int == c as int + 32,
        !(65 <= c as int <= 90) ==> lower_char(c) == c,
        upper_char(lower_char(c)) == upper_char(c),
        lower_char(upper_char(c)) == lower_char(c),
        upper(s).len() == s.len() && lower(s).len() == s.len(),
        forall|i: int|
            0 <= i < s.len() ==> #[trigger] upper(s)[i] == upper_char(s[i]) && lower(s)[i] == lower_char(
                s[i],
            ),
{
}

/// What a text begins with stands at its start, and what stands anywhere in it
/// occurs in it, with something before it and something after.
pub proof fn law_what_occurs_in_a_text(before: Seq<char>, needle: Seq<char>, after: Seq<char>, s: Seq<char>)
    ensures
        begins(needle + after, needle),
        occurs(before + needle + after, needle),
        begins(s, needle) ==> s == needle + s.subrange(needle.len() as int, s.len() as int),
        begins(s, needle) <==> stands_at(s, needle, 0),
        occurs(s, needle) ==> exists|i: int|
            0 <= i && i + needle.len() <= s.len() && #[trigger] s.subrange(i, i + needle.len()) == needle,
{
    assert((needle + after).subrange(0, needle.len() as int) =~= needle);
    let whole = before + needle + after;
    let at = before.len() as int;
    assert(whole.subrange(at, at + needle.len()) =~= needle);
    assert(stands_at(whole, needle, at));
    if begins(s, needle) {
        assert forall|i: int| 0 <= i < needle.len() implies s[i] == needle[i] by {
            assert(s.subrange(0, needle.len() as int)[i] == needle[i]);
        }
        assert(s =~= needle + s.subrange(needle.len() as int, s.len() as int));
    }
    if occurs(s, needle) {
        let i = choose|i: int| #[trigger] stands_at(s, needle, i);
        assert(s.subrange(i, i + needle.len()) == needle);
    }
}

} // verus!
