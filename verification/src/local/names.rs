//! The name pre-check: names OneDrive refuses, found before a request is
//! spent on them.
//!
//! A refused name is `blocked` and listed for the user to rename; nothing is
//! substituted. The service decides in the end — whatever this misses is
//! refused and blocked with the service's message — so the check stays
//! conservative: it blocks only what Microsoft's page names, never a guess.

use vstd::prelude::*;
use vstd::string::*;
use vstd::utf8::*;
use crate::text::{
    begins, chars_of, from_utf8, has, has_prefix, lower, occurs, same_chars, stands_at, to_upper, upper,
};

verus! {

/// The largest file OneDrive takes (Microsoft: 250 GB), taken as GiB: a file
/// between 250 GB and 250 GiB, if refused, is blocked by the service's answer.
pub const MAX_FILE_SIZE: u64 = 268435456000;

/// Why a row is blocked before any request.
#[derive(Debug, Clone, Copy, PartialEq, Eq, Structural)]
pub enum Refused {
    /// One of `" * : < > ? \ |`.
    Characters,
    /// A leading or trailing space.
    Spaces,
    /// `.lock`, `CON`, `PRN`, `AUX`, `NUL`, `COM0`–`COM9`, `LPT0`–`LPT9`,
    /// `desktop.ini`, `_vti_` anywhere, a `~$` prefix.
    Reserved,
    /// Linux allows it; JSON cannot carry it.
    NotUtf8,
    /// Over [`MAX_FILE_SIZE`].
    TooLarge,
}

/// The code a row's reason holds.
pub open spec fn refused_code(r: Refused) -> Seq<char> {
    match r {
        Refused::Characters => "name-characters"@,
        Refused::Spaces => "name-spaces"@,
        Refused::Reserved => "name-reserved"@,
        Refused::NotUtf8 => "name-not-utf8"@,
        Refused::TooLarge => "too-large"@,
    }
}

impl Refused {
    pub fn as_str(self) -> (r: &'static str)
        ensures
            r@ == refused_code(self),
    {
        match self {
            Refused::Characters => "name-characters",
            Refused::Spaces => "name-spaces",
            Refused::Reserved => "name-reserved",
            Refused::NotUtf8 => "name-not-utf8",
            Refused::TooLarge => "too-large",
        }
    }
}

/// A character no name in OneDrive can hold.
pub open spec fn forbidden(c: char) -> bool {
    c == '"' || c == '*' || c == ':' || c == '<' || c == '>' || c == '?' || c == '\\' || c == '|'
}

/// `name` is `prefix` and one digit.
pub open spec fn is_device(name: Seq<char>, prefix: Seq<char>) -> bool {
    &&& name.len() == prefix.len() + 1
    &&& begins(name, prefix)
    &&& '0' <= name.last() <= '9'
}

/// A name Windows or OneDrive keeps for itself.
pub open spec fn reserved(name: Seq<char>) -> bool {
    let up = upper(name);
    ||| up == ".LOCK"@
    ||| up == "CON"@
    ||| up == "PRN"@
    ||| up == "AUX"@
    ||| up == "NUL"@
    ||| up == "DESKTOP.INI"@
    ||| is_device(up, "COM"@)
    ||| is_device(up, "LPT"@)
    ||| occurs(up, "_VTI_"@)
    ||| begins(name, "~$"@)
}

/// Why OneDrive refuses the name `name`, the first reason of these.
pub open spec fn refusal(name: Seq<u8>) -> Option<Refused> {
    let text = decode_utf8(name);
    if !valid_utf8(name) {
        Some(Refused::NotUtf8)
    } else if exists|i: int| 0 <= i < text.len() && forbidden(#[trigger] text[i]) {
        Some(Refused::Characters)
    } else if text.len() > 0 && (text[0] == ' ' || text.last() == ' ') {
        Some(Refused::Spaces)
    } else if reserved(text) {
        Some(Refused::Reserved)
    } else {
        None
    }
}

fn is(up: &[char], word: &str) -> (r: bool)
    ensures
        r == (up@ == word@),
{
    let word = chars_of(word);
    same_chars(up, &word)
}

fn device(up: &[char], prefix: &str) -> (r: bool)
    ensures
        r == is_device(up@, prefix@),
{
    let prefix = chars_of(prefix);
    if up.len() == 0 || up.len() - 1 != prefix.len() || !has_prefix(up, &prefix) {
        return false;
    }
    let last = up[up.len() - 1];
    '0' <= last && last <= '9'
}

/// Whether OneDrive refuses `name`, and why.
pub fn refused(name: &[u8]) -> (r: Option<Refused>)
    ensures
        r == refusal(name@),
{
    let text = match from_utf8(name) {
        Some(text) => text,
        None => return Some(Refused::NotUtf8),
    };
    let chars = chars_of(text.as_str());
    let mut i: usize = 0;
    while i < chars.len()
        invariant
            i <= chars@.len(),
            chars@ == decode_utf8(name@),
            valid_utf8(name@),
            forall|j: int| 0 <= j < i ==> !forbidden(#[trigger] chars@[j]),
        decreases chars@.len() - i,
    {
        let c = chars[i];
        if c == '"' || c == '*' || c == ':' || c == '<' || c == '>' || c == '?' || c == '\\' || c == '|' {
            assert(forbidden(chars@[i as int]));
            return Some(Refused::Characters);
        }
        i += 1;
    }
    if chars.len() > 0 && (chars[0] == ' ' || chars[chars.len() - 1] == ' ') {
        return Some(Refused::Spaces);
    }
    let up = to_upper(&chars);
    let vti = chars_of("_VTI_");
    let owner = chars_of("~$");
    if is(&up, ".LOCK") || is(&up, "CON") || is(&up, "PRN") || is(&up, "AUX") || is(&up, "NUL") || is(
        &up,
        "DESKTOP.INI",
    ) || device(&up, "COM") || device(&up, "LPT") || has(&up, &vti) || has_prefix(&chars, &owner) {
        return Some(Refused::Reserved);
    }
    None
}

/// `other` is `text` with some letters in another case.
spec fn differs_in_case(text: Seq<char>, other: Seq<char>) -> bool {
    &&& other.len() == text.len()
    &&& upper(other) == upper(text)
    &&& forall|i: int|
        0 <= i < text.len() ==> (forbidden(#[trigger] other[i]) == forbidden(text[i])) && ((other[i]
            == ' ') == (text[i] == ' ')) && ((other[i] == '~') == (text[i] == '~')) && ((other[i]
            == '$') == (text[i] == '$'))
}

proof fn lemma_case(text: Seq<char>)
    ensures
        differs_in_case(text, upper(text)),
        differs_in_case(text, lower(text)),
{
    assert(upper(upper(text)) =~= upper(text));
    assert(upper(lower(text)) =~= upper(text));
}

proof fn lemma_refused_alike(text: Seq<char>, other: Seq<char>)
    requires
        differs_in_case(text, other),
    ensures
        refusal(encode_utf8(other)) == refusal(encode_utf8(text)),
{
    encode_utf8_valid_utf8(text);
    encode_utf8_valid_utf8(other);
    encode_utf8_decode_utf8(text);
    encode_utf8_decode_utf8(other);
    assert((exists|i: int| 0 <= i < other.len() && forbidden(#[trigger] other[i])) <==> (exists|i: int|
        0 <= i < text.len() && forbidden(#[trigger] text[i]))) by {
        if exists|i: int| 0 <= i < text.len() && forbidden(#[trigger] text[i]) {
            let i = choose|i: int| 0 <= i < text.len() && forbidden(#[trigger] text[i]);
            assert(forbidden(other[i]));
        }
    }
    if text.len() > 0 {
        assert((other[0] == ' ') == (text[0] == ' '));
        assert((other[text.len() - 1] == ' ') == (text[text.len() - 1] == ' '));
    }
    reveal_strlit("~$");
    assert(begins(other, "~$"@) == begins(text, "~$"@)) by {
        if text.len() >= 2 {
            assert((other[0] == '~') == (text[0] == '~'));
            assert((other[1] == '$') == (text[1] == '$'));
            let a = text.subrange(0, 2);
            let b = other.subrange(0, 2);
            assert(a =~= "~$"@ <==> (text[0] == '~' && text[1] == '$')) by {
                assert(a[0] == text[0] && a[1] == text[1]);
            }
            assert(b =~= "~$"@ <==> (other[0] == '~' && other[1] == '$')) by {
                assert(b[0] == other[0] && b[1] == other[1]);
            }
        }
    }
}

/// OneDrive does not tell the case of a name: in ASCII upper or lower case it
/// is refused for the same reason, or not refused.
pub proof fn law_the_case_of_a_name_does_not_matter(name: Seq<u8>)
    requires
        valid_utf8(name),
    ensures
        refusal(encode_utf8(upper(decode_utf8(name)))) == refusal(name),
        refusal(encode_utf8(lower(decode_utf8(name)))) == refusal(name),
{
    let text = decode_utf8(name);
    decode_utf8_encode_utf8(name);
    lemma_case(text);
    lemma_refused_alike(text, upper(text));
    lemma_refused_alike(text, lower(text));
}

/// A forbidden character is the reason a name is refused, whatever else is
/// wrong with it, and only where there is one.
pub proof fn law_forbidden_characters_come_first(name: Seq<u8>)
    requires
        valid_utf8(name),
    ensures
        refusal(name) == Some(Refused::Characters) <==> exists|i: int|
            0 <= i < decode_utf8(name).len() && forbidden(#[trigger] decode_utf8(name)[i]),
{
}

/// `text` is `word`, which is in upper case, in either case.
pub open spec fn reads_as(text: Seq<char>, word: Seq<char>) -> bool {
    &&& text.len() == word.len()
    &&& forall|i: int|
        0 <= i < word.len() ==> #[trigger] text[i] == word[i] || ('A' <= word[i] <= 'Z' && text[i] as int
            == word[i] as int + 32)
}

/// A word in upper case is what a text reads as in upper case.
proof fn lemma_reads_as(text: Seq<char>, word: Seq<char>)
    requires
        forall|i: int| 0 <= i < word.len() ==> !('a' <= #[trigger] word[i] <= 'z'),
    ensures
        upper(text) == word <==> reads_as(text, word),
{
    let up = upper(text);
    if up == word {
        assert forall|i: int| 0 <= i < word.len() implies #[trigger] text[i] == word[i] || ('A' <= word[i]
            <= 'Z' && text[i] as int == word[i] as int + 32) by {
            assert(up[i] == word[i]);
        }
    }
    if reads_as(text, word) {
        assert forall|i: int| 0 <= i < word.len() implies up[i] == word[i] by {
            assert(text[i] == word[i] || ('A' <= word[i] <= 'Z' && text[i] as int == word[i] as int + 32));
        }
        assert(up =~= word);
    }
}

/// `text` is `word`, in either case, and one digit.
pub open spec fn reads_as_device(text: Seq<char>, word: Seq<char>) -> bool {
    &&& text.len() == word.len() + 1
    &&& reads_as(text.subrange(0, word.len() as int), word)
    &&& '0' <= text[word.len() as int] <= '9'
}

/// So is a device's name: its word and a digit.
proof fn lemma_reads_as_device(text: Seq<char>, word: Seq<char>)
    requires
        forall|i: int| 0 <= i < word.len() ==> !('a' <= #[trigger] word[i] <= 'z'),
    ensures
        is_device(upper(text), word) <==> reads_as_device(text, word),
{
    if text.len() == word.len() + 1 {
        let n = word.len() as int;
        lemma_reads_as(text.subrange(0, n), word);
        assert(upper(text.subrange(0, n)) =~= upper(text).subrange(0, n));
    }
}

/// So is a word anywhere in it.
proof fn lemma_reads_inside(text: Seq<char>, word: Seq<char>)
    requires
        forall|i: int| 0 <= i < word.len() ==> !('a' <= #[trigger] word[i] <= 'z'),
    ensures
        occurs(upper(text), word) <==> exists|i: int|
            0 <= i <= text.len() - word.len() && reads_as(
                #[trigger] text.subrange(i, i + word.len()),
                word,
            ),
{
    let up = upper(text);
    assert forall|i: int| 0 <= i <= text.len() - word.len() implies (#[trigger] stands_at(up, word, i)
        <==> reads_as(text.subrange(i, i + word.len()), word)) by {
        lemma_reads_as(text.subrange(i, i + word.len()), word);
        assert(upper(text.subrange(i, i + word.len())) =~= up.subrange(i, i + word.len()));
    }
    if occurs(up, word) {
        let i = choose|i: int| #[trigger] stands_at(up, word, i);
        assert(reads_as(text.subrange(i, i + word.len()), word));
    }
    if exists|i: int|
        0 <= i <= text.len() - word.len() && reads_as(
            #[trigger] text.subrange(i, i + word.len()),
            word,
        ) {
        let i = choose|i: int|
            0 <= i <= text.len() - word.len() && reads_as(
                #[trigger] text.subrange(i, i + word.len()),
                word,
            );
        assert(stands_at(up, word, i));
    }
}

/// `text` holds one of `" * : < > ? \ |`.
pub open spec fn holds_a_forbidden_character(text: Seq<char>) -> bool {
    ||| text.contains('"')
    ||| text.contains('*')
    ||| text.contains(':')
    ||| text.contains('<')
    ||| text.contains('>')
    ||| text.contains('?')
    ||| text.contains('\\')
    ||| text.contains('|')
}

/// `text` begins or ends with a space.
pub open spec fn has_a_space_at_an_end(text: Seq<char>) -> bool {
    text.len() > 0 && (text[0] == ' ' || text[text.len() - 1] == ' ')
}

/// `text` is a name kept back, in any case: a device's, one of Windows' or
/// SharePoint's own, or an owner file's.
pub open spec fn is_kept_back(text: Seq<char>) -> bool {
    ||| reads_as(text, seq!['.', 'L', 'O', 'C', 'K'])
    ||| reads_as(text, seq!['C', 'O', 'N'])
    ||| reads_as(text, seq!['P', 'R', 'N'])
    ||| reads_as(text, seq!['A', 'U', 'X'])
    ||| reads_as(text, seq!['N', 'U', 'L'])
    ||| reads_as(text, seq!['D', 'E', 'S', 'K', 'T', 'O', 'P', '.', 'I', 'N', 'I'])
    ||| reads_as_device(text, seq!['C', 'O', 'M'])
    ||| reads_as_device(text, seq!['L', 'P', 'T'])
    ||| exists|i: int|
        0 <= i <= text.len() - 5 && reads_as(
            #[trigger] text.subrange(i, i + 5),
            seq!['_', 'V', 'T', 'I', '_'],
        )
    ||| text.len() >= 2 && text[0] == '~' && text[1] == '$'
}

proof fn lemma_kept_back(text: Seq<char>)
    ensures
        reserved(text) <==> is_kept_back(text),
{
    reveal_strlit(".LOCK");
    reveal_strlit("CON");
    reveal_strlit("PRN");
    reveal_strlit("AUX");
    reveal_strlit("NUL");
    reveal_strlit("DESKTOP.INI");
    reveal_strlit("COM");
    reveal_strlit("LPT");
    reveal_strlit("_VTI_");
    reveal_strlit("~$");
    assert(".LOCK"@ =~= seq!['.', 'L', 'O', 'C', 'K']);
    assert("CON"@ =~= seq!['C', 'O', 'N']);
    assert("PRN"@ =~= seq!['P', 'R', 'N']);
    assert("AUX"@ =~= seq!['A', 'U', 'X']);
    assert("NUL"@ =~= seq!['N', 'U', 'L']);
    assert("DESKTOP.INI"@ =~= seq!['D', 'E', 'S', 'K', 'T', 'O', 'P', '.', 'I', 'N', 'I']);
    assert("COM"@ =~= seq!['C', 'O', 'M']);
    assert("LPT"@ =~= seq!['L', 'P', 'T']);
    assert("_VTI_"@ =~= seq!['_', 'V', 'T', 'I', '_']);
    lemma_reads_as(text, ".LOCK"@);
    lemma_reads_as(text, "CON"@);
    lemma_reads_as(text, "PRN"@);
    lemma_reads_as(text, "AUX"@);
    lemma_reads_as(text, "NUL"@);
    lemma_reads_as(text, "DESKTOP.INI"@);
    lemma_reads_as_device(text, "COM"@);
    lemma_reads_as_device(text, "LPT"@);
    lemma_reads_inside(text, "_VTI_"@);
    assert(begins(text, "~$"@) <==> text.len() >= 2 && text[0] == '~' && text[1] == '$') by {
        if text.len() >= 2 {
            let a = text.subrange(0, 2);
            assert(a[0] == text[0] && a[1] == text[1]);
            assert(a =~= "~$"@ <==> (text[0] == '~' && text[1] == '$'));
        }
    }
}

/// A name is refused for its characters exactly when it holds one of
/// `" * : < > ? \ |`; else for a space at either end; else for being a name
/// kept back; and a name in UTF-8 with none of these is taken.
pub proof fn law_names_are_refused_for_these_reasons_and_no_others(name: Seq<u8>)
    ensures
        refusal(name) == Some(Refused::NotUtf8) <==> !valid_utf8(name),
        valid_utf8(name) ==> {
            let text = decode_utf8(name);
            &&& refusal(name) == Some(Refused::Characters) <==> holds_a_forbidden_character(text)
            &&& refusal(name) == Some(Refused::Spaces) <==> !holds_a_forbidden_character(text)
                && has_a_space_at_an_end(text)
            &&& refusal(name) == Some(Refused::Reserved) <==> !holds_a_forbidden_character(text)
                && !has_a_space_at_an_end(text) && is_kept_back(text)
            &&& refusal(name) is None <==> !holds_a_forbidden_character(text)
                && !has_a_space_at_an_end(text) && !is_kept_back(text)
        },
{
    let text = decode_utf8(name);
    lemma_kept_back(text);
    assert((exists|i: int| 0 <= i < text.len() && forbidden(#[trigger] text[i]))
        <==> holds_a_forbidden_character(text)) by {
        if exists|i: int| 0 <= i < text.len() && forbidden(#[trigger] text[i]) {
            let i = choose|i: int| 0 <= i < text.len() && forbidden(#[trigger] text[i]);
            assert(text.contains(text[i]));
        }
    }
}

/// What a row blocked for its name or size says.
pub proof fn law_each_refusal_has_its_own_code()
    ensures
        refused_code(Refused::Characters) == "name-characters"@,
        refused_code(Refused::Spaces) == "name-spaces"@,
        refused_code(Refused::Reserved) == "name-reserved"@,
        refused_code(Refused::NotUtf8) == "name-not-utf8"@,
        refused_code(Refused::TooLarge) == "too-large"@,
{
}

} // verus!
