//! Rules on a single file name: which characters it may hold, how it is
//! cleaned, and how it is numbered to tell it apart from an existing entry.

use crate::error::PathError;
use regex::Regex;
use vstd::prelude::*;
use vstd::string::StringExecFns;

verus! {

/// Regular expression, a single character class, of the characters that are
/// illegal or hazardous in a file name on some common platform.
pub const INVALID_FILENAME_CHARS: &'static str = r#"[*:"'\\/?<>|]"#;

/// Whether `c` is one of the characters that may not occur in a file name:
/// `*`, `:`, `"`, `'`, `\`, `/`, `?`, `<`, `>` and `|`.
pub open spec fn is_invalid_char(c: char) -> bool {
    c == '*' || c == ':' || c == '"' || c == '\'' || c == '\\' || c == '/' || c == '?' || c == '<'
        || c == '>' || c == '|'
}

/// Whether `name` holds at least one invalid character.
pub open spec fn has_invalid_char(name: Seq<char>) -> bool {
    exists|i: int| 0 <= i < name.len() && is_invalid_char(#[trigger] name[i])
}

/// `name` without its invalid characters; the others keep their order.
pub open spec fn strip_invalid(name: Seq<char>) -> Seq<char> {
    name.filter(|c: char| !is_invalid_char(c))
}

/// Whether `c` has the Unicode property `White_Space`.
pub open spec fn is_whitespace(c: char) -> bool {
    ('\u{9}' <= c && c <= '\u{d}') || c == ' ' || c == '\u{85}' || c == '\u{a0}' || c == '\u{1680}'
        || ('\u{2000}' <= c && c <= '\u{200a}') || c == '\u{2028}' || c == '\u{2029}' || c
        == '\u{202f}' || c == '\u{205f}' || c == '\u{3000}'
}

/// `text` without its leading whitespace.
pub open spec fn trimmed_start(text: Seq<char>) -> Seq<char>
    decreases text.len(),
{
    if text.len() > 0 && is_whitespace(text.first()) {
        trimmed_start(text.drop_first())
    } else {
        text
    }
}

/// `text` without its trailing whitespace.
pub open spec fn trimmed_end(text: Seq<char>) -> Seq<char>
    decreases text.len(),
{
    if text.len() > 0 && is_whitespace(text.last()) {
        trimmed_end(text.drop_last())
    } else {
        text
    }
}

/// `text` without its leading and trailing whitespace.
pub open spec fn trimmed(text: Seq<char>) -> Seq<char> {
    trimmed_end(trimmed_start(text))
}

/// What cleaning makes of a file name: the name itself where it holds no
/// invalid character; else what is left once the invalid characters are
/// removed and the rest is trimmed, and an error if nothing is left.
pub open spec fn sanitized(name: Seq<char>) -> Result<Seq<char>, PathError> {
    if !has_invalid_char(name) {
        Ok(name)
    } else if trimmed(strip_invalid(name)).len() == 0 {
        Err(PathError::EmptyResultAfterSanitization)
    } else {
        Ok(trimmed(strip_invalid(name)))
    }
}

/// The stem of a file name: the name up to its last `.`, or the whole name
/// if it holds none.
pub open spec fn stem_of(name: Seq<char>) -> Seq<char> {
    match name.index_of_last('.') {
        Some(dot) => name.subrange(0, dot),
        None => name,
    }
}

/// The extension of a file name: what follows its last `.`, if it holds one.
pub open spec fn extension_of(name: Seq<char>) -> Option<Seq<char>> {
    match name.index_of_last('.') {
        Some(dot) => Some(name.subrange(dot + 1, name.len() as int)),
        None => None,
    }
}

/// The character that stands for the digit `d`.
pub open spec fn digit_char(d: nat) -> char {
    if d == 0 {
        '0'
    } else if d == 1 {
        '1'
    } else if d == 2 {
        '2'
    } else if d == 3 {
        '3'
    } else if d == 4 {
        '4'
    } else if d == 5 {
        '5'
    } else if d == 6 {
        '6'
    } else if d == 7 {
        '7'
    } else if d == 8 {
        '8'
    } else {
        '9'
    }
}

/// `n` written in decimal digits, with no leading zero.
pub open spec fn decimal(n: nat) -> Seq<char>
    decreases n,
{
    if n < 10 {
        seq![digit_char(n)]
    } else {
        decimal(n / 10).push(digit_char(n % 10))
    }
}

/// A file name with the disambiguator `(n)`: `"<stem> (<n>)"` for a name
/// without extension, `"<stem> (<n>).<extension>"` for one with.
pub open spec fn numbered(name: Seq<char>, n: nat) -> Seq<char> {
    let tag = seq![' ', '('] + decimal(n) + seq![')'];
    match extension_of(name) {
        Some(extension) => stem_of(name) + tag + seq!['.'] + extension,
        None => stem_of(name) + tag,
    }
}

/// `regex::Regex`, a compiled regular expression.
#[verifier::external_type_specification]
#[verifier::external_body]
pub struct ExRegex(Regex);

/// `regex::Error`, the reason why a pattern did not compile.
#[verifier::external_type_specification]
#[verifier::external_body]
pub struct ExRegexError(regex::Error);

/// The pattern that a regex was compiled from: what `Regex::as_str` returns.
pub uninterp spec fn regex_pattern(regex: Regex) -> Seq<char>;

/// `regex::Regex::new`. A regex that compiles keeps its pattern. The pattern
/// of the invalid characters, one class of ten literal characters, is valid
/// and small, so it compiles.
#[verifier::external_body]
fn regex_new(pattern: &str) -> (compiled: Result<Regex, regex::Error>)
    ensures
        compiled matches Ok(regex) ==> regex_pattern(regex) == pattern@,
        pattern@ == INVALID_FILENAME_CHARS@ ==> compiled is Ok,
{
    Regex::new(pattern)
}

/// `regex::Regex::is_match`: whether there is a match anywhere in
/// `haystack`. A match of the class of the invalid characters is one such
/// character, so there is one exactly when `haystack` holds one of them.
#[verifier::external_body]
fn regex_is_match(regex: &Regex, haystack: &str) -> (found: bool)
    ensures
        regex_pattern(*regex) == INVALID_FILENAME_CHARS@ ==> found == has_invalid_char(haystack@),
{
    regex.is_match(haystack)
}

/// `regex::Regex::replace_all`: `haystack` with every match replaced. Every
/// match of the class of the invalid characters is one such character, and
/// with an empty replacement the other characters are left in their order.
#[verifier::external_body]
fn regex_replace_all(regex: &Regex, haystack: &str, replacement: &str) -> (replaced: String)
    ensures
        regex_pattern(*regex) == INVALID_FILENAME_CHARS@ && replacement@.len() == 0 ==> replaced@
            == strip_invalid(haystack@),
{
    regex.replace_all(haystack, replacement).into_owned()
}

/// `str::trim` returns the slice without its leading and trailing
/// whitespace, where whitespace is what has the property `White_Space`.
pub assume_specification[ str::trim ](text: &str) -> (inner: &str)
    ensures
        inner@ == trimmed(text@),
;

/// Compiles the matcher of the invalid characters.
fn invalid_char_matcher() -> (matcher: Regex)
    ensures
        regex_pattern(matcher) == INVALID_FILENAME_CHARS@,
{
    match regex_new(INVALID_FILENAME_CHARS) {
        Ok(matcher) => matcher,
        Err(_) => unreached(),
    }
}

/// Cleans a file name: a name without invalid characters is returned as it
/// is; from any other the invalid characters are removed and the rest is
/// trimmed. A name of which nothing is left is refused.
pub fn sanitize(name: &str) -> (result: Result<String, PathError>)
    ensures
        match sanitized(name@) {
            Ok(clean) => result matches Ok(text) && text@ == clean,
            Err(error) => result matches Err(e) && e == error,
        },
        !has_invalid_char(name@) ==> (result matches Ok(text) && text@ == name@),
{
    let matcher = invalid_char_matcher();
    if !regex_is_match(&matcher, name) {
        return Ok(name.to_owned());
    }
    proof {
        reveal_strlit("");
    }
    let stripped = regex_replace_all(&matcher, name, "");
    let clean = stripped.as_str().trim();
    if clean.is_empty() {
        Err(PathError::EmptyResultAfterSanitization)
    } else {
        Ok(clean.to_owned())
    }
}

/// Splits a file name at its last `.` into stem and extension.
pub fn split_extension(name: &str) -> (parts: (String, Option<String>))
    ensures
        parts.0@ == stem_of(name@),
        match extension_of(name@) {
            Some(extension) => parts.1 matches Some(text) && text@ == extension,
            None => parts.1 is None,
        },
{
    let len = name.unicode_len();
    let mut last_dot: Option<usize> = None;
    let mut index: usize = 0;
    for c in it: name.chars()
        invariant
            index == it.index(),
            it.seq() == name@,
            len == name@.len(),
            match last_dot {
                Some(dot) => dot < index && name@[dot as int] == '.' && forall|j: int|
                    dot < j < index ==> name@[j] != '.',
                None => forall|j: int| 0 <= j < index ==> name@[j] != '.',
            },
    {
        if c == '.' {
            last_dot = Some(index);
        }
        index = index + 1;
    }
    proof {
        name@.index_of_last_ensures('.');
    }
    match last_dot {
        Some(dot) => {
            let stem = name.substring_char(0, dot);
            let extension = name.substring_char(dot + 1, len);
            (stem.to_owned(), Some(extension.to_owned()))
        },
        None => (name.to_owned(), None),
    }
}

fn digit_str(d: u64) -> (text: &'static str)
    requires
        d < 10,
    ensures
        text@ == seq![digit_char(d as nat)],
{
    proof {
        reveal_strlit("0");
        reveal_strlit("1");
        reveal_strlit("2");
        reveal_strlit("3");
        reveal_strlit("4");
        reveal_strlit("5");
        reveal_strlit("6");
        reveal_strlit("7");
        reveal_strlit("8");
        reveal_strlit("9");
    }
    let text = if d == 0 {
        "0"
    } else if d == 1 {
        "1"
    } else if d == 2 {
        "2"
    } else if d == 3 {
        "3"
    } else if d == 4 {
        "4"
    } else if d == 5 {
        "5"
    } else if d == 6 {
        "6"
    } else if d == 7 {
        "7"
    } else if d == 8 {
        "8"
    } else {
        "9"
    };
    text
}

/// Writes `n` in decimal digits.
pub fn decimal_string(n: u64) -> (text: String)
    ensures
        text@ == decimal(n as nat),
    decreases n,
{
    if n < 10 {
        String::from_str(digit_str(n))
    } else {
        let mut text = decimal_string(n / 10);
        text.append(digit_str(n % 10));
        text
    }
}

/// Numbers a file name: the disambiguator `(counter)` goes behind the stem,
/// before the extension if the name has one.
pub fn numbered_name(name: &str, counter: u64) -> (text: String)
    ensures
        text@ == numbered(name@, counter as nat),
{
    let (stem, extension) = split_extension(name);
    let digits = decimal_string(counter);
    proof {
        reveal_strlit(" (");
        reveal_strlit(")");
        reveal_strlit(".");
    }
    let mut text = stem;
    text.append(" (");
    text.append(digits.as_str());
    text.append(")");
    match extension {
        Some(extension) => {
            text.append(".");
            text.append(extension.as_str());
        },
        None => {},
    }
    text
}

/// Where the trimmed text lies in `text`: it is the part from the first to
/// the last character that is no whitespace, and empty if there is none.
pub proof fn lemma_trimmed_bounds(text: Seq<char>) -> (bounds: (int, int))
    ensures
        0 <= bounds.0 <= bounds.1 <= text.len(),
        trimmed(text) == text.subrange(bounds.0, bounds.1),
        forall|i: int| 0 <= i < bounds.0 ==> is_whitespace(#[trigger] text[i]),
        forall|i: int| bounds.1 <= i < text.len() ==> is_whitespace(#[trigger] text[i]),
        bounds.0 < bounds.1 ==> !is_whitespace(text[bounds.0]) && !is_whitespace(
            text[bounds.1 - 1],
        ),
{
    let from = lemma_trimmed_start_bound(text);
    let rest = text.subrange(from, text.len() as int);
    let len = lemma_trimmed_end_bound(rest);
    assert forall|i: int| from + len <= i < text.len() implies is_whitespace(
        #[trigger] text[i],
    ) by {
        assert(rest[i - from] == text[i]);
    }
    (from, from + len)
}

proof fn lemma_trimmed_start_bound(text: Seq<char>) -> (from: int)
    ensures
        0 <= from <= text.len(),
        trimmed_start(text) == text.subrange(from, text.len() as int),
        forall|i: int| 0 <= i < from ==> is_whitespace(#[trigger] text[i]),
        from < text.len() ==> !is_whitespace(text[from]),
    decreases text.len(),
{
    if text.len() > 0 && is_whitespace(text.first()) {
        let tail = text.drop_first();
        let inner = lemma_trimmed_start_bound(tail);
        assert(tail.subrange(inner, tail.len() as int) =~= text.subrange(
            inner + 1,
            text.len() as int,
        ));
        assert forall|i: int| 0 <= i < inner + 1 implies is_whitespace(#[trigger] text[i]) by {
            if i > 0 {
                assert(tail[i - 1] == text[i]);
            }
        }
        inner + 1
    } else {
        0
    }
}

proof fn lemma_trimmed_end_bound(text: Seq<char>) -> (to: int)
    ensures
        0 <= to <= text.len(),
        trimmed_end(text) == text.subrange(0, to),
        forall|i: int| to <= i < text.len() ==> is_whitespace(#[trigger] text[i]),
        0 < to ==> !is_whitespace(text[to - 1]),
    decreases text.len(),
{
    if text.len() > 0 && is_whitespace(text.last()) {
        let front = text.drop_last();
        let inner = lemma_trimmed_end_bound(front);
        assert forall|i: int| inner <= i < text.len() implies is_whitespace(#[trigger] text[i]) by {
            if i < front.len() {
                assert(front[i] == text[i]);
            }
        }
        inner
    } else {
        text.len() as int
    }
}

/// What is left of a name without its invalid characters holds none of
/// them, and holds the other characters of the name and no more.
pub proof fn lemma_strip_invalid(name: Seq<char>)
    ensures
        !has_invalid_char(strip_invalid(name)),
        forall|i: int|
            0 <= i < strip_invalid(name).len() ==> name.contains(#[trigger] strip_invalid(name)[i]),
        forall|i: int|
            0 <= i < name.len() && !is_invalid_char(name[i]) ==> strip_invalid(name).contains(
                #[trigger] name[i],
            ),
{
    let keep = |c: char| !is_invalid_char(c);
    let stripped = strip_invalid(name);
    assert forall|i: int| 0 <= i < stripped.len() implies !is_invalid_char(#[trigger] stripped[i])
        && name.contains(stripped[i]) by {
        name.lemma_filter_pred(keep, i);
        name.lemma_filter_contains_rev(keep, stripped[i]);
    }
    assert forall|i: int| 0 <= i < name.len() && !is_invalid_char(name[i]) implies stripped.contains(
        #[trigger] name[i],
    ) by {
        name.lemma_filter_contains(keep, i);
    }
}

/// A name is refused exactly when it holds an invalid character and nothing
/// else but invalid characters and whitespace.
pub proof fn lemma_sanitized_refuses(name: Seq<char>)
    ensures
        sanitized(name) is Err <==> has_invalid_char(name) && forall|i: int|
            0 <= i < name.len() ==> is_invalid_char(#[trigger] name[i]) || is_whitespace(name[i]),
{
    let stripped = strip_invalid(name);
    lemma_strip_invalid(name);
    let (from, to) = lemma_trimmed_bounds(stripped);
    if from < to {
        // A character is left: it is a character of the name, and neither
        // invalid nor whitespace.
        assert(!is_invalid_char(stripped[from]));
        assert(name.contains(stripped[from]));
    } else {
        // Nothing is left: every character that was kept is whitespace.
        assert forall|i: int| 0 <= i < name.len() implies is_invalid_char(#[trigger] name[i])
            || is_whitespace(name[i]) by {
            if !is_invalid_char(name[i]) {
                assert(stripped.contains(name[i]));
            }
        }
    }
}

/// What cleaning returns holds no invalid character. Where the name held
/// one, the result is not empty and differs from the name.
pub proof fn lemma_sanitized_clean(name: Seq<char>)
    ensures
        sanitized(name) matches Ok(clean) ==> !has_invalid_char(clean),
        sanitized(name) matches Ok(clean) ==> (has_invalid_char(name) ==> clean.len() > 0 && clean
            != name),
{
    if has_invalid_char(name) {
        let stripped = strip_invalid(name);
        lemma_strip_invalid(name);
        let (from, to) = lemma_trimmed_bounds(stripped);
        let clean = trimmed(stripped);
        assert forall|i: int| 0 <= i < clean.len() implies !is_invalid_char(#[trigger] clean[i]) by {
            assert(clean[i] == stripped[from + i]);
        }
    }
}

/// Cleaning is idempotent: a name that came out of cleaning is left as it is
/// when it is cleaned again.
pub proof fn lemma_sanitized_idempotent(name: Seq<char>)
    ensures
        sanitized(name) matches Ok(clean) ==> sanitized(clean) == Ok::<Seq<char>, PathError>(clean),
{
    lemma_sanitized_clean(name);
}

/// The decimal digits of a number are digits, and there is at least one.
pub proof fn lemma_decimal_digits(n: nat)
    ensures
        decimal(n).len() > 0,
        forall|i: int| 0 <= i < decimal(n).len() ==> '0' <= #[trigger] decimal(n)[i] <= '9',
    decreases n,
{
    if n >= 10 {
        lemma_decimal_digits(n / 10);
    }
}

/// A numbered name holds a space, and besides the characters of the name
/// itself only the space, the two brackets and digits.
pub proof fn lemma_numbered_chars(name: Seq<char>, n: nat)
    ensures
        numbered(name, n).contains(' '),
        forall|i: int|
            0 <= i < numbered(name, n).len() ==> {
                let c = #[trigger] numbered(name, n)[i];
                name.contains(c) || c == ' ' || c == '(' || c == ')' || ('0' <= c <= '9')
            },
{
    name.index_of_last_ensures('.');
    lemma_decimal_digits(n);
    let stem = stem_of(name);
    let digits = decimal(n);
    let tag = seq![' ', '('] + digits + seq![')'];
    let text = numbered(name, n);
    assert(text[stem.len() as int] == ' ');
    assert forall|i: int| 0 <= i < text.len() implies {
        let c = #[trigger] text[i];
        name.contains(c) || c == ' ' || c == '(' || c == ')' || ('0' <= c <= '9')
    } by {
        if i < stem.len() {
            assert(text[i] == name[i]);
        } else if i < stem.len() + tag.len() {
            assert(text[i] == tag[i - stem.len()]);
        } else {
            let dot = name.index_of_last('.').unwrap();
            assert(text[i] == name[dot + (i - stem.len() - tag.len())]);
        }
    }
}

/// A name without `.` has no extension: its disambiguator goes at the end.
pub proof fn lemma_numbered_without_extension(name: Seq<char>, n: nat)
    requires
        !name.contains('.'),
    ensures
        numbered(name, n) == name + seq![' ', '('] + decimal(n) + seq![')'],
{
    name.index_of_last_ensures('.');
}

/// A name with an extension keeps it: its disambiguator goes between the
/// stem and the `.` of the extension.
pub proof fn lemma_numbered_with_extension(stem: Seq<char>, extension: Seq<char>, n: nat)
    requires
        !extension.contains('.'),
    ensures
        numbered(stem + seq!['.'] + extension, n) == stem + seq![' ', '('] + decimal(n) + seq![
            ')',
            '.',
        ] + extension,
{
    let name = stem + seq!['.'] + extension;
    name.index_of_last_ensures('.');
    // The `.` behind the stem is the last one: the extension holds none.
    assert(name[stem.len() as int] == '.');
    let dot = name.index_of_last('.').unwrap();
    if dot > stem.len() {
        assert(extension[dot - stem.len() - 1] == '.');
    }
    assert(stem_of(name) =~= stem);
    assert(extension_of(name).unwrap() =~= extension);
}

spec fn digits_value(digits: Seq<char>) -> nat
    decreases digits.len(),
{
    if digits.len() == 0 {
        0
    } else {
        digits_value(digits.drop_last()) * 10 + (digits.last() as nat - '0' as nat) as nat
    }
}

proof fn lemma_decimal_value(n: nat)
    ensures
        digits_value(decimal(n)) == n,
    decreases n,
{
    if n < 10 {
        assert(digits_value(decimal(n).drop_last()) == 0);
    } else {
        lemma_decimal_value(n / 10);
        assert(decimal(n).drop_last() =~= decimal(n / 10));
    }
}

/// Numbers differ in their decimal digits, so names numbered by different
/// counters differ: a search never comes back to a name it has tried.
pub proof fn lemma_numbered_injective(name: Seq<char>, m: nat, n: nat)
    requires
        numbered(name, m) == numbered(name, n),
    ensures
        m == n,
{
    let start = stem_of(name).len() as int + 2;
    let of_m = numbered(name, m).subrange(start, start + decimal(m).len() as int);
    let of_n = numbered(name, n).subrange(start, start + decimal(n).len() as int);
    assert(of_m =~= decimal(m));
    assert(of_n =~= decimal(n));
    lemma_decimal_value(m);
    lemma_decimal_value(n);
}

} // verus!
