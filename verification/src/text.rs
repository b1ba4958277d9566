//! Text as sequences of characters: classes, searching, splitting, trimming
//! and number rendering, each with an exact statement of its result.

use vstd::prelude::*;
use vstd::slice::slice_subrange;
use vstd::utf8::{char_is_scalar, encode_scalar, encode_utf8};

verus! {

// ---- What std supplies -----------------------------------------------------

/// `String::push`: appends one character.
pub assume_specification[ String::push ](text: &mut String, c: char)
    ensures
        final(text)@ == old(text)@.push(c),
;

/// `String::push_str`: appends a string slice.
pub assume_specification[ String::push_str ](text: &mut String, tail: &str)
    ensures
        final(text)@ == old(text)@ + tail@,
;

/// Whether a character has the Unicode property `White_Space`.
pub open spec fn is_white_space(c: char) -> bool {
    let code = c as u32;
    ||| 0x9 <= code <= 0xd
    ||| code == 0x20
    ||| code == 0x85
    ||| code == 0xa0
    ||| code == 0x1680
    ||| 0x2000 <= code <= 0x200a
    ||| code == 0x2028
    ||| code == 0x2029
    ||| code == 0x202f
    ||| code == 0x205f
    ||| code == 0x3000
}

/// `char::is_whitespace`: whether the character has the Unicode property
/// `White_Space`, which belongs to the characters listed.
pub assume_specification[ char::is_whitespace ](c: char) -> (white: bool)
    ensures
        white == is_white_space(c),
;

/// Whether a character is a control code: Unicode's general category `Cc`.
pub open spec fn is_control_code(c: char) -> bool {
    (c as u32) < 0x20 || 0x7f <= c as u32 <= 0x9f
}

/// `char::is_control`: whether the character is a control code, which are the
/// code points below space and those from delete up to U+009F.
pub assume_specification[ char::is_control ](c: char) -> (control: bool)
    ensures
        control == is_control_code(c),
;

/// Whether a character is a letter or a number by the Unicode character
/// database.
pub uninterp spec fn is_letter_or_number(c: char) -> bool;

/// `char::is_alphanumeric`: the Unicode properties `Alphabetic` and numeric,
/// which among the ascii characters belong to the letters and digits.
pub assume_specification[ char::is_alphanumeric ](c: char) -> (alphanumeric: bool)
    ensures
        alphanumeric == is_letter_or_number(c),
        (c as u32) < 128 ==> alphanumeric == is_ascii_alphanumeric(c),
;

/// The quoted and escaped rendering of a text that `{:?}` gives.
pub uninterp spec fn quoted(text: Seq<char>) -> Seq<char>;

/// Whether `{:?}` shows a character as it is: printable ascii other than the
/// quote and the backslash.
pub open spec fn shows_as_is(c: char) -> bool {
    ' ' <= c <= '~' && c != '"' && c != '\\'
}

/// `format!("{:?}")` on a string slice: a function of the text alone, which
/// puts quotes around a text of printable ascii without quote and backslash.
#[verifier::external_body]
pub(crate) fn quote(text: &str) -> (rendered: String)
    ensures
        rendered@ == quoted(text@),
        (forall|i: int| 0 <= i < text@.len() ==> shows_as_is(#[trigger] text@[i])) ==> rendered@
            == seq!['"'] + text@ + seq!['"'],
{
    format!("{text:?}")
}

/// A text in Unicode's composed normal form.
pub uninterp spec fn composed(text: Seq<char>) -> Seq<char>;

/// `unicode_normalization::UnicodeNormalization::nfc`, collected: the text in
/// normalization form C, a function of the text alone. What it is for a given
/// text is not described here.
#[verifier::external_body]
pub(crate) fn compose(text: &str) -> (normal: String)
    ensures
        normal@ == composed(text@),
{
    unicode_normalization::UnicodeNormalization::nfc(text).collect()
}

// ---- Character classes ------------------------------------------------------

pub open spec fn is_ascii_digit(c: char) -> bool {
    '0' <= c <= '9'
}

pub open spec fn is_ascii_letter(c: char) -> bool {
    'a' <= c <= 'z' || 'A' <= c <= 'Z'
}

pub open spec fn is_ascii_alphanumeric(c: char) -> bool {
    is_ascii_digit(c) || is_ascii_letter(c)
}

pub fn ascii_digit(c: char) -> (yes: bool)
    ensures
        yes == is_ascii_digit(c),
{
    '0' <= c && c <= '9'
}

pub fn ascii_alphanumeric(c: char) -> (yes: bool)
    ensures
        yes == is_ascii_alphanumeric(c),
{
    ascii_digit(c) || ('a' <= c && c <= 'z') || ('A' <= c && c <= 'Z')
}

/// The lowercase form of an ascii letter; every other character itself.
pub open spec fn ascii_lower(c: char) -> char {
    if 'A' <= c <= 'Z' {
        ((c as u32) + 32) as char
    } else {
        c
    }
}

pub fn lower_ascii(c: char) -> (lower: char)
    ensures
        lower == ascii_lower(c),
{
    if 'A' <= c && c <= 'Z' {
        (c as u8 + 32) as char
    } else {
        c
    }
}

pub open spec fn ascii_lower_all(text: Seq<char>) -> Seq<char> {
    text.map_values(|c: char| ascii_lower(c))
}

// ---- Characters in and out --------------------------------------------------

pub fn to_chars(text: &str) -> (chars: Vec<char>)
    ensures
        chars@ == text@,
{
    let mut chars: Vec<char> = Vec::new();
    for c in iter: text.chars()
        invariant
            chars@ == iter.seq().take(iter.index() as int),
            iter.seq() == text@,
    {
        chars.push(c);
    }
    chars
}

pub fn to_text(chars: &[char]) -> (text: String)
    ensures
        text@ == chars@,
{
    let mut text = String::new();
    let mut i: usize = 0;
    while i < chars.len()
        invariant
            i <= chars@.len(),
            text@ == chars@.take(i as int),
        decreases chars@.len() - i,
    {
        text.push(chars[i]);
        i += 1;
        assert(chars@.take(i as int) =~= chars@.take(i - 1).push(chars@[i - 1]));
    }
    assert(chars@.take(i as int) =~= chars@);
    text
}

/// Whether two texts hold the same characters.
pub fn same(left: &[char], right: &[char]) -> (equal: bool)
    ensures
        equal == (left@ == right@),
{
    if left.len() != right.len() {
        return false;
    }
    let mut i: usize = 0;
    while i < left.len()
        invariant
            i <= left@.len(),
            left@.len() == right@.len(),
            left@.take(i as int) == right@.take(i as int),
        decreases left@.len() - i,
    {
        if left[i] != right[i] {
            return false;
        }
        i += 1;
        assert(left@.take(i as int) =~= left@.take(i - 1).push(left@[i - 1]));
        assert(right@.take(i as int) =~= right@.take(i - 1).push(right@[i - 1]));
    }
    assert(left@.take(i as int) =~= left@);
    assert(right@.take(i as int) =~= right@);
    true
}

/// Whether some characters spell the given text.
pub fn spells(chars: &[char], text: &str) -> (equal: bool)
    ensures
        equal == (chars@ == text@),
{
    let other = to_chars(text);
    same(chars, &other)
}

/// Whether two texts are the same text.
pub fn same_text(left: &str, right: &str) -> (equal: bool)
    ensures
        equal == (left@ == right@),
{
    let chars = to_chars(left);
    spells(&chars, right)
}

/// The characters of some texts.
pub open spec fn texts(all: Seq<String>) -> Seq<Seq<char>> {
    Seq::new(all.len(), |i: int| all[i]@)
}

/// What an optional text holds.
pub open spec fn view_of(text: Option<String>) -> Option<Seq<char>> {
    match text {
        Some(text) => Some(text@),
        None => None,
    }
}

/// What an optional borrowed text holds.
pub open spec fn str_view(text: Option<&str>) -> Option<Seq<char>> {
    match text {
        Some(text) => Some(text@),
        None => None,
    }
}

/// An optional text, borrowed.
pub fn borrowed(text: &Option<String>) -> (borrow: Option<&str>)
    ensures
        str_view(borrow) == view_of(*text),
{
    match text {
        Some(text) => Some(text.as_str()),
        None => None,
    }
}

/// Whether two optional texts are the same.
pub fn same_option(left: &Option<String>, right: &Option<String>) -> (equal: bool)
    ensures
        equal == (view_of(*left) == view_of(*right)),
{
    match (left, right) {
        (Some(left), Some(right)) => same_text(left, right),
        (None, None) => true,
        _ => false,
    }
}

// ---- Searching ---------------------------------------------------------------

/// Where a character first stands; the length where it stands nowhere.
pub open spec fn find(text: Seq<char>, c: char) -> int
    decreases text.len(),
{
    if text.len() == 0 || text[0] == c {
        0
    } else {
        1 + find(text.skip(1), c)
    }
}

/// The first place is in bounds, and no earlier place holds the character.
pub proof fn lemma_find(text: Seq<char>, c: char)
    ensures
        0 <= find(text, c) <= text.len(),
        forall|j: int| 0 <= j < find(text, c) ==> text[j] != c,
        find(text, c) < text.len() ==> text[find(text, c)] == c,
        text.contains(c) == (find(text, c) < text.len()),
    decreases text.len(),
{
    if text.len() > 0 && text[0] != c {
        let rest = text.skip(1);
        lemma_find(rest, c);
        assert forall|j: int| 0 <= j < find(text, c) implies text[j] != c by {
            if j > 0 {
                assert(text[j] == rest[j - 1]);
            }
        }
        if text.contains(c) {
            let k = choose|k: int| 0 <= k < text.len() && text[k] == c;
            assert(rest[k - 1] == c);
        }
    }
}

/// A place that holds the character, with none before it, is the first.
pub proof fn lemma_find_is(text: Seq<char>, c: char, i: int)
    requires
        0 <= i <= text.len(),
        forall|j: int| 0 <= j < i ==> text[j] != c,
        i < text.len() ==> text[i] == c,
    ensures
        find(text, c) == i,
{
    lemma_find(text, c);
}

pub fn position(text: &[char], c: char) -> (at: usize)
    ensures
        at == find(text@, c),
        at <= text@.len(),
        at < text@.len() ==> text@[at as int] == c,
        text@.contains(c) == (at < text@.len()),
        forall|j: int| 0 <= j < at ==> text@[j] != c,
{
    let mut i: usize = 0;
    while i < text.len() && text[i] != c
        invariant
            i <= text@.len(),
            forall|j: int| 0 <= j < i ==> text@[j] != c,
        decreases text@.len() - i,
    {
        i += 1;
    }
    proof {
        lemma_find_is(text@, c, i as int);
        lemma_find(text@, c);
    }
    i
}

/// Where a character last stands; minus one where it stands nowhere.
pub open spec fn find_last(text: Seq<char>, c: char) -> int
    decreases text.len(),
{
    if text.len() == 0 {
        -1
    } else if text.last() == c {
        text.len() - 1
    } else {
        find_last(text.drop_last(), c)
    }
}

pub proof fn lemma_find_last(text: Seq<char>, c: char)
    ensures
        -1 <= find_last(text, c) < text.len(),
        forall|j: int| find_last(text, c) < j < text.len() ==> text[j] != c,
        find_last(text, c) >= 0 ==> text[find_last(text, c)] == c,
        text.contains(c) == (find_last(text, c) >= 0),
    decreases text.len(),
{
    if text.len() > 0 && text.last() != c {
        let rest = text.drop_last();
        lemma_find_last(rest, c);
        assert forall|j: int| find_last(text, c) < j < text.len() implies text[j] != c by {
            if j < text.len() - 1 {
                assert(text[j] == rest[j]);
            }
        }
        if text.contains(c) {
            let k = choose|k: int| 0 <= k < text.len() && text[k] == c;
            assert(rest[k] == c);
        }
    }
}

pub fn last_position(text: &[char], c: char) -> (at: Option<usize>)
    ensures
        match at {
            Some(i) => i == find_last(text@, c) && i < text@.len() && text@[i as int] == c
                && text@.contains(c),
            None => find_last(text@, c) == -1 && !text@.contains(c),
        },
{
    let mut i: usize = text.len();
    while i > 0
        invariant
            i <= text@.len(),
            forall|j: int| i <= j < text@.len() ==> text@[j] != c,
        decreases i,
    {
        if text[i - 1] == c {
            proof {
                lemma_find_last(text@, c);
            }
            return Some(i - 1);
        }
        i -= 1;
    }
    proof {
        lemma_find_last(text@, c);
    }
    None
}

pub fn contains(text: &[char], c: char) -> (yes: bool)
    ensures
        yes == text@.contains(c),
{
    position(text, c) < text.len()
}

/// Whether `text` begins with `head`.
pub open spec fn has_prefix(text: Seq<char>, head: Seq<char>) -> bool {
    head.len() <= text.len() && text.take(head.len() as int) == head
}

/// Whether `text` ends with `tail`.
pub open spec fn has_suffix(text: Seq<char>, tail: Seq<char>) -> bool {
    tail.len() <= text.len() && text.skip(text.len() - tail.len()) == tail
}

pub fn starts_with(text: &[char], head: &str) -> (yes: bool)
    ensures
        yes == has_prefix(text@, head@),
{
    let head = to_chars(head);
    if head.len() > text.len() {
        return false;
    }
    let front = slice_subrange(text, 0, head.len());
    assert(front@ =~= text@.take(head@.len() as int));
    same(front, &head)
}

pub fn ends_with(text: &[char], tail: &str) -> (yes: bool)
    ensures
        yes == has_suffix(text@, tail@),
{
    let tail = to_chars(tail);
    if tail.len() > text.len() {
        return false;
    }
    let back = slice_subrange(text, text.len() - tail.len(), text.len());
    assert(back@ =~= text@.skip(text@.len() - tail@.len()));
    same(back, &tail)
}

/// Whether every character of a text is an ascii digit.
pub open spec fn all_digits(text: Seq<char>) -> bool {
    forall|i: int| 0 <= i < text.len() ==> is_ascii_digit(#[trigger] text[i])
}

pub fn only_digits(text: &[char]) -> (yes: bool)
    ensures
        yes == all_digits(text@),
{
    let mut i: usize = 0;
    while i < text.len()
        invariant
            i <= text@.len(),
            forall|j: int| 0 <= j < i ==> is_ascii_digit(#[trigger] text@[j]),
        decreases text@.len() - i,
    {
        if !ascii_digit(text[i]) {
            return false;
        }
        i += 1;
    }
    true
}

// ---- Splitting ---------------------------------------------------------------

/// The parts of a text between the occurrences of a separator: always at
/// least one, and none of them holds the separator.
pub open spec fn split(text: Seq<char>, sep: char) -> Seq<Seq<char>>
    decreases text.len(),
{
    let at = find(text, sep);
    if 0 <= at < text.len() {
        seq![text.take(at)] + split(text.skip(at + 1), sep)
    } else {
        seq![text]
    }
}

/// What a list of borrowed slices holds.
pub open spec fn slices(parts: Seq<&[char]>) -> Seq<Seq<char>> {
    Seq::new(parts.len(), |i: int| parts[i]@)
}

pub fn split_at_each<'a>(text: &'a [char], sep: char) -> (parts: Vec<&'a [char]>)
    ensures
        slices(parts@) == split(text@, sep),
        parts@.len() >= 1,
{
    let mut parts: Vec<&'a [char]> = Vec::new();
    let mut rest: &'a [char] = text;
    loop
        invariant
            slices(parts@) + split(rest@, sep) == split(text@, sep),
        decreases rest@.len(),
    {
        let at: usize = position(rest, sep);
        let ghost before = slices(parts@);
        if at < rest.len() {
            let head = slice_subrange(rest, 0, at);
            let tail = slice_subrange(rest, at + 1, rest.len());
            parts.push(head);
            proof {
                assert(head@ =~= rest@.take(at as int));
                assert(tail@ =~= rest@.skip(at + 1));
                assert(slices(parts@) =~= before.push(head@));
                assert(before.push(head@) + split(tail@, sep) =~= before + (seq![head@] + split(
                    tail@,
                    sep,
                )));
            }
            rest = tail;
        } else {
            parts.push(rest);
            proof {
                assert(slices(parts@) =~= before + seq![rest@]);
            }
            return parts;
        }
    }
}

/// The last part is empty exactly where the text is empty or ends with the
/// separator, and no part holds the separator.
pub proof fn lemma_split(text: Seq<char>, sep: char)
    ensures
        split(text, sep).len() >= 1,
        (split(text, sep).last().len() == 0) == (text.len() == 0 || text.last() == sep),
        forall|i: int| 0 <= i < split(text, sep).len() ==> !(#[trigger] split(text, sep)[i]).contains(sep),
    decreases text.len(),
{
    lemma_find(text, sep);
    let at = find(text, sep);
    let parts = split(text, sep);
    if at < text.len() {
        let rest = text.skip(at + 1);
        let tail = split(rest, sep);
        lemma_split(rest, sep);
        assert(parts.last() == tail.last());
        assert(rest.len() > 0 ==> rest.last() == text.last());
        assert forall|i: int| 0 <= i < parts.len() implies !(#[trigger] parts[i]).contains(sep) by {
            if i == 0 {
                assert(parts[0] == text.take(at));
                if text.take(at).contains(sep) {
                    let k = choose|k: int| 0 <= k < at && text.take(at)[k] == sep;
                    assert(text[k] == sep);
                }
            } else {
                assert(parts[i] == tail[i - 1]);
            }
        }
    } else {
        assert(parts[0] == text);
        if text.len() > 0 {
            assert(text.last() != sep) by {
                assert(text[text.len() - 1] != sep);
            }
        }
    }
}

/// Appending a separator and a part without it appends that part.
pub proof fn lemma_split_push(text: Seq<char>, part: Seq<char>, sep: char)
    requires
        !part.contains(sep),
    ensures
        split(text + seq![sep] + part, sep) == split(text, sep).push(part),
    decreases text.len(),
{
    let whole = text + seq![sep] + part;
    lemma_find(text, sep);
    lemma_find(part, sep);
    let at = find(text, sep);
    assert forall|j: int| 0 <= j < at implies whole[j] != sep by {
        assert(whole[j] == text[j]);
    }
    if at < text.len() {
        assert(whole[at] == text[at]);
        lemma_find_is(whole, sep, at);
        let rest = text.skip(at + 1);
        lemma_split_push(rest, part, sep);
        assert(whole.skip(at + 1) =~= rest + seq![sep] + part);
        assert(whole.take(at) =~= text.take(at));
        assert(split(whole, sep) =~= split(text, sep).push(part));
    } else {
        assert(whole[at] == sep);
        lemma_find_is(whole, sep, at);
        assert(whole.take(at) =~= text);
        assert(whole.skip(at + 1) =~= part);
        assert(split(part, sep) == seq![part]);
        assert(split(whole, sep) =~= seq![text].push(part));
    }
}

/// A text without the separator is its own only part.
pub proof fn lemma_split_single(text: Seq<char>, sep: char)
    requires
        !text.contains(sep),
    ensures
        split(text, sep) == seq![text],
{
    lemma_find(text, sep);
}

/// Where one text first occurs inside another, if it does.
pub open spec fn find_text(text: Seq<char>, needle: Seq<char>) -> Option<int>
    decreases text.len(),
{
    if has_prefix(text, needle) {
        Some(0int)
    } else if text.len() == 0 {
        None
    } else {
        match find_text(text.skip(1), needle) {
            Some(at) => Some(at + 1),
            None => None,
        }
    }
}

/// An occurrence lies inside the text and spells the needle.
pub proof fn lemma_find_text(text: Seq<char>, needle: Seq<char>)
    ensures
        match find_text(text, needle) {
            Some(at) => 0 <= at && at + needle.len() <= text.len() && text.subrange(
                at,
                at + needle.len(),
            ) == needle,
            None => true,
        },
    decreases text.len(),
{
    if has_prefix(text, needle) {
        assert(text.subrange(0, needle.len() as int) =~= text.take(needle.len() as int));
    } else if text.len() > 0 {
        let rest = text.skip(1);
        lemma_find_text(rest, needle);
        match find_text(rest, needle) {
            Some(at) => {
                assert(text.subrange(at + 1, at + 1 + needle.len()) =~= rest.subrange(
                    at,
                    at + needle.len(),
                ));
            },
            None => {},
        }
    }
}

pub fn position_of(text: &[char], needle: &str) -> (at: Option<usize>)
    ensures
        match at {
            Some(i) => find_text(text@, needle@) == Some(i as int) && i + needle@.len()
                <= text@.len(),
            None => find_text(text@, needle@) is None,
        },
{
    let mut i: usize = 0;
    assert(text@.skip(0) =~= text@);
    loop
        invariant
            i <= text@.len(),
            match find_text(text@.skip(i as int), needle@) {
                Some(at) => find_text(text@, needle@) == Some(at + i),
                None => find_text(text@, needle@) is None,
            },
        decreases text@.len() - i,
    {
        let rest = slice_subrange(text, i, text.len());
        assert(rest@ =~= text@.skip(i as int));
        if starts_with(rest, needle) {
            proof {
                lemma_find_text(text@, needle@);
            }
            return Some(i);
        }
        if i == text.len() {
            return None;
        }
        assert(text@.skip(i as int).skip(1) =~= text@.skip(i + 1));
        i += 1;
    }
}

// ---- Trimming ----------------------------------------------------------------

pub open spec fn trim_start(text: Seq<char>) -> Seq<char>
    decreases text.len(),
{
    if text.len() > 0 && is_white_space(text[0]) {
        trim_start(text.skip(1))
    } else {
        text
    }
}

pub open spec fn trim_end(text: Seq<char>) -> Seq<char>
    decreases text.len(),
{
    if text.len() > 0 && is_white_space(text.last()) {
        trim_end(text.drop_last())
    } else {
        text
    }
}

/// A text without the white space around it.
pub open spec fn trimmed(text: Seq<char>) -> Seq<char> {
    trim_end(trim_start(text))
}

pub fn trim(text: &[char]) -> (inner: &[char])
    ensures
        inner@ == trimmed(text@),
{
    let mut from: usize = 0;
    assert(text@.skip(0) =~= text@);
    while from < text.len() && text[from].is_whitespace()
        invariant
            from <= text@.len(),
            trim_start(text@.skip(from as int)) == trim_start(text@),
        decreases text@.len() - from,
    {
        assert(text@.skip(from as int).skip(1) =~= text@.skip(from + 1));
        from += 1;
    }
    let ghost start = text@.skip(from as int);
    let mut to: usize = text.len();
    assert(text@.subrange(from as int, to as int) =~= start);
    while to > from && text[to - 1].is_whitespace()
        invariant
            from <= to <= text@.len(),
            trim_end(text@.subrange(from as int, to as int)) == trim_end(start),
        decreases to,
    {
        assert(text@.subrange(from as int, to as int).drop_last() =~= text@.subrange(
            from as int,
            to - 1,
        ));
        assert(text@.subrange(from as int, to as int).last() == text@[to - 1]);
        to -= 1;
    }
    proof {
        if to > from {
            assert(text@.subrange(from as int, to as int).last() == text@[to - 1]);
        }
    }
    slice_subrange(text, from, to)
}

pub fn strip_trailing_space(text: &[char]) -> (inner: &[char])
    ensures
        inner@ == trim_end(text@),
{
    let mut to: usize = text.len();
    assert(text@.take(to as int) =~= text@);
    while to > 0 && text[to - 1].is_whitespace()
        invariant
            to <= text@.len(),
            trim_end(text@.take(to as int)) == trim_end(text@),
        decreases to,
    {
        assert(text@.take(to as int).drop_last() =~= text@.take(to - 1));
        assert(text@.take(to as int).last() == text@[to - 1]);
        to -= 1;
    }
    proof {
        if to > 0 {
            assert(text@.take(to as int).last() == text@[to - 1]);
        }
    }
    slice_subrange(text, 0, to)
}

/// A configured value with the white space around it removed: unset, empty
/// and blank all mean undeclared.
pub open spec fn declared(configured: Option<Seq<char>>) -> Option<Seq<char>> {
    match configured {
        Some(text) => if trimmed(text).len() == 0 {
            None
        } else {
            Some(trimmed(text))
        },
        None => None,
    }
}

pub fn declaration_of(configured: Option<&str>) -> (declaration: Option<String>)
    ensures
        view_of(declaration) == declared(str_view(configured)),
{
    match configured {
        None => None,
        Some(text) => {
            let chars = to_chars(text);
            let inner = trim(&chars);
            if inner.len() == 0 {
                None
            } else {
                Some(to_text(inner))
            }
        },
    }
}

/// A text without the run of one character at its front.
pub open spec fn strip_run(text: Seq<char>, c: char) -> Seq<char>
    decreases text.len(),
{
    if text.len() > 0 && text[0] == c {
        strip_run(text.skip(1), c)
    } else {
        text
    }
}

pub fn strip_leading(text: &[char], c: char) -> (rest: &[char])
    ensures
        rest@ == strip_run(text@, c),
{
    let mut from: usize = 0;
    assert(text@.skip(0) =~= text@);
    while from < text.len() && text[from] == c
        invariant
            from <= text@.len(),
            strip_run(text@.skip(from as int), c) == strip_run(text@, c),
        decreases text@.len() - from,
    {
        assert(text@.skip(from as int).skip(1) =~= text@.skip(from + 1));
        from += 1;
    }
    let rest = slice_subrange(text, from, text.len());
    assert(rest@ =~= text@.skip(from as int));
    rest
}

/// A text without the run of one character at its end.
pub open spec fn strip_run_end(text: Seq<char>, c: char) -> Seq<char>
    decreases text.len(),
{
    if text.len() > 0 && text.last() == c {
        strip_run_end(text.drop_last(), c)
    } else {
        text
    }
}

pub fn strip_trailing(text: &[char], c: char) -> (rest: &[char])
    ensures
        rest@ == strip_run_end(text@, c),
{
    let mut to: usize = text.len();
    assert(text@.take(to as int) =~= text@);
    while to > 0 && text[to - 1] == c
        invariant
            to <= text@.len(),
            strip_run_end(text@.take(to as int), c) == strip_run_end(text@, c),
        decreases to,
    {
        assert(text@.take(to as int).drop_last() =~= text@.take(to - 1));
        assert(text@.take(to as int).last() == text@[to - 1]);
        to -= 1;
    }
    proof {
        if to > 0 {
            assert(text@.take(to as int).last() == text@[to - 1]);
        }
    }
    slice_subrange(text, 0, to)
}

/// A text without its last character, where that is the given one.
pub open spec fn without_last(text: Seq<char>, c: char) -> Seq<char> {
    if text.len() > 0 && text.last() == c {
        text.drop_last()
    } else {
        text
    }
}

pub fn strip_last(text: &[char], c: char) -> (rest: &[char])
    ensures
        rest@ == without_last(text@, c),
{
    if text.len() > 0 && text[text.len() - 1] == c {
        let rest = slice_subrange(text, 0, text.len() - 1);
        assert(rest@ =~= text@.drop_last());
        rest
    } else {
        text
    }
}

// ---- Numbers -----------------------------------------------------------------

pub open spec fn digit_char(digit: nat) -> char {
    ((48 + digit) as u32) as char
}

/// A number in decimal digits, without leading zeros.
pub open spec fn decimal_text(value: nat) -> Seq<char>
    decreases value,
{
    if value < 10 {
        seq![digit_char(value)]
    } else {
        decimal_text(value / 10).push(digit_char(value % 10))
    }
}

pub fn decimal(value: u64) -> (text: String)
    ensures
        text@ == decimal_text(value as nat),
    decreases value,
{
    let last: char = (48u8 + (value % 10) as u8) as char;
    if value < 10 {
        let mut text = String::new();
        text.push(last);
        assert(text@ =~= seq![last]);
        text
    } else {
        let mut text = decimal(value / 10);
        text.push(last);
        text
    }
}

/// A number of any size in decimal digits.
pub fn decimal_wide(value: u128) -> (text: String)
    ensures
        text@ == decimal_text(value as nat),
    decreases value,
{
    if value < 10 {
        decimal(value as u64)
    } else {
        let last: char = (48u8 + (value % 10) as u8) as char;
        let mut text = decimal_wide(value / 10);
        text.push(last);
        text
    }
}

/// The digits of a number are digits, and spell it.
pub proof fn lemma_decimal_text(value: nat)
    ensures
        decimal_text(value).len() > 0,
        all_digits(decimal_text(value)),
        decimal_value(decimal_text(value)) == value,
    decreases value,
{
    let text = decimal_text(value);
    if value < 10 {
        assert(text.drop_last() =~= Seq::<char>::empty());
        reveal_with_fuel(decimal_value, 2);
    } else {
        lemma_decimal_text(value / 10);
        assert(text.drop_last() =~= decimal_text(value / 10));
        assert forall|i: int| 0 <= i < text.len() implies is_ascii_digit(#[trigger] text[i]) by {
            if i < text.len() - 1 {
                assert(text[i] == decimal_text(value / 10)[i]);
            }
        }
    }
}

/// The number that decimal digits spell.
pub open spec fn decimal_value(text: Seq<char>) -> nat
    decreases text.len(),
{
    if text.len() == 0 {
        0
    } else {
        (decimal_value(text.drop_last()) * 10 + (text.last() as nat - 48)) as nat
    }
}

proof fn lemma_decimal_value_grows(text: Seq<char>, i: int)
    requires
        all_digits(text),
        0 <= i <= text.len(),
    ensures
        decimal_value(text.take(i)) <= decimal_value(text),
    decreases text.len(),
{
    if i == text.len() {
        assert(text.take(i) =~= text);
    } else {
        let front = text.drop_last();
        assert(front.take(i) =~= text.take(i));
        assert(forall|j: int| 0 <= j < front.len() ==> front[j] == text[j]);
        lemma_decimal_value_grows(front, i);
        assert(is_ascii_digit(text[text.len() - 1]));
    }
}

/// The number that a text spells in plain digits, where it is one and is at
/// most `limit`.
pub fn decimal_up_to(text: &[char], limit: u64) -> (value: Option<u64>)
    requires
        limit <= 0xffff_ffff,
    ensures
        value == (if text@.len() > 0 && all_digits(text@) && decimal_value(text@) <= limit {
            Some(decimal_value(text@) as u64)
        } else {
            None
        }),
{
    if text.len() == 0 || !only_digits(text) {
        return None;
    }
    let mut value: u64 = 0;
    let mut i: usize = 0;
    while i < text.len()
        invariant
            i <= text@.len(),
            all_digits(text@),
            limit <= 0xffff_ffff,
            value <= limit,
            value == decimal_value(text@.take(i as int)),
        decreases text@.len() - i,
    {
        let c: char = text[i];
        assert(is_ascii_digit(text@[i as int]));
        value = value * 10 + (c as u64 - 48);
        i += 1;
        proof {
            assert(text@.take(i as int).drop_last() =~= text@.take(i - 1));
            lemma_decimal_value_grows(text@, i as int);
        }
        if value > limit {
            return None;
        }
    }
    assert(text@.take(i as int) =~= text@);
    Some(value)
}

/// A text without one plus sign in front.
pub open spec fn unsigned_part(text: Seq<char>) -> Seq<char> {
    if text.len() > 0 && text[0] == '+' {
        text.skip(1)
    } else {
        text
    }
}

/// The number that a text spells in decimal, with or without a plus sign,
/// where it spells one that fits.
pub open spec fn number_of(text: Seq<char>) -> Option<u64> {
    let digits = unsigned_part(text);
    if digits.len() > 0 && all_digits(digits) && decimal_value(digits) <= u64::MAX {
        Some(decimal_value(digits) as u64)
    } else {
        None
    }
}

pub fn parse_number(text: &str) -> (value: Option<u64>)
    ensures
        value == number_of(text@),
{
    let chars = to_chars(text);
    let digits: &[char] = if chars.len() > 0 && chars[0] == '+' {
        slice_subrange(chars.as_slice(), 1, chars.len())
    } else {
        chars.as_slice()
    };
    assert(digits@ =~= unsigned_part(text@));
    if digits.len() == 0 || !only_digits(digits) {
        return None;
    }
    let mut value: u64 = 0;
    let mut i: usize = 0;
    while i < digits.len()
        invariant
            i <= digits@.len(),
            digits@ == unsigned_part(text@),
            digits@.len() > 0,
            all_digits(digits@),
            value == decimal_value(digits@.take(i as int)),
        decreases digits@.len() - i,
    {
        let c: char = digits[i];
        assert(is_ascii_digit(digits@[i as int]));
        let digit: u64 = c as u64 - 48;
        proof {
            assert(digits@.take(i + 1).drop_last() =~= digits@.take(i as int));
            lemma_decimal_value_grows(digits@, i + 1);
        }
        if value > (u64::MAX - digit) / 10 {
            return None;
        }
        value = value * 10 + digit;
        i += 1;
    }
    assert(digits@.take(i as int) =~= digits@);
    Some(value)
}

// ---- Lengths in bytes ----------------------------------------------------------

/// How many bytes a character takes in utf-8.
pub open spec fn utf8_width(c: char) -> nat {
    if (c as u32) < 0x80 {
        1
    } else if (c as u32) < 0x800 {
        2
    } else if (c as u32) < 0x10000 {
        3
    } else {
        4
    }
}

/// How many bytes a text takes in utf-8.
pub open spec fn utf8_len(text: Seq<char>) -> nat
    decreases text.len(),
{
    if text.len() == 0 {
        0
    } else {
        utf8_len(text.drop_last()) + utf8_width(text.last())
    }
}

pub fn width_of(c: char) -> (width: usize)
    ensures
        width == utf8_width(c),
        1 <= width <= 4,
{
    if (c as u32) < 0x80 {
        1
    } else if (c as u32) < 0x800 {
        2
    } else if (c as u32) < 0x10000 {
        3
    } else {
        4
    }
}

/// A longer prefix takes no fewer bytes.
pub proof fn lemma_utf8_len_grows(text: Seq<char>, i: int)
    requires
        0 <= i <= text.len(),
    ensures
        utf8_len(text.take(i)) <= utf8_len(text),
    decreases text.len(),
{
    if i == text.len() {
        assert(text.take(i) =~= text);
    } else {
        assert(text.drop_last().take(i) =~= text.take(i));
        lemma_utf8_len_grows(text.drop_last(), i);
    }
}

/// The bytes of two texts add up.
pub proof fn lemma_utf8_len_add(left: Seq<char>, right: Seq<char>)
    ensures
        utf8_len(left + right) == utf8_len(left) + utf8_len(right),
    decreases right.len(),
{
    if right.len() == 0 {
        assert(left + right =~= left);
    } else {
        lemma_utf8_len_add(left, right.drop_last());
        assert((left + right).drop_last() =~= left + right.drop_last());
        assert((left + right).last() == right.last());
    }
}

/// How many bytes of a budget a text leaves.
pub fn room_beside(text: &[char], budget: usize) -> (room: usize)
    requires
        budget <= 0xffff_fff0,
    ensures
        room == (if utf8_len(text@) >= budget {
            0
        } else {
            budget - utf8_len(text@)
        }),
{
    let mut room: usize = budget;
    let mut i: usize = 0;
    while i < text.len()
        invariant
            i <= text@.len(),
            room <= budget,
            utf8_len(text@.take(i as int)) + room == budget,
        decreases text@.len() - i,
    {
        let width: usize = width_of(text[i]);
        proof {
            assert(text@.take(i + 1).drop_last() =~= text@.take(i as int));
            lemma_utf8_len_grows(text@, i + 1);
        }
        if width >= room {
            return 0;
        }
        room -= width;
        i += 1;
    }
    assert(text@.take(i as int) =~= text@);
    room
}

/// Whether a text takes more bytes in utf-8 than a limit.
pub fn exceeds(text: &[char], limit: usize) -> (yes: bool)
    requires
        limit <= 0xffff_fff0,
    ensures
        yes == (utf8_len(text@) > limit),
{
    let mut total: usize = 0;
    let mut i: usize = 0;
    while i < text.len()
        invariant
            i <= text@.len(),
            total <= limit <= 0xffff_fff0,
            total == utf8_len(text@.take(i as int)),
        decreases text@.len() - i,
    {
        total += width_of(text[i]);
        i += 1;
        proof {
            assert(text@.take(i as int).drop_last() =~= text@.take(i - 1));
            lemma_utf8_len_grows(text@, i as int);
        }
        if total > limit {
            return true;
        }
    }
    assert(text@.take(i as int) =~= text@);
    false
}

// ---- Laws ----------------------------------------------------------------------

/// Whether a text is white space throughout.
pub open spec fn is_blank(text: Seq<char>) -> bool {
    forall|i: int| 0 <= i < text.len() ==> is_white_space(#[trigger] text[i])
}

proof fn lemma_trim_start_of(lead: Seq<char>, inner: Seq<char>)
    requires
        is_blank(lead),
        inner.len() > 0 ==> !is_white_space(inner[0]),
    ensures
        trim_start(lead + inner) == inner,
    decreases lead.len(),
{
    if lead.len() == 0 {
        assert(lead + inner =~= inner);
    } else {
        assert(is_white_space(lead[0]));
        assert((lead + inner).skip(1) =~= lead.skip(1) + inner);
        assert forall|i: int| 0 <= i < lead.skip(1).len() implies is_white_space(
            #[trigger] lead.skip(1)[i],
        ) by {
            assert(lead.skip(1)[i] == lead[i + 1]);
        }
        lemma_trim_start_of(lead.skip(1), inner);
    }
}

/// White space at the end of a text goes, and nothing else.
pub proof fn law_the_end_is_trimmed(inner: Seq<char>, tail: Seq<char>)
    requires
        is_blank(tail),
        inner.len() > 0 ==> !is_white_space(inner.last()),
    ensures
        trim_end(inner + tail) == inner,
    decreases tail.len(),
{
    if tail.len() == 0 {
        assert(inner + tail =~= inner);
    } else {
        let front = tail.drop_last();
        assert(is_white_space(tail[tail.len() - 1]));
        assert((inner + tail).last() == tail.last());
        assert((inner + tail).drop_last() =~= inner + front);
        assert forall|i: int| 0 <= i < front.len() implies is_white_space(#[trigger] front[i]) by {
            assert(front[i] == tail[i]);
        }
        law_the_end_is_trimmed(inner, front);
    }
}

/// Trimming takes the white space around a text, all of it and nothing else:
/// whatever white space is put around a text that neither begins nor ends with
/// any, trimming gives that text back; and a blank text is trimmed to nothing.
pub proof fn law_what_is_around_is_trimmed(lead: Seq<char>, inner: Seq<char>, tail: Seq<char>)
    requires
        is_blank(lead),
        is_blank(tail),
        inner.len() > 0 ==> !is_white_space(inner[0]) && !is_white_space(inner.last()),
    ensures
        trimmed(lead + inner + tail) == inner,
{
    if inner.len() == 0 {
        let all = lead + inner + tail;
        let none = Seq::<char>::empty();
        assert forall|i: int| 0 <= i < all.len() implies is_white_space(#[trigger] all[i]) by {
            if i < lead.len() {
                assert(all[i] == lead[i]);
            } else {
                assert(all[i] == tail[i - lead.len()]);
            }
        }
        assert(all + none =~= all);
        lemma_trim_start_of(all, none);
        assert(inner =~= none);
    } else {
        assert(lead + inner + tail =~= lead + (inner + tail));
        lemma_trim_start_of(lead, inner + tail);
        law_the_end_is_trimmed(inner, tail);
    }
}

/// Every text is what trimming leaves of it with white space around.
pub proof fn law_trimming_leaves_the_middle(text: Seq<char>) -> (parts: (Seq<char>, Seq<char>))
    ensures
        is_blank(parts.0),
        is_blank(parts.1),
        text == parts.0 + trimmed(text) + parts.1,
        trimmed(text).len() > 0 ==> !is_white_space(trimmed(text)[0]) && !is_white_space(
            trimmed(text).last(),
        ),
{
    let start = trim_start(text);
    let lead = lemma_start_cut(text);
    let tail = lemma_end_cut(start);
    let inner = trim_end(start);
    assert(text =~= lead + inner + tail);
    if inner.len() > 0 {
        assert(start[0] == inner[0]);
    }
    (lead, tail)
}

proof fn lemma_start_cut(text: Seq<char>) -> (lead: Seq<char>)
    ensures
        is_blank(lead),
        text == lead + trim_start(text),
        trim_start(text).len() > 0 ==> !is_white_space(trim_start(text)[0]),
    decreases text.len(),
{
    if text.len() > 0 && is_white_space(text[0]) {
        let rest = lemma_start_cut(text.skip(1));
        let lead = seq![text[0]] + rest;
        assert forall|i: int| 0 <= i < lead.len() implies is_white_space(#[trigger] lead[i]) by {
            if i > 0 {
                assert(lead[i] == rest[i - 1]);
            }
        }
        assert(text =~= seq![text[0]] + text.skip(1));
        assert(text =~= lead + trim_start(text));
        lead
    } else {
        assert(text =~= Seq::<char>::empty() + text);
        Seq::empty()
    }
}

proof fn lemma_end_cut(text: Seq<char>) -> (tail: Seq<char>)
    ensures
        is_blank(tail),
        text == trim_end(text) + tail,
        trim_end(text).len() > 0 ==> !is_white_space(trim_end(text).last()),
    decreases text.len(),
{
    if text.len() > 0 && is_white_space(text.last()) {
        let rest = lemma_end_cut(text.drop_last());
        let tail = rest.push(text.last());
        assert forall|i: int| 0 <= i < tail.len() implies is_white_space(#[trigger] tail[i]) by {
            if i < rest.len() {
                assert(tail[i] == rest[i]);
            }
        }
        assert(text =~= text.drop_last().push(text.last()));
        assert(text =~= trim_end(text) + tail);
        tail
    } else {
        assert(text =~= text + Seq::<char>::empty());
        Seq::empty()
    }
}

/// A declaration is the text without the white space around it, and there is
/// none exactly where the text is blank or absent.
pub proof fn law_what_is_declared(lead: Seq<char>, inner: Seq<char>, tail: Seq<char>)
    requires
        is_blank(lead),
        is_blank(tail),
        inner.len() > 0 ==> !is_white_space(inner[0]) && !is_white_space(inner.last()),
    ensures
        inner.len() > 0 ==> declared(Some(lead + inner + tail)) == Some(inner),
        inner.len() == 0 ==> declared(Some(lead + inner + tail)) is None,
        declared(None) is None,
{
    law_what_is_around_is_trimmed(lead, inner, tail);
}

/// Space, tab, line feed, carriage return and the no-break space are white
/// space, and no printable ascii character is.
pub proof fn law_some_white_space(c: char)
    ensures
        is_white_space(' ') && is_white_space('\t') && is_white_space('\n') && is_white_space('\r')
            && is_white_space('\u{a0}'),
        '!' <= c <= '~' ==> !is_white_space(c),
{
}

/// Lower case keeps everything but the letters from A to Z, which it takes to
/// the letters from a to z in their order.
pub proof fn law_ascii_lower_case(c: char)
    ensures
        !('A' <= c <= 'Z') ==> ascii_lower(c) == c,
        'A' <= c <= 'Z' ==> 'a' <= ascii_lower(c) <= 'z' && ascii_lower(c) as u32 - 'a' as u32
            == c as u32 - 'A' as u32,
{
}

/// The parts of a text with the separator between neighbours.
pub open spec fn rejoined(parts: Seq<Seq<char>>, sep: char) -> Seq<char>
    decreases parts.len(),
{
    if parts.len() == 0 {
        Seq::empty()
    } else if parts.len() == 1 {
        parts[0]
    } else {
        parts[0] + seq![sep] + rejoined(parts.skip(1), sep)
    }
}

/// Splitting loses nothing and cuts at every separator: the parts with the
/// separator between them are the text, and none of them holds it.
pub proof fn law_split_parts_make_the_text(text: Seq<char>, sep: char)
    ensures
        rejoined(split(text, sep), sep) == text,
        forall|i: int|
            0 <= i < split(text, sep).len() ==> !(#[trigger] split(text, sep)[i]).contains(sep),
    decreases text.len(),
{
    lemma_split(text, sep);
    lemma_find(text, sep);
    let at = find(text, sep);
    if at < text.len() {
        let rest = text.skip(at + 1);
        law_split_parts_make_the_text(rest, sep);
        lemma_split(rest, sep);
        assert(split(text, sep).skip(1) =~= split(rest, sep));
        assert(text =~= text.take(at) + seq![sep] + rest);
    }
}

/// What is found is the first occurrence, and nothing is found only where there
/// is none.
pub proof fn law_the_first_occurrence_is_found(text: Seq<char>, needle: Seq<char>, at: int)
    requires
        0 <= at,
        at + needle.len() <= text.len(),
        text.subrange(at, at + needle.len()) == needle,
    ensures
        find_text(text, needle) matches Some(first) && first <= at && text.subrange(
            first,
            first + needle.len(),
        ) == needle,
    decreases text.len(),
{
    lemma_find_text(text, needle);
    if at == 0 {
        assert(text.take(needle.len() as int) =~= text.subrange(0, needle.len() as int));
    } else if !has_prefix(text, needle) {
        assert(text.skip(1).subrange(at - 1, at - 1 + needle.len()) =~= text.subrange(
            at,
            at + needle.len(),
        ));
        law_the_first_occurrence_is_found(text.skip(1), needle, at - 1);
    }
}

/// Digits without a zero in front are the decimal text of the number that they
/// spell.
pub proof fn law_digits_are_the_text_of_their_number(digits: Seq<char>)
    requires
        digits.len() > 0,
        all_digits(digits),
        digits.len() > 1 ==> digits[0] != '0',
    ensures
        decimal_text(decimal_value(digits)) == digits,
    decreases digits.len(),
{
    let front = digits.drop_last();
    let last = digits.last();
    assert(is_ascii_digit(digits[digits.len() - 1]));
    if digits.len() == 1 {
        assert(front =~= Seq::<char>::empty());
        reveal_with_fuel(decimal_value, 2);
        assert(decimal_value(digits) == last as nat - 48);
        assert(digits =~= seq![last]);
        assert(decimal_text(decimal_value(digits)) =~= digits);
    } else {
        assert forall|i: int| 0 <= i < front.len() implies is_ascii_digit(#[trigger] front[i]) by {
            assert(front[i] == digits[i]);
        }
        assert(front[0] == digits[0]);
        law_digits_are_the_text_of_their_number(front);
        lemma_decimal_text(decimal_value(front));
        assert(decimal_value(front) > 0) by {
            if decimal_value(front) == 0 {
                assert(decimal_text(0) =~= seq!['0']);
                assert(front[0] == '0');
            }
        }
        assert(decimal_value(digits) / 10 == decimal_value(front));
        assert(decimal_value(digits) % 10 == last as nat - 48);
        assert(decimal_text(decimal_value(digits)) =~= digits);
    }
}

/// The decimal text of a number has no zero in front, but for zero itself, which
/// is one digit.
pub proof fn law_decimal_text_has_no_leading_zero(value: nat)
    ensures
        decimal_text(value).len() > 0,
        value > 0 ==> decimal_text(value)[0] != '0',
        decimal_text(0) == seq!['0'],
    decreases value,
{
    lemma_decimal_text(value);
    assert(decimal_text(0) =~= seq!['0']);
    if value >= 10 {
        law_decimal_text_has_no_leading_zero(value / 10);
    }
}

/// Reading decimal digits is the inverse of writing them: a plus sign in front
/// says nothing, and what is not the text of a number that fits is none.
pub proof fn law_a_number_is_read_as_it_is_written(value: u64)
    ensures
        number_of(decimal_text(value as nat)) == Some(value),
        number_of(seq!['+'] + decimal_text(value as nat)) == Some(value),
{
    lemma_decimal_text(value as nat);
    let text = decimal_text(value as nat);
    assert(is_ascii_digit(text[0]));
    assert((seq!['+'] + text).skip(1) =~= text);
}

/// The bytes that a text is counted to take are those that it is encoded in.
pub proof fn law_bytes_are_counted_as_they_are_encoded(text: Seq<char>)
    ensures
        utf8_len(text) == encode_utf8(text).len(),
    decreases text.len(),
{
    if text.len() > 0 {
        let rest = text.drop_first();
        law_bytes_are_counted_as_they_are_encoded(rest);
        lemma_utf8_len_add(seq![text[0]], rest);
        assert(seq![text[0]] + rest =~= text);
        assert(seq![text[0]].drop_last() =~= Seq::<char>::empty());
        assert(utf8_len(seq![text[0]]) == utf8_width(text[0])) by {
            reveal_with_fuel(utf8_len, 2);
            assert(seq![text[0]].last() == text[0]);
        }
        char_is_scalar(text[0]);
        assert(encode_scalar(text[0] as u32).len() == utf8_width(text[0]));
    }
}

/// A text of ascii characters takes one byte for each.
pub proof fn lemma_ascii_utf8_len(text: Seq<char>)
    requires
        forall|i: int| 0 <= i < text.len() ==> (#[trigger] text[i] as u32) < 128,
    ensures
        utf8_len(text) == text.len(),
    decreases text.len(),
{
    if text.len() > 0 {
        let front = text.drop_last();
        assert forall|i: int| 0 <= i < front.len() implies (#[trigger] front[i] as u32) < 128 by {
            assert(front[i] == text[i]);
        }
        lemma_ascii_utf8_len(front);
        assert((text[text.len() - 1] as u32) < 128);
    }
}

/// Joined parts that do not hold the separator split into themselves.
pub proof fn lemma_rejoined_parts_split(parts: Seq<Seq<char>>, sep: char)
    requires
        parts.len() > 0,
        forall|i: int| 0 <= i < parts.len() ==> !(#[trigger] parts[i]).contains(sep),
    ensures
        split(rejoined(parts, sep), sep) == parts,
    decreases parts.len(),
{
    if parts.len() == 1 {
        lemma_split_single(parts[0], sep);
        assert(seq![parts[0]] =~= parts);
    } else {
        let tail = parts.skip(1);
        assert forall|i: int| 0 <= i < tail.len() implies !(#[trigger] tail[i]).contains(sep) by {
            assert(tail[i] == parts[i + 1]);
        }
        lemma_rejoined_parts_split(tail, sep);
        let text = rejoined(parts, sep);
        let at = parts[0].len() as int;
        assert(text[at] == sep);
        assert forall|j: int| 0 <= j < at implies text[j] != sep by {
            assert(text[j] == parts[0][j]);
            assert(parts[0].contains(parts[0][j]));
        }
        lemma_find_is(text, sep, at);
        assert(text.take(at) =~= parts[0]);
        assert(text.skip(at + 1) =~= rejoined(tail, sep));
        assert(seq![parts[0]] + tail =~= parts);
    }
}

/// What holds of every character of the parts, and of the separator, holds of
/// every character of the parts joined.
pub proof fn lemma_rejoined_chars(parts: Seq<Seq<char>>, sep: char, holds: spec_fn(char) -> bool)
    requires
        holds(sep),
        forall|i: int, j: int|
            0 <= i < parts.len() && 0 <= j < parts[i].len() ==> holds(#[trigger] parts[i][j]),
    ensures
        forall|j: int|
            0 <= j < rejoined(parts, sep).len() ==> holds(#[trigger] rejoined(parts, sep)[j]),
    decreases parts.len(),
{
    if parts.len() > 1 {
        let tail = parts.skip(1);
        assert forall|i: int, j: int| 0 <= i < tail.len() && 0 <= j < tail[i].len() implies holds(
            #[trigger] tail[i][j],
        ) by {
            assert(tail[i] == parts[i + 1]);
            assert(holds(parts[i + 1][j]));
        }
        lemma_rejoined_chars(tail, sep, holds);
        let text = rejoined(parts, sep);
        assert forall|j: int| 0 <= j < text.len() implies holds(#[trigger] text[j]) by {
            let n = parts[0].len() as int;
            if j < n {
                assert(text[j] == parts[0][j]);
            } else if j == n {
                assert(text[j] == sep);
            } else {
                assert(text[j] == rejoined(tail, sep)[j - n - 1]);
            }
        }
    } else if parts.len() == 1 {
        assert forall|j: int| 0 <= j < rejoined(parts, sep).len() implies holds(
            #[trigger] rejoined(parts, sep)[j],
        ) by {
            assert(holds(parts[0][j]));
        }
    }
}

/// A text that does not hold the first character of a needle is passed over in
/// the search for it.
pub proof fn lemma_find_text_behind(front: Seq<char>, needle: Seq<char>, back: Seq<char>)
    requires
        needle.len() > 0,
        !front.contains(needle[0]),
    ensures
        find_text(front + needle + back, needle) == Some(front.len() as int),
    decreases front.len(),
{
    let text = front + needle + back;
    if front.len() == 0 {
        assert(text.take(needle.len() as int) =~= needle);
    } else {
        assert(front.contains(front[0]));
        if has_prefix(text, needle) {
            assert(text.take(needle.len() as int)[0] == front[0]);
        }
        let rest = front.skip(1);
        if rest.contains(needle[0]) {
            let k = choose|k: int| 0 <= k < rest.len() && rest[k] == needle[0];
            assert(front[k + 1] == needle[0]);
        }
        lemma_find_text_behind(rest, needle, back);
        assert(text.skip(1) =~= rest + needle + back);
    }
}

/// Whether a text is one character throughout.
pub open spec fn is_run(text: Seq<char>, c: char) -> bool {
    forall|i: int| 0 <= i < text.len() ==> #[trigger] text[i] == c
}

/// A run of one character goes from the end of a text, all of it and nothing
/// else.
pub proof fn law_a_run_at_the_end_is_stripped(text: Seq<char>, run: Seq<char>, c: char)
    requires
        is_run(run, c),
        text.len() > 0 ==> text.last() != c,
    ensures
        strip_run_end(text + run, c) == text,
    decreases run.len(),
{
    if run.len() == 0 {
        assert(text + run =~= text);
    } else {
        let front = run.drop_last();
        assert(run[run.len() - 1] == c);
        assert((text + run).last() == c);
        assert((text + run).drop_last() =~= text + front);
        assert forall|i: int| 0 <= i < front.len() implies #[trigger] front[i] == c by {
            assert(front[i] == run[i]);
        }
        law_a_run_at_the_end_is_stripped(text, front, c);
    }
}

/// A run of one character goes from the front of a text, all of it and nothing
/// else.
pub proof fn law_a_run_at_the_front_is_stripped(run: Seq<char>, text: Seq<char>, c: char)
    requires
        is_run(run, c),
        text.len() > 0 ==> text[0] != c,
    ensures
        strip_run(run + text, c) == text,
    decreases run.len(),
{
    if run.len() == 0 {
        assert(run + text =~= text);
    } else {
        let rest = run.skip(1);
        assert(run[0] == c);
        assert((run + text).skip(1) =~= rest + text);
        assert forall|i: int| 0 <= i < rest.len() implies #[trigger] rest[i] == c by {
            assert(rest[i] == run[i + 1]);
        }
        law_a_run_at_the_front_is_stripped(rest, text, c);
    }
}

/// A character that does not occur behind a place is last found there.
pub proof fn law_the_last_one_is_found(front: Seq<char>, back: Seq<char>, c: char)
    requires
        !back.contains(c),
    ensures
        find_last(front + seq![c] + back, c) == front.len(),
{
    let text = front + seq![c] + back;
    let at = find_last(text, c);
    lemma_find_last(text, c);
    assert(text[front.len() as int] == c);
    assert(text.contains(c));
    if at > front.len() {
        assert(back[at - front.len() - 1] == c);
    }
}

} // verus!
