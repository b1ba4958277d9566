//! The names that stored attachments wear.

use crate::text::{
    compose, composed, decimal, decimal_text, decimal_wide, exceeds, find_last,
    is_ascii_alphanumeric, is_letter_or_number, is_run, is_white_space, last_position,
    law_a_run_at_the_end_is_stripped, law_a_run_at_the_front_is_stripped, lemma_decimal_text,
    lemma_find_last, lemma_utf8_len_add, room_beside, strip_leading, strip_run, strip_run_end,
    strip_trailing, to_chars, to_text, utf8_len, utf8_width, width_of,
};
use vstd::prelude::*;
use vstd::slice::slice_subrange;

verus! {

/// Longest sanitized client name carried into a stored file's name.
pub const MAX_SAFE_NAME_CHARS: usize = 80;

/// And its budget in bytes, because a filesystem counts a name in those.
pub const MAX_SAFE_NAME_BYTES: usize = 180;

// ---- Sanitizing a client's name --------------------------------------------------------------

/// The last part of a name, whichever separator parts it.
pub open spec fn basename(name: Seq<char>) -> Seq<char> {
    let slash = find_last(name, '/');
    let backslash = find_last(name, '\\');
    name.skip(
        if slash > backslash {
            slash + 1
        } else {
            backslash + 1
        },
    )
}

fn last_part(name: &[char]) -> (part: &[char])
    ensures
        part@ == basename(name@),
{
    proof {
        lemma_find_last(name@, '/');
        lemma_find_last(name@, '\\');
    }
    let end: usize = name.len();
    let slash: usize = match last_position(name, '/') {
        Some(at) => at + 1,
        None => 0,
    };
    let backslash: usize = match last_position(name, '\\') {
        Some(at) => at + 1,
        None => 0,
    };
    let from: usize = if slash > backslash {
        slash
    } else {
        backslash
    };
    let part = slice_subrange(name, from, end);
    assert(part@ =~= name@.skip(from as int));
    part
}

/// Whether a stored name keeps a character: a letter or digit of any language,
/// a dot, an underscore or a hyphen. White space is never kept.
pub open spec fn is_kept(c: char) -> bool {
    if (c as u32) < 128 {
        is_ascii_alphanumeric(c) || c == '.' || c == '_' || c == '-'
    } else {
        is_letter_or_number(c) && !is_white_space(c)
    }
}

fn kept(c: char) -> (yes: bool)
    ensures
        yes == is_kept(c),
{
    if c == '.' || c == '_' || c == '-' {
        return true;
    }
    c.is_alphanumeric() && !c.is_whitespace()
}

/// What a character becomes in a stored name.
pub open spec fn mapped(c: char) -> char {
    if is_kept(c) {
        c
    } else {
        '_'
    }
}

/// A text with everything that is not kept folded to single underscores.
pub open spec fn folded(text: Seq<char>) -> Seq<char>
    decreases text.len(),
{
    if text.len() == 0 {
        text
    } else {
        let head = folded(text.drop_last());
        let next = mapped(text.last());
        if next == '_' && head.len() > 0 && head.last() == '_' {
            head
        } else {
            head.push(next)
        }
    }
}

fn fold(text: &[char]) -> (safe: Vec<char>)
    ensures
        safe@ == folded(text@),
{
    let mut safe: Vec<char> = Vec::new();
    let mut i: usize = 0;
    assert(text@.take(0) =~= Seq::<char>::empty());
    while i < text.len()
        invariant
            i <= text@.len(),
            safe@ == folded(text@.take(i as int)),
        decreases text@.len() - i,
    {
        assert(text@.take(i + 1).drop_last() =~= text@.take(i as int));
        let c: char = text[i];
        let next: char = if kept(c) {
            c
        } else {
            '_'
        };
        if !(next == '_' && safe.len() > 0 && safe[safe.len() - 1] == '_') {
            safe.push(next);
        }
        i += 1;
    }
    assert(text@.take(i as int) =~= text@);
    safe
}

/// The longest prefix of a text inside a budget of characters and one of
/// bytes.
pub open spec fn fitted(text: Seq<char>, max_chars: int, max_bytes: int) -> Seq<char>
    decreases text.len(),
{
    if text.len() == 0 || max_chars <= 0 || utf8_width(text[0]) > max_bytes {
        Seq::empty()
    } else {
        seq![text[0]] + fitted(text.skip(1), max_chars - 1, max_bytes - utf8_width(text[0]))
    }
}

/// What fits is a prefix, is within both budgets, and could not be longer by
/// one character.
pub proof fn lemma_fitted(text: Seq<char>, max_chars: int, max_bytes: int)
    requires
        max_chars >= 0,
        max_bytes >= 0,
    ensures
        fitted(text, max_chars, max_bytes).len() <= text.len(),
        fitted(text, max_chars, max_bytes) == text.take(
            fitted(text, max_chars, max_bytes).len() as int,
        ),
        fitted(text, max_chars, max_bytes).len() <= max_chars,
        utf8_len(fitted(text, max_chars, max_bytes)) <= max_bytes,
        fitted(text, max_chars, max_bytes).len() < text.len() ==> ({
            let n = fitted(text, max_chars, max_bytes).len() as int;
            n + 1 > max_chars || utf8_len(text.take(n + 1)) > max_bytes
        }),
    decreases text.len(),
{
    reveal_with_fuel(utf8_len, 2);
    if text.len() == 0 || max_chars == 0 {
        assert(fitted(text, max_chars, max_bytes) =~= text.take(0));
    } else if utf8_width(text[0]) > max_bytes {
        assert(fitted(text, max_chars, max_bytes) =~= text.take(0));
        assert(text.take(1).drop_last() =~= Seq::<char>::empty());
        assert(text.take(1).last() == text[0]);
    } else {
        let rest = fitted(text.skip(1), max_chars - 1, max_bytes - utf8_width(text[0]));
        lemma_fitted(text.skip(1), max_chars - 1, max_bytes - utf8_width(text[0]));
        let all = seq![text[0]] + rest;
        assert(all =~= text.take(all.len() as int));
        assert(seq![text[0]].drop_last() =~= Seq::<char>::empty());
        lemma_utf8_len_add(seq![text[0]], rest);
        if all.len() < text.len() {
            let n = all.len() as int;
            assert(text.take(n + 1) =~= seq![text[0]] + text.skip(1).take(n));
            lemma_utf8_len_add(seq![text[0]], text.skip(1).take(n));
        }
    }
}

/// The longest prefix inside both budgets, cut where a character ends.
pub fn trimmed_to_fit(text: &[char], max_chars: usize, max_bytes: usize) -> (prefix: Vec<char>)
    ensures
        prefix@ == fitted(text@, max_chars as int, max_bytes as int),
{
    let mut prefix: Vec<char> = Vec::new();
    let mut room: usize = max_bytes;
    let mut i: usize = 0;
    assert(text@.skip(0) =~= text@);
    assert(prefix@ + fitted(text@, max_chars as int, max_bytes as int) =~= fitted(
        text@,
        max_chars as int,
        max_bytes as int,
    ));
    while i < text.len() && i < max_chars && width_of(text[i]) <= room
        invariant
            i <= text@.len(),
            i <= max_chars,
            room <= max_bytes,
            prefix@ + fitted(text@.skip(i as int), max_chars - i, room as int) == fitted(
                text@,
                max_chars as int,
                max_bytes as int,
            ),
        decreases text@.len() - i,
    {
        let c: char = text[i];
        proof {
            let rest = text@.skip(i as int);
            assert(rest[0] == c);
            assert(rest.skip(1) =~= text@.skip(i + 1));
            let tail = fitted(text@.skip(i + 1), max_chars - i - 1, room - utf8_width(c));
            assert(prefix@ + (seq![c] + tail) =~= prefix@.push(c) + tail);
        }
        room -= width_of(c);
        prefix.push(c);
        i += 1;
    }
    assert(prefix@ + Seq::<char>::empty() =~= prefix@);
    prefix
}

/// A name parted at its extension. A dot that opens the name or closes it is
/// no extension.
pub open spec fn parted(name: Seq<char>) -> (Seq<char>, Option<Seq<char>>) {
    let dot = find_last(name, '.');
    if dot > 0 && dot + 1 < name.len() {
        (name.take(dot), Some(name.skip(dot + 1)))
    } else {
        (name, None)
    }
}

/// Part a name at its extension.
pub fn split_extension<'a>(name: &'a [char]) -> (parts: (&'a [char], Option<&'a [char]>))
    ensures
        parts.0@ == parted(name@).0,
        match parts.1 {
            Some(extension) => parted(name@).1 == Some(extension@),
            None => parted(name@).1 is None,
        },
{
    let end: usize = name.len();
    match last_position(name, '.') {
        Some(dot) if dot > 0 && dot + 1 < end => {
            let stem = slice_subrange(name, 0, dot);
            let extension = slice_subrange(name, dot + 1, end);
            assert(stem@ =~= name@.take(dot as int));
            assert(extension@ =~= name@.skip(dot + 1));
            (stem, Some(extension))
        },
        _ => (name, None),
    }
}

/// The extension of a name with the dot before it, where it has one.
pub open spec fn suffix_of(name: Seq<char>) -> Seq<char> {
    match parted(name).1 {
        Some(extension) => seq!['.'] + extension,
        None => Seq::empty(),
    }
}

pub open spec fn within_budgets(name: Seq<char>) -> bool {
    name.len() <= MAX_SAFE_NAME_CHARS && utf8_len(name) <= MAX_SAFE_NAME_BYTES
}

pub open spec fn left_of(budget: int, taken: int) -> int {
    if taken >= budget {
        0
    } else {
        budget - taken
    }
}

/// A name, shortened where it is over a budget: from the stem, so that the
/// extension survives, unless the extension leaves the stem no room.
pub open spec fn capped(name: Seq<char>) -> Seq<char> {
    if within_budgets(name) {
        name
    } else {
        let suffix = suffix_of(name);
        let head = fitted(
            parted(name).0,
            left_of(MAX_SAFE_NAME_CHARS as int, suffix.len() as int),
            left_of(MAX_SAFE_NAME_BYTES as int, utf8_len(suffix) as int),
        );
        if head.len() == 0 {
            fitted(name, MAX_SAFE_NAME_CHARS as int, MAX_SAFE_NAME_BYTES as int)
        } else {
            head + suffix
        }
    }
}

/// Shorten a long name from the stem.
pub fn cap_name_length(safe: &[char]) -> (name: Vec<char>)
    ensures
        name@ == capped(safe@),
{
    if safe.len() <= MAX_SAFE_NAME_CHARS && !exceeds(safe, MAX_SAFE_NAME_BYTES) {
        let whole = slice_subrange(safe, 0, safe.len());
        let mut name: Vec<char> = Vec::new();
        name.extend_from_slice(whole);
        assert(name@ =~= safe@);
        return name;
    }
    let (stem, extension) = split_extension(safe);
    let mut suffix: Vec<char> = Vec::new();
    if let Some(extension) = extension {
        suffix.push('.');
        suffix.extend_from_slice(extension);
        assert(suffix@ =~= seq!['.'] + extension@);
    } else {
        assert(suffix@ =~= Seq::<char>::empty());
    }
    let chars: usize = if suffix.len() >= MAX_SAFE_NAME_CHARS {
        0
    } else {
        MAX_SAFE_NAME_CHARS - suffix.len()
    };
    let bytes: usize = room_beside(&suffix, MAX_SAFE_NAME_BYTES);
    let mut head = trimmed_to_fit(stem, chars, bytes);
    if head.len() == 0 {
        return trimmed_to_fit(safe, MAX_SAFE_NAME_CHARS, MAX_SAFE_NAME_BYTES);
    }
    head.extend_from_slice(&suffix);
    head
}

/// A name in composed form, cut down to what a stored file may wear.
pub open spec fn safe_form(normal: Seq<char>) -> Seq<char> {
    let name = capped(strip_run_end(folded(strip_run(normal, '.')), '.'));
    if name.len() == 0 {
        "file"@
    } else {
        name
    }
}

/// Cut a name in composed form down to what a stored file may wear: no
/// leading dot, only kept characters with everything else folded to single
/// underscores, no trailing dot, and short enough.
pub fn safe_name(normal: &str) -> (name: String)
    ensures
        name@ == safe_form(normal@),
{
    let chars = to_chars(normal);
    let undotted = strip_leading(&chars, '.');
    let safe = fold(undotted);
    let trimmed = strip_trailing(&safe, '.');
    let name = cap_name_length(trimmed);
    if name.len() == 0 {
        "file".to_string()
    } else {
        to_text(&name)
    }
}

/// The name that a stored file wears for a client's name.
pub open spec fn sanitized(name: Seq<char>) -> Seq<char> {
    safe_form(composed(basename(name)))
}

/// Cut a client's name down to what a stored file may wear: its last part
/// only, in composed form so that a decomposed accent stays one letter.
pub fn sanitize_name(name: &str) -> (safe: String)
    ensures
        safe@ == sanitized(name@),
{
    let chars = to_chars(name);
    let part = last_part(&chars);
    let normal = compose(&to_text(part));
    safe_name(&normal)
}

// ---- What a sanitized name is -----------------------------------------------------------------

/// Whether every character of a text is kept.
pub open spec fn all_kept(text: Seq<char>) -> bool {
    forall|i: int| 0 <= i < text.len() ==> is_kept(#[trigger] text[i])
}

proof fn lemma_folded(text: Seq<char>)
    ensures
        all_kept(folded(text)),
        text.len() > 0 ==> folded(text).len() > 0 && folded(text)[0] == mapped(text[0]),
    decreases text.len(),
{
    if text.len() > 0 {
        let front = text.drop_last();
        lemma_folded(front);
        let next = mapped(text.last());
        assert(is_kept(next));
        if front.len() > 0 {
            assert(front[0] == text[0]);
        }
    }
}

proof fn lemma_strip_run(text: Seq<char>, c: char)
    ensures
        strip_run(text, c).len() > 0 ==> strip_run(text, c)[0] != c,
    decreases text.len(),
{
    if text.len() > 0 && text[0] == c {
        lemma_strip_run(text.skip(1), c);
    }
}

proof fn lemma_strip_run_end(text: Seq<char>, c: char)
    ensures
        strip_run_end(text, c).len() <= text.len(),
        strip_run_end(text, c) == text.take(strip_run_end(text, c).len() as int),
    decreases text.len(),
{
    if text.len() > 0 && text.last() == c {
        let front = text.drop_last();
        lemma_strip_run_end(front, c);
        let n = strip_run_end(front, c).len() as int;
        assert(front.take(n) =~= text.take(n));
    } else {
        assert(text.take(text.len() as int) =~= text);
    }
}

proof fn lemma_capped(name: Seq<char>)
    requires
        all_kept(name),
        name.len() > 0 ==> name[0] != '.',
    ensures
        all_kept(capped(name)),
        within_budgets(capped(name)),
        capped(name).len() > 0 ==> capped(name)[0] != '.',
{
    if !within_budgets(name) {
        lemma_find_last(name, '.');
        let suffix = suffix_of(name);
        let stem = parted(name).0;
        let chars = left_of(MAX_SAFE_NAME_CHARS as int, suffix.len() as int);
        let bytes = left_of(MAX_SAFE_NAME_BYTES as int, utf8_len(suffix) as int);
        let head = fitted(stem, chars, bytes);
        lemma_fitted(stem, chars, bytes);
        lemma_fitted(name, MAX_SAFE_NAME_CHARS as int, MAX_SAFE_NAME_BYTES as int);
        let prefix = fitted(name, MAX_SAFE_NAME_CHARS as int, MAX_SAFE_NAME_BYTES as int);
        if head.len() == 0 {
            assert forall|i: int| 0 <= i < prefix.len() implies is_kept(#[trigger] prefix[i]) by {
                assert(prefix[i] == name[i]);
            }
        } else {
            lemma_utf8_len_add(head, suffix);
            let all = head + suffix;
            let dot = find_last(name, '.');
            assert(is_kept('.'));
            assert forall|i: int| 0 <= i < all.len() implies is_kept(#[trigger] all[i]) by {
                if i < head.len() {
                    assert(head[i] == stem[i]);
                    assert(stem[i] == name[i]);
                } else if i > head.len() {
                    let k = i - head.len() - 1;
                    assert(all[i] == name.skip(dot + 1)[k]);
                    assert(name.skip(dot + 1)[k] == name[dot + 1 + k]);
                }
            }
            assert(all[0] == stem[0] && stem[0] == name[0]);
        }
    }
}

/// Whether no two underscores of a text stand together.
pub open spec fn underscores_apart(text: Seq<char>) -> bool {
    forall|i: int| 0 <= i < text.len() - 1 && #[trigger] text[i] == '_' ==> text[i + 1] != '_'
}

proof fn lemma_folded_underscores(text: Seq<char>)
    ensures
        underscores_apart(folded(text)),
    decreases text.len(),
{
    if text.len() > 0 {
        let head = folded(text.drop_last());
        let all = folded(text);
        lemma_folded_underscores(text.drop_last());
        assert forall|i: int| 0 <= i < all.len() - 1 && #[trigger] all[i] == '_' implies all[i + 1]
            != '_' by {
            assert(all[i] == head[i]);
            if i + 1 < head.len() {
                assert(all[i + 1] == head[i + 1]);
            }
        }
    }
}

proof fn lemma_prefix_underscores(text: Seq<char>, count: int)
    requires
        underscores_apart(text),
        0 <= count <= text.len(),
    ensures
        underscores_apart(text.take(count)),
{
    let front = text.take(count);
    assert forall|i: int| 0 <= i < front.len() - 1 && #[trigger] front[i] == '_' implies front[i + 1]
        != '_' by {
        assert(text[i] == '_');
    }
}

proof fn lemma_capped_underscores(name: Seq<char>)
    requires
        underscores_apart(name),
    ensures
        underscores_apart(capped(name)),
{
    if !within_budgets(name) {
        lemma_find_last(name, '.');
        let suffix = suffix_of(name);
        let stem = parted(name).0;
        let chars = left_of(MAX_SAFE_NAME_CHARS as int, suffix.len() as int);
        let bytes = left_of(MAX_SAFE_NAME_BYTES as int, utf8_len(suffix) as int);
        let head = fitted(stem, chars, bytes);
        lemma_fitted(stem, chars, bytes);
        lemma_fitted(name, MAX_SAFE_NAME_CHARS as int, MAX_SAFE_NAME_BYTES as int);
        if head.len() == 0 {
            lemma_prefix_underscores(
                name,
                fitted(name, MAX_SAFE_NAME_CHARS as int, MAX_SAFE_NAME_BYTES as int).len() as int,
            );
        } else {
            let dot = find_last(name, '.');
            let all = head + suffix;
            assert forall|i: int| 0 <= i < all.len() - 1 && #[trigger] all[i] == '_' implies all[i
                + 1] != '_' by {
                if i < head.len() {
                    assert(head[i] == stem[i] && stem[i] == name[i]);
                    if i + 1 < head.len() {
                        assert(head[i + 1] == stem[i + 1] && stem[i + 1] == name[i + 1]);
                    } else {
                        assert(all[i + 1] == suffix[0]);
                    }
                } else {
                    let k = i - head.len();
                    assert(all[i] == suffix[k] && all[i + 1] == suffix[k + 1]);
                    assert(k > 0);
                    assert(suffix[k] == name[dot + k]);
                    assert(suffix[k + 1] == name[dot + k + 1]);
                }
            }
        }
    }
}

/// Whatever a client calls its file, the stored name is there, is short
/// enough for a filesystem, holds only kept characters, and so neither white
/// space nor a separator, does not begin with a dot, and has no two
/// underscores together.
pub proof fn law_a_safe_name_is_safe(normal: Seq<char>)
    ensures
        safe_form(normal).len() > 0,
        within_budgets(safe_form(normal)),
        all_kept(safe_form(normal)),
        underscores_apart(safe_form(normal)),
        safe_form(normal)[0] != '.',
        forall|i: int|
            0 <= i < safe_form(normal).len() ==> {
                let c = #[trigger] safe_form(normal)[i];
                !is_white_space(c) && c != '/' && c != '\\'
            },
{
    let undotted = strip_run(normal, '.');
    lemma_strip_run(normal, '.');
    lemma_folded(undotted);
    let safe = folded(undotted);
    lemma_strip_run_end(safe, '.');
    let trimmed = strip_run_end(safe, '.');
    assert forall|i: int| 0 <= i < trimmed.len() implies is_kept(#[trigger] trimmed[i]) by {
        assert(trimmed[i] == safe[i]);
    }
    if trimmed.len() > 0 {
        assert(trimmed[0] == safe[0]);
    }
    lemma_capped(trimmed);
    lemma_folded_underscores(undotted);
    lemma_prefix_underscores(safe, trimmed.len() as int);
    lemma_capped_underscores(trimmed);
    reveal_strlit("file");
    reveal_with_fuel(utf8_len, 5);
    let file = "file"@;
    assert(file.drop_last().drop_last().drop_last().drop_last() =~= Seq::<char>::empty());
    assert(utf8_len(file) <= 16);
}

/// A name that is over a budget keeps its extension, wherever that leaves the
/// stem any room.
pub proof fn law_a_long_name_keeps_its_extension(name: Seq<char>)
    requires
        !within_budgets(name),
        fitted(
            parted(name).0,
            left_of(MAX_SAFE_NAME_CHARS as int, suffix_of(name).len() as int),
            left_of(MAX_SAFE_NAME_BYTES as int, utf8_len(suffix_of(name)) as int),
        ).len() > 0,
    ensures
        capped(name).len() >= suffix_of(name).len(),
        capped(name).skip(capped(name).len() - suffix_of(name).len()) == suffix_of(name),
{
    let suffix = suffix_of(name);
    let all = capped(name);
    assert(all.skip(all.len() - suffix.len()) =~= suffix);
}

// ---- The name of a finished file ---------------------------------------------------------------

/// How a finished attachment is named: a stem that no other file holds, then
/// the sanitized client name where there is one, then the extension.
#[derive(Clone, Debug, PartialEq, Eq)]
pub struct FinalName {
    pub unique: u128,
    pub safe: Option<String>,
    pub extension: Option<&'static str>,
}

/// A final name over its texts.
pub ghost struct FinalNameView {
    pub unique: nat,
    pub safe: Option<Seq<char>>,
    pub extension: Option<Seq<char>>,
}

impl View for FinalName {
    type V = FinalNameView;

    open spec fn view(&self) -> FinalNameView {
        FinalNameView {
            unique: self.unique as nat,
            safe: match self.safe {
                Some(safe) => Some(safe@),
                None => None,
            },
            extension: match self.extension {
                Some(extension) => Some(extension@),
                None => None,
            },
        }
    }
}

/// The naming rule: image bytes always dictate the extension, so that a
/// client can never make an image look like something else; otherwise the
/// client name's own extension, or none, stands.
pub open spec fn final_name(
    unique: nat,
    safe: Option<Seq<char>>,
    sniffed: Option<Seq<char>>,
) -> FinalNameView {
    FinalNameView {
        unique,
        safe: match (safe, sniffed) {
            (None, _) => None,
            (Some(safe), Some(_)) => Some(parted(safe).0),
            (Some(safe), None) => Some(safe),
        },
        extension: sniffed,
    }
}

pub open spec fn attempt_name(name: FinalNameView, attempt: nat) -> Seq<char> {
    "attachment-"@ + decimal_text(name.unique) + "-"@ + decimal_text(attempt) + name_tail(name)
}

/// What follows the numbers of a final name.
pub open spec fn name_tail(name: FinalNameView) -> Seq<char> {
    (match name.safe {
        Some(safe) => seq!['-'] + safe,
        None => Seq::empty(),
    }) + (match name.extension {
        Some(extension) => seq!['.'] + extension,
        None => Seq::empty(),
    })
}

impl FinalName {
    pub fn new(unique: u128, safe: Option<&str>, sniffed: Option<&'static str>) -> (name: FinalName)
        ensures
            name@ == final_name(
                unique as nat,
                crate::text::str_view(safe),
                crate::text::str_view(sniffed),
            ),
    {
        match (safe, sniffed) {
            (None, _) => FinalName { unique, safe: None, extension: sniffed },
            (Some(safe), Some(_)) => {
                let chars = to_chars(safe);
                let (stem, _) = split_extension(&chars);
                FinalName { unique, safe: Some(to_text(stem)), extension: sniffed }
            },
            (Some(safe), None) => FinalName { unique, safe: Some(safe.to_string()), extension: None },
        }
    }

    /// The name to try at one attempt.
    pub fn basename(&self, attempt: usize) -> (name: String)
        ensures
            name@ == attempt_name(self@, attempt as nat),
    {
        let mut name = "attachment-".to_string();
        name.push_str(&decimal_wide(self.unique));
        name.push_str("-");
        name.push_str(&decimal(attempt as u64));
        let ghost numbered = name@;
        if let Some(safe) = &self.safe {
            name.push('-');
            name.push_str(safe);
            assert(name@ =~= numbered + (seq!['-'] + safe@));
        } else {
            assert(name@ =~= numbered + Seq::<char>::empty());
        }
        let ghost named = name@;
        if let Some(extension) = self.extension {
            name.push('.');
            name.push_str(extension);
            assert(name@ =~= named + (seq!['.'] + extension@));
        } else {
            assert(name@ =~= named + Seq::<char>::empty());
        }
        assert(name@ =~= numbered + name_tail(self@));
        name
    }
}

/// No two attempts at one name try the same file.
pub proof fn law_attempts_never_share_a_name(name: FinalNameView, first: nat, second: nat)
    requires
        attempt_name(name, first) == attempt_name(name, second),
    ensures
        first == second,
{
    let head = "attachment-"@ + decimal_text(name.unique) + "-"@;
    let one = attempt_name(name, first);
    let two = attempt_name(name, second);
    let first_digits = decimal_text(first);
    let second_digits = decimal_text(second);
    assert(one.len() == head.len() + first_digits.len() + name_tail(name).len());
    assert(two.len() == head.len() + second_digits.len() + name_tail(name).len());
    assert(one.subrange(head.len() as int, (head.len() + first_digits.len()) as int) =~= first_digits);
    assert(two.subrange(head.len() as int, (head.len() + second_digits.len()) as int) =~= second_digits);
    lemma_decimal_text(first);
    lemma_decimal_text(second);
}

/// Image bytes decide the extension, whatever the client called the file.
pub proof fn law_image_bytes_decide_the_extension(
    unique: nat,
    safe: Option<Seq<char>>,
    sniffed: Seq<char>,
    attempt: nat,
)
    ensures
        ({
            let name = attempt_name(final_name(unique, safe, Some(sniffed)), attempt);
            &&& name.len() > sniffed.len()
            &&& name.skip(name.len() - sniffed.len() - 1) == seq!['.'] + sniffed
        }),
{
    let name = attempt_name(final_name(unique, safe, Some(sniffed)), attempt);
    assert(name.skip(name.len() - sniffed.len() - 1) =~= seq!['.'] + sniffed);
}

/// Of the ascii characters a stored name keeps the letters, the digits, the dot,
/// the underscore and the hyphen; of the others the letters and numbers that are
/// no white space; and everything else becomes an underscore.
pub proof fn law_what_a_stored_name_keeps(c: char)
    ensures
        (c as u32) < 128 ==> (is_kept(c) <==> 'a' <= c <= 'z' || 'A' <= c <= 'Z' || '0' <= c <= '9'
            || c == '.' || c == '_' || c == '-'),
        (c as u32) >= 128 ==> (is_kept(c) <==> is_letter_or_number(c) && !is_white_space(c)),
        mapped(c) == c || mapped(c) == '_',
        is_kept(c) <==> mapped(c) == c,
{
}

proof fn lemma_nothing_to_fold(text: Seq<char>)
    requires
        all_kept(text),
        underscores_apart(text),
    ensures
        folded(text) == text,
    decreases text.len(),
{
    if text.len() > 0 {
        let front = text.drop_last();
        assert forall|i: int| 0 <= i < front.len() implies is_kept(#[trigger] front[i]) by {
            assert(front[i] == text[i]);
        }
        assert forall|i: int| 0 <= i < front.len() - 1 && #[trigger] front[i] == '_' implies front[i
            + 1] != '_' by {
            assert(text[i] == '_');
        }
        lemma_nothing_to_fold(front);
        assert(is_kept(text[text.len() - 1]));
        if front.len() > 0 && front.last() == '_' {
            assert(text[front.len() - 1] == '_');
        }
        assert(front.push(text.last()) =~= text);
    }
}

/// A name that is in order is stored as it is: one of kept characters, without a
/// dot at either end and without two underscores together, of at most eighty
/// characters and a hundred and eighty bytes.
pub proof fn law_a_name_in_order_is_stored_as_it_is(name: Seq<char>)
    requires
        0 < name.len() <= 80,
        utf8_len(name) <= 180,
        all_kept(name),
        underscores_apart(name),
        name[0] != '.' && name.last() != '.',
    ensures
        safe_form(name) == name,
{
    lemma_nothing_to_fold(name);
}

/// No stored name is longer than eighty characters, or than a hundred and eighty
/// bytes.
pub proof fn law_how_long_a_stored_name_is(normal: Seq<char>)
    ensures
        0 < safe_form(normal).len() <= 80,
        utf8_len(safe_form(normal)) <= 180,
{
    law_a_safe_name_is_safe(normal);
}

/// A name that is too long is cut no shorter than it has to be: without an
/// extension, the next character would no longer fit; with one, none of the
/// name but the extension and as much of the stem as fits beside it is kept.
pub proof fn law_a_long_name_is_cut_as_little_as_it_has_to_be(name: Seq<char>)
    requires
        !(name.len() <= 80 && utf8_len(name) <= 180),
        !name.contains('.'),
    ensures
        ({
            let n = capped(name).len() as int;
            &&& capped(name) == name.take(n)
            &&& n < name.len()
            &&& n + 1 > 80 || utf8_len(name.take(n + 1)) > 180
        }),
{
    lemma_find_last(name, '.');
    assert(suffix_of(name) =~= Seq::<char>::empty());
    assert(utf8_len(suffix_of(name)) == 0);
    lemma_fitted(name, 80, 180);
    let n = fitted(name, 80, 180).len() as int;
    if n == name.len() {
        assert(name.take(n) =~= name);
    }
}

/// A name is read behind its last separator of either kind.
pub proof fn law_a_name_is_read_behind_its_separators(front: Seq<char>, name: Seq<char>)
    requires
        !name.contains('/') && !name.contains('\\'),
    ensures
        basename(front + seq!['/'] + name) == name,
        basename(front + seq!['\\'] + name) == name,
        basename(name) == name,
{
    let one = front + seq!['/'] + name;
    let two = front + seq!['\\'] + name;
    let n = front.len() as int;
    lemma_find_last(one, '/');
    lemma_find_last(one, '\\');
    lemma_find_last(two, '/');
    lemma_find_last(two, '\\');
    lemma_find_last(name, '/');
    lemma_find_last(name, '\\');
    assert(one[n] == '/' && two[n] == '\\');
    assert forall|j: int| n < j < one.len() implies one[j] != '/' && one[j] != '\\' by {
        assert(one[j] == name[j - n - 1]);
        assert(name.contains(name[j - n - 1]));
    }
    assert forall|j: int| n < j < two.len() implies two[j] != '/' && two[j] != '\\' by {
        assert(two[j] == name[j - n - 1]);
        assert(name.contains(name[j - n - 1]));
    }
    assert(one.skip(n + 1) =~= name);
    assert(two.skip(n + 1) =~= name);
    assert(name.skip(0) =~= name);
}

/// A stored file is called `attachment-`, the seed, a hyphen, the attempt, then
/// a hyphen and the client's name where there is one, and the extension of the
/// image where its bytes are one's, in place of the name's own.
pub proof fn law_what_a_stored_file_is_called(
    unique: nat,
    stem: Seq<char>,
    extension: Seq<char>,
    sniffed: Seq<char>,
    attempt: nat,
)
    requires
        stem.len() > 0 && extension.len() > 0,
        !extension.contains('.'),
    ensures
        ({
            let head = "attachment-"@ + decimal_text(unique) + "-"@ + decimal_text(attempt);
            let name = stem + seq!['.'] + extension;
            &&& attempt_name(final_name(unique, Some(name), None), attempt) == head + (seq!['-']
                + name)
            &&& attempt_name(final_name(unique, Some(name), Some(sniffed)), attempt) == head + (
            seq!['-'] + stem + seq!['.'] + sniffed)
            &&& attempt_name(final_name(unique, None, Some(sniffed)), attempt) == head + (seq!['.']
                + sniffed)
        }),
{
    let name = stem + seq!['.'] + extension;
    let head = "attachment-"@ + decimal_text(unique) + "-"@ + decimal_text(attempt);
    let dot = stem.len() as int;
    lemma_find_last(name, '.');
    assert(name[dot] == '.');
    assert forall|j: int| dot < j < name.len() implies name[j] != '.' by {
        assert(name[j] == extension[j - dot - 1]);
        assert(extension.contains(extension[j - dot - 1]));
    }
    assert(find_last(name, '.') == dot);
    assert(name.take(dot) =~= stem);
    assert(attempt_name(final_name(unique, Some(name), None), attempt) =~= head + (seq!['-']
        + name));
    assert(attempt_name(final_name(unique, Some(name), Some(sniffed)), attempt) =~= head + (seq![
        '-',
    ] + stem + seq!['.'] + sniffed));
    assert(attempt_name(final_name(unique, None, Some(sniffed)), attempt) =~= head + (seq!['.']
        + sniffed));
}

/// Dots at either end of a name are dropped, and a name of nothing but dots is
/// stored as `file`.
pub proof fn law_dots_at_the_ends_are_dropped(
    lead: Seq<char>,
    name: Seq<char>,
    tail: Seq<char>,
)
    requires
        is_run(lead, '.'),
        is_run(tail, '.'),
        0 < name.len() <= 80,
        utf8_len(name) <= 180,
        all_kept(name),
        underscores_apart(name),
        name[0] != '.' && name.last() != '.',
    ensures
        safe_form(lead + name + tail) == name,
        safe_form(lead) == "file"@,
{
    let behind = name + tail;
    assert(lead + name + tail =~= lead + behind);
    assert(behind[0] == name[0]);
    law_a_run_at_the_front_is_stripped(lead, behind, '.');
    assert forall|i: int| 0 <= i < behind.len() implies is_kept(#[trigger] behind[i]) by {
        if i < name.len() {
            assert(behind[i] == name[i]);
        } else {
            assert(behind[i] == tail[i - name.len()]);
        }
    }
    assert forall|i: int| 0 <= i < behind.len() - 1 && #[trigger] behind[i] == '_' implies behind[i
        + 1] != '_' by {
        if i < name.len() - 1 {
            assert(behind[i] == name[i] && behind[i + 1] == name[i + 1]);
        } else {
            assert(behind[i + 1] == tail[i + 1 - name.len()]);
        }
    }
    lemma_folding_keeps_what_is_in_order(behind);
    law_a_run_at_the_end_is_stripped(name, tail, '.');
    let none = Seq::<char>::empty();
    assert(lead + none =~= lead);
    law_a_run_at_the_front_is_stripped(lead, none, '.');
    assert(folded(none) =~= none);
    assert(strip_run_end(none, '.') =~= none);
    assert(utf8_len(none) == 0);
    assert(capped(none) =~= none);
}

proof fn lemma_folding_keeps_what_is_in_order(text: Seq<char>)
    requires
        all_kept(text),
        underscores_apart(text),
    ensures
        folded(text) == text,
    decreases text.len(),
{
    if text.len() > 0 {
        let front = text.drop_last();
        assert forall|i: int| 0 <= i < front.len() implies is_kept(#[trigger] front[i]) by {
            assert(front[i] == text[i]);
        }
        assert forall|i: int|
            0 <= i < front.len() - 1 && #[trigger] front[i] == '_' implies front[i + 1] != '_' by {
            assert(front[i] == text[i] && front[i + 1] == text[i + 1]);
        }
        lemma_folding_keeps_what_is_in_order(front);
        assert(is_kept(text[text.len() - 1]));
        if front.len() > 0 && front.last() == '_' {
            assert(text[text.len() - 2] == '_');
            assert(text[text.len() - 2 + 1] != '_');
        }
        assert(front.push(text.last()) =~= text);
    }
}

/// Whatever is not kept between two kept parts becomes one underscore, however
/// much of it there is.
pub proof fn law_what_is_not_kept_becomes_one_underscore(
    left: Seq<char>,
    other: Seq<char>,
    right: Seq<char>,
)
    requires
        all_kept(left) && underscores_apart(left),
        all_kept(right) && underscores_apart(right),
        left.len() > 0 ==> left.last() != '_',
        right.len() > 0 ==> right[0] != '_',
        other.len() > 0,
        forall|i: int| 0 <= i < other.len() ==> !is_kept(#[trigger] other[i]),
    ensures
        folded(left + other + right) == left + seq!['_'] + right,
    decreases right.len(), other.len(),
{
    let text = left + other + right;
    if right.len() > 0 {
        let front = right.drop_last();
        assert forall|i: int| 0 <= i < front.len() implies is_kept(#[trigger] front[i]) by {
            assert(front[i] == right[i]);
        }
        assert forall|i: int|
            0 <= i < front.len() - 1 && #[trigger] front[i] == '_' implies front[i + 1] != '_' by {
            assert(front[i] == right[i] && front[i + 1] == right[i + 1]);
        }
        law_what_is_not_kept_becomes_one_underscore(left, other, front);
        assert(text.drop_last() =~= left + other + front);
        assert(text.last() == right.last());
        assert(is_kept(right[right.len() - 1]));
        let head = left + seq!['_'] + front;
        if front.len() > 0 {
            assert(head.last() == front.last());
            if front.last() == '_' {
                assert(right[right.len() - 2] == '_');
                assert(right[right.len() - 2 + 1] != '_');
            }
        } else {
            assert(right.last() == right[0]);
        }
        assert(head.push(right.last()) =~= left + seq!['_'] + right);
    } else {
        let front = other.drop_last();
        assert(text =~= left + other);
        assert(text.drop_last() =~= left + front);
        assert(!is_kept(other[other.len() - 1]));
        assert(text.last() == other.last());
        assert(left + seq!['_'] + right =~= left.push('_'));
        if front.len() > 0 {
            assert forall|i: int| 0 <= i < front.len() implies !is_kept(#[trigger] front[i]) by {
                assert(front[i] == other[i]);
            }
            law_what_is_not_kept_becomes_one_underscore(left, front, right);
            assert(left + front + right =~= left + front);
        } else {
            assert(left + front =~= left);
            lemma_folding_keeps_what_is_in_order(left);
        }
    }
}

} // verus!
