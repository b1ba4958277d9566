//! The `[websocket_api]` section of the configuration.

use crate::text::{
    find, is_blank, is_white_space, law_what_is_around_is_trimmed, lemma_find_is, lemma_split,
    lemma_split_push, lemma_split_single, position, same, slices, spells, split, split_at_each,
    to_chars, to_text, trim, trimmed,
};
use vstd::prelude::*;
use vstd::slice::slice_subrange;

verus! {

/// What the `[websocket_api]` section declares; an absent key is `None`.
#[derive(Clone, Debug, PartialEq, Eq)]
pub struct WebSocketApiConfig {
    /// The socket address the listener binds.
    pub bind: Option<String>,
    /// The bearer token of the managing credential.
    pub token: Option<String>,
    /// The display name of the server.
    pub name: Option<String>,
    /// How the server is reached, in the operator's own words.
    pub reach: Option<String>,
    /// The url that clients should dial.
    pub advertised_endpoint: Option<String>,
}

impl Default for WebSocketApiConfig {
    fn default() -> (config: WebSocketApiConfig)
        ensures
            config.bind is None,
            config.token is None,
            config.name is None,
            config.reach is None,
            config.advertised_endpoint is None,
    {
        WebSocketApiConfig {
            bind: None,
            token: None,
            name: None,
            reach: None,
            advertised_endpoint: None,
        }
    }
}

// ---- Editing the file in place -----------------------------------------------------------

/// The header line of a section.
pub open spec fn header_of(section: Seq<char>) -> Seq<char> {
    "["@ + section + "]"@
}

/// Whether a line sets a key.
pub open spec fn sets_key(line: Seq<char>, key: Seq<char>) -> bool {
    let equals = find(line, '=');
    equals < line.len() && trimmed(line.take(equals)) == key
}

/// Whether a line begins another section.
pub open spec fn begins_section(line: Seq<char>) -> bool {
    trimmed(line).len() > 0 && trimmed(line)[0] == '['
}

/// Where a section's header stands; the number of lines where nowhere.
pub open spec fn header_line(lines: Seq<Seq<char>>, section: Seq<char>, from: int) -> int
    decreases lines.len() - from,
{
    if from >= lines.len() || trimmed(lines[from]) == header_of(section) {
        from
    } else {
        header_line(lines, section, from + 1)
    }
}

/// Where a key is set before the next section begins, if it is.
pub open spec fn key_line(lines: Seq<Seq<char>>, key: Seq<char>, from: int) -> Option<int>
    decreases lines.len() - from,
{
    if from >= lines.len() || begins_section(lines[from]) {
        None
    } else if sets_key(lines[from], key) {
        Some(from)
    } else {
        key_line(lines, key, from + 1)
    }
}

/// The lines with one key of one section set: in place where the section sets
/// it already, right below the header where the section does not, and in a
/// new section at the end where there is none. Every other line stays.
pub open spec fn upserted(
    lines: Seq<Seq<char>>,
    section: Seq<char>,
    key: Seq<char>,
    value: Seq<char>,
) -> Seq<Seq<char>> {
    let header = header_line(lines, section, 0);
    let entry = key + " = "@ + value;
    if header >= lines.len() {
        (if lines.last().len() == 0 {
            lines.drop_last()
        } else {
            lines
        }) + seq![header_of(section), entry, Seq::empty()]
    } else {
        match key_line(lines, key, header + 1) {
            Some(at) => lines.update(at, entry),
            None => lines.insert(header + 1, entry),
        }
    }
}

/// Lines with a line break between neighbours.
pub open spec fn joined_lines(lines: Seq<Seq<char>>) -> Seq<char>
    decreases lines.len(),
{
    if lines.len() == 0 {
        Seq::empty()
    } else if lines.len() == 1 {
        lines[0]
    } else {
        joined_lines(lines.drop_last()) + "\n"@ + lines.last()
    }
}

proof fn lemma_header_line(lines: Seq<Seq<char>>, section: Seq<char>, from: int)
    requires
        0 <= from <= lines.len(),
    ensures
        from <= header_line(lines, section, from) <= lines.len(),
        header_line(lines, section, from) < lines.len() ==> trimmed(
            lines[header_line(lines, section, from)],
        ) == header_of(section),
        forall|j: int|
            from <= j < header_line(lines, section, from) ==> trimmed(#[trigger] lines[j])
                != header_of(section),
    decreases lines.len() - from,
{
    if from < lines.len() && trimmed(lines[from]) != header_of(section) {
        lemma_header_line(lines, section, from + 1);
    }
}

proof fn lemma_header_line_is(lines: Seq<Seq<char>>, section: Seq<char>, from: int, at: int)
    requires
        0 <= from <= at < lines.len(),
        trimmed(lines[at]) == header_of(section),
        forall|j: int| from <= j < at ==> trimmed(#[trigger] lines[j]) != header_of(section),
    ensures
        header_line(lines, section, from) == at,
    decreases at - from,
{
    if from < at {
        lemma_header_line_is(lines, section, from + 1, at);
    }
}

proof fn lemma_key_line(lines: Seq<Seq<char>>, key: Seq<char>, from: int)
    requires
        0 <= from <= lines.len(),
    ensures
        match key_line(lines, key, from) {
            Some(at) => from <= at < lines.len() && sets_key(lines[at], key) && !begins_section(
                lines[at],
            ) && (forall|j: int|
                from <= j < at ==> !sets_key(#[trigger] lines[j], key) && !begins_section(
                    lines[j],
                )),
            None => true,
        },
    decreases lines.len() - from,
{
    if from < lines.len() && !begins_section(lines[from]) && !sets_key(lines[from], key) {
        lemma_key_line(lines, key, from + 1);
    }
}

proof fn lemma_key_line_is(lines: Seq<Seq<char>>, key: Seq<char>, from: int, at: int)
    requires
        0 <= from <= at < lines.len(),
        sets_key(lines[at], key),
        !begins_section(lines[at]),
        forall|j: int|
            from <= j < at ==> !sets_key(#[trigger] lines[j], key) && !begins_section(lines[j]),
    ensures
        key_line(lines, key, from) == Some(at),
    decreases at - from,
{
    if from < at {
        lemma_key_line_is(lines, key, from + 1, at);
    }
}

/// What a section sets a key to, as the text behind the equals sign.
pub open spec fn setting(lines: Seq<Seq<char>>, section: Seq<char>, key: Seq<char>) -> Option<
    Seq<char>,
> {
    let header = header_line(lines, section, 0);
    if header >= lines.len() {
        None
    } else {
        match key_line(lines, key, header + 1) {
            Some(at) => Some(lines[at].skip(find(lines[at], '=') + 1)),
            None => None,
        }
    }
}

proof fn lemma_lines_come_back(lines: Seq<Seq<char>>)
    requires
        lines.len() >= 1,
        forall|i: int| 0 <= i < lines.len() ==> !(#[trigger] lines[i]).contains('\n'),
    ensures
        split(joined_lines(lines), '\n') == lines,
    decreases lines.len(),
{
    reveal_strlit("\n");
    if lines.len() == 1 {
        lemma_split_single(lines[0], '\n');
        assert(lines =~= seq![lines[0]]);
    } else {
        let front = lines.drop_last();
        assert forall|i: int| 0 <= i < front.len() implies !(#[trigger] front[i]).contains(
            '\n',
        ) by {
            assert(front[i] == lines[i]);
        }
        lemma_lines_come_back(front);
        assert(!lines[lines.len() - 1].contains('\n'));
        assert("\n"@ =~= seq!['\n']);
        lemma_split_push(joined_lines(front), lines.last(), '\n');
        assert(front.push(lines.last()) =~= lines);
    }
}

/// Whether a key can be set by a line of its own in a section: the line is
/// read back as setting the key, and begins no section.
pub open spec fn settable(section: Seq<char>, key: Seq<char>, value: Seq<char>) -> bool {
    let entry = key + " = "@ + value;
    &&& sets_key(entry, key)
    &&& !begins_section(entry)
    &&& trimmed(header_of(section)) == header_of(section)
    &&& !header_of(section).contains('\n')
    &&& !entry.contains('\n')
}

proof fn lemma_upserted(
    lines: Seq<Seq<char>>,
    section: Seq<char>,
    key: Seq<char>,
    value: Seq<char>,
) -> (at: int)
    requires
        lines.len() >= 1,
        settable(section, key, value),
    ensures
        ({
            let new = upserted(lines, section, key, value);
            &&& 1 <= at < new.len()
            &&& new[at] == key + " = "@ + value
            &&& header_line(new, section, 0) < new.len()
            &&& key_line(new, key, header_line(new, section, 0) + 1) == Some(at)
        }),
{
    reveal_strlit("[");
    let entry = key + " = "@ + value;
    let new = upserted(lines, section, key, value);
    let header = header_line(lines, section, 0);
    lemma_header_line(lines, section, 0);
    assert(header_of(section)[0] == '[');
    assert(begins_section(header_of(section)));
    if header >= lines.len() {
        let kept = if lines.last().len() == 0 {
            lines.drop_last()
        } else {
            lines
        };
        let at = kept.len() as int;
        assert forall|j: int| 0 <= j < at implies trimmed(#[trigger] new[j]) != header_of(
            section,
        ) by {
            assert(new[j] == lines[j]);
        }
        assert(new[at] == header_of(section));
        assert(new[at + 1] == entry);
        lemma_header_line_is(new, section, 0, at);
        lemma_key_line_is(new, key, at + 1, at + 1);
        at + 1
    } else {
        lemma_key_line(lines, key, header + 1);
        match key_line(lines, key, header + 1) {
            Some(at) => {
                assert forall|j: int| 0 <= j < header implies trimmed(#[trigger] new[j])
                    != header_of(section) by {
                    assert(new[j] == lines[j]);
                }
                assert(new[header] == lines[header]);
                lemma_header_line_is(new, section, 0, header);
                assert forall|j: int| header + 1 <= j < at implies !sets_key(#[trigger] new[j], key)
                    && !begins_section(new[j]) by {
                    assert(new[j] == lines[j]);
                }
                lemma_key_line_is(new, key, header + 1, at);
                at
            },
            None => {
                assert forall|j: int| 0 <= j < header implies trimmed(#[trigger] new[j])
                    != header_of(section) by {
                    assert(new[j] == lines[j]);
                }
                assert(new[header] == lines[header]);
                lemma_header_line_is(new, section, 0, header);
                lemma_key_line_is(new, key, header + 1, header + 1);
                header + 1
            },
        }
    }
}

/// Storing a value a second time replaces the first: the file is what storing
/// the second value alone would have left.
pub proof fn law_storing_twice_keeps_only_the_latest(
    content: Seq<char>,
    section: Seq<char>,
    key: Seq<char>,
    first: Seq<char>,
    second: Seq<char>,
)
    requires
        settable(section, key, first),
        settable(section, key, second),
    ensures
        with_setting(with_setting(content, section, key, first), section, key, second)
            == with_setting(content, section, key, second),
{
    let lines = split(content, '\n');
    lemma_split(content, '\n');
    let once = upserted(lines, section, key, first);
    let at = lemma_upserted(lines, section, key, first);
    lemma_upserted_lines(lines, section, key, first);
    lemma_lines_come_back(once);
    assert(upserted(once, section, key, second) =~= upserted(lines, section, key, second)) by {
        lemma_header_line(lines, section, 0);
        let header = header_line(lines, section, 0);
        if header >= lines.len() {
            lemma_upserted_header(lines, section, key, first);
        } else {
            lemma_key_line(lines, key, header + 1);
            lemma_upserted_header(lines, section, key, first);
        }
    }
}

/// The edited line stands where the second edit looks for it.
proof fn lemma_upserted_header(
    lines: Seq<Seq<char>>,
    section: Seq<char>,
    key: Seq<char>,
    value: Seq<char>,
)
    requires
        lines.len() >= 1,
        settable(section, key, value),
    ensures
        ({
            let new = upserted(lines, section, key, value);
            let header = header_line(lines, section, 0);
            let kept = if lines.last().len() == 0 {
                lines.drop_last()
            } else {
                lines
            };
            if header >= lines.len() {
                key_line(new, key, header_line(new, section, 0) + 1) == Some(kept.len() as int + 1)
                    && header_line(new, section, 0) < new.len()
            } else {
                header_line(new, section, 0) == header && key_line(new, key, header + 1) == Some(
                    match key_line(lines, key, header + 1) {
                        Some(at) => at,
                        None => header + 1,
                    },
                )
            }
        }),
{
    reveal_strlit("[");
    let entry = key + " = "@ + value;
    let new = upserted(lines, section, key, value);
    let header = header_line(lines, section, 0);
    lemma_header_line(lines, section, 0);
    assert(header_of(section)[0] == '[');
    if header >= lines.len() {
        let kept = if lines.last().len() == 0 {
            lines.drop_last()
        } else {
            lines
        };
        let at = kept.len() as int;
        assert forall|j: int| 0 <= j < at implies trimmed(#[trigger] new[j]) != header_of(
            section,
        ) by {
            assert(new[j] == lines[j]);
        }
        assert(new[at] == header_of(section));
        assert(new[at + 1] == entry);
        lemma_header_line_is(new, section, 0, at);
        lemma_key_line_is(new, key, at + 1, at + 1);
    } else {
        lemma_key_line(lines, key, header + 1);
        assert forall|j: int| 0 <= j < header implies trimmed(#[trigger] new[j]) != header_of(
            section,
        ) by {
            assert(new[j] == lines[j]);
        }
        assert(new[header] == lines[header]);
        lemma_header_line_is(new, section, 0, header);
        match key_line(lines, key, header + 1) {
            Some(at) => {
                assert forall|j: int| header + 1 <= j < at implies !sets_key(#[trigger] new[j], key)
                    && !begins_section(new[j]) by {
                    assert(new[j] == lines[j]);
                }
                lemma_key_line_is(new, key, header + 1, at);
            },
            None => {
                lemma_key_line_is(new, key, header + 1, header + 1);
            },
        }
    }
}

proof fn lemma_upserted_lines(
    lines: Seq<Seq<char>>,
    section: Seq<char>,
    key: Seq<char>,
    value: Seq<char>,
)
    requires
        lines.len() >= 1,
        forall|i: int| 0 <= i < lines.len() ==> !(#[trigger] lines[i]).contains('\n'),
        settable(section, key, value),
    ensures
        upserted(lines, section, key, value).len() >= 1,
        forall|i: int|
            0 <= i < upserted(lines, section, key, value).len() ==> !(#[trigger] upserted(
                lines,
                section,
                key,
                value,
            )[i]).contains('\n'),
{
    let entry = key + " = "@ + value;
    let new = upserted(lines, section, key, value);
    let header = header_line(lines, section, 0);
    lemma_header_line(lines, section, 0);
    if header < lines.len() {
        lemma_key_line(lines, key, header + 1);
    }
    assert forall|i: int| 0 <= i < new.len() implies !(#[trigger] new[i]).contains('\n') by {
        if header >= lines.len() {
            if i < new.len() - 3 {
                assert(new[i] == lines[i]);
            }
        } else {
            match key_line(lines, key, header + 1) {
                Some(at) => {
                    if i != at {
                        assert(new[i] == lines[i]);
                    }
                },
                None => {
                    if i < header + 1 {
                        assert(new[i] == lines[i]);
                    } else if i > header + 1 {
                        assert(new[i] == lines[i - 1]);
                    }
                },
            }
        }
    }
}

/// The content of a file with one key of one section set.
pub open spec fn with_setting(
    content: Seq<char>,
    section: Seq<char>,
    key: Seq<char>,
    value: Seq<char>,
) -> Seq<char> {
    joined_lines(upserted(split(content, '\n'), section, key, value))
}

/// A stored value is read back: in the new content the section sets the key
/// to the value.
pub proof fn law_stored_value_is_read_back(
    content: Seq<char>,
    section: Seq<char>,
    key: Seq<char>,
    value: Seq<char>,
)
    requires
        settable(section, key, value),
        !key.contains('='),
    ensures
        setting(split(with_setting(content, section, key, value), '\n'), section, key) == Some(
            " "@ + value,
        ),
{
    reveal_strlit(" = ");
    reveal_strlit(" ");
    let lines = split(content, '\n');
    lemma_split(content, '\n');
    let at = lemma_upserted(lines, section, key, value);
    lemma_upserted_lines(lines, section, key, value);
    lemma_lines_come_back(upserted(lines, section, key, value));
    let entry = key + " = "@ + value;
    let equals = key.len() as int + 1;
    assert(entry[equals] == '=');
    assert forall|j: int| 0 <= j < equals implies entry[j] != '=' by {
        if j < key.len() {
            assert(entry[j] == key[j]);
            assert(key.contains(key[j]));
        } else {
            assert(entry[j] == ' ');
        }
    }
    lemma_find_is(entry, '=', equals);
    assert(entry.skip(equals + 1) =~= " "@ + value);
}

/// What a key is set to from a line on, before the next section begins.
spec fn found(lines: Seq<Seq<char>>, key: Seq<char>, from: int) -> Option<Seq<char>> {
    match key_line(lines, key, from) {
        Some(at) => Some(lines[at].skip(find(lines[at], '=') + 1)),
        None => None,
    }
}

proof fn lemma_found_behind(
    left: Seq<Seq<char>>,
    i: int,
    right: Seq<Seq<char>>,
    j: int,
    key: Seq<char>,
)
    requires
        0 <= i <= left.len(),
        0 <= j <= right.len(),
        left.len() - i == right.len() - j,
        forall|k: int| i <= k < left.len() ==> #[trigger] left[k] == right[k - i + j],
    ensures
        found(left, key, i) == found(right, key, j),
    decreases left.len() - i,
{
    if i < left.len() {
        assert(left[i] == right[j]);
        if !begins_section(left[i]) && !sets_key(left[i], key) {
            assert forall|k: int| i + 1 <= k < left.len() implies #[trigger] left[k] == right[k - (i
                + 1) + (j + 1)] by {}
            lemma_found_behind(left, i + 1, right, j + 1, key);
        }
    }
}

/// Lines that agree up to the beginning of a section set the same before it.
proof fn lemma_found_before(
    left: Seq<Seq<char>>,
    right: Seq<Seq<char>>,
    key: Seq<char>,
    from: int,
    end: int,
)
    requires
        0 <= from <= end < left.len(),
        end < right.len(),
        forall|k: int| from <= k <= end ==> #[trigger] left[k] == right[k],
        begins_section(left[end]),
    ensures
        found(left, key, from) == found(right, key, from),
    decreases end - from,
{
    assert(left[from] == right[from]);
    if from < end && !begins_section(left[from]) && !sets_key(left[from], key) {
        lemma_found_before(left, right, key, from + 1, end);
    }
}

/// A line in place of another, neither of which sets a key, changes nothing
/// about the key.
proof fn lemma_found_across(
    lines: Seq<Seq<char>>,
    at: int,
    line: Seq<char>,
    key: Seq<char>,
    from: int,
)
    requires
        0 <= from <= at < lines.len(),
        !begins_section(lines[at]),
        !begins_section(line),
        !sets_key(lines[at], key),
        !sets_key(line, key),
    ensures
        found(lines.update(at, line), key, from) == found(lines, key, from),
    decreases at - from,
{
    let new = lines.update(at, line);
    if from < at {
        assert(new[from] == lines[from]);
        if !begins_section(lines[from]) && !sets_key(lines[from], key) {
            lemma_found_across(lines, at, line, key, from + 1);
        }
    } else {
        lemma_found_behind(new, at + 1, lines, at + 1, key);
    }
}

/// Setting a key in place changes no other setting.
proof fn lemma_replacing_keeps_the_others(
    lines: Seq<Seq<char>>,
    section: Seq<char>,
    key: Seq<char>,
    value: Seq<char>,
    at: int,
    other_section: Seq<char>,
    other_key: Seq<char>,
)
    requires
        settable(section, key, value),
        section != other_section || key != other_key,
        header_line(lines, section, 0) < lines.len(),
        key_line(lines, key, header_line(lines, section, 0) + 1) == Some(at),
    ensures
        setting(lines.update(at, key + " = "@ + value), other_section, other_key) == setting(
            lines,
            other_section,
            other_key,
        ),
{
    reveal_strlit("[");
    let entry = key + " = "@ + value;
    let new = lines.update(at, entry);
    let header = header_line(lines, section, 0);
    lemma_header_line(lines, section, 0);
    lemma_key_line(lines, key, header + 1);
    assert(header_of(section)[0] == '[' && header_of(other_section)[0] == '[');
    assert(begins_section(lines[header]));
    let other = header_line(lines, other_section, 0);
    lemma_header_line(lines, other_section, 0);
    lemma_header_line(new, other_section, 0);
    assert forall|j: int| 0 <= j < lines.len() implies (trimmed(#[trigger] new[j]) == header_of(
        other_section,
    )) == (trimmed(lines[j]) == header_of(other_section)) by {
        if j != at {
            assert(new[j] == lines[j]);
        }
    }
    if other < lines.len() {
        assert(trimmed(new[other]) == header_of(other_section));
        lemma_header_line_is(new, other_section, 0, other);
        if other > at {
            assert forall|k: int| other + 1 <= k < new.len() implies #[trigger] new[k] == lines[k
                - (other + 1) + (other + 1)] by {}
            lemma_found_behind(new, other + 1, lines, other + 1, other_key);
        } else if other < header {
            assert forall|k: int| other + 1 <= k <= header implies #[trigger] new[k] == lines[k] by {}
            lemma_found_before(new, lines, other_key, other + 1, header);
        } else if other == header {
            lemma_headers_differ(section, other_section);
            lemma_found_across(lines, at, entry, other_key, header + 1);
        } else {
            assert(begins_section(lines[other]));
        }
    } else {
        assert(header_line(new, other_section, 0) >= new.len());
    }
}

proof fn lemma_headers_differ(section: Seq<char>, other: Seq<char>)
    ensures
        (header_of(section) == header_of(other)) == (section == other),
{
    reveal_strlit("[");
    reveal_strlit("]");
    if header_of(section) == header_of(other) {
        assert(header_of(section).len() == section.len() + 2);
        assert(header_of(section).subrange(1, section.len() as int + 1) =~= section);
        assert(header_of(other).subrange(1, other.len() as int + 1) =~= other);
    }
}

/// Setting a key on a line of its own changes no other setting.
proof fn lemma_inserting_keeps_the_others(
    lines: Seq<Seq<char>>,
    section: Seq<char>,
    key: Seq<char>,
    value: Seq<char>,
    other_section: Seq<char>,
    other_key: Seq<char>,
)
    requires
        settable(section, key, value),
        section != other_section || key != other_key,
        header_line(lines, section, 0) < lines.len(),
    ensures
        setting(
            lines.insert(header_line(lines, section, 0) + 1, key + " = "@ + value),
            other_section,
            other_key,
        ) == setting(lines, other_section, other_key),
{
    reveal_strlit("[");
    let entry = key + " = "@ + value;
    let header = header_line(lines, section, 0);
    let new = lines.insert(header + 1, entry);
    lemma_header_line(lines, section, 0);
    assert(header_of(section)[0] == '[' && header_of(other_section)[0] == '[');
    assert(begins_section(lines[header]));
    let other = header_line(lines, other_section, 0);
    lemma_header_line(lines, other_section, 0);
    lemma_header_line(new, other_section, 0);
    if other < lines.len() {
        let moved = if other <= header {
            other
        } else {
            other + 1
        };
        assert(new[moved] == lines[other]);
        assert forall|j: int| 0 <= j < moved implies trimmed(#[trigger] new[j]) != header_of(
            other_section,
        ) by {
            if j <= header {
                assert(new[j] == lines[j]);
            } else if j > header + 1 {
                assert(new[j] == lines[j - 1]);
            }
        }
        lemma_header_line_is(new, other_section, 0, moved);
        if other > header {
            assert forall|k: int| moved + 1 <= k < new.len() implies #[trigger] new[k] == lines[k
                - (moved + 1) + (other + 1)] by {
                assert(new[k] == lines[k - 1]);
            }
            lemma_found_behind(new, moved + 1, lines, other + 1, other_key);
        } else if other < header {
            assert forall|k: int| other + 1 <= k <= header implies #[trigger] new[k] == lines[k] by {}
            lemma_found_before(new, lines, other_key, other + 1, header);
        } else {
            lemma_headers_differ(section, other_section);
            assert(new[header + 1] == entry);
            assert(found(new, other_key, header + 1) == found(new, other_key, header + 2));
            assert forall|k: int| header + 2 <= k < new.len() implies #[trigger] new[k] == lines[k
                - (header + 2) + (header + 1)] by {
                assert(new[k] == lines[k - 1]);
            }
            lemma_found_behind(new, header + 2, lines, header + 1, other_key);
        }
    } else {
        let h = header_line(new, other_section, 0);
        if h < new.len() {
            if h <= header {
                assert(new[h] == lines[h]);
            } else if h > header + 1 {
                assert(new[h] == lines[h - 1]);
            }
        }
    }
}

/// A new section changes no setting of the others.
proof fn lemma_a_new_section_keeps_the_others(
    lines: Seq<Seq<char>>,
    section: Seq<char>,
    key: Seq<char>,
    value: Seq<char>,
    other_section: Seq<char>,
    other_key: Seq<char>,
)
    requires
        lines.len() >= 1,
        settable(section, key, value),
        section != other_section || key != other_key,
        header_line(lines, section, 0) >= lines.len(),
    ensures
        setting(upserted(lines, section, key, value), other_section, other_key) == setting(
            lines,
            other_section,
            other_key,
        ),
{
    reveal_strlit("[");
    let entry = key + " = "@ + value;
    let new = upserted(lines, section, key, value);
    let kept = if lines.last().len() == 0 {
        lines.drop_last()
    } else {
        lines
    };
    let end = kept.len() as int;
    assert(new =~= kept + seq![header_of(section), entry, Seq::empty()]);
    assert(new[end] == header_of(section));
    assert(new[end + 1] == entry);
    assert(new[end + 2] == Seq::<char>::empty());
    assert(header_of(section)[0] == '[' && header_of(other_section)[0] == '[');
    assert(begins_section(new[end]));
    let other = header_line(lines, other_section, 0);
    lemma_header_line(lines, other_section, 0);
    lemma_header_line(lines, section, 0);
    lemma_header_line(new, other_section, 0);
    assert(trimmed(Seq::<char>::empty()).len() == 0);
    if other < lines.len() {
        assert(lines[lines.len() - 1] == lines.last());
        assert(other < end) by {
            if other == lines.len() - 1 && lines.last().len() == 0 {
                assert(lines.last() =~= Seq::<char>::empty());
            }
        }
        assert(new[other] == lines[other]);
        assert forall|j: int| 0 <= j < other implies trimmed(#[trigger] new[j]) != header_of(
            other_section,
        ) by {
            assert(new[j] == lines[j]);
        }
        lemma_header_line_is(new, other_section, 0, other);
        lemma_found_to_the_end(lines, new, end, other_key, other + 1);
    } else {
        let h = header_line(new, other_section, 0);
        if h < new.len() {
            if h < end {
                assert(new[h] == lines[h]);
            }
            assert(h == end);
            lemma_headers_differ(section, other_section);
            assert(!sets_key(new[end + 1], other_key));
            assert(key_line(new, other_key, end + 3) is None);
            assert(key_line(new, other_key, end + 2) is None);
            assert(key_line(new, other_key, end + 1) is None);
        }
    }
}

/// Lines that go on to the end set the same where a section begins instead.
proof fn lemma_found_to_the_end(
    lines: Seq<Seq<char>>,
    new: Seq<Seq<char>>,
    end: int,
    key: Seq<char>,
    from: int,
)
    requires
        0 <= from <= end < new.len(),
        end <= lines.len(),
        forall|k: int| 0 <= k < end ==> #[trigger] new[k] == lines[k],
        begins_section(new[end]),
        forall|k: int| end <= k < lines.len() ==> (#[trigger] lines[k]).len() == 0,
    ensures
        found(new, key, from) == found(lines, key, from),
    decreases end - from,
{
    if from < end {
        assert(new[from] == lines[from]);
        if !begins_section(lines[from]) && !sets_key(lines[from], key) {
            lemma_found_to_the_end(lines, new, end, key, from + 1);
        }
    } else {
        lemma_blank_lines_set_nothing(lines, key, end);
    }
}

proof fn lemma_blank_lines_set_nothing(lines: Seq<Seq<char>>, key: Seq<char>, from: int)
    requires
        0 <= from <= lines.len(),
        forall|k: int| from <= k < lines.len() ==> (#[trigger] lines[k]).len() == 0,
    ensures
        key_line(lines, key, from) is None,
    decreases lines.len() - from,
{
    if from < lines.len() {
        assert(lines[from] =~= Seq::<char>::empty());
        assert(!sets_key(lines[from], key));
        lemma_blank_lines_set_nothing(lines, key, from + 1);
    }
}

/// Storing a value keeps every other setting of the file, in whatever section
/// it stands.
pub proof fn law_storing_keeps_every_other_setting(
    content: Seq<char>,
    section: Seq<char>,
    key: Seq<char>,
    value: Seq<char>,
    other_section: Seq<char>,
    other_key: Seq<char>,
)
    requires
        settable(section, key, value),
        section != other_section || key != other_key,
    ensures
        setting(
            split(with_setting(content, section, key, value), '\n'),
            other_section,
            other_key,
        ) == setting(split(content, '\n'), other_section, other_key),
{
    let lines = split(content, '\n');
    lemma_split(content, '\n');
    lemma_upserted_lines(lines, section, key, value);
    lemma_lines_come_back(upserted(lines, section, key, value));
    let header = header_line(lines, section, 0);
    if header >= lines.len() {
        lemma_a_new_section_keeps_the_others(
            lines,
            section,
            key,
            value,
            other_section,
            other_key,
        );
    } else {
        match key_line(lines, key, header + 1) {
            Some(at) => {
                lemma_replacing_keeps_the_others(
                    lines,
                    section,
                    key,
                    value,
                    at,
                    other_section,
                    other_key,
                );
            },
            None => {
                lemma_inserting_keeps_the_others(
                    lines,
                    section,
                    key,
                    value,
                    other_section,
                    other_key,
                );
            },
        }
    }
}

fn line_sets_key(line: &[char], key: &str) -> (yes: bool)
    ensures
        yes == sets_key(line@, key@),
{
    let equals: usize = position(line, '=');
    if equals >= line.len() {
        return false;
    }
    let front = slice_subrange(line, 0, equals);
    assert(front@ =~= line@.take(equals as int));
    spells(trim(front), key)
}

/// Set one key of one section in a file's content, keeping every other line,
/// comments included.
#[verifier::loop_isolation(false)]
pub fn upsert_section_value(content: &str, section: &str, key: &str, value: &str) -> (updated:
    String)
    ensures
        updated@ == with_setting(content@, section@, key@, value@),
{
    let chars = to_chars(content);
    let lines = split_at_each(&chars, '\n');
    let ghost all = slices(lines@);
    let mut header_text = "[".to_string();
    header_text.push_str(section);
    header_text.push_str("]");
    assert(header_text@ =~= header_of(section@));
    let mut entry_text = key.to_string();
    entry_text.push_str(" = ");
    entry_text.push_str(value);
    let header_chars = to_chars(&header_text);
    let entry_chars = to_chars(&entry_text);
    let empty: Vec<char> = Vec::new();
    assert(empty@ =~= Seq::<char>::empty());

    let mut header: usize = 0;
    while header < lines.len() && !same(trim(lines[header]), &header_chars)
        invariant
            header <= lines@.len(),
            header_line(all, section@, header as int) == header_line(all, section@, 0),
        decreases lines@.len() - header,
    {
        assert(all[header as int] == lines@[header as int]@);
        header += 1;
    }
    proof {
        if header < lines@.len() {
            assert(all[header as int] == lines@[header as int]@);
        }
        assert(header == header_line(all, section@, 0));
    }
    let mut new: Vec<&[char]> = Vec::new();
    if header >= lines.len() {
        let mut i: usize = 0;
        let last = lines[lines.len() - 1];
        assert(all.last() == last@);
        let kept: usize = if last.len() == 0 {
            lines.len() - 1
        } else {
            lines.len()
        };
        while i < kept
            invariant
                i <= kept <= lines@.len(),
                slices(new@) == all.take(i as int),
            decreases kept - i,
        {
            new.push(lines[i]);
            i += 1;
            assert(slices(new@) =~= all.take(i as int));
        }
        let ghost front = slices(new@);
        assert(front =~= if all.last().len() == 0 {
            all.drop_last()
        } else {
            all
        });
        new.push(&header_chars);
        assert(slices(new@) =~= front.push(header_text@));
        new.push(&entry_chars);
        assert(slices(new@) =~= front.push(header_text@).push(entry_text@));
        new.push(&empty);
        assert(slices(new@) =~= front.push(header_text@).push(entry_text@).push(empty@));
        assert(slices(new@) =~= upserted(all, section@, key@, value@));
    } else {
        let mut at: usize = header + 1;
        let mut found: Option<usize> = None;
        while at < lines.len() && found.is_none()
            invariant
                header < at <= lines@.len(),
                match found {
                    Some(place) => key_line(all, key@, header + 1) == Some(place as int) && place
                        < lines@.len(),
                    None => key_line(all, key@, at as int) == key_line(all, key@, header + 1),
                },
            decreases lines@.len() - at, (if found is None { 1int } else { 0int }),
        {
            assert(all[at as int] == lines@[at as int]@);
            let inner = trim(lines[at]);
            if inner.len() > 0 && inner[0] == '[' {
                break;
            }
            if line_sets_key(lines[at], key) {
                found = Some(at);
            } else {
                at += 1;
            }
        }
        proof {
            if found is None {
                if at < lines@.len() {
                    assert(all[at as int] == lines@[at as int]@);
                }
                assert(key_line(all, key@, header + 1) is None);
            }
        }
        let mut i: usize = 0;
        while i < lines.len()
            invariant
                i <= lines@.len(),
                match found {
                    Some(place) => slices(new@) == all.update(
                        place as int,
                        entry_text@,
                    ).take(i as int),
                    None => if i <= header {
                        slices(new@) == all.take(i as int)
                    } else {
                        slices(new@) == all.insert(header + 1, entry_text@).take(i + 1)
                    },
                },
            decreases lines@.len() - i,
        {
            let ghost before = slices(new@);
            match found {
                Some(place) => {
                    if i == place {
                        new.push(&entry_chars);
                    } else {
                        new.push(lines[i]);
                    }
                    i += 1;
                    assert(slices(new@) =~= all.update(place as int, entry_text@).take(i as int));
                },
                None => {
                    new.push(lines[i]);
                    if i == header {
                        new.push(&entry_chars);
                    }
                    i += 1;
                    if i <= header {
                        assert(slices(new@) =~= all.take(i as int));
                    } else {
                        assert(slices(new@) =~= all.insert(header + 1, entry_text@).take(i + 1));
                    }
                },
            }
        }
        proof {
            match found {
                Some(place) => {
                    assert(all.update(place as int, entry_text@).take(i as int) =~= all.update(
                        place as int,
                        entry_text@,
                    ));
                },
                None => {
                    let wanted = all.insert(header + 1, entry_text@);
                    assert(wanted.take(i + 1) =~= wanted);
                },
            }
        }
    }
    assert(slices(new@) == upserted(all, section@, key@, value@));
    join_lines(&new)
}

fn join_lines(lines: &Vec<&[char]>) -> (text: String)
    ensures
        text@ == joined_lines(slices(lines@)),
{
    let ghost all = slices(lines@);
    let mut text = String::new();
    let mut i: usize = 0;
    assert(all.take(0) =~= Seq::<Seq<char>>::empty());
    while i < lines.len()
        invariant
            i <= lines@.len(),
            all == slices(lines@),
            text@ == joined_lines(all.take(i as int)),
        decreases lines@.len() - i,
    {
        let ghost before = text@;
        if i > 0 {
            text.push_str("\n");
        }
        text.push_str(&to_text(lines[i]));
        i += 1;
        proof {
            let next = all.take(i as int);
            assert(next.drop_last() =~= all.take(i - 1));
            assert(next.last() == lines@[i - 1]@);
            assert(text@ =~= joined_lines(next));
        }
    }
    assert(all.take(i as int) =~= all);
    text
}

/// Storing a value loses no line but one that set the key, comments included,
/// and adds no line but the entry and, where there was none, the header of the
/// section.
pub proof fn law_storing_keeps_every_other_line(
    lines: Seq<Seq<char>>,
    section: Seq<char>,
    key: Seq<char>,
    value: Seq<char>,
    i: int,
)
    requires
        lines.len() >= 1,
    ensures
        ({
            let new = upserted(lines, section, key, value);
            &&& 0 <= i < lines.len() && !sets_key(lines[i], key) ==> new.contains(lines[i])
            &&& 0 <= i < new.len() ==> lines.contains(new[i]) || new[i] == key + " = "@ + value
                || new[i] == "["@ + section + "]"@ || new[i].len() == 0
            &&& new.len() <= lines.len() + 3
            &&& lines.contains("["@ + section + "]"@) && trimmed("["@ + section + "]"@) == "["@
                + section + "]"@ ==> new.len() <= lines.len() + 1
        }),
{
    let new = upserted(lines, section, key, value);
    let header = header_line(lines, section, 0);
    lemma_header_line(lines, section, 0);
    if header >= lines.len() {
        let kept = if lines.last().len() == 0 {
            lines.drop_last()
        } else {
            lines
        };
        if 0 <= i < lines.len() {
            if i < kept.len() {
                assert(new[i] == lines[i]);
            } else {
                assert(lines[i] =~= Seq::<char>::empty());
                assert(new[new.len() - 1] == lines[i]);
            }
        }
        if 0 <= i < kept.len() {
            assert(new[i] == lines[i]);
        }
        if lines.contains(header_of(section)) {
            let j = choose|j: int| 0 <= j < lines.len() && lines[j] == header_of(section);
            assert(trimmed(lines[j]) != header_of(section));
        }
    } else {
        lemma_key_line(lines, key, header + 1);
        match key_line(lines, key, header + 1) {
            Some(at) => {
                if 0 <= i < lines.len() && i != at {
                    assert(new[i] == lines[i]);
                }
            },
            None => {
                if 0 <= i < lines.len() {
                    if i <= header {
                        assert(new[i] == lines[i]);
                    } else {
                        assert(new[i + 1] == lines[i]);
                    }
                }
                if 0 <= i < new.len() {
                    if i <= header {
                        assert(new[i] == lines[i]);
                    } else if i > header + 1 {
                        assert(new[i] == lines[i - 1]);
                    }
                }
            },
        }
    }
}

/// A line sets a key where the key stands before its first equals sign, with
/// nothing around it but white space, and a line that begins with a bracket
/// begins a section.
pub proof fn law_what_a_line_of_the_file_says(
    lead: Seq<char>,
    key: Seq<char>,
    tail: Seq<char>,
    value: Seq<char>,
)
    requires
        is_blank(lead),
        is_blank(tail),
        key.len() > 0 && !is_white_space(key[0]) && !is_white_space(key.last()),
        !key.contains('=') && !lead.contains('=') && !tail.contains('='),
    ensures
        sets_key(lead + key + tail + seq!['='] + value, key),
        !sets_key(lead + key + tail, key),
        begins_section(lead + key + tail) <==> key[0] == '[',
{
    let front = lead + key + tail;
    let line = front + seq!['='] + value;
    law_what_is_around_is_trimmed(lead, key, tail);
    assert forall|j: int| 0 <= j < front.len() implies front[j] != '=' by {
        if j < lead.len() {
            assert(front[j] == lead[j]);
            assert(lead.contains(lead[j]));
        } else if j < lead.len() + key.len() {
            assert(front[j] == key[j - lead.len()]);
            assert(key.contains(key[j - lead.len()]));
        } else {
            assert(front[j] == tail[j - lead.len() - key.len()]);
            assert(tail.contains(tail[j - lead.len() - key.len()]));
        }
    }
    assert forall|j: int| 0 <= j < front.len() implies line[j] != '=' by {
        assert(line[j] == front[j]);
    }
    lemma_find_is(line, '=', front.len() as int);
    assert(line.take(front.len() as int) =~= front);
    lemma_find_is(front, '=', front.len() as int);
}

} // verus!
