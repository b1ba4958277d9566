//! The agent that a process's environment names.

use crate::line_reader::decode_utf8;
use crate::text::{same_text, view_of};
use crate::platform::law_where_the_first_zero_stands;
use vstd::prelude::*;
use vstd::slice::slice_subrange;
use vstd::utf8::{decode_utf8 as utf8_text, encode_utf8_decode_utf8, valid_utf8};

verus! {

/// The agents that this library speaks of.
#[derive(Clone, Copy, Debug, PartialEq, Eq, Structural)]
pub enum Agent {
    Claude,
    Codex,
    Pi,
}

/// A label, and the agent that it names.
#[derive(Clone, Debug, PartialEq, Eq)]
pub struct AgentLabel {
    pub label: String,
    pub agent: Agent,
}

/// The record of an environment block that carries the hint, up to its value.
pub open spec fn hint_prefix() -> Seq<u8> {
    seq![72u8, 69, 82, 68, 82, 95, 65, 71, 69, 78, 84, 61]
}

/// The agent that a label names, going by what the labels are: the first entry
/// with that label.
pub open spec fn labelled_agent(labels: Seq<AgentLabel>, label: Seq<char>) -> Option<Agent>
    decreases labels.len(),
{
    if labels.len() == 0 {
        None
    } else if labels[0].label@ == label {
        Some(labels[0].agent)
    } else {
        labelled_agent(labels.skip(1), label)
    }
}

/// Where the next record of an environment block ends.
pub open spec fn record_end(environ: Seq<u8>) -> int {
    crate::platform::first_zero(environ)
}

/// The value of the first record that carries the hint.
pub open spec fn hint_value(environ: Seq<u8>) -> Option<Seq<u8>>
    decreases environ.len(),
{
    let end = record_end(environ);
    let record = environ.take(end);
    if 12 <= record.len() && record.take(12) == hint_prefix() {
        Some(record.skip(12))
    } else if 0 <= end < environ.len() {
        hint_value(environ.skip(end + 1))
    } else {
        None
    }
}

fn same_bytes(left: &[u8], right: &[u8]) -> (equal: bool)
    ensures
        equal == (left@ == right@),
{
    crate::credentials::constant_time_eq(left, right)
}

pub fn parse_agent_label(labels: &Vec<AgentLabel>, label: &str) -> (agent: Option<Agent>)
    ensures
        agent == labelled_agent(labels@, label@),
{
    let mut i: usize = 0;
    assert(labels@.skip(0) =~= labels@);
    while i < labels.len()
        invariant
            i <= labels@.len(),
            labelled_agent(labels@.skip(i as int), label@) == labelled_agent(labels@, label@),
        decreases labels@.len() - i,
    {
        assert(labels@.skip(i as int)[0] == labels@[i as int]);
        if same_text(&labels[i].label, label) {
            return Some(labels[i].agent);
        }
        assert(labels@.skip(i as int).skip(1) =~= labels@.skip(i + 1));
        i += 1;
    }
    None
}

/// The label that an environment block carries: the value of its first hint
/// record, where that is a text.
pub open spec fn hint_label(environ: Seq<u8>) -> Option<Seq<char>> {
    match hint_value(environ) {
        Some(value) => if valid_utf8(value) {
            Some(utf8_text(value))
        } else {
            None
        },
        None => None,
    }
}

pub fn agent_env_label(environ: &[u8]) -> (label: Option<String>)
    ensures
        view_of(label) == hint_label(environ@),
{
    let prefix: [u8; 12] = [72, 69, 82, 68, 82, 95, 65, 71, 69, 78, 84, 61];
    assert(prefix@ =~= hint_prefix());
    let mut rest: &[u8] = environ;
    loop
        invariant
            prefix@ == hint_prefix(),
            hint_value(rest@) == hint_value(environ@),
        decreases rest@.len(),
    {
        let end: usize = crate::platform::zero_position(rest);
        let record = slice_subrange(rest, 0, end);
        assert(record@ =~= rest@.take(end as int));
        if record.len() >= 12 {
            let head = slice_subrange(record, 0, 12);
            assert(head@ =~= record@.take(12));
            if same_bytes(head, prefix.as_slice()) {
                let value = slice_subrange(record, 12, record.len());
                assert(value@ =~= record@.skip(12));
                let mut bytes: Vec<u8> = Vec::new();
                bytes.extend_from_slice(value);
                assert(bytes@ =~= value@);
                let label = decode_utf8(bytes);
                proof {
                    if let Some(text) = &label {
                        encode_utf8_decode_utf8(text@);
                    }
                }
                return label;
            }
        }
        if end >= rest.len() {
            return None;
        }
        let tail = slice_subrange(rest, end + 1, rest.len());
        assert(tail@ =~= rest@.skip(end + 1));
        rest = tail;
    }
}

/// The agent that an environment block names, by its first hint record and by
/// what the labels are.
pub open spec fn hinted_agent(labels: Seq<AgentLabel>, environ: Seq<u8>) -> Option<Agent> {
    match hint_label(environ) {
        Some(label) => labelled_agent(labels, label),
        None => None,
    }
}

pub fn parse_agent_env_hint(labels: &Vec<AgentLabel>, environ: &[u8]) -> (agent: Option<Agent>)
    ensures
        agent == hinted_agent(labels@, environ@),
{
    match agent_env_label(environ) {
        Some(label) => parse_agent_label(labels, &label),
        None => None,
    }
}

/// The agent that a process's environment names; none where the platform
/// shows no environment.
pub fn process_agent_hint(labels: &Vec<AgentLabel>, environ: Option<&[u8]>) -> (agent: Option<
    Agent,
>)
    ensures
        agent == (match environ {
            Some(environ) => hinted_agent(labels@, environ@),
            None => None,
        }),
{
    match environ {
        Some(environ) => parse_agent_env_hint(labels, environ),
        None => None,
    }
}

/// The first record that begins with `HERDR_AGENT=` is the hint, and what
/// stands behind that is its value; other records are passed over.
pub proof fn law_which_record_is_the_hint(record: Seq<u8>, value: Seq<u8>, rest: Seq<u8>)
    requires
        !record.contains(0u8),
        !value.contains(0u8),
        record.len() < 12 || record.take(12) != hint_prefix(),
    ensures
        hint_value(hint_prefix() + value + seq![0u8] + rest) == Some(value),
        hint_value(hint_prefix() + value) == Some(value),
        hint_value(record + seq![0u8] + rest) == hint_value(rest),
        hint_value(record) is None,
        forall|i: int|
            0 <= i < 12 ==> #[trigger] hint_prefix()[i] as char == "HERDR_AGENT="@[i],
        hint_prefix().len() == "HERDR_AGENT="@.len(),
{
    reveal_strlit("HERDR_AGENT=");
    let prefix = hint_prefix();
    let hint = prefix + value;
    assert(!hint.contains(0u8)) by {
        if hint.contains(0u8) {
            let i = choose|i: int| 0 <= i < hint.len() && hint[i] == 0u8;
            if i < 12 {
                assert(prefix[i] != 0);
            } else {
                assert(value[i - 12] == 0u8);
            }
        }
    }
    law_where_the_first_zero_stands(hint, rest);
    law_where_the_first_zero_stands(record, rest);
    let hinted = hint + seq![0u8] + rest;
    assert(hinted.take(hint.len() as int) =~= hint);
    assert(hint.take(hint.len() as int) =~= hint);
    assert(hint.take(12) =~= prefix);
    assert(hint.skip(12) =~= value);
    let passed = record + seq![0u8] + rest;
    assert(passed.take(record.len() as int) =~= record);
    assert(record.take(record.len() as int) =~= record);
    assert(passed.skip(record.len() + 1int) =~= rest);
}

/// A label names the agent of the first entry that has it, and none where no
/// entry has.
pub proof fn law_which_agent_a_label_names(
    labels: Seq<AgentLabel>,
    label: Seq<char>,
    at: int,
)
    ensures
        0 <= at < labels.len() && labels[at].label@ == label && (forall|j: int|
            0 <= j < at ==> (#[trigger] labels[j]).label@ != label) ==> labelled_agent(
            labels,
            label,
        ) == Some(labels[at].agent),
        (forall|j: int| 0 <= j < labels.len() ==> (#[trigger] labels[j]).label@ != label)
            ==> labelled_agent(labels, label) is None,
    decreases labels.len(),
{
    if labels.len() > 0 {
        let rest = labels.skip(1);
        law_which_agent_a_label_names(rest, label, at - 1);
        if 0 < at < labels.len() && (forall|j: int|
            0 <= j < at ==> (#[trigger] labels[j]).label@ != label) {
            assert(labels[0].label@ != label);
            assert(rest[at - 1] == labels[at]);
            assert forall|j: int| 0 <= j < at - 1 implies (#[trigger] rest[j]).label@ != label by {
                assert(rest[j] == labels[j + 1]);
            }
        }
        if forall|j: int| 0 <= j < labels.len() ==> (#[trigger] labels[j]).label@ != label {
            assert(labels[0].label@ != label);
            assert forall|j: int| 0 <= j < rest.len() implies (#[trigger] rest[j]).label@
                != label by {
                assert(rest[j] == labels[j + 1]);
            }
        }
    }
}

} // verus!
