//! Textual ip and socket addresses: reading them and writing them.
//!
//! The accepted spellings are the usual ones: four plain decimal octets for
//! ipv4, rfc 4291 text for ipv6 (with `::` and a trailing dotted quad), and
//! `address:port` or `[address%scope]:port` for a socket address.

use crate::text::{
    all_digits, ascii_digit, decimal, decimal_text, decimal_up_to, decimal_value, find, find_text,
    is_ascii_digit, law_decimal_text_has_no_leading_zero, law_digits_are_the_text_of_their_number,
    law_split_parts_make_the_text, law_the_first_occurrence_is_found, lemma_decimal_text,
    lemma_find_is, lemma_find_text, lemma_rejoined_parts_split, lemma_split_push,
    lemma_split_single, position, position_of, rejoined, slices, split, split_at_each,
};
use vstd::prelude::*;
use vstd::slice::slice_subrange;

verus! {

#[derive(Clone, Copy, Debug, PartialEq, Eq)]
pub enum IpAddress {
    V4([u8; 4]),
    V6([u16; 8]),
}

/// An ip address with a port; the scope id is zero but for a scoped ipv6
/// address.
#[derive(Clone, Copy, Debug, PartialEq, Eq)]
pub struct SocketAddress {
    pub ip: IpAddress,
    pub scope_id: u32,
    pub port: u16,
}

/// An ip address over its octets or groups.
pub ghost enum IpView {
    V4(Seq<u8>),
    V6(Seq<u16>),
}

/// A socket address over its octets or groups.
pub ghost struct SocketView {
    pub ip: IpView,
    pub scope_id: nat,
    pub port: nat,
}

impl View for IpAddress {
    type V = IpView;

    open spec fn view(&self) -> IpView {
        match self {
            IpAddress::V4(octets) => IpView::V4(octets@),
            IpAddress::V6(groups) => IpView::V6(groups@),
        }
    }
}

impl View for SocketAddress {
    type V = SocketView;

    open spec fn view(&self) -> SocketView {
        SocketView { ip: self.ip@, scope_id: self.scope_id as nat, port: self.port as nat }
    }
}

// ---- Reading -----------------------------------------------------------------

/// One octet of a dotted quad: one to three digits, no leading zero, 0-255.
pub open spec fn is_plain_octet(part: Seq<char>) -> bool {
    &&& 1 <= part.len() <= 3
    &&& all_digits(part)
    &&& part.len() == 1 || part[0] != '0'
    &&& decimal_value(part) <= 255
}

/// The four octets of a dotted quad, where the text is one.
pub open spec fn ipv4_octets(text: Seq<char>) -> Option<Seq<u8>> {
    let parts = split(text, '.');
    if parts.len() == 4 && (forall|i: int| 0 <= i < 4 ==> is_plain_octet(#[trigger] parts[i])) {
        Some(Seq::new(4, |i: int| decimal_value(parts[i]) as u8))
    } else {
        None
    }
}

fn plain_octet(part: &[char]) -> (octet: Option<u8>)
    ensures
        octet == (if is_plain_octet(part@) {
            Some(decimal_value(part@) as u8)
        } else {
            None
        }),
{
    if part.len() == 0 || part.len() > 3 || (part.len() > 1 && part[0] == '0') {
        return None;
    }
    match decimal_up_to(part, 255) {
        Some(value) => Some(value as u8),
        None => None,
    }
}

pub fn parse_ipv4(text: &[char]) -> (octets: Option<[u8; 4]>)
    ensures
        match octets {
            Some(read) => ipv4_octets(text@) == Some(read@),
            None => ipv4_octets(text@) is None,
        },
{
    let parts = split_at_each(text, '.');
    proof {
        assert(slices(parts@).len() == parts@.len());
    }
    if parts.len() != 4 {
        return None;
    }
    proof {
        assert forall|i: int| 0 <= i < 4 implies split(text@, '.')[i] == parts@[i]@ by {
            assert(slices(parts@)[i] == parts@[i]@);
        }
    }
    let a = plain_octet(parts[0]);
    let b = plain_octet(parts[1]);
    let c = plain_octet(parts[2]);
    let d = plain_octet(parts[3]);
    match (a, b, c, d) {
        (Some(a), Some(b), Some(c), Some(d)) => {
            let read = [a, b, c, d];
            assert forall|i: int| 0 <= i < 4 implies is_plain_octet(
                #[trigger] split(text@, '.')[i],
            ) by {
                assert(i == 0 || i == 1 || i == 2 || i == 3);
            }
            assert(ipv4_octets(text@)->0 =~= read@);
            Some(read)
        },
        _ => {
            proof {
                let wanted = split(text@, '.');
                assert(!is_plain_octet(wanted[0]) || !is_plain_octet(wanted[1])
                    || !is_plain_octet(wanted[2]) || !is_plain_octet(wanted[3]));
            }
            None
        },
    }
}

pub open spec fn is_hex_digit(c: char) -> bool {
    is_ascii_digit(c) || 'a' <= c <= 'f' || 'A' <= c <= 'F'
}

pub open spec fn hex_digit_value(c: char) -> nat {
    if is_ascii_digit(c) {
        (c as nat - 48) as nat
    } else if 'a' <= c <= 'f' {
        (c as nat - 87) as nat
    } else {
        (c as nat - 55) as nat
    }
}

pub open spec fn hex_value(text: Seq<char>) -> nat
    decreases text.len(),
{
    if text.len() == 0 {
        0
    } else {
        hex_value(text.drop_last()) * 16 + hex_digit_value(text.last())
    }
}

/// One group of an ipv6 address: one to four hexadecimal digits.
pub open spec fn is_plain_group(part: Seq<char>) -> bool {
    &&& 1 <= part.len() <= 4
    &&& forall|i: int| 0 <= i < part.len() ==> is_hex_digit(#[trigger] part[i])
}

fn hex_digit(c: char) -> (digit: Option<u16>)
    ensures
        digit == (if is_hex_digit(c) {
            Some(hex_digit_value(c) as u16)
        } else {
            None
        }),
{
    if ascii_digit(c) {
        Some(c as u16 - 48)
    } else if 'a' <= c && c <= 'f' {
        Some(c as u16 - 87)
    } else if 'A' <= c && c <= 'F' {
        Some(c as u16 - 55)
    } else {
        None
    }
}

fn plain_group(part: &[char]) -> (group: Option<u16>)
    ensures
        group == (if is_plain_group(part@) {
            Some(hex_value(part@) as u16)
        } else {
            None
        }),
        is_plain_group(part@) ==> hex_value(part@) <= 0xffff,
{
    if part.len() == 0 || part.len() > 4 {
        return None;
    }
    let mut value: u32 = 0;
    let mut i: usize = 0;
    let ghost mut bound: nat = 1;
    while i < part.len()
        invariant
            i <= part@.len() <= 4,
            forall|j: int| 0 <= j < i ==> is_hex_digit(#[trigger] part@[j]),
            value == hex_value(part@.take(i as int)),
            i == 0 ==> value < 1,
            i == 1 ==> value < 16,
            i == 2 ==> value < 256,
            i == 3 ==> value < 4096,
            i == 4 ==> value < 65536,
        decreases part@.len() - i,
    {
        match hex_digit(part[i]) {
            Some(digit) => {
                assert(part@.take(i + 1).drop_last() =~= part@.take(i as int));
                value = value * 16 + digit as u32;
                i += 1;
            },
            None => {
                return None;
            },
        }
    }
    assert(part@.take(i as int) =~= part@);
    Some(value as u16)
}

/// The values of groups that are all plain.
pub open spec fn plain_values(parts: Seq<Seq<char>>) -> Option<Seq<u16>> {
    if forall|i: int| 0 <= i < parts.len() ==> is_plain_group(#[trigger] parts[i]) {
        Some(Seq::new(parts.len(), |i: int| hex_value(parts[i]) as u16))
    } else {
        None
    }
}

/// The values of groups of which the last may be a dotted quad, which stands
/// for two.
pub open spec fn group_values(parts: Seq<Seq<char>>) -> Option<Seq<u16>> {
    match (plain_values(parts.drop_last()), ipv4_octets(parts.last())) {
        (Some(front), Some(octets)) => Some(
            front + seq![
                (octets[0] * 256 + octets[1]) as u16,
                (octets[2] * 256 + octets[3]) as u16,
            ],
        ),
        _ => plain_values(parts),
    }
}

/// The groups that stand on one side of `::`.
pub open spec fn side_values(text: Seq<char>) -> Option<Seq<u16>> {
    if text.len() == 0 {
        Some(Seq::empty())
    } else {
        group_values(split(text, ':'))
    }
}

/// The plain groups that stand in front of `::`.
pub open spec fn head_values(text: Seq<char>) -> Option<Seq<u16>> {
    if text.len() == 0 {
        Some(Seq::empty())
    } else {
        plain_values(split(text, ':'))
    }
}

pub open spec fn zeros(count: nat) -> Seq<u16> {
    Seq::new(count, |i: int| 0u16)
}

/// The eight groups of an ipv6 address, where the text is one. A `::` stands
/// for at least one group of zeros.
pub open spec fn ipv6_groups(text: Seq<char>) -> Option<Seq<u16>> {
    match find_text(text, "::"@) {
        None => match group_values(split(text, ':')) {
            Some(groups) => if groups.len() == 8 {
                Some(groups)
            } else {
                None
            },
            None => None,
        },
        Some(at) => match (head_values(text.take(at)), side_values(text.skip(at + 2))) {
            (Some(head), Some(tail)) => if head.len() + tail.len() <= 7 {
                Some(head + zeros((8 - head.len() - tail.len()) as nat) + tail)
            } else {
                None
            },
            _ => None,
        },
    }
}

fn read_plain(parts: &Vec<&[char]>, count: usize) -> (groups: Option<Vec<u16>>)
    requires
        count <= parts@.len(),
    ensures
        match groups {
            Some(read) => plain_values(slices(parts@).take(count as int)) == Some(read@),
            None => plain_values(slices(parts@).take(count as int)) is None,
        },
{
    let ghost wanted = slices(parts@).take(count as int);
    let mut read: Vec<u16> = Vec::new();
    let mut i: usize = 0;
    while i < count
        invariant
            i <= count <= parts@.len(),
            wanted == slices(parts@).take(count as int),
            read@.len() == i,
            forall|j: int|
                0 <= j < i ==> is_plain_group(#[trigger] wanted[j]) && read@[j] == hex_value(
                    wanted[j],
                ) as u16,
        decreases count - i,
    {
        assert(wanted[i as int] == parts@[i as int]@);
        match plain_group(parts[i]) {
            Some(group) => {
                read.push(group);
            },
            None => {
                assert(!is_plain_group(wanted[i as int]));
                return None;
            },
        }
        i += 1;
    }
    assert(plain_values(wanted)->0 =~= read@);
    Some(read)
}

fn read_groups(text: &[char]) -> (groups: Option<Vec<u16>>)
    ensures
        match groups {
            Some(read) => group_values(split(text@, ':')) == Some(read@),
            None => group_values(split(text@, ':')) is None,
        },
{
    let parts = split_at_each(text, ':');
    let count: usize = parts.len();
    proof {
        let all = slices(parts@);
        assert(all.take(count as int) =~= all);
        assert(all.take(count - 1) =~= all.drop_last());
        assert(all.last() == parts@[count - 1]@);
    }
    match (read_plain(&parts, count - 1), parse_ipv4(parts[count - 1])) {
        (Some(front), Some(octets)) => {
            let mut read = front;
            read.push(octets[0] as u16 * 256 + octets[1] as u16);
            read.push(octets[2] as u16 * 256 + octets[3] as u16);
            assert(group_values(split(text@, ':'))->0 =~= read@);
            Some(read)
        },
        _ => read_plain(&parts, count),
    }
}

fn read_head(text: &[char]) -> (groups: Option<Vec<u16>>)
    ensures
        match groups {
            Some(read) => head_values(text@) == Some(read@),
            None => head_values(text@) is None,
        },
{
    if text.len() == 0 {
        let none: Vec<u16> = Vec::new();
        assert(none@ =~= Seq::<u16>::empty());
        return Some(none);
    }
    let parts = split_at_each(text, ':');
    let count: usize = parts.len();
    assert(slices(parts@).take(count as int) =~= slices(parts@));
    read_plain(&parts, count)
}

fn read_side(text: &[char]) -> (groups: Option<Vec<u16>>)
    ensures
        match groups {
            Some(read) => side_values(text@) == Some(read@),
            None => side_values(text@) is None,
        },
{
    if text.len() == 0 {
        let none: Vec<u16> = Vec::new();
        assert(none@ =~= Seq::<u16>::empty());
        return Some(none);
    }
    read_groups(text)
}

fn eight(groups: &Vec<u16>) -> (fixed: [u16; 8])
    requires
        groups@.len() == 8,
    ensures
        fixed@ == groups@,
{
    let fixed = [
        groups[0],
        groups[1],
        groups[2],
        groups[3],
        groups[4],
        groups[5],
        groups[6],
        groups[7],
    ];
    assert(fixed@ =~= groups@);
    fixed
}

pub fn parse_ipv6(text: &[char]) -> (groups: Option<[u16; 8]>)
    ensures
        match groups {
            Some(read) => ipv6_groups(text@) == Some(read@),
            None => ipv6_groups(text@) is None,
        },
{
    proof {
        lemma_find_text(text@, "::"@);
        reveal_strlit("::");
    }
    match position_of(text, "::") {
        None => match read_groups(text) {
            Some(groups) => if groups.len() == 8 {
                Some(eight(&groups))
            } else {
                None
            },
            None => None,
        },
        Some(at) => {
            let end: usize = text.len();
            assert("::"@.len() == 2);
            let front = slice_subrange(text, 0, at);
            let back = slice_subrange(text, at + 2, end);
            assert(front@ =~= text@.take(at as int));
            assert(back@ =~= text@.skip(at + 2));
            match (read_head(front), read_side(back)) {
                (Some(head), Some(tail)) => {
                    if head.len() > 7 || tail.len() > 7 - head.len() {
                        return None;
                    }
                    let ghost head_view = head@;
                    let mut groups = head;
                    let gap: usize = 8 - groups.len() - tail.len();
                    let mut i: usize = 0;
                    while i < gap
                        invariant
                            i <= gap,
                            groups@ == head_view + zeros(i as nat),
                        decreases gap - i,
                    {
                        groups.push(0);
                        i += 1;
                        assert(groups@ =~= head_view + zeros(i as nat));
                    }
                    let mut j: usize = 0;
                    while j < tail.len()
                        invariant
                            j <= tail@.len(),
                            groups@ == head_view + zeros(gap as nat) + tail@.take(j as int),
                        decreases tail@.len() - j,
                    {
                        groups.push(tail[j]);
                        j += 1;
                        assert(groups@ =~= head_view + zeros(gap as nat) + tail@.take(j as int));
                    }
                    assert(tail@.take(j as int) =~= tail@);
                    Some(eight(&groups))
                },
                _ => None,
            }
        },
    }
}

/// The port that digits spell, where they do; leading zeros are allowed.
pub open spec fn port_value(text: Seq<char>) -> Option<nat> {
    if text.len() > 0 && all_digits(text) && decimal_value(text) <= 0xffff {
        Some(decimal_value(text))
    } else {
        None
    }
}

pub open spec fn scope_value(text: Seq<char>) -> Option<nat> {
    if text.len() > 0 && all_digits(text) && decimal_value(text) <= 0xffff_ffff {
        Some(decimal_value(text))
    } else {
        None
    }
}

/// What stands inside the brackets of an ipv6 socket address.
pub open spec fn scoped_ipv6(text: Seq<char>) -> Option<(Seq<u16>, nat)> {
    let at = find(text, '%');
    if 0 <= at < text.len() {
        match (ipv6_groups(text.take(at)), scope_value(text.skip(at + 1))) {
            (Some(groups), Some(scope)) => Some((groups, scope)),
            _ => None,
        }
    } else {
        match ipv6_groups(text) {
            Some(groups) => Some((groups, 0nat)),
            None => None,
        }
    }
}

/// The socket address that a text spells, where it spells one.
pub open spec fn socket_address(text: Seq<char>) -> Option<SocketView> {
    if text.len() > 0 && text[0] == '[' {
        let close = find(text, ']');
        if 0 < close < text.len() - 1 && text[close + 1] == ':' {
            match (scoped_ipv6(text.subrange(1, close)), port_value(text.skip(close + 2))) {
                (Some((groups, scope_id)), Some(port)) => Some(
                    SocketView { ip: IpView::V6(groups), scope_id, port },
                ),
                _ => None,
            }
        } else {
            None
        }
    } else {
        let colon = find(text, ':');
        if 0 <= colon < text.len() {
            match (ipv4_octets(text.take(colon)), port_value(text.skip(colon + 1))) {
                (Some(octets), Some(port)) => Some(
                    SocketView { ip: IpView::V4(octets), scope_id: 0, port },
                ),
                _ => None,
            }
        } else {
            None
        }
    }
}

fn read_port(text: &[char]) -> (port: Option<u16>)
    ensures
        match port {
            Some(read) => port_value(text@) == Some(read as nat),
            None => port_value(text@) is None,
        },
{
    match decimal_up_to(text, 0xffff) {
        Some(value) => Some(value as u16),
        None => None,
    }
}

fn read_scoped_ipv6(text: &[char]) -> (read: Option<([u16; 8], u32)>)
    ensures
        match read {
            Some((groups, scope)) => scoped_ipv6(text@) == Some((groups@, scope as nat)),
            None => scoped_ipv6(text@) is None,
        },
{
    let at: usize = position(text, '%');
    if at < text.len() {
        let front = slice_subrange(text, 0, at);
        let back = slice_subrange(text, at + 1, text.len());
        assert(front@ =~= text@.take(at as int));
        assert(back@ =~= text@.skip(at + 1));
        match (parse_ipv6(front), decimal_up_to(back, 0xffff_ffff)) {
            (Some(groups), Some(scope)) => Some((groups, scope as u32)),
            _ => None,
        }
    } else {
        match parse_ipv6(text) {
            Some(groups) => Some((groups, 0)),
            None => None,
        }
    }
}

impl SocketAddress {
    /// The socket address that a text spells, where it spells one.
    pub fn parse(text: &[char]) -> (address: Option<SocketAddress>)
        ensures
            match address {
                Some(read) => socket_address(text@) == Some(read@),
                None => socket_address(text@) is None,
            },
    {
        if text.len() > 0 && text[0] == '[' {
            let close: usize = position(text, ']');
            if close >= text.len() || close == text.len() - 1 || text[close + 1] != ':' {
                return None;
            }
            let inner = slice_subrange(text, 1, close);
            let tail = slice_subrange(text, close + 2, text.len());
            assert(inner@ =~= text@.subrange(1, close as int));
            assert(tail@ =~= text@.skip(close + 2));
            match (read_scoped_ipv6(inner), read_port(tail)) {
                (Some((groups, scope_id)), Some(port)) => Some(
                    SocketAddress { ip: IpAddress::V6(groups), scope_id, port },
                ),
                _ => None,
            }
        } else {
            let colon: usize = position(text, ':');
            if colon >= text.len() {
                return None;
            }
            let front = slice_subrange(text, 0, colon);
            let tail = slice_subrange(text, colon + 1, text.len());
            assert(front@ =~= text@.take(colon as int));
            assert(tail@ =~= text@.skip(colon + 1));
            match (parse_ipv4(front), read_port(tail)) {
                (Some(octets), Some(port)) => Some(
                    SocketAddress { ip: IpAddress::V4(octets), scope_id: 0, port },
                ),
                _ => None,
            }
        }
    }
}

// ---- Writing -----------------------------------------------------------------

pub open spec fn hex_digit_char(digit: nat) -> char {
    if digit < 10 {
        ((48 + digit) as u32) as char
    } else {
        ((87 + digit) as u32) as char
    }
}

/// A number in lowercase hexadecimal digits, without leading zeros.
pub open spec fn hex_text(value: nat) -> Seq<char>
    decreases value,
{
    if value < 16 {
        seq![hex_digit_char(value)]
    } else {
        hex_text(value / 16).push(hex_digit_char(value % 16))
    }
}

fn push_hex(text: &mut String, value: u16)
    ensures
        final(text)@ == old(text)@ + hex_text(value as nat),
    decreases value,
{
    let digit: u8 = (value % 16) as u8;
    let last: char = if digit < 10 {
        (48u8 + digit) as char
    } else {
        (87u8 + digit) as char
    };
    let ghost before = text@;
    if value < 16 {
        text.push(last);
        assert(before.push(last) =~= before + seq![last]);
    } else {
        push_hex(text, value / 16);
        text.push(last);
        assert((before + hex_text((value / 16) as nat)).push(last) =~= before + hex_text(
            value as nat,
        ));
    }
}

pub open spec fn ipv4_text(octets: Seq<u8>) -> Seq<char> {
    decimal_text(octets[0] as nat) + "."@ + decimal_text(octets[1] as nat) + "."@ + decimal_text(
        octets[2] as nat,
    ) + "."@ + decimal_text(octets[3] as nat)
}

fn push_ipv4(text: &mut String, octets: &[u8; 4])
    ensures
        final(text)@ == old(text)@ + ipv4_text(octets@),
{
    text.push_str(&decimal(octets[0] as u64));
    text.push_str(".");
    text.push_str(&decimal(octets[1] as u64));
    text.push_str(".");
    text.push_str(&decimal(octets[2] as u64));
    text.push_str(".");
    text.push_str(&decimal(octets[3] as u64));
    assert(text@ =~= old(text)@ + ipv4_text(octets@));
}

/// Groups in hexadecimal, with a colon between neighbours.
pub open spec fn groups_text(groups: Seq<u16>) -> Seq<char>
    decreases groups.len(),
{
    if groups.len() == 0 {
        Seq::empty()
    } else if groups.len() == 1 {
        hex_text(groups[0] as nat)
    } else {
        groups_text(groups.drop_last()) + ":"@ + hex_text(groups.last() as nat)
    }
}

fn push_groups(text: &mut String, groups: &[u16; 8], from: usize, to: usize)
    requires
        from <= to <= 8,
    ensures
        final(text)@ == old(text)@ + groups_text(groups@.subrange(from as int, to as int)),
{
    let ghost before = text@;
    let mut i: usize = from;
    assert(text@ =~= before + groups_text(groups@.subrange(from as int, i as int)));
    while i < to
        invariant
            from <= i <= to <= 8,
            text@ == before + groups_text(groups@.subrange(from as int, i as int)),
        decreases to - i,
    {
        let ghost shown = groups@.subrange(from as int, i as int);
        if i > from {
            text.push_str(":");
        }
        push_hex(text, groups[i]);
        i += 1;
        proof {
            let next = groups@.subrange(from as int, i as int);
            assert(next.drop_last() =~= shown);
            assert(next.last() == groups@[i - 1]);
            assert(text@ =~= before + groups_text(next));
        }
    }
}

/// How many zero groups stand in a row from one place on.
pub open spec fn zero_run(groups: Seq<u16>, from: int) -> nat
    decreases groups.len() - from,
{
    if 0 <= from < groups.len() && groups[from] == 0 {
        1 + zero_run(groups, from + 1)
    } else {
        0
    }
}

/// The earliest of the first `count` places with the longest run of zeros.
pub open spec fn longest_zero_run(groups: Seq<u16>, count: nat) -> int
    decreases count,
{
    if count <= 1 {
        0
    } else {
        let best = longest_zero_run(groups, (count - 1) as nat);
        if zero_run(groups, count - 1) > zero_run(groups, best) {
            count - 1
        } else {
            best
        }
    }
}

pub open spec fn is_ipv4_mapped(groups: Seq<u16>) -> bool {
    &&& forall|i: int| 0 <= i < 5 ==> #[trigger] groups[i] == 0
    &&& groups[5] == 0xffff
}

pub open spec fn mapped_octets(groups: Seq<u16>) -> Seq<u8> {
    seq![
        (groups[6] / 256) as u8,
        (groups[6] % 256) as u8,
        (groups[7] / 256) as u8,
        (groups[7] % 256) as u8,
    ]
}

/// The canonical text of an ipv6 address: lowercase, the earliest longest run
/// of two or more zero groups written `::`, and a mapped ipv4 address dotted.
pub open spec fn ipv6_text(groups: Seq<u16>) -> Seq<char> {
    let start = longest_zero_run(groups, 8);
    let run = zero_run(groups, start) as int;
    if is_ipv4_mapped(groups) {
        "::ffff:"@ + ipv4_text(mapped_octets(groups))
    } else if run > 1 {
        groups_text(groups.take(start)) + "::"@ + groups_text(groups.skip(start + run))
    } else {
        groups_text(groups)
    }
}

proof fn lemma_zero_run(groups: Seq<u16>, from: int)
    requires
        0 <= from <= groups.len(),
    ensures
        from + zero_run(groups, from) <= groups.len(),
    decreases groups.len() - from,
{
    if from < groups.len() && groups[from] == 0 {
        lemma_zero_run(groups, from + 1);
    }
}

fn zero_run_from(groups: &[u16; 8], from: usize) -> (run: usize)
    requires
        from <= 8,
    ensures
        run == zero_run(groups@, from as int),
        from + run <= 8,
    decreases 8 - from,
{
    if from < 8 && groups[from] == 0 {
        1 + zero_run_from(groups, from + 1)
    } else {
        0
    }
}

fn push_ipv6(text: &mut String, groups: &[u16; 8])
    ensures
        final(text)@ == old(text)@ + ipv6_text(groups@),
{
    let ghost before = text@;
    if groups[0] == 0 && groups[1] == 0 && groups[2] == 0 && groups[3] == 0 && groups[4] == 0
        && groups[5] == 0xffff {
        let octets = [
            (groups[6] / 256) as u8,
            (groups[6] % 256) as u8,
            (groups[7] / 256) as u8,
            (groups[7] % 256) as u8,
        ];
        assert(octets@ =~= mapped_octets(groups@));
        text.push_str("::ffff:");
        push_ipv4(text, &octets);
        assert(text@ =~= before + ipv6_text(groups@));
        return ;
    }
    proof {
        if is_ipv4_mapped(groups@) {
            assert(groups@[0] == 0 && groups@[1] == 0 && groups@[2] == 0 && groups@[3] == 0
                && groups@[4] == 0);
        }
    }
    let mut best: usize = 0;
    let mut best_run: usize = zero_run_from(groups, 0);
    let mut i: usize = 1;
    while i < 8
        invariant
            1 <= i <= 8,
            best < 8,
            best == longest_zero_run(groups@, i as nat),
            best_run == zero_run(groups@, best as int),
            best + best_run <= 8,
        decreases 8 - i,
    {
        let run: usize = zero_run_from(groups, i);
        if run > best_run {
            best = i;
            best_run = run;
        }
        i += 1;
    }
    if best_run > 1 {
        push_groups(text, groups, 0, best);
        text.push_str("::");
        push_groups(text, groups, best + best_run, 8);
        assert(groups@.subrange(0, best as int) =~= groups@.take(best as int));
        assert(groups@.subrange(best + best_run, 8) =~= groups@.skip(best + best_run));
    } else {
        push_groups(text, groups, 0, 8);
        assert(groups@.subrange(0, 8) =~= groups@);
    }
    assert(text@ =~= before + ipv6_text(groups@));
}

/// The text that a socket address is written as.
pub open spec fn socket_text(address: SocketView) -> Seq<char> {
    match address.ip {
        IpView::V4(octets) => ipv4_text(octets) + ":"@ + decimal_text(address.port),
        IpView::V6(groups) => "["@ + ipv6_text(groups) + (if address.scope_id == 0 {
            Seq::empty()
        } else {
            "%"@ + decimal_text(address.scope_id)
        }) + "]:"@ + decimal_text(address.port),
    }
}

/// Whether an address is the wildcard, all of whose bits are zero.
pub open spec fn is_wildcard(ip: IpView) -> bool {
    match ip {
        IpView::V4(octets) => octets == Seq::new(4, |i: int| 0u8),
        IpView::V6(groups) => groups == zeros(8),
    }
}

/// The loopback address of the same family.
pub open spec fn loopback_of(ip: IpView) -> IpView {
    match ip {
        IpView::V4(_) => IpView::V4(seq![127u8, 0, 0, 1]),
        IpView::V6(_) => IpView::V6(zeros(7).push(1)),
    }
}

impl IpAddress {
    pub fn is_unspecified(&self) -> (yes: bool)
        ensures
            yes == is_wildcard(self@),
    {
        match self {
            IpAddress::V4(octets) => {
                proof {
                    let none = Seq::new(4, |i: int| 0u8);
                    if octets@ == none {
                        assert(none[0] == 0 && none[1] == 0 && none[2] == 0 && none[3] == 0);
                    }
                }
                let yes = octets[0] == 0 && octets[1] == 0 && octets[2] == 0 && octets[3] == 0;
                if yes {
                    assert(octets@ =~= Seq::new(4, |i: int| 0u8));
                }
                yes
            },
            IpAddress::V6(groups) => {
                let run = zero_run_from(groups, 0);
                proof {
                    lemma_full_run(groups@);
                }
                run == 8
            },
        }
    }

    pub fn loopback(&self) -> (loopback: IpAddress)
        ensures
            loopback@ == loopback_of(self@),
    {
        match self {
            IpAddress::V4(_) => {
                let octets = [127u8, 0, 0, 1];
                assert(octets@ =~= seq![127u8, 0, 0, 1]);
                IpAddress::V4(octets)
            },
            IpAddress::V6(_) => {
                let groups = [0u16, 0, 0, 0, 0, 0, 0, 1];
                assert(groups@ =~= zeros(7).push(1));
                IpAddress::V6(groups)
            },
        }
    }
}

proof fn lemma_run_is_zero(groups: Seq<u16>, from: int)
    requires
        0 <= from <= groups.len(),
    ensures
        forall|i: int| from <= i < from + zero_run(groups, from) ==> #[trigger] groups[i] == 0,
        (forall|i: int| from <= i < groups.len() ==> #[trigger] groups[i] == 0) ==> zero_run(
            groups,
            from,
        ) == groups.len() - from,
    decreases groups.len() - from,
{
    lemma_zero_run(groups, from);
    if from < groups.len() && groups[from] == 0 {
        lemma_run_is_zero(groups, from + 1);
    }
}

proof fn lemma_full_run(groups: Seq<u16>)
    requires
        groups.len() == 8,
    ensures
        (zero_run(groups, 0) == 8) == (groups == zeros(8)),
{
    lemma_run_is_zero(groups, 0);
    if zero_run(groups, 0) == 8 {
        assert(groups =~= zeros(8));
    }
}

impl SocketAddress {
    /// The address as text, e.g. `100.64.0.5:4433` or `[fd7a::1]:4433`.
    pub fn to_text(&self) -> (text: String)
        ensures
            text@ == socket_text(self@),
    {
        let mut text = String::new();
        match &self.ip {
            IpAddress::V4(octets) => {
                push_ipv4(&mut text, octets);
                text.push_str(":");
            },
            IpAddress::V6(groups) => {
                text.push_str("[");
                push_ipv6(&mut text, groups);
                if self.scope_id != 0 {
                    text.push_str("%");
                    text.push_str(&decimal(self.scope_id as u64));
                }
                text.push_str("]:");
            },
        }
        text.push_str(&decimal(self.port as u64));
        assert(text@ =~= socket_text(self@));
        text
    }
}

// ---- Laws --------------------------------------------------------------------

proof fn lemma_octet_text(octet: u8)
    ensures
        is_plain_octet(decimal_text(octet as nat)),
        decimal_value(decimal_text(octet as nat)) == octet,
        !decimal_text(octet as nat).contains('.'),
        !decimal_text(octet as nat).contains(':'),
{
    let text = decimal_text(octet as nat);
    lemma_decimal_text(octet as nat);
    law_decimal_text_has_no_leading_zero(octet as nat);
    reveal_with_fuel(decimal_text, 3);
    lemma_digits_hold_no_mark(text);
}

proof fn lemma_digits_hold_no_mark(text: Seq<char>)
    requires
        all_digits(text),
    ensures
        forall|c: char| !('0' <= c <= '9') ==> !#[trigger] text.contains(c),
{
    assert forall|c: char| !('0' <= c <= '9') implies !#[trigger] text.contains(c) by {
        if text.contains(c) {
            let k = choose|k: int| 0 <= k < text.len() && text[k] == c;
            assert(is_ascii_digit(text[k]));
        }
    }
}

/// A dotted quad is four numbers up to 255 in plain decimal digits, and every
/// such text is the one that its four octets are written as.
pub proof fn law_a_dotted_quad_is_its_octets(octets: Seq<u8>, text: Seq<char>)
    ensures
        octets.len() == 4 ==> ipv4_octets(ipv4_text(octets)) == Some(octets),
        ipv4_octets(text) matches Some(read) ==> ipv4_text(read) == text,
{
    reveal_strlit(".");
    assert("."@ =~= seq!['.']);
    if octets.len() == 4 {
        let one = decimal_text(octets[0] as nat);
        let two = decimal_text(octets[1] as nat);
        let three = decimal_text(octets[2] as nat);
        let four = decimal_text(octets[3] as nat);
        lemma_octet_text(octets[0]);
        lemma_octet_text(octets[1]);
        lemma_octet_text(octets[2]);
        lemma_octet_text(octets[3]);
        lemma_split_single(one, '.');
        lemma_split_push(one, two, '.');
        lemma_split_push(one + "."@ + two, three, '.');
        lemma_split_push(one + "."@ + two + "."@ + three, four, '.');
        let parts = split(ipv4_text(octets), '.');
        assert(parts == seq![one].push(two).push(three).push(four));
        assert(ipv4_octets(ipv4_text(octets))->0 =~= octets);
    }
    if let Some(read) = ipv4_octets(text) {
        let parts = split(text, '.');
        assert forall|k: int| 0 <= k < 4 implies decimal_text(read[k] as nat)
            == #[trigger] parts[k] by {
            assert(is_plain_octet(parts[k]));
            law_digits_are_the_text_of_their_number(parts[k]);
        }
        assert(decimal_text(read[0] as nat) == parts[0]);
        assert(decimal_text(read[1] as nat) == parts[1]);
        assert(decimal_text(read[2] as nat) == parts[2]);
        assert(decimal_text(read[3] as nat) == parts[3]);
        law_split_parts_make_the_text(text, '.');
        reveal_with_fuel(rejoined, 5);
        let rest = parts.skip(1);
        let last = rest.skip(1);
        assert(last.skip(1)[0] == parts[3]);
        assert(last[0] == parts[2] && rest[0] == parts[1]);
        assert(ipv4_text(read) =~= rejoined(parts, '.'));
    }
}

proof fn lemma_hex_text(value: nat)
    ensures
        hex_value(hex_text(value)) == value,
        hex_text(value).len() > 0,
        value < 0x10000 ==> hex_text(value).len() <= 4,
        forall|k: int|
            0 <= k < hex_text(value).len() ==> ('0' <= #[trigger] hex_text(value)[k] <= '9' || 'a'
                <= hex_text(value)[k] <= 'f'),
    decreases value,
{
    let text = hex_text(value);
    if value < 16 {
        reveal_with_fuel(hex_value, 2);
        assert(text.drop_last() =~= Seq::<char>::empty());
        assert(text.last() == hex_digit_char(value));
    } else {
        lemma_hex_text(value / 16);
        let front = hex_text(value / 16);
        assert(text.drop_last() =~= front);
        assert(text.last() == hex_digit_char(value % 16));
        assert forall|k: int| 0 <= k < text.len() implies ('0' <= #[trigger] text[k] <= '9' || 'a'
            <= text[k] <= 'f') by {
            if k < front.len() {
                assert(text[k] == front[k]);
            }
        }
        if value < 0x10000 {
            reveal_with_fuel(hex_text, 5);
        }
    }
}

proof fn lemma_group_text(group: u16)
    ensures
        is_plain_group(hex_text(group as nat)),
        hex_value(hex_text(group as nat)) == group,
        ipv4_octets(hex_text(group as nat)) is None,
        forall|c: char|
            !('0' <= c <= '9' || 'a' <= c <= 'f') ==> !#[trigger] hex_text(group as nat).contains(c),
{
    let text = hex_text(group as nat);
    lemma_hex_text(group as nat);
    assert forall|k: int| 0 <= k < text.len() implies is_hex_digit(#[trigger] text[k]) by {}
    assert forall|c: char| !('0' <= c <= '9' || 'a' <= c <= 'f') implies !#[trigger] text.contains(
        c,
    ) by {
        if text.contains(c) {
            let k = choose|k: int| 0 <= k < text.len() && text[k] == c;
        }
    }
    assert(!text.contains('.'));
    lemma_split_single(text, '.');
}

/// Whether colons stand apart in a text, and at neither end of it.
spec fn colons_apart(text: Seq<char>) -> bool {
    forall|k: int|
        0 <= k < text.len() && #[trigger] text[k] == ':' ==> 0 < k < text.len() - 1 && text[k + 1]
            != ':'
}

spec fn group_texts(groups: Seq<u16>) -> Seq<Seq<char>> {
    Seq::new(groups.len(), |k: int| hex_text(groups[k] as nat))
}

proof fn lemma_groups_text(groups: Seq<u16>)
    requires
        groups.len() > 0,
    ensures
        split(groups_text(groups), ':') == group_texts(groups),
        group_values(split(groups_text(groups), ':')) == Some(groups),
        plain_values(split(groups_text(groups), ':')) == Some(groups),
        colons_apart(groups_text(groups)),
        groups_text(groups).len() > 0,
        forall|k: int|
            0 <= k < groups_text(groups).len() ==> {
                let c = #[trigger] groups_text(groups)[k];
                '0' <= c <= '9' || 'a' <= c <= 'f' || c == ':'
            },
    decreases groups.len(),
{
    reveal_strlit(":");
    assert(":"@ =~= seq![':']);
    let text = groups_text(groups);
    let last = hex_text(groups.last() as nat);
    lemma_group_text(groups.last());
    lemma_hex_text(groups.last() as nat);
    assert(!last.contains(':'));
    if groups.len() == 1 {
        lemma_split_single(last, ':');
        assert(group_texts(groups) =~= seq![last]);
        assert forall|k: int| 0 <= k < text.len() && #[trigger] text[k] == ':' implies 0 < k
            < text.len() - 1 && text[k + 1] != ':' by {
            assert(last.contains(last[k]));
        }
    } else {
        let front = groups.drop_last();
        let front_text = groups_text(front);
        lemma_groups_text(front);
        lemma_split_push(front_text, last, ':');
        assert(text == front_text + seq![':'] + last);
        assert(group_texts(groups) =~= group_texts(front).push(last));
        let n = front_text.len() as int;
        assert forall|k: int| 0 <= k < text.len() implies {
            let c = #[trigger] text[k];
            '0' <= c <= '9' || 'a' <= c <= 'f' || c == ':'
        } by {
            if k < n {
                assert(text[k] == front_text[k]);
            } else if k > n {
                assert(text[k] == last[k - n - 1]);
            }
        }
        assert forall|k: int| 0 <= k < text.len() && #[trigger] text[k] == ':' implies 0 < k
            < text.len() - 1 && text[k + 1] != ':' by {
            if k < n {
                assert(front_text[k] == ':');
                assert(text[k + 1] == front_text[k + 1]);
            } else if k == n {
                assert(text[k + 1] == last[0]);
                assert(last.contains(last[0]));
            } else {
                assert(text[k] == last[k - n - 1]);
                assert(last.contains(last[k - n - 1]));
            }
        }
    }
    let parts = group_texts(groups);
    assert forall|k: int| 0 <= k < parts.len() implies is_plain_group(#[trigger] parts[k])
        && hex_value(parts[k]) as u16 == groups[k] by {
        lemma_group_text(groups[k]);
    }
    assert(plain_values(parts)->0 =~= groups);
    assert(parts.last() == last);
}

proof fn lemma_no_gap(text: Seq<char>)
    requires
        colons_apart(text),
    ensures
        find_text(text, "::"@) is None,
{
    reveal_strlit("::");
    lemma_find_text(text, "::"@);
    if let Some(at) = find_text(text, "::"@) {
        let two = text.subrange(at, at + 2);
        assert(two[0] == ':' && two[1] == ':');
        assert(text[at] == ':');
        assert(text[at + 1] == ':');
    }
}

proof fn lemma_gap_is_found(head: Seq<char>, tail: Seq<char>)
    requires
        colons_apart(head),
    ensures
        find_text(head + "::"@ + tail, "::"@) == Some(head.len() as int),
{
    reveal_strlit("::");
    let text = head + "::"@ + tail;
    let at = head.len() as int;
    assert(text.subrange(at, at + 2) =~= "::"@);
    law_the_first_occurrence_is_found(text, "::"@, at);
    let first = find_text(text, "::"@)->0;
    lemma_find_text(text, "::"@);
    if first < at {
        let two = text.subrange(first, first + 2);
        assert(two[0] == ':' && two[1] == ':');
        assert(text[first] == ':' && text[first + 1] == ':');
        assert(head[first] == ':');
        assert(head[first + 1] == text[first + 1]);
    }
}

proof fn lemma_longest_run(groups: Seq<u16>, count: nat)
    requires
        count <= groups.len(),
        groups.len() > 0,
    ensures
        0 <= longest_zero_run(groups, count) < groups.len(),
        forall|k: int|
            0 <= k < count ==> #[trigger] zero_run(groups, k) <= zero_run(
                groups,
                longest_zero_run(groups, count),
            ),
    decreases count,
{
    if count > 1 {
        lemma_longest_run(groups, (count - 1) as nat);
    }
}

proof fn lemma_mapped_mark(mark: Seq<char>)
    requires
        mark == seq!['f', 'f', 'f', 'f'],
    ensures
        plain_values(seq![mark]) == Some(seq![0xffffu16]),
        !mark.contains(':'),
{
    let none = Seq::<char>::empty();
    reveal_with_fuel(hex_value, 5);
    assert(mark.drop_last() =~= seq!['f', 'f', 'f']);
    assert(mark.drop_last().drop_last() =~= seq!['f', 'f']);
    assert(mark.drop_last().drop_last().drop_last() =~= seq!['f']);
    assert(mark.drop_last().drop_last().drop_last().drop_last() =~= none);
    assert(hex_value(mark) == 0xffff);
    assert(is_plain_group(mark));
    assert(plain_values(seq![mark])->0 =~= seq![0xffffu16]);
}

proof fn lemma_mapped_address(groups: Seq<u16>)
    requires
        groups.len() == 8,
        is_ipv4_mapped(groups),
    ensures
        ipv6_groups(ipv6_text(groups)) == Some(groups),
        forall|k: int|
            0 <= k < ipv6_text(groups).len() ==> {
                let c = #[trigger] ipv6_text(groups)[k];
                '0' <= c <= '9' || 'a' <= c <= 'f' || c == ':' || c == '.'
            },
{
    reveal_strlit("::");
    let none = Seq::<char>::empty();
    let text = ipv6_text(groups);
    let octets = mapped_octets(groups);
    let quad = ipv4_text(octets);
    reveal_strlit("::ffff:");
    let mark = seq!['f', 'f', 'f', 'f'];
    let side = mark + seq![':'] + quad;
    assert(text =~= none + "::"@ + side);
    assert(colons_apart(none));
    lemma_gap_is_found(none, side);
    assert(text.take(0) =~= none);
    assert(text.skip(2) =~= side);
    law_a_dotted_quad_is_its_octets(octets, quad);
    lemma_quad_chars(octets);
    assert(!quad.contains(':')) by {
        if quad.contains(':') {
            let k = choose|k: int| 0 <= k < quad.len() && quad[k] == ':';
        }
    }
    lemma_mapped_mark(mark);
    lemma_split_push(mark, quad, ':');
    lemma_split_single(mark, ':');
    let parts = split(side, ':');
    assert(parts == seq![mark].push(quad));
    assert(parts.drop_last() =~= seq![mark]);
    assert(parts.last() == quad);
    let six = (octets[0] * 256 + octets[1]) as u16;
    let seven = (octets[2] * 256 + octets[3]) as u16;
    assert(six == groups[6]);
    assert(seven == groups[7]);
    assert(group_values(parts) == Some(seq![0xffffu16] + seq![six, seven]));
    assert(groups[0] == 0 && groups[1] == 0 && groups[2] == 0 && groups[3] == 0 && groups[4] == 0);
    assert(Seq::<u16>::empty() + zeros(5) + (seq![0xffffu16] + seq![six, seven]) =~= groups);
    assert forall|k: int| 0 <= k < text.len() implies {
        let c = #[trigger] text[k];
        '0' <= c <= '9' || 'a' <= c <= 'f' || c == ':' || c == '.'
    } by {
        if k >= 7 {
            assert(text[k] == quad[k - 7]);
        }
    }
}

proof fn lemma_shortened_address(groups: Seq<u16>, start: int, run: int)
    requires
        groups.len() == 8,
        !is_ipv4_mapped(groups),
        start == longest_zero_run(groups, 8),
        run == zero_run(groups, start),
        run > 1,
        0 <= start,
        start + run <= 8,
        forall|i: int| start <= i < start + run ==> #[trigger] groups[i] == 0,
    ensures
        ipv6_groups(ipv6_text(groups)) == Some(groups),
        forall|k: int|
            0 <= k < ipv6_text(groups).len() ==> {
                let c = #[trigger] ipv6_text(groups)[k];
                '0' <= c <= '9' || 'a' <= c <= 'f' || c == ':' || c == '.'
            },
{
    reveal_strlit("::");
    let none = Seq::<char>::empty();
    let text = ipv6_text(groups);
    assert(colons_apart(none));
    let head = groups.take(start);
    let tail = groups.skip(start + run);
    let head_text = groups_text(head);
    let tail_text = groups_text(tail);
    if head.len() > 0 {
        lemma_groups_text(head);
    } else {
        assert(head_text =~= none);
        assert(head =~= Seq::<u16>::empty());
    }
    if tail.len() > 0 {
        lemma_groups_text(tail);
    } else {
        assert(tail_text =~= none);
        assert(tail =~= Seq::<u16>::empty());
    }
    lemma_gap_is_found(head_text, tail_text);
    let at = head_text.len() as int;
    assert(text.take(at) =~= head_text);
    assert(text.skip(at + 2) =~= tail_text);
    assert(head + zeros(run as nat) + tail =~= groups);
    assert forall|k: int| 0 <= k < text.len() implies {
        let c = #[trigger] text[k];
        '0' <= c <= '9' || 'a' <= c <= 'f' || c == ':' || c == '.'
    } by {
        if k < at {
            assert(text[k] == head_text[k]);
        } else if k >= at + 2 {
            assert(text[k] == tail_text[k - at - 2]);
        }
    }
}

/// An ipv6 address is read back from the text that it is written as, whatever
/// its groups are.
pub proof fn law_an_ipv6_address_is_read_as_it_is_written(groups: Seq<u16>)
    requires
        groups.len() == 8,
    ensures
        ipv6_groups(ipv6_text(groups)) == Some(groups),
        forall|k: int|
            0 <= k < ipv6_text(groups).len() ==> {
                let c = #[trigger] ipv6_text(groups)[k];
                '0' <= c <= '9' || 'a' <= c <= 'f' || c == ':' || c == '.'
            },
{
    if is_ipv4_mapped(groups) {
        lemma_mapped_address(groups);
    } else {
        let start = longest_zero_run(groups, 8);
        let run = zero_run(groups, start) as int;
        lemma_longest_run(groups, 8);
        lemma_zero_run(groups, start);
        lemma_run_is_zero(groups, start);
        if run > 1 {
            lemma_shortened_address(groups, start, run);
        } else {
            lemma_groups_text(groups);
            lemma_no_gap(ipv6_text(groups));
        }
    }
}

proof fn lemma_quad_chars(octets: Seq<u8>)
    requires
        octets.len() == 4,
    ensures
        forall|k: int|
            0 <= k < ipv4_text(octets).len() ==> ('0' <= #[trigger] ipv4_text(octets)[k] <= '9'
                || ipv4_text(octets)[k] == '.'),
        ipv4_text(octets).len() > 0,
{
    reveal_strlit(".");
    lemma_decimal_text(octets[0] as nat);
    lemma_decimal_text(octets[1] as nat);
    lemma_decimal_text(octets[2] as nat);
    lemma_decimal_text(octets[3] as nat);
    let one = decimal_text(octets[0] as nat);
    let two = decimal_text(octets[1] as nat);
    let three = decimal_text(octets[2] as nat);
    let four = decimal_text(octets[3] as nat);
    let text = ipv4_text(octets);
    let a = one.len() as int;
    let b = a + 1 + two.len();
    let c = b + 1 + three.len();
    assert forall|k: int| 0 <= k < text.len() implies ('0' <= #[trigger] text[k] <= '9' || text[k]
        == '.') by {
        if k < a {
            assert(text[k] == one[k]);
            assert(is_ascii_digit(one[k]));
        } else if a < k < b {
            assert(text[k] == two[k - a - 1]);
            assert(is_ascii_digit(two[k - a - 1]));
        } else if b < k < c {
            assert(text[k] == three[k - b - 1]);
            assert(is_ascii_digit(three[k - b - 1]));
        } else if k > c {
            assert(text[k] == four[k - c - 1]);
            assert(is_ascii_digit(four[k - c - 1]));
        }
    }
}

/// Whether a socket address is one that there is.
pub open spec fn is_socket(address: SocketView) -> bool {
    &&& address.port <= 0xffff
    &&& match address.ip {
        IpView::V4(octets) => octets.len() == 4 && address.scope_id == 0,
        IpView::V6(groups) => groups.len() == 8 && address.scope_id <= 0xffff_ffff,
    }
}

/// A socket address is read back from the text that it is written as: every
/// address, every scope and every port from zero up to 65535.
pub proof fn law_a_socket_address_is_read_as_it_is_written(address: SocketView)
    requires
        is_socket(address),
    ensures
        socket_address(socket_text(address)) == Some(address),
{
    reveal_strlit(":");
    reveal_strlit("[");
    reveal_strlit("]:");
    reveal_strlit("%");
    let text = socket_text(address);
    let port = decimal_text(address.port);
    lemma_decimal_text(address.port);
    match address.ip {
        IpView::V4(octets) => {
            let quad = ipv4_text(octets);
            law_a_dotted_quad_is_its_octets(octets, quad);
            lemma_quad_chars(octets);
            let at = quad.len() as int;
            assert(text[0] == quad[0]);
            assert(text[at] == ':');
            assert forall|j: int| 0 <= j < at implies text[j] != ':' by {
                assert(text[j] == quad[j]);
            }
            lemma_find_is(text, ':', at);
            assert(text.take(at) =~= quad);
            assert(text.skip(at + 1) =~= port);
        },
        IpView::V6(groups) => {
            let plain = ipv6_text(groups);
            law_an_ipv6_address_is_read_as_it_is_written(groups);
            let scope = if address.scope_id == 0 {
                Seq::<char>::empty()
            } else {
                "%"@ + decimal_text(address.scope_id)
            };
            lemma_decimal_text(address.scope_id);
            let inner = plain + scope;
            let close = inner.len() as int + 1;
            assert(text[close] == ']');
            assert(text[close + 1] == ':');
            assert forall|j: int| 0 <= j < close implies text[j] != ']' by {
                if 0 < j <= plain.len() {
                    assert(text[j] == plain[j - 1]);
                } else if j > plain.len() {
                    let k = j - 1 - plain.len();
                    assert(text[j] == scope[k]);
                    if k > 0 {
                        assert(scope[k] == decimal_text(address.scope_id)[k - 1]);
                        assert(is_ascii_digit(decimal_text(address.scope_id)[k - 1]));
                    }
                }
            }
            lemma_find_is(text, ']', close);
            assert(text.subrange(1, close) =~= inner);
            assert(text.skip(close + 2) =~= port);
            let at = plain.len() as int;
            assert forall|j: int| 0 <= j < at implies inner[j] != '%' by {
                assert(inner[j] == plain[j]);
            }
            if address.scope_id == 0 {
                assert(inner =~= plain);
            } else {
                assert(inner[at] == '%');
                assert(inner.take(at) =~= plain);
                assert(inner.skip(at + 1) =~= decimal_text(address.scope_id));
            }
            lemma_find_is(inner, '%', at);
        },
    }
}

/// An address is the wildcard exactly where every octet, or every group, is
/// zero; the loopback address is 127.0.0.1, or ::1.
pub proof fn law_wildcard_and_loopback(octets: Seq<u8>, groups: Seq<u16>)
    requires
        octets.len() == 4,
        groups.len() == 8,
    ensures
        is_wildcard(IpView::V4(octets)) <==> octets[0] == 0 && octets[1] == 0 && octets[2] == 0
            && octets[3] == 0,
        is_wildcard(IpView::V6(groups)) <==> forall|k: int| 0 <= k < 8 ==> #[trigger] groups[k] == 0,
        loopback_of(IpView::V4(octets)) == IpView::V4(seq![127u8, 0, 0, 1]),
        loopback_of(IpView::V6(groups)) == IpView::V6(seq![0u16, 0, 0, 0, 0, 0, 0, 1]),
{
    let none = Seq::new(4, |i: int| 0u8);
    assert(none[0] == 0 && none[1] == 0 && none[2] == 0 && none[3] == 0);
    if octets[0] == 0 && octets[1] == 0 && octets[2] == 0 && octets[3] == 0 {
        assert(octets =~= none);
    }
    if forall|k: int| 0 <= k < 8 ==> #[trigger] groups[k] == 0 {
        assert(groups =~= zeros(8));
    }
    assert(zeros(7).push(1) =~= seq![0u16, 0, 0, 0, 0, 0, 0, 1]);
}

/// The hexadecimal digits are the digits and the letters up to F, in either
/// case, and count up to fifteen.
pub proof fn law_what_hexadecimal_digits_are(c: char)
    ensures
        is_hex_digit(c) <==> '0' <= c <= '9' || 'a' <= c <= 'f' || 'A' <= c <= 'F',
        '0' <= c <= '9' ==> hex_digit_value(c) == c as u32 - '0' as u32,
        'a' <= c <= 'f' ==> hex_digit_value(c) == c as u32 - 'a' as u32 + 10,
        'A' <= c <= 'F' ==> hex_digit_value(c) == c as u32 - 'A' as u32 + 10,
{
}

proof fn lemma_plain_parts(parts: Seq<Seq<char>>)
    requires
        parts.len() > 0,
        forall|i: int| 0 <= i < parts.len() ==> is_plain_group(#[trigger] parts[i]),
    ensures
        split(rejoined(parts, ':'), ':') == parts,
        colons_apart(rejoined(parts, ':')),
        rejoined(parts, ':').len() > 0,
        plain_values(parts) is Some,
        group_values(parts) == plain_values(parts),
    decreases parts.len(),
{
    let text = rejoined(parts, ':');
    assert forall|i: int| 0 <= i < parts.len() implies !(#[trigger] parts[i]).contains(':')
        && !parts[i].contains('.') by {
        assert(is_plain_group(parts[i]));
        if parts[i].contains(':') {
            let k = choose|k: int| 0 <= k < parts[i].len() && parts[i][k] == ':';
            assert(is_hex_digit(parts[i][k]));
        }
        if parts[i].contains('.') {
            let k = choose|k: int| 0 <= k < parts[i].len() && parts[i][k] == '.';
            assert(is_hex_digit(parts[i][k]));
        }
    }
    lemma_rejoined_parts_split(parts, ':');
    let last = parts[parts.len() - 1];
    assert(!last.contains('.'));
    lemma_split_single(last, '.');
    assert(ipv4_octets(parts.last()) is None);
    let first = parts[0];
    let n = first.len() as int;
    assert(is_plain_group(first) && !first.contains(':'));
    if parts.len() == 1 {
        assert forall|k: int| 0 <= k < text.len() && #[trigger] text[k] == ':' implies 0 < k
            < text.len() - 1 && text[k + 1] != ':' by {
            assert(first.contains(first[k]));
        }
    } else {
        let tail = parts.skip(1);
        assert forall|i: int| 0 <= i < tail.len() implies is_plain_group(#[trigger] tail[i]) by {
            assert(tail[i] == parts[i + 1]);
        }
        lemma_plain_parts(tail);
        let behind = rejoined(tail, ':');
        assert(text =~= first + seq![':'] + behind);
        assert(behind[0] != ':');
        assert forall|k: int| 0 <= k < text.len() && #[trigger] text[k] == ':' implies 0 < k
            < text.len() - 1 && text[k + 1] != ':' by {
            if k < n {
                assert(first.contains(first[k]));
            } else if k == n {
                assert(text[k + 1] == behind[0]);
            } else {
                let j = k - n - 1;
                assert(behind[j] == ':');
                assert(text[k + 1] == behind[j + 1]);
            }
        }
    }
}

/// Eight groups of up to four hexadecimal digits with colons between them are an
/// ipv6 address, leading zeros and letter case notwithstanding, and any other
/// number of them is none.
pub proof fn law_eight_groups_are_an_address(parts: Seq<Seq<char>>)
    requires
        parts.len() > 0,
        forall|i: int| 0 <= i < parts.len() ==> is_plain_group(#[trigger] parts[i]),
    ensures
        parts.len() == 8 ==> ipv6_groups(rejoined(parts, ':')) == Some(
            Seq::new(8, |i: int| hex_value(parts[i]) as u16),
        ),
        parts.len() != 8 ==> ipv6_groups(rejoined(parts, ':')) is None,
{
    lemma_plain_parts(parts);
    lemma_no_gap(rejoined(parts, ':'));
    if parts.len() == 8 {
        assert(plain_values(parts)->0 =~= Seq::new(8, |i: int| hex_value(parts[i]) as u16));
    }
}

/// Two colons together stand for as many groups of zeros as there are missing,
/// one at least, wherever they stand.
pub proof fn law_two_colons_stand_for_zeros(head: Seq<Seq<char>>, tail: Seq<Seq<char>>)
    requires
        forall|i: int| 0 <= i < head.len() ==> is_plain_group(#[trigger] head[i]),
        forall|i: int| 0 <= i < tail.len() ==> is_plain_group(#[trigger] tail[i]),
    ensures
        ({
            let text = rejoined(head, ':') + "::"@ + rejoined(tail, ':');
            &&& head.len() + tail.len() <= 7 ==> (ipv6_groups(text) matches Some(groups)
                && groups.len() == 8 && (forall|i: int|
                0 <= i < head.len() ==> groups[i] == hex_value(#[trigger] head[i]) as u16) && (
            forall|i: int|
                head.len() <= i < 8 - tail.len() ==> #[trigger] groups[i] == 0) && (forall|i: int|
                0 <= i < tail.len() ==> groups[8 - tail.len() + i] == hex_value(
                    #[trigger] tail[i],
                ) as u16))
            &&& head.len() + tail.len() > 7 ==> ipv6_groups(text) is None
        }),
{
    reveal_strlit("::");
    let none = Seq::<char>::empty();
    let front = rejoined(head, ':');
    let back = rejoined(tail, ':');
    let text = front + "::"@ + back;
    if head.len() > 0 {
        lemma_plain_parts(head);
    } else {
        assert(front =~= none);
        assert(colons_apart(front));
    }
    if tail.len() > 0 {
        lemma_plain_parts(tail);
    } else {
        assert(back =~= none);
    }
    lemma_gap_is_found(front, back);
    assert(text.take(front.len() as int) =~= front);
    assert(text.skip(front.len() + 2int) =~= back);
}

/// A port is any decimal number up to 65535, leading zeros notwithstanding, and
/// no larger one.
pub proof fn law_which_ports_a_socket_has(octets: Seq<u8>, digits: Seq<char>)
    requires
        octets.len() == 4,
        digits.len() > 0,
        all_digits(digits),
    ensures
        decimal_value(digits) <= 65535 ==> socket_address(ipv4_text(octets) + ":"@ + digits) == Some(
            SocketView { ip: IpView::V4(octets), scope_id: 0, port: decimal_value(digits) },
        ),
        decimal_value(digits) > 65535 ==> socket_address(ipv4_text(octets) + ":"@ + digits) is None,
{
    reveal_strlit(":");
    let quad = ipv4_text(octets);
    let text = quad + ":"@ + digits;
    law_a_dotted_quad_is_its_octets(octets, quad);
    lemma_quad_chars(octets);
    let at = quad.len() as int;
    assert(text[0] == quad[0]);
    assert(text[at] == ':');
    assert forall|j: int| 0 <= j < at implies text[j] != ':' by {
        assert(text[j] == quad[j]);
    }
    lemma_find_is(text, ':', at);
    assert(text.take(at) =~= quad);
    assert(text.skip(at + 1) =~= digits);
}

/// Parsing undoes writing: from the text of a socket address that very address
/// is read.
pub proof fn law_parsing_undoes_writing(
    address: SocketAddress,
    text: String,
    chars: &[char],
    parsed: Option<SocketAddress>,
)
    requires
        call_ensures(SocketAddress::to_text, (&address,), text),
        call_ensures(SocketAddress::parse, (chars,), parsed),
        chars@ == text@,
        is_socket(address@),
    ensures
        parsed matches Some(read) && read@ == address@,
{
    law_a_socket_address_is_read_as_it_is_written(address@);
}

} // verus!
