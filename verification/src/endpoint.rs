//! The url a server declares that clients should dial.
//!
//! The bind address describes the local socket, which is the reachable url
//! only when nothing fronts the listener. `websocket_api.advertised_endpoint`
//! is what an operator declares when something does. One declaration serves
//! two surfaces, the pairing payload and the pong, and both read it through
//! this module, so a value either reaches both or neither.

use crate::config::WebSocketApiConfig;
use crate::net::{
    ipv4_octets, ipv6_groups, ipv6_text, law_an_ipv6_address_is_read_as_it_is_written, parse_ipv4,
    parse_ipv6,
};
use crate::text::{
    all_digits, ascii_alphanumeric, ascii_lower_all, borrowed, contains, decimal, decimal_text,
    decimal_up_to, decimal_value, declaration_of, declared, exceeds, find, find_last, find_text,
    has_prefix, is_ascii_alphanumeric, is_run, is_white_space, last_position,
    law_a_run_at_the_front_is_stripped, law_decimal_text_has_no_leading_zero,
    law_digits_are_the_text_of_their_number, law_split_parts_make_the_text, lemma_ascii_utf8_len,
    lemma_decimal_text, lemma_find, lemma_find_is, lemma_find_last, lemma_find_text_behind,
    lemma_rejoined_chars, lemma_rejoined_parts_split, lemma_split, lemma_split_push,
    lemma_split_single, lower_ascii, only_digits, position, position_of, quote, quoted, rejoined,
    same_option, slices, spells, split, split_at_each, starts_with, str_view, strip_last,
    strip_leading, strip_run, to_chars, to_text, utf8_len, view_of, without_last,
};
use vstd::prelude::*;
use vstd::slice::slice_subrange;

verus! {

// ---- Refusals ----------------------------------------------------------------

pub const NOT_A_WEBSOCKET_URL: &'static str = "expected a ws:// or wss:// url";

pub const NO_HOST: &'static str = "no host to dial; declare scheme, host, and optional port, e.g. wss://a-host.example.net:8443";

pub const HAS_WHITE_SPACE: &'static str = "a url cannot contain whitespace; declare it as one unbroken url, e.g. wss://a-host.example.net:8443";

pub const HAS_CREDENTIALS: &'static str = "credentials do not belong in a pairing endpoint; declare the host alone and let the token carry authorization, e.g. wss://a-host.example.net:8443";

pub const HAS_QUERY: &'static str = "a query would collide with the token the pairing payload appends; declare scheme, host, optional port, and optional path only, e.g. wss://a-host.example.net/herdr-ws";

pub const HAS_FRAGMENT: &'static str = "a fragment is never sent to a server, so it cannot be part of the url a client dials; declare scheme, host, optional port, and optional path only, e.g. wss://a-host.example.net/herdr-ws";

pub const HAS_BACKSLASH: &'static str = "a backslash is read as a path separator, so a client would dial a url spelled differently than the one declared; write path separators as forward slashes, e.g. wss://a-host.example.net/herdr-ws";

pub const UNTERMINATED_IPV6: &'static str = "unterminated ipv6 literal; brackets must be closed, e.g. wss://[fd7a::1]:8443";

pub const UNBRACKETED_IPV6: &'static str = "an ipv6 literal must be wrapped in brackets, e.g. wss://[fd7a::1]:8443";

pub const NOT_AN_IPV6_ADDRESS: &'static str = " is bracketed but is not an ipv6 address, and brackets are only for ipv6 literals; write an address as wss://[fd7a::1]:8443 or a name without brackets as wss://a-host.example.net:8443";

pub const READ_AS_IPV4: &'static str = " is read as an ipv4 address, not a name, because it ends in a number, and a client would refuse it or dial a different address than it spells; write it as four plain decimal octets 0-255 with no leading zeros and no trailing dot, e.g. 100.64.0.5";

pub const NAME_TOO_LONG: &'static str = "a host name cannot exceed 253 characters; declare the name the proxy actually serves, e.g. wss://a-host.example.net:8443";

pub const EMPTY_LABEL: &'static str = " has an empty label, and a host name cannot contain \"..\" or start with a dot; write the labels out, e.g. wss://a-host.example.net:8443";

pub const LABEL_TOO_LONG: &'static str = " has a label longer than 63 characters, which no resolver accepts; keep each label at 63 or fewer, e.g. wss://a-host.example.net:8443";

pub const HYPHEN_EDGED_LABEL: &'static str = " has a label starting or ending with a hyphen, which is not a resolvable name; hyphens may only sit inside a label, e.g. wss://a-host.example.net:8443";

pub const NOT_A_HOST_NAME: &'static str = " is not an ipv4 literal, a bracketed ipv6 literal, or a host name; a name may hold only ascii letters, digits, hyphens, and underscores. A non-ascii name has to be declared in its punycode (xn--) form, which is what a client resolves it to anyway";

pub const NOT_PLAIN_DIGITS: &'static str = " is not a port a client could dial; write plain digits, e.g. 8443";

pub const LEADING_ZERO_PORT: &'static str = " has a leading zero, which a client strips before dialling; write the port plainly, e.g. ";

pub const PORT_OUT_OF_RANGE: &'static str = " is not a port a client could dial; use a port in 1-65535, e.g. 8443";

pub const DOT_SEGMENT: &'static str = " is resolved away before a client dials, so it would dial a different path than the one declared; write the path out, e.g. wss://a-host.example.net/herdr-ws";

pub const EMPTY_SEGMENT: &'static str = "a path segment cannot be empty; write single slashes between the segments, e.g. wss://a-host.example.net/herdr-ws";

pub const PERCENT_ESCAPE: &'static str = "a percent escape is not preserved identically by every client and proxy, so the path dialled would not reliably be the one declared; write the path in plain characters, e.g. wss://a-host.example.net/herdr-ws";

pub const NOT_A_SEGMENT: &'static str = " is not a path segment this endpoint can promise to round-trip; a path may hold only ascii letters, digits, hyphens, dots, underscores, and tildes, which every client dials unchanged, e.g. wss://a-host.example.net/herdr-ws";

/// A refusal that first quotes what it is about.
fn about(subject: &[char], message: &str) -> (refusal: String)
    ensures
        refusal@ == quoted(subject@) + message@,
{
    let text = to_text(subject);
    let mut refusal = quote(&text);
    refusal.push_str(message);
    refusal
}

// ---- Ports ---------------------------------------------------------------------

/// Why a client could not dial a port as the digits configured.
pub open spec fn port_refusal(port: Seq<char>) -> Option<Seq<char>> {
    let stripped = strip_run(port, '0');
    if port.len() == 0 || !all_digits(port) {
        Some(quoted(port) + NOT_PLAIN_DIGITS@)
    } else if port.len() > 1 && port[0] == '0' && stripped.len() > 0 && decimal_value(stripped)
        <= 0xffff {
        Some(quoted(port) + LEADING_ZERO_PORT@ + decimal_text(decimal_value(stripped)))
    } else if (port.len() > 1 && port[0] == '0') || decimal_value(port) == 0 || decimal_value(port)
        > 0xffff {
        Some(quoted(port) + PORT_OUT_OF_RANGE@)
    } else {
        None
    }
}

proof fn lemma_stripped_port(port: Seq<char>)
    requires
        all_digits(port),
    ensures
        all_digits(strip_run(port, '0')),
        strip_run(port, '0').len() > 0 ==> decimal_value(strip_run(port, '0')) > 0,
    decreases port.len(),
{
    if port.len() > 0 && port[0] == '0' {
        assert forall|i: int| 0 <= i < port.skip(1).len() implies crate::text::is_ascii_digit(
            #[trigger] port.skip(1)[i],
        ) by {
            assert(port.skip(1)[i] == port[i + 1]);
        }
        lemma_stripped_port(port.skip(1));
    } else if port.len() > 0 {
        lemma_leading_digit_counts(port);
    }
}

proof fn lemma_leading_digit_counts(digits: Seq<char>)
    requires
        digits.len() > 0,
        all_digits(digits),
        digits[0] != '0',
    ensures
        decimal_value(digits) > 0,
    decreases digits.len(),
{
    assert(crate::text::is_ascii_digit(digits[digits.len() - 1]));
    if digits.len() > 1 {
        let front = digits.drop_last();
        assert(forall|i: int| 0 <= i < front.len() ==> front[i] == digits[i]);
        lemma_leading_digit_counts(front);
    } else {
        assert(digits.drop_last() =~= Seq::<char>::empty());
    }
}

/// Accept only ports that a client dials as the digits configured.
fn validate_port(port: &[char]) -> (verdict: Result<(), String>)
    ensures
        match verdict {
            Ok(()) => port_refusal(port@) is None,
            Err(refusal) => port_refusal(port@) == Some(refusal@),
        },
{
    if port.len() == 0 || !only_digits(port) {
        return Err(about(port, NOT_PLAIN_DIGITS));
    }
    if port.len() > 1 && port[0] == '0' {
        // Only name the stripped value where it can itself be dialled.
        let stripped = strip_leading(port, '0');
        proof {
            lemma_stripped_port(port@);
        }
        if let Some(canonical) = decimal_up_to(stripped, 0xffff) {
            let mut refusal = about(port, LEADING_ZERO_PORT);
            refusal.push_str(&decimal(canonical));
            return Err(refusal);
        }
        return Err(about(port, PORT_OUT_OF_RANGE));
    }
    match decimal_up_to(port, 0xffff) {
        None => Err(about(port, PORT_OUT_OF_RANGE)),
        Some(value) => if value == 0 {
            Err(about(port, PORT_OUT_OF_RANGE))
        } else {
            Ok(())
        },
    }
}

// ---- Hosts ---------------------------------------------------------------------

/// What shape a client reads the host of an authority as.
enum HostForm<'a> {
    /// Bracketed, so a client reads the contents as an ipv6 address.
    Ipv6Literal(&'a [char]),
    /// Everything else: an ipv4 literal or a name.
    Bare(&'a [char]),
}

/// A host form over the characters it holds.
pub ghost enum HostShape {
    Ipv6Literal(Seq<char>),
    Bare(Seq<char>),
}

impl<'a> View for HostForm<'a> {
    type V = HostShape;

    closed spec fn view(&self) -> HostShape {
        match self {
            HostForm::Ipv6Literal(literal) => HostShape::Ipv6Literal(literal@),
            HostForm::Bare(host) => HostShape::Bare(host@),
        }
    }
}

/// Whether a client reads a host as an ipv4 number rather than a name: its
/// last label is digits or has a hexadecimal prefix. One trailing dot is the
/// dns root, not a label.
pub open spec fn ends_in_a_number(host: Seq<char>) -> bool {
    let last = split(without_last(host, '.'), '.').last();
    last.len() > 0 && (has_prefix(last, "0x"@) || has_prefix(last, "0X"@) || all_digits(last))
}

fn last_label_looks_numeric(host: &[char]) -> (yes: bool)
    ensures
        yes == ends_in_a_number(host@),
{
    let name = strip_last(host, '.');
    let labels = split_at_each(name, '.');
    let last = labels[labels.len() - 1];
    assert(slices(labels@).last() == last@);
    last.len() > 0 && (starts_with(last, "0x") || starts_with(last, "0X") || only_digits(last))
}

/// The one ipv4 spelling that this module and a client agree on exactly: four
/// plain decimal octets.
fn is_canonical_dotted_quad(host: &[char]) -> (yes: bool)
    ensures
        yes == (ipv4_octets(host@) is Some),
{
    parse_ipv4(host).is_some()
}

pub open spec fn is_label_char(c: char) -> bool {
    is_ascii_alphanumeric(c) || c == '-' || c == '_'
}

/// Why one label cannot be part of a host name.
pub open spec fn label_refusal(host: Seq<char>, label: Seq<char>) -> Option<Seq<char>> {
    if label.len() == 0 {
        Some(quoted(host) + EMPTY_LABEL@)
    } else if utf8_len(label) > 63 {
        Some(quoted(host) + LABEL_TOO_LONG@)
    } else if label[0] == '-' || label.last() == '-' {
        Some(quoted(host) + HYPHEN_EDGED_LABEL@)
    } else if !(forall|i: int| 0 <= i < label.len() ==> is_label_char(#[trigger] label[i])) {
        Some(quoted(host) + NOT_A_HOST_NAME@)
    } else {
        None
    }
}

/// The refusal of the first label that is refused.
pub open spec fn labels_refusal(host: Seq<char>, labels: Seq<Seq<char>>) -> Option<Seq<char>>
    decreases labels.len(),
{
    if labels.len() == 0 {
        None
    } else if label_refusal(host, labels[0]) is Some {
        label_refusal(host, labels[0])
    } else {
        labels_refusal(host, labels.skip(1))
    }
}

/// Why a client could not be trusted to dial a host as written.
pub open spec fn host_refusal(host: HostShape) -> Option<Seq<char>> {
    match host {
        HostShape::Ipv6Literal(literal) => if ipv6_groups(literal) is Some {
            None
        } else {
            Some(quoted(literal) + NOT_AN_IPV6_ADDRESS@)
        },
        HostShape::Bare(host) => if host.len() == 0 {
            Some(NO_HOST@)
        } else if ends_in_a_number(host) {
            if ipv4_octets(host) is Some {
                None
            } else {
                Some(quoted(host) + READ_AS_IPV4@)
            }
        } else if utf8_len(without_last(host, '.')) > 253 {
            Some(NAME_TOO_LONG@)
        } else {
            labels_refusal(host, split(without_last(host, '.'), '.'))
        },
    }
}

#[verifier::loop_isolation(false)]
fn validate_label(host: &[char], label: &[char]) -> (verdict: Result<(), String>)
    ensures
        match verdict {
            Ok(()) => label_refusal(host@, label@) is None,
            Err(refusal) => label_refusal(host@, label@) == Some(refusal@),
        },
{
    if label.len() == 0 {
        return Err(about(host, EMPTY_LABEL));
    }
    if exceeds(label, 63) {
        return Err(about(host, LABEL_TOO_LONG));
    }
    if label[0] == '-' || label[label.len() - 1] == '-' {
        return Err(about(host, HYPHEN_EDGED_LABEL));
    }
    let mut i: usize = 0;
    while i < label.len()
        invariant
            i <= label@.len(),
            forall|j: int| 0 <= j < i ==> is_label_char(#[trigger] label@[j]),
        decreases label@.len() - i,
    {
        let c: char = label[i];
        if !(ascii_alphanumeric(c) || c == '-' || c == '_') {
            assert(!is_label_char(label@[i as int]));
            return Err(about(host, NOT_A_HOST_NAME));
        }
        i += 1;
    }
    Ok(())
}

/// Accept only hosts that a client resolves as they are written.
#[verifier::loop_isolation(false)]
fn validate_host(host: HostForm<'_>) -> (verdict: Result<(), String>)
    ensures
        match verdict {
            Ok(()) => host_refusal(host@) is None,
            Err(refusal) => host_refusal(host@) == Some(refusal@),
        },
{
    let host = match host {
        // Brackets promise an ipv6 address, so the contents must be one.
        HostForm::Ipv6Literal(literal) => {
            if parse_ipv6(literal).is_some() {
                return Ok(());
            }
            return Err(about(literal, NOT_AN_IPV6_ADDRESS));
        },
        HostForm::Bare(host) => host,
    };
    if host.len() == 0 {
        return Err(NO_HOST.to_string());
    }
    if last_label_looks_numeric(host) {
        if is_canonical_dotted_quad(host) {
            return Ok(());
        }
        return Err(about(host, READ_AS_IPV4));
    }
    let name = strip_last(host, '.');
    if exceeds(name, 253) {
        return Err(NAME_TOO_LONG.to_string());
    }
    let labels = split_at_each(name, '.');
    let ghost all = slices(labels@);
    let mut i: usize = 0;
    assert(all.skip(0) =~= all);
    while i < labels.len()
        invariant
            i <= labels@.len(),
            all == slices(labels@),
            labels_refusal(host@, all.skip(i as int)) == labels_refusal(host@, all),
        decreases labels@.len() - i,
    {
        assert(all.skip(i as int)[0] == labels@[i as int]@);
        assert(all.skip(i as int).skip(1) =~= all.skip(i + 1));
        validate_label(host, labels[i])?;
        i += 1;
    }
    Ok(())
}

/// The host and the optional port of an authority, or why it has none.
pub open spec fn host_and_port(authority: Seq<char>) -> Result<
    (HostShape, Option<Seq<char>>),
    Seq<char>,
> {
    if authority.len() > 0 && authority[0] == '[' {
        let rest = authority.skip(1);
        let close = find(rest, ']');
        let tail = rest.skip(close + 1);
        if close >= rest.len() {
            Err(UNTERMINATED_IPV6@)
        } else if tail.len() == 0 {
            Ok((HostShape::Ipv6Literal(rest.take(close)), None))
        } else if tail[0] == ':' {
            Ok((HostShape::Ipv6Literal(rest.take(close)), Some(tail.skip(1))))
        } else {
            Err(
                "expected a port after the ipv6 literal, found "@ + quoted(tail)
                    + "; write it as wss://[fd7a::1]:8443"@,
            )
        }
    } else {
        let colon = find_last(authority, ':');
        if colon < 0 {
            Ok((HostShape::Bare(authority), None))
        } else if authority.take(colon).contains(':') {
            Err(UNBRACKETED_IPV6@)
        } else {
            Ok((HostShape::Bare(authority.take(colon)), Some(authority.skip(colon + 1))))
        }
    }
}

/// Split an authority into host and optional port. An ipv6 literal must be
/// bracketed, since without brackets it cannot be told from a host with a
/// port.
fn split_host_and_port<'a>(authority: &'a [char]) -> (parts: Result<
    (HostForm<'a>, Option<&'a [char]>),
    String,
>)
    ensures
        match parts {
            Ok((host, None)) => host_and_port(authority@) == Ok::<
                (HostShape, Option<Seq<char>>),
                Seq<char>,
            >((host@, None)),
            Ok((host, Some(port))) => host_and_port(authority@) == Ok::<
                (HostShape, Option<Seq<char>>),
                Seq<char>,
            >((host@, Some(port@))),
            Err(refusal) => host_and_port(authority@) == Err::<
                (HostShape, Option<Seq<char>>),
                Seq<char>,
            >(refusal@),
        },
{
    if authority.len() > 0 && authority[0] == '[' {
        let rest = slice_subrange(authority, 1, authority.len());
        assert(rest@ =~= authority@.skip(1));
        let close: usize = position(rest, ']');
        if close >= rest.len() {
            return Err(UNTERMINATED_IPV6.to_string());
        }
        let host = slice_subrange(rest, 0, close);
        let tail = slice_subrange(rest, close + 1, rest.len());
        assert(host@ =~= rest@.take(close as int));
        assert(tail@ =~= rest@.skip(close + 1));
        if tail.len() == 0 {
            return Ok((HostForm::Ipv6Literal(host), None));
        }
        if tail[0] != ':' {
            let mut refusal = "expected a port after the ipv6 literal, found ".to_string();
            refusal.push_str(&quote(&to_text(tail)));
            refusal.push_str("; write it as wss://[fd7a::1]:8443");
            return Err(refusal);
        }
        let port = slice_subrange(tail, 1, tail.len());
        assert(port@ =~= tail@.skip(1));
        return Ok((HostForm::Ipv6Literal(host), Some(port)));
    }
    match last_position(authority, ':') {
        None => Ok((HostForm::Bare(authority), None)),
        Some(colon) => {
            let host = slice_subrange(authority, 0, colon);
            let port = slice_subrange(authority, colon + 1, authority.len());
            assert(host@ =~= authority@.take(colon as int));
            assert(port@ =~= authority@.skip(colon + 1));
            if contains(host, ':') {
                Err(UNBRACKETED_IPV6.to_string())
            } else {
                Ok((HostForm::Bare(host), Some(port)))
            }
        },
    }
}

/// Why a client could not be trusted to dial an authority as written.
pub open spec fn authority_refusal(authority: Seq<char>) -> Option<Seq<char>> {
    match host_and_port(authority) {
        Err(refusal) => Some(refusal),
        Ok((host, port)) => if host_refusal(host) is Some {
            host_refusal(host)
        } else {
            match port {
                Some(port) => port_refusal(port),
                None => None,
            }
        },
    }
}

fn validate_authority(authority: &[char]) -> (verdict: Result<(), String>)
    ensures
        match verdict {
            Ok(()) => authority_refusal(authority@) is None,
            Err(refusal) => authority_refusal(authority@) == Some(refusal@),
        },
{
    let (host, port) = split_host_and_port(authority)?;
    validate_host(host)?;
    match port {
        Some(port) => validate_port(port),
        None => Ok(()),
    }
}

// ---- Paths ---------------------------------------------------------------------

pub open spec fn is_segment_char(c: char) -> bool {
    is_ascii_alphanumeric(c) || c == '-' || c == '.' || c == '_' || c == '~'
}

/// Why a path segment would not be dialled as written.
pub open spec fn segment_refusal(segment: Seq<char>) -> Option<Seq<char>> {
    if segment.len() == 0 {
        Some(EMPTY_SEGMENT@)
    } else if segment == "."@ || segment == ".."@ {
        Some(quoted(segment) + DOT_SEGMENT@)
    } else if segment.contains('%') {
        Some(PERCENT_ESCAPE@)
    } else if !(forall|i: int|
        0 <= i < segment.len() ==> is_segment_char(#[trigger] segment[i])) {
        Some(quoted(segment) + NOT_A_SEGMENT@)
    } else {
        None
    }
}

/// The refusal of the first segment that is refused.
pub open spec fn segments_refusal(segments: Seq<Seq<char>>) -> Option<Seq<char>>
    decreases segments.len(),
{
    if segments.len() == 0 {
        None
    } else if segment_refusal(segments[0]) is Some {
        segment_refusal(segments[0])
    } else {
        segments_refusal(segments.skip(1))
    }
}

#[verifier::loop_isolation(false)]
fn validate_segment(segment: &[char]) -> (verdict: Result<(), String>)
    ensures
        match verdict {
            Ok(()) => segment_refusal(segment@) is None,
            Err(refusal) => segment_refusal(segment@) == Some(refusal@),
        },
{
    if segment.len() == 0 {
        return Err(EMPTY_SEGMENT.to_string());
    }
    if spells(segment, ".") || spells(segment, "..") {
        return Err(about(segment, DOT_SEGMENT));
    }
    if contains(segment, '%') {
        return Err(PERCENT_ESCAPE.to_string());
    }
    let mut i: usize = 0;
    while i < segment.len()
        invariant
            i <= segment@.len(),
            forall|j: int| 0 <= j < i ==> is_segment_char(#[trigger] segment@[j]),
        decreases segment@.len() - i,
    {
        let c: char = segment[i];
        if !(ascii_alphanumeric(c) || c == '-' || c == '.' || c == '_' || c == '~') {
            assert(!is_segment_char(segment@[i as int]));
            return Err(about(segment, NOT_A_SEGMENT));
        }
        i += 1;
    }
    Ok(())
}

#[verifier::loop_isolation(false)]
fn validate_path(path: &[char]) -> (verdict: Result<(), String>)
    ensures
        match verdict {
            Ok(()) => segments_refusal(split(path@, '/')) is None,
            Err(refusal) => segments_refusal(split(path@, '/')) == Some(refusal@),
        },
{
    let segments = split_at_each(path, '/');
    let ghost all = slices(segments@);
    let mut i: usize = 0;
    assert(all.skip(0) =~= all);
    while i < segments.len()
        invariant
            i <= segments@.len(),
            all == slices(segments@),
            segments_refusal(all.skip(i as int)) == segments_refusal(all),
        decreases segments@.len() - i,
    {
        assert(all.skip(i as int)[0] == segments@[i as int]@);
        assert(all.skip(i as int).skip(1) =~= all.skip(i + 1));
        validate_segment(segments[i])?;
        i += 1;
    }
    Ok(())
}

// ---- Whole urls ------------------------------------------------------------------

pub open spec fn has_white_space(text: Seq<char>) -> bool {
    exists|i: int| 0 <= i < text.len() && is_white_space(#[trigger] text[i])
}

/// Why what follows the scheme could not be dialled as written: the authority
/// reaches up to the first slash, and the path follows it.
pub open spec fn rest_refusal(rest: Seq<char>) -> Option<Seq<char>> {
    let slash = find(rest, '/');
    let authority = rest.take(slash);
    if rest.len() == 0 {
        Some(NO_HOST@)
    } else if has_white_space(rest) {
        Some(HAS_WHITE_SPACE@)
    } else if authority.contains('@') {
        Some(HAS_CREDENTIALS@)
    } else if find(rest, '?') < find(rest, '#') {
        Some(HAS_QUERY@)
    } else if find(rest, '#') < find(rest, '?') {
        Some(HAS_FRAGMENT@)
    } else if rest.contains('\\') {
        Some(HAS_BACKSLASH@)
    } else if authority_refusal(authority) is Some {
        authority_refusal(authority)
    } else if slash < rest.len() {
        segments_refusal(split(rest.skip(slash + 1), '/'))
    } else {
        None
    }
}

/// The canonical form of a declared endpoint, or why it is refused: a
/// lowercase `ws` or `wss` scheme, then host, port and path as configured,
/// without one trailing slash.
pub open spec fn normalized(advertised: Seq<char>) -> Result<Seq<char>, Seq<char>> {
    match find_text(advertised, "://"@) {
        None => Err(NOT_A_WEBSOCKET_URL@),
        Some(at) => {
            let scheme = ascii_lower_all(advertised.take(at));
            let rest = without_last(advertised.skip(at + 3), '/');
            if scheme != "ws"@ && scheme != "wss"@ {
                Err("a websocket client cannot dial "@ + scheme + "://; use ws:// or wss://"@)
            } else {
                match rest_refusal(rest) {
                    Some(refusal) => Err(refusal),
                    None => Ok(scheme + "://"@ + rest),
                }
            }
        },
    }
}

fn any_white_space(text: &[char]) -> (yes: bool)
    ensures
        yes == has_white_space(text@),
{
    let mut i: usize = 0;
    while i < text.len()
        invariant
            i <= text@.len(),
            forall|j: int| 0 <= j < i ==> !is_white_space(#[trigger] text@[j]),
        decreases text@.len() - i,
    {
        if text[i].is_whitespace() {
            assert(is_white_space(text@[i as int]));
            return true;
        }
        i += 1;
    }
    false
}

fn validate_rest(rest: &[char]) -> (verdict: Result<(), String>)
    ensures
        match verdict {
            Ok(()) => rest_refusal(rest@) is None,
            Err(refusal) => rest_refusal(rest@) == Some(refusal@),
        },
{
    if rest.len() == 0 {
        return Err(NO_HOST.to_string());
    }
    if any_white_space(rest) {
        return Err(HAS_WHITE_SPACE.to_string());
    }
    let slash: usize = position(rest, '/');
    let authority = slice_subrange(rest, 0, slash);
    assert(authority@ =~= rest@.take(slash as int));
    if contains(authority, '@') {
        return Err(HAS_CREDENTIALS.to_string());
    }
    let query: usize = position(rest, '?');
    let fragment: usize = position(rest, '#');
    if query < fragment {
        return Err(HAS_QUERY.to_string());
    }
    if fragment < query {
        return Err(HAS_FRAGMENT.to_string());
    }
    if contains(rest, '\\') {
        return Err(HAS_BACKSLASH.to_string());
    }
    validate_authority(authority)?;
    if slash < rest.len() {
        let path = slice_subrange(rest, slash + 1, rest.len());
        assert(path@ =~= rest@.skip(slash + 1));
        return validate_path(path);
    }
    Ok(())
}

/// Validate a declared endpoint and return its canonical form.
///
/// Every accepted value is one that a client dials as exactly the host, port
/// and path configured; refusing something a client could have dialled is
/// acceptable, and the refusal then names the form to use instead.
pub fn normalize_advertised_endpoint(advertised: &str) -> (canonical: Result<String, String>)
    ensures
        match canonical {
            Ok(endpoint) => normalized(advertised@) == Ok::<Seq<char>, Seq<char>>(endpoint@),
            Err(refusal) => normalized(advertised@) == Err::<Seq<char>, Seq<char>>(refusal@),
        },
{
    let url = to_chars(advertised);
    proof {
        reveal_strlit("://");
    }
    let at: usize = match position_of(&url, "://") {
        None => {
            return Err(NOT_A_WEBSOCKET_URL.to_string());
        },
        Some(at) => at,
    };
    assert("://"@.len() == 3);
    let end: usize = url.len();
    let mut scheme: Vec<char> = Vec::new();
    let mut i: usize = 0;
    while i < at
        invariant
            i <= at <= url@.len(),
            scheme@ == ascii_lower_all(url@.take(i as int)),
        decreases at - i,
    {
        scheme.push(lower_ascii(url[i]));
        i += 1;
        assert(scheme@ =~= ascii_lower_all(url@.take(i as int)));
    }
    if !spells(&scheme, "ws") && !spells(&scheme, "wss") {
        let mut refusal = "a websocket client cannot dial ".to_string();
        refusal.push_str(&to_text(&scheme));
        refusal.push_str("://; use ws:// or wss://");
        return Err(refusal);
    }
    let tail = slice_subrange(&url, at + 3, end);
    assert(tail@ =~= url@.skip(at + 3));
    let rest = strip_last(tail, '/');
    validate_rest(rest)?;
    let mut endpoint = to_text(&scheme);
    endpoint.push_str("://");
    endpoint.push_str(&to_text(rest));
    Ok(endpoint)
}

// ---- Laws ------------------------------------------------------------------------

proof fn lemma_accepted_segments(segments: Seq<Seq<char>>)
    requires
        segments_refusal(segments) is None,
    ensures
        forall|i: int| 0 <= i < segments.len() ==> segment_refusal(#[trigger] segments[i]) is None,
    decreases segments.len(),
{
    if segments.len() > 0 {
        lemma_accepted_segments(segments.skip(1));
        assert forall|i: int| 0 <= i < segments.len() implies segment_refusal(
            #[trigger] segments[i],
        ) is None by {
            if i > 0 {
                assert(segments[i] == segments.skip(1)[i - 1]);
            }
        }
    }
}

/// What follows the scheme of an accepted endpoint never ends with a slash.
pub proof fn lemma_accepted_rest_has_no_trailing_slash(rest: Seq<char>)
    requires
        rest_refusal(rest) is None,
    ensures
        rest.len() > 0,
        rest.last() != '/',
{
    lemma_find(rest, '/');
    let slash = find(rest, '/');
    if rest.last() == '/' {
        assert(rest[rest.len() - 1] == '/');
        let path = rest.skip(slash + 1);
        crate::text::lemma_split(path, '/');
        lemma_accepted_segments(split(path, '/'));
        assert(path.len() > 0 ==> path.last() == rest.last());
        let segments = split(path, '/');
        assert(segment_refusal(segments[segments.len() - 1]) is None);
    }
}

/// The canonical form splits where its own scheme ends.
pub proof fn lemma_scheme_ends_first(scheme: Seq<char>, rest: Seq<char>)
    requires
        scheme == "ws"@ || scheme == "wss"@,
    ensures
        find_text(scheme + "://"@ + rest, "://"@) == Some(scheme.len() as int),
        (scheme + "://"@ + rest).take(scheme.len() as int) == scheme,
        (scheme + "://"@ + rest).skip(scheme.len() as int + 3) == rest,
        ascii_lower_all(scheme) == scheme,
{
    reveal_strlit("ws");
    reveal_strlit("wss");
    reveal_strlit("://");
    let url = scheme + "://"@ + rest;
    reveal_with_fuel(find_text, 5);
    assert(url.take(scheme.len() as int) =~= scheme);
    assert(url.skip(scheme.len() as int + 3) =~= rest);
    assert(ascii_lower_all(scheme) =~= scheme);
    assert(url[0] == 'w');
    assert(url.take(3)[0] == 'w');
    assert("://"@[0] == ':');
    let one = url.skip(1);
    assert(one[0] == 's');
    assert(one.take(3)[0] == 's');
    let two = one.skip(1);
    if scheme.len() == 2 {
        assert(two.take(3) =~= "://"@);
    } else {
        assert(two[0] == 's');
        assert(two.take(3)[0] == 's');
        let three = two.skip(1);
        assert(three.take(3) =~= "://"@);
    }
}

/// Normalizing is stable: the canonical form of an accepted endpoint is
/// accepted, and is its own canonical form.
pub proof fn law_canonical_endpoint_is_its_own_canonical_form(
    advertised: Seq<char>,
    canonical: Seq<char>,
)
    requires
        normalized(advertised) == Ok::<Seq<char>, Seq<char>>(canonical),
    ensures
        normalized(canonical) == Ok::<Seq<char>, Seq<char>>(canonical),
{
    let at = find_text(advertised, "://"@)->0;
    let scheme = ascii_lower_all(advertised.take(at));
    let rest = without_last(advertised.skip(at + 3), '/');
    lemma_scheme_ends_first(scheme, rest);
    lemma_accepted_rest_has_no_trailing_slash(rest);
}

/// A path of one slash declares the same url as no path at all: both
/// spellings get the same answer.
pub proof fn law_root_path_is_no_path(scheme: Seq<char>, authority: Seq<char>)
    requires
        scheme == "ws"@ || scheme == "wss"@,
        authority.len() == 0 || authority.last() != '/',
    ensures
        normalized(scheme + "://"@ + authority.push('/')) == normalized(
            scheme + "://"@ + authority,
        ),
{
    lemma_scheme_ends_first(scheme, authority.push('/'));
    lemma_scheme_ends_first(scheme, authority);
    assert(authority.push('/').drop_last() =~= authority);
}

/// A port is accepted exactly where it is the decimal text, without a zero in
/// front, of a number from one up to 65535.
pub proof fn law_a_port_is_a_number_up_to_65535(port: Seq<char>)
    ensures
        port_refusal(port) is None <==> exists|n: nat|
            1 <= n <= 65535 && port == #[trigger] decimal_text(n),
{
    if port_refusal(port) is None {
        let n = decimal_value(port);
        law_digits_are_the_text_of_their_number(port);
        assert(1 <= n <= 65535 && port == decimal_text(n));
    }
    if exists|n: nat| 1 <= n <= 65535 && port == #[trigger] decimal_text(n) {
        let n = choose|n: nat| 1 <= n <= 65535 && port == #[trigger] decimal_text(n);
        lemma_decimal_text(n);
        law_decimal_text_has_no_leading_zero(n);
    }
}

proof fn lemma_port_stands_apart(host: Seq<char>, port: Seq<char>, shape: HostShape)
    requires
        host_and_port(host) == Ok::<(HostShape, Option<Seq<char>>), Seq<char>>((shape, None)),
        all_digits(port),
        host.len() > 0,
    ensures
        host_and_port(host + seq![':'] + port) == Ok::<(HostShape, Option<Seq<char>>), Seq<char>>(
            (shape, Some(port)),
        ),
{
    let whole = host + seq![':'] + port;
    assert(whole[0] == host[0]);
    if host[0] == '[' {
        let rest = host.skip(1);
        let longer = whole.skip(1);
        lemma_find(rest, ']');
        let close = find(rest, ']');
        assert forall|j: int| 0 <= j < close implies longer[j] != ']' by {
            assert(longer[j] == rest[j]);
        }
        assert(longer[close] == rest[close]);
        lemma_find_is(longer, ']', close);
        assert(longer.take(close) =~= rest.take(close));
        let tail = longer.skip(close + 1);
        assert(rest.skip(close + 1).len() == 0);
        assert(tail =~= seq![':'] + port);
        assert(tail.skip(1) =~= port);
    } else {
        lemma_find_last(host, ':');
        let colon = host.len() as int;
        lemma_find_last(whole, ':');
        assert(whole[colon] == ':');
        assert forall|j: int| colon < j < whole.len() implies whole[j] != ':' by {
            assert(whole[j] == port[j - colon - 1]);
            assert(crate::text::is_ascii_digit(port[j - colon - 1]));
        }
        assert(find_last(whole, ':') == colon);
        assert(whole.take(colon) =~= host);
        assert(whole.skip(colon + 1) =~= port);
    }
}

/// Every port from one up to 65535, written plainly, may follow an accepted
/// scheme and host: the url with it is its own canonical form.
#[verifier::spinoff_prover]
#[verifier::rlimit(60)]
pub proof fn law_every_port_may_follow_a_host(
    scheme: Seq<char>,
    host: Seq<char>,
    shape: HostShape,
    n: nat,
)
    requires
        scheme == "ws"@ || scheme == "wss"@,
        !host.contains('/'),
        host_and_port(host) == Ok::<(HostShape, Option<Seq<char>>), Seq<char>>((shape, None)),
        normalized(scheme + "://"@ + host) == Ok::<Seq<char>, Seq<char>>(scheme + "://"@ + host),
        1 <= n <= 65535,
    ensures
        ({
            let url = scheme + "://"@ + (host + seq![':'] + decimal_text(n));
            normalized(url) == Ok::<Seq<char>, Seq<char>>(url)
        }),
{
    let port = decimal_text(n);
    let rest = host + seq![':'] + port;
    lemma_scheme_ends_first(scheme, host);
    lemma_scheme_ends_first(scheme, rest);
    if host.len() > 0 && host.last() == '/' {
        assert(host[host.len() - 1] == '/');
        assert(host.contains('/'));
    }
    assert(without_last(host, '/') == host);
    lemma_find(host, '/');
    assert(host.take(host.len() as int) =~= host);
    lemma_find(host, '?');
    lemma_find(host, '#');
    lemma_decimal_text(n);
    law_a_port_is_a_number_up_to_65535(port);
    lemma_port_stands_apart(host, port, shape);
    assert forall|j: int| host.len() < j < rest.len() implies '0' <= #[trigger] rest[j] <= '9' by {
        assert(rest[j] == port[j - host.len() - 1]);
        assert(crate::text::is_ascii_digit(port[j - host.len() - 1]));
    }
    assert(rest.last() == port.last());
    assert(crate::text::is_ascii_digit(port[port.len() - 1]));
    assert(rest[host.len() as int] == ':');
    assert forall|c: char| c == '/' || c == '?' || c == '#' || c == '@' || c == '\\' implies
        #[trigger] rest.contains(c) == host.contains(c) by {
        if rest.contains(c) {
            let k = choose|k: int| 0 <= k < rest.len() && rest[k] == c;
            assert(host[k] == c);
        }
        if host.contains(c) {
            let k = choose|k: int| 0 <= k < host.len() && host[k] == c;
            assert(rest[k] == c);
        }
    }
    assert(rest.contains('/') == host.contains('/'));
    assert(rest.contains('?') == host.contains('?'));
    assert(rest.contains('#') == host.contains('#'));
    assert(rest.contains('@') == host.contains('@'));
    assert(rest.contains('\\') == host.contains('\\'));
    lemma_find(rest, '/');
    lemma_find(rest, '?');
    lemma_find(rest, '#');
    assert(rest.take(rest.len() as int) =~= rest);
    if has_white_space(rest) {
        let k = choose|k: int| 0 <= k < rest.len() && is_white_space(#[trigger] rest[k]);
        assert(is_white_space(host[k]));
    }
}

/// Whether a label of a host name is one that a resolver takes: up to 63
/// letters, digits, hyphens and underscores, with no hyphen at an end.
pub open spec fn is_plain_label(label: Seq<char>) -> bool {
    &&& 1 <= label.len() <= 63
    &&& label[0] != '-' && label.last() != '-'
    &&& forall|i: int|
        0 <= i < label.len() ==> {
            let c = #[trigger] label[i];
            'a' <= c <= 'z' || 'A' <= c <= 'Z' || '0' <= c <= '9' || c == '-' || c == '_'
        }
}

proof fn lemma_label(host: Seq<char>, label: Seq<char>)
    ensures
        label_refusal(host, label) is None <==> is_plain_label(label),
{
    if is_plain_label(label) || label_refusal(host, label) is None {
        assert forall|i: int| 0 <= i < label.len() implies (#[trigger] label[i] as u32) < 128 by {
            if is_plain_label(label) {
                let c = label[i];
            } else {
                assert(is_label_char(label[i]));
            }
        }
        lemma_ascii_utf8_len(label);
    }
    if is_plain_label(label) {
        assert forall|i: int| 0 <= i < label.len() implies is_label_char(#[trigger] label[i]) by {}
    }
    if label_refusal(host, label) is None {
        assert forall|i: int| 0 <= i < label.len() implies {
            let c = #[trigger] label[i];
            'a' <= c <= 'z' || 'A' <= c <= 'Z' || '0' <= c <= '9' || c == '-' || c == '_'
        } by {
            assert(is_label_char(label[i]));
        }
    }
}

proof fn lemma_labels(host: Seq<char>, labels: Seq<Seq<char>>)
    ensures
        labels_refusal(host, labels) is None <==> forall|i: int|
            0 <= i < labels.len() ==> is_plain_label(#[trigger] labels[i]),
    decreases labels.len(),
{
    if labels.len() > 0 {
        lemma_label(host, labels[0]);
        lemma_labels(host, labels.skip(1));
        if forall|i: int| 0 <= i < labels.len() ==> is_plain_label(#[trigger] labels[i]) {
            assert forall|i: int| 0 <= i < labels.skip(1).len() implies is_plain_label(
                #[trigger] labels.skip(1)[i],
            ) by {
                assert(labels.skip(1)[i] == labels[i + 1]);
            }
        }
        if labels_refusal(host, labels) is None {
            assert forall|i: int| 0 <= i < labels.len() implies is_plain_label(
                #[trigger] labels[i],
            ) by {
                if i > 0 {
                    assert(labels[i] == labels.skip(1)[i - 1]);
                }
            }
        }
    }
}

/// A host that a client reads as a name is accepted exactly where it is labels
/// with dots between them, at most 253 characters long, each of up to 63
/// letters, digits, hyphens and underscores without a hyphen at an end; one dot
/// may follow.
pub proof fn law_what_a_host_name_is(labels: Seq<Seq<char>>, dotted: bool)
    requires
        labels.len() > 0,
        forall|i: int| 0 <= i < labels.len() ==> !(#[trigger] labels[i]).contains('.'),
        labels.len() > 1 || labels[0].len() > 0,
        labels.last().len() > 0,
        !all_digits(labels.last()),
        !has_prefix(labels.last(), "0x"@) && !has_prefix(labels.last(), "0X"@),
    ensures
        ({
            let name = rejoined(labels, '.');
            let host = if dotted {
                name.push('.')
            } else {
                name
            };
            host_refusal(HostShape::Bare(host)) is None <==> name.len() <= 253 && forall|i: int|
                0 <= i < labels.len() ==> is_plain_label(#[trigger] labels[i])
        }),
{
    let name = rejoined(labels, '.');
    let host = if dotted {
        name.push('.')
    } else {
        name
    };
    lemma_rejoined_parts_split(labels, '.');
    lemma_split(name, '.');
    assert(name.len() > 0 && name.last() != '.');
    assert(name.push('.').drop_last() =~= name);
    assert(without_last(host, '.') == name);
    lemma_labels(host, labels);
    if forall|i: int| 0 <= i < labels.len() ==> is_plain_label(#[trigger] labels[i]) {
        let ascii = |c: char| (c as u32) < 128;
        assert forall|i: int, j: int| 0 <= i < labels.len() && 0 <= j < labels[i].len() implies
            ascii(#[trigger] labels[i][j]) by {
            assert(is_plain_label(labels[i]));
            let c = labels[i][j];
        }
        lemma_rejoined_chars(labels, '.', ascii);
        assert forall|j: int| 0 <= j < name.len() implies (#[trigger] name[j] as u32) < 128 by {
            assert(ascii(name[j]));
        }
        lemma_ascii_utf8_len(name);
    }
}

/// A host whose last label is digits, or begins with a hexadecimal prefix, is
/// read as a number: only four plain octets are accepted then.
pub proof fn law_what_is_read_as_a_number(front: Seq<char>, last: Seq<char>)
    requires
        !last.contains('.'),
        last.len() > 0,
        all_digits(last) || has_prefix(last, "0x"@) || has_prefix(last, "0X"@),
    ensures
        ({
            let host = front + seq!['.'] + last;
            host_refusal(HostShape::Bare(host)) is None <==> ipv4_octets(host) is Some
        }),
        host_refusal(HostShape::Bare(last)) is None <==> ipv4_octets(last) is Some,
{
    let host = front + seq!['.'] + last;
    lemma_split_push(front, last, '.');
    lemma_split_single(last, '.');
    assert(host.last() == last.last());
    if last.last() == '.' {
        assert(last.contains(last[last.len() - 1]));
    }
    assert(split(host, '.').last() == last);
    assert(split(last, '.').last() == last);
}

/// Whether a segment of a path is one that every client dials unchanged.
pub open spec fn is_plain_segment(segment: Seq<char>) -> bool {
    &&& segment.len() > 0
    &&& !(segment.len() == 1 && segment[0] == '.')
    &&& !(segment.len() == 2 && segment[0] == '.' && segment[1] == '.')
    &&& forall|i: int|
        0 <= i < segment.len() ==> {
            let c = #[trigger] segment[i];
            'a' <= c <= 'z' || 'A' <= c <= 'Z' || '0' <= c <= '9' || c == '-' || c == '.' || c
                == '_' || c == '~'
        }
}

/// A segment is accepted exactly where it is letters, digits, hyphens, dots,
/// underscores and tildes, and neither one dot nor two.
pub proof fn law_what_a_path_segment_is(segment: Seq<char>)
    ensures
        segment_refusal(segment) is None <==> is_plain_segment(segment),
{
    reveal_strlit(".");
    reveal_strlit("..");
    if segment.len() == 1 && segment[0] == '.' {
        assert(segment =~= "."@);
    }
    if segment.len() == 2 && segment[0] == '.' && segment[1] == '.' {
        assert(segment =~= ".."@);
    }
    if is_plain_segment(segment) {
        assert forall|i: int| 0 <= i < segment.len() implies is_segment_char(
            #[trigger] segment[i],
        ) by {}
        if segment.contains('%') {
            let k = choose|k: int| 0 <= k < segment.len() && segment[k] == '%';
            assert(is_segment_char(segment[k]));
        }
    }
    if segment_refusal(segment) is None {
        assert forall|i: int| 0 <= i < segment.len() implies {
            let c = #[trigger] segment[i];
            'a' <= c <= 'z' || 'A' <= c <= 'Z' || '0' <= c <= '9' || c == '-' || c == '.' || c
                == '_' || c == '~'
        } by {
            assert(is_segment_char(segment[i]));
        }
    }
}

proof fn lemma_segments(segments: Seq<Seq<char>>)
    ensures
        segments_refusal(segments) is None <==> forall|i: int|
            0 <= i < segments.len() ==> is_plain_segment(#[trigger] segments[i]),
    decreases segments.len(),
{
    if segments.len() > 0 {
        law_what_a_path_segment_is(segments[0]);
        lemma_segments(segments.skip(1));
        if forall|i: int| 0 <= i < segments.len() ==> is_plain_segment(#[trigger] segments[i]) {
            assert forall|i: int| 0 <= i < segments.skip(1).len() implies is_plain_segment(
                #[trigger] segments.skip(1)[i],
            ) by {
                assert(segments.skip(1)[i] == segments[i + 1]);
            }
        }
        if segments_refusal(segments) is None {
            assert forall|i: int| 0 <= i < segments.len() implies is_plain_segment(
                #[trigger] segments[i],
            ) by {
                if i > 0 {
                    assert(segments[i] == segments.skip(1)[i - 1]);
                }
            }
        }
    }
}

/// A path may follow an accepted authority exactly where each of its segments is
/// letters, digits, hyphens, dots, underscores and tildes, and neither one dot
/// nor two; then all of it is kept.
pub proof fn law_a_path_of_plain_segments_may_follow(
    authority: Seq<char>,
    segments: Seq<Seq<char>>,
)
    requires
        rest_refusal(authority) is None,
        !authority.contains('/'),
        segments.len() > 0,
        forall|i: int| 0 <= i < segments.len() ==> !(#[trigger] segments[i]).contains('/'),
    ensures
        (forall|i: int| 0 <= i < segments.len() ==> is_plain_segment(#[trigger] segments[i]))
            ==> rest_refusal(authority + seq!['/'] + rejoined(segments, '/')) is None,
        rest_refusal(authority + seq!['/'] + rejoined(segments, '/')) is None ==> forall|i: int|
            0 <= i < segments.len() ==> is_plain_segment(#[trigger] segments[i]),
{
    let path = rejoined(segments, '/');
    let rest = authority + seq!['/'] + path;
    let at = authority.len() as int;
    lemma_rejoined_parts_split(segments, '/');
    lemma_segments(segments);
    assert(rest[at] == '/');
    assert forall|j: int| 0 <= j < at implies rest[j] != '/' by {
        assert(rest[j] == authority[j]);
        assert(authority.contains(authority[j]));
    }
    lemma_find_is(rest, '/', at);
    assert(rest.take(at) =~= authority);
    assert(rest.skip(at + 1) =~= path);
    lemma_find(authority, '/');
    assert(authority.take(at) =~= authority);
    if forall|i: int| 0 <= i < segments.len() ==> is_plain_segment(#[trigger] segments[i]) {
        let plain = |c: char|
            'a' <= c <= 'z' || 'A' <= c <= 'Z' || '0' <= c <= '9' || c == '-' || c == '.' || c
                == '_' || c == '~' || c == '/';
        assert forall|i: int, j: int| 0 <= i < segments.len() && 0 <= j < segments[i].len() implies
            plain(#[trigger] segments[i][j]) by {
            assert(is_plain_segment(segments[i]));
            let c = segments[i][j];
        }
        lemma_rejoined_chars(segments, '/', plain);
        lemma_find(authority, '?');
        lemma_find(authority, '#');
        lemma_find(rest, '?');
        lemma_find(rest, '#');
        assert forall|j: int| at < j < rest.len() implies plain(#[trigger] rest[j]) by {
            assert(rest[j] == path[j - at - 1]);
        }
        assert forall|c: char| c == '?' || c == '#' || c == '\\' implies #[trigger] rest.contains(c)
            == authority.contains(c) by {
            if rest.contains(c) {
                let k = choose|k: int| 0 <= k < rest.len() && rest[k] == c;
                if k > at {
                    assert(plain(rest[k]));
                }
                assert(authority[k] == c);
            }
            if authority.contains(c) {
                let k = choose|k: int| 0 <= k < authority.len() && authority[k] == c;
                assert(rest[k] == c);
            }
        }
        assert(rest.contains('?') == authority.contains('?'));
        assert(rest.contains('#') == authority.contains('#'));
        assert(rest.contains('\\') == authority.contains('\\'));
        if has_white_space(rest) {
            let k = choose|k: int| 0 <= k < rest.len() && is_white_space(#[trigger] rest[k]);
            if k > at {
                assert(plain(rest[k]));
            }
            assert(is_white_space(authority[k]));
        }
    }
}

/// Nothing that a client would read as something else than host, port and path
/// is accepted: no white space, query, fragment or backslash anywhere, and no
/// credentials before the path.
pub proof fn law_what_no_endpoint_holds(rest: Seq<char>, i: int)
    requires
        rest_refusal(rest) is None,
        0 <= i < rest.len(),
    ensures
        !is_white_space(rest[i]),
        rest[i] != '?' && rest[i] != '#' && rest[i] != '\\',
        rest[i] == '@' ==> exists|j: int| 0 <= j < i && rest[j] == '/',
{
    lemma_find(rest, '?');
    lemma_find(rest, '#');
    lemma_find(rest, '/');
    assert(rest.contains(rest[i]));
    if rest[i] == '@' {
        let slash = find(rest, '/');
        if i < slash {
            assert(rest.take(slash)[i] == '@');
        } else {
            assert(rest[slash] == '/');
        }
    }
}

/// The scheme is `ws` or `wss` in any letter case and is written in lower case;
/// with any other scheme, nothing is accepted, and neither is a text without
/// one.
pub proof fn law_what_scheme_is_accepted(scheme: Seq<char>, rest: Seq<char>)
    requires
        !scheme.contains(':'),
    ensures
        ascii_lower_all(scheme) == "ws"@ || ascii_lower_all(scheme) == "wss"@ ==> normalized(
            scheme + "://"@ + rest,
        ) == normalized(ascii_lower_all(scheme) + "://"@ + rest),
        ascii_lower_all(scheme) != "ws"@ && ascii_lower_all(scheme) != "wss"@ ==> normalized(
            scheme + "://"@ + rest,
        ) is Err,
        find_text(rest, "://"@) is None ==> normalized(rest) is Err,
        normalized(scheme + "://"@ + rest) matches Ok(url) ==> url == ascii_lower_all(scheme)
            + "://"@ + without_last(rest, '/'),
{
    reveal_strlit("://");
    let url = scheme + "://"@ + rest;
    let lower = ascii_lower_all(scheme);
    lemma_find_text_behind(scheme, "://"@, rest);
    assert(url.take(scheme.len() as int) =~= scheme);
    assert(url.skip(scheme.len() as int + 3) =~= rest);
    if lower == "ws"@ || lower == "wss"@ {
        lemma_scheme_ends_first(lower, rest);
    }
}

// ---- The published endpoint --------------------------------------------------------

/// The declared endpoint with config noise removed, where one is declared.
pub fn declared_advertised_endpoint(configured: Option<&str>) -> (declaration: Option<String>)
    ensures
        view_of(declaration) == declared(str_view(configured)),
{
    declaration_of(configured)
}

/// What the pong publishes: the canonical form of a declared endpoint, or
/// nothing where there is none that a client could dial.
pub open spec fn published_endpoint(configured: Option<Seq<char>>) -> Option<Seq<char>> {
    match declared(configured) {
        Some(declaration) => match normalized(declaration) {
            Ok(endpoint) => Some(endpoint),
            Err(_) => None,
        },
        None => None,
    }
}

fn resolve_advertised_endpoint(config: &WebSocketApiConfig) -> (endpoint: Option<String>)
    ensures
        view_of(endpoint) == published_endpoint(view_of(config.advertised_endpoint)),
{
    match declared_advertised_endpoint(borrowed(&config.advertised_endpoint)) {
        Some(declaration) => match normalize_advertised_endpoint(&declaration) {
            Ok(endpoint) => Some(endpoint),
            Err(_) => None,
        },
        None => None,
    }
}

/// The slot of the server's current advertised endpoint. There is one of it,
/// read by every pong, so an endpoint declared or corrected in the config
/// reaches clients on the next pong after a reload.
#[derive(Debug)]
pub struct SharedAdvertisedEndpoint {
    endpoint: Option<String>,
}

impl View for SharedAdvertisedEndpoint {
    type V = Option<Seq<char>>;

    closed spec fn view(&self) -> Option<Seq<char>> {
        view_of(self.endpoint)
    }
}

impl SharedAdvertisedEndpoint {
    pub fn from_config(config: &WebSocketApiConfig) -> (slot: SharedAdvertisedEndpoint)
        ensures
            slot@ == published_endpoint(view_of(config.advertised_endpoint)),
    {
        SharedAdvertisedEndpoint { endpoint: resolve_advertised_endpoint(config) }
    }

    pub fn current(&self) -> (endpoint: Option<String>)
        ensures
            view_of(endpoint) == self@,
    {
        match &self.endpoint {
            Some(endpoint) => Some(endpoint.clone()),
            None => None,
        }
    }

    /// Apply a reloaded section: an absent, empty or unusable value clears
    /// the declaration. Returns whether the endpoint changed.
    pub fn apply_reloaded_config(&mut self, config: &WebSocketApiConfig) -> (changed: bool)
        ensures
            final(self)@ == published_endpoint(view_of(config.advertised_endpoint)),
            changed == (final(self)@ != old(self)@),
    {
        let endpoint = resolve_advertised_endpoint(config);
        if same_option(&self.endpoint, &endpoint) {
            return false;
        }
        self.endpoint = endpoint;
        true
    }
}

/// Whoever reads the slot after a reload reads what a slot made of that config
/// would hold, whatever the slot held before; all of them read the same, and it
/// differs from what was read before exactly where the reload said so.
pub proof fn law_every_reader_sees_the_reloaded_endpoint(
    before: SharedAdvertisedEndpoint,
    after: SharedAdvertisedEndpoint,
    made: SharedAdvertisedEndpoint,
    config: WebSocketApiConfig,
    changed: bool,
    earlier: Option<String>,
    reads: Seq<Option<String>>,
)
    requires
        after@ == published_endpoint(view_of(config.advertised_endpoint)),
        changed == (after@ != before@),
        made@ == published_endpoint(view_of(config.advertised_endpoint)),
        view_of(earlier) == before@,
        forall|i: int| 0 <= i < reads.len() ==> view_of(#[trigger] reads[i]) == after@,
    ensures
        forall|i: int|
            0 <= i < reads.len() ==> view_of(#[trigger] reads[i]) == made@ && changed == (view_of(
                earlier,
            ) != view_of(reads[i])),
        forall|i: int, j: int|
            0 <= i < reads.len() && 0 <= j < reads.len() ==> view_of(#[trigger] reads[i])
                == view_of(#[trigger] reads[j]),
{
}

/// Whether a character is one that hosts are written in.
spec fn is_host_char(c: char) -> bool {
    'a' <= c <= 'z' || 'A' <= c <= 'Z' || '0' <= c <= '9' || c == '-' || c == '_' || c == '.'
}

proof fn lemma_labels_in_order(host: Seq<char>, labels: Seq<Seq<char>>, i: int, j: int)
    requires
        labels_refusal(host, labels) is None,
        0 <= i < labels.len(),
        0 <= j < labels[i].len(),
    ensures
        is_host_char(labels[i][j]),
    decreases labels.len(),
{
    if i > 0 {
        lemma_labels_in_order(host, labels.skip(1), i - 1, j);
        assert(labels.skip(1)[i - 1] == labels[i]);
    } else {
        assert(label_refusal(host, labels[0]) is None);
        assert(is_label_char(labels[0][j]));
    }
}

proof fn lemma_host_chars(host: Seq<char>)
    requires
        host_refusal(HostShape::Bare(host)) is None,
    ensures
        host.len() > 0,
        forall|i: int| 0 <= i < host.len() ==> is_host_char(#[trigger] host[i]),
{
    let holds = |c: char| is_host_char(c);
    let bare = without_last(host, '.');
    if ends_in_a_number(host) {
        let parts = split(host, '.');
        assert forall|i: int, j: int| 0 <= i < parts.len() && 0 <= j < parts[i].len() implies holds(
            #[trigger] parts[i][j],
        ) by {
            assert(crate::net::is_plain_octet(parts[i]));
            assert(crate::text::is_ascii_digit(parts[i][j]));
        }
        lemma_rejoined_chars(parts, '.', holds);
        law_split_parts_make_the_text(host, '.');
        assert forall|i: int| 0 <= i < host.len() implies is_host_char(#[trigger] host[i]) by {
            assert(holds(rejoined(parts, '.')[i]));
        }
    } else {
        let labels = split(bare, '.');
        assert forall|i: int, j: int| 0 <= i < labels.len() && 0 <= j
            < labels[i].len() implies holds(#[trigger] labels[i][j]) by {
            lemma_labels_in_order(host, labels, i, j);
        }
        lemma_rejoined_chars(labels, '.', holds);
        law_split_parts_make_the_text(bare, '.');
        assert forall|i: int| 0 <= i < host.len() implies is_host_char(#[trigger] host[i]) by {
            if i < bare.len() {
                assert(holds(rejoined(labels, '.')[i]));
                assert(bare[i] == host[i]);
            } else {
                assert(host[i] == host.last());
            }
        }
    }
}

/// What holds none of the characters that set parts of a url apart is an
/// authority, and is refused only as one.
proof fn lemma_authority_alone(scheme: Seq<char>, authority: Seq<char>)
    requires
        scheme == "ws"@ || scheme == "wss"@,
        authority.len() > 0,
        authority_refusal(authority) is None,
        forall|i: int|
            0 <= i < authority.len() ==> {
                let c = #[trigger] authority[i];
                !is_white_space(c) && c != '/' && c != '@' && c != '?' && c != '#' && c != '\\'
            },
    ensures
        normalized(scheme + "://"@ + authority) == Ok::<Seq<char>, Seq<char>>(
            scheme + "://"@ + authority,
        ),
{
    let n = authority.len() as int;
    lemma_scheme_ends_first(scheme, authority);
    lemma_find_is(authority, '/', n);
    lemma_find_is(authority, '?', n);
    lemma_find_is(authority, '#', n);
    assert(authority.take(n) =~= authority);
    assert(!authority.contains('@') && !authority.contains('\\'));
    assert(authority.last() == authority[n - 1]);
    assert(without_last(authority, '/') == authority);
    assert(!has_white_space(authority));
    assert(rest_refusal(authority) is None);
}

/// Every host that is in order may be dialled: the url of an accepted scheme and
/// that host is accepted, and is its own canonical form.
pub proof fn law_every_host_in_order_may_be_dialled(scheme: Seq<char>, host: Seq<char>)
    requires
        scheme == "ws"@ || scheme == "wss"@,
        host_refusal(HostShape::Bare(host)) is None,
    ensures
        normalized(scheme + "://"@ + host) == Ok::<Seq<char>, Seq<char>>(scheme + "://"@ + host),
        host_and_port(host) == Ok::<(HostShape, Option<Seq<char>>), Seq<char>>(
            (HostShape::Bare(host), None),
        ),
{
    lemma_host_chars(host);
    assert(!host.contains(':')) by {
        if host.contains(':') {
            let k = choose|k: int| 0 <= k < host.len() && host[k] == ':';
            assert(is_host_char(host[k]));
        }
    }
    lemma_find_last(host, ':');
    assert(is_host_char(host[0]));
    assert forall|i: int| 0 <= i < host.len() implies {
        let c = #[trigger] host[i];
        !is_white_space(c) && c != '/' && c != '@' && c != '?' && c != '#' && c != '\\'
    } by {
        assert(is_host_char(host[i]));
    }
    lemma_authority_alone(scheme, host);
}

/// Every ipv6 address may be dialled in brackets, and nothing that is none may.
pub proof fn law_every_ipv6_address_may_be_dialled(
    scheme: Seq<char>,
    groups: Seq<u16>,
    literal: Seq<char>,
)
    requires
        scheme == "ws"@ || scheme == "wss"@,
        groups.len() == 8,
        !literal.contains(']') && !literal.contains('/'),
        ipv6_groups(literal) is None,
    ensures
        ({
            let url = scheme + "://"@ + (seq!['['] + ipv6_text(groups) + seq![']']);
            normalized(url) == Ok::<Seq<char>, Seq<char>>(url)
        }),
        normalized(scheme + "://"@ + (seq!['['] + literal + seq![']'])) is Err,
{
    let text = ipv6_text(groups);
    law_an_ipv6_address_is_read_as_it_is_written(groups);
    let host = seq!['['] + text + seq![']'];
    let rest = host.skip(1);
    let n = text.len() as int;
    assert(rest =~= text + seq![']']);
    assert forall|j: int| 0 <= j < n implies rest[j] != ']' by {
        assert(rest[j] == text[j]);
    }
    lemma_find_is(rest, ']', n);
    assert(rest.take(n) =~= text);
    assert(rest.skip(n + 1).len() == 0);
    assert forall|i: int| 0 <= i < host.len() implies {
        let c = #[trigger] host[i];
        !is_white_space(c) && c != '/' && c != '@' && c != '?' && c != '#' && c != '\\'
    } by {
        if 0 < i <= n {
            assert(host[i] == text[i - 1]);
        }
    }
    lemma_authority_alone(scheme, host);
    let other = seq!['['] + literal + seq![']'];
    let behind = other.skip(1);
    let m = literal.len() as int;
    assert(behind =~= literal + seq![']']);
    assert forall|j: int| 0 <= j < m implies behind[j] != ']' by {
        assert(behind[j] == literal[j]);
        assert(literal.contains(literal[j]));
    }
    lemma_find_is(behind, ']', m);
    assert(behind.take(m) =~= literal);
    assert(behind.skip(m + 1).len() == 0);
    lemma_scheme_ends_first(scheme, other);
    assert(other.last() == ']');
    assert forall|j: int| 0 <= j < other.len() implies other[j] != '/' by {
        if 0 < j <= m {
            assert(other[j] == literal[j - 1]);
            assert(literal.contains(literal[j - 1]));
        }
    }
    lemma_find_is(other, '/', other.len() as int);
    assert(other.take(other.len() as int) =~= other);
    assert(authority_refusal(other) is Some);
}

/// Behind a host that is in order, digits are accepted exactly where they are
/// the plain decimal text of a number from one up to 65535; the endpoint is then
/// published as it stands.
#[verifier::spinoff_prover]
#[verifier::rlimit(60)]
pub proof fn law_which_ports_may_be_dialled(
    scheme: Seq<char>,
    host: Seq<char>,
    port: Seq<char>,
    url: &str,
    canonical: Result<String, String>,
)
    requires
        call_ensures(normalize_advertised_endpoint, (url,), canonical),
        scheme == "ws"@ || scheme == "wss"@,
        host_refusal(HostShape::Bare(host)) is None,
        port.len() > 0,
        all_digits(port),
        url@ == scheme + "://"@ + (host + seq![':'] + port),
    ensures
        canonical is Ok <==> exists|n: nat| 1 <= n <= 65535 && port == #[trigger] decimal_text(n),
        canonical matches Ok(text) ==> text@ == url@,
{
    let authority = host + seq![':'] + port;
    law_a_port_is_a_number_up_to_65535(port);
    law_every_host_in_order_may_be_dialled(scheme, host);
    lemma_host_chars(host);
    assert(!host.contains('/')) by {
        if host.contains('/') {
            let k = choose|k: int| 0 <= k < host.len() && host[k] == '/';
            assert(is_host_char(host[k]));
        }
    }
    if port_refusal(port) is None {
        let n = choose|n: nat| 1 <= n <= 65535 && port == #[trigger] decimal_text(n);
        law_every_port_may_follow_a_host(scheme, host, HostShape::Bare(host), n);
    } else {
        let at = host.len() as int;
        assert(!port.contains(':') && !port.contains('/')) by {
            if port.contains(':') {
                let k = choose|k: int| 0 <= k < port.len() && port[k] == ':';
                assert(crate::text::is_ascii_digit(port[k]));
            }
            if port.contains('/') {
                let k = choose|k: int| 0 <= k < port.len() && port[k] == '/';
                assert(crate::text::is_ascii_digit(port[k]));
            }
        }
        crate::text::law_the_last_one_is_found(host, port, ':');
        assert(authority.take(at) =~= host);
        assert(authority.skip(at + 1) =~= port);
        assert(!host.contains(':')) by {
            if host.contains(':') {
                let k = choose|k: int| 0 <= k < host.len() && host[k] == ':';
                assert(is_host_char(host[k]));
            }
        }
        assert(authority[0] == host[0]);
        assert(is_host_char(host[0]));
        assert(authority_refusal(authority) == port_refusal(port));
        lemma_scheme_ends_first(scheme, authority);
        assert(authority.last() == port.last());
        assert(port.last() != '/') by {
            assert(crate::text::is_ascii_digit(port[port.len() - 1]));
        }
        assert forall|j: int| 0 <= j < authority.len() implies authority[j] != '/' by {
            if j < at {
                assert(authority[j] == host[j]);
                assert(host.contains(host[j]));
            } else if j > at {
                assert(authority[j] == port[j - at - 1]);
                assert(port.contains(port[j - at - 1]));
            }
        }
        lemma_find_is(authority, '/', authority.len() as int);
        assert(authority.take(authority.len() as int) =~= authority);
        assert(rest_refusal(authority) is Some);
    }
}

/// Why digits are refused as a port: zeros in front of a number that could be
/// dialled are told with that number, anything else that is no such number as
/// out of range, and what is not digits as that.
pub proof fn law_why_a_port_is_refused(zeros: Seq<char>, n: nat, other: Seq<char>)
    requires
        is_run(zeros, '0'),
        zeros.len() > 0,
        other.len() == 0 || !all_digits(other),
    ensures
        1 <= n <= 65535 ==> port_refusal(zeros + decimal_text(n)) == Some(
            quoted(zeros + decimal_text(n)) + LEADING_ZERO_PORT@ + decimal_text(n),
        ),
        n > 65535 ==> port_refusal(zeros + decimal_text(n)) == Some(
            quoted(zeros + decimal_text(n)) + PORT_OUT_OF_RANGE@,
        ),
        n > 65535 ==> port_refusal(decimal_text(n)) == Some(
            quoted(decimal_text(n)) + PORT_OUT_OF_RANGE@,
        ),
        port_refusal(zeros) == Some(quoted(zeros) + PORT_OUT_OF_RANGE@),
        port_refusal(other) == Some(quoted(other) + NOT_PLAIN_DIGITS@),
{
    let none = Seq::<char>::empty();
    let digits = decimal_text(n);
    let port = zeros + digits;
    lemma_decimal_text(n);
    law_decimal_text_has_no_leading_zero(n);
    assert(zeros[0] == '0');
    assert forall|i: int| 0 <= i < port.len() implies crate::text::is_ascii_digit(
        #[trigger] port[i],
    ) by {
        if i < zeros.len() {
            assert(port[i] == zeros[i]);
        } else {
            assert(port[i] == digits[i - zeros.len()]);
        }
    }
    assert(port[0] == zeros[0]);
    if n > 0 {
        law_a_run_at_the_front_is_stripped(zeros, digits, '0');
        if n > 65535 {
            assert(digits[0] != '0');
        }
    }
    assert(zeros + none =~= zeros);
    law_a_run_at_the_front_is_stripped(zeros, none, '0');
    assert(all_digits(zeros)) by {
        assert forall|i: int| 0 <= i < zeros.len() implies crate::text::is_ascii_digit(
            #[trigger] zeros[i],
        ) by {
            assert(zeros[i] == '0');
        }
    }
    if zeros.len() == 1 {
        assert(zeros =~= seq!['0']);
        law_decimal_text_has_no_leading_zero(0);
        lemma_decimal_text(0);
    }
}

/// Why an endpoint is refused that holds what no url of this kind may: white
/// space first, then credentials before the path, then whichever of a query and
/// a fragment begins first, then a backslash.
pub proof fn law_why_what_follows_the_scheme_is_refused(
    authority: Seq<char>,
    path: Seq<char>,
    i: int,
)
    requires
        authority.len() > 0,
        !authority.contains('/'),
        path.len() == 0 || path[0] == '/',
    ensures
        ({
            let rest = authority + path;
            let blank = exists|k: int| 0 <= k < rest.len() && is_white_space(#[trigger] rest[k]);
            let named = authority.contains('@');
            &&& blank ==> rest_refusal(rest) == Some(HAS_WHITE_SPACE@)
            &&& !blank && named ==> rest_refusal(rest) == Some(HAS_CREDENTIALS@)
            &&& !blank && !named && 0 <= i < rest.len() && rest[i] == '?' && !rest.take(i).contains(
                '?',
            ) && !rest.take(i).contains('#') ==> rest_refusal(rest) == Some(HAS_QUERY@)
            &&& !blank && !named && 0 <= i < rest.len() && rest[i] == '#' && !rest.take(i).contains(
                '?',
            ) && !rest.take(i).contains('#') ==> rest_refusal(rest) == Some(HAS_FRAGMENT@)
            &&& !blank && !named && !rest.contains('?') && !rest.contains('#') && rest.contains(
                '\\',
            ) ==> rest_refusal(rest) == Some(HAS_BACKSLASH@)
        }),
        rest_refusal(Seq::empty()) == Some(NO_HOST@),
{
    let rest = authority + path;
    let n = authority.len() as int;
    assert forall|j: int| 0 <= j < n implies rest[j] != '/' by {
        assert(rest[j] == authority[j]);
        assert(authority.contains(authority[j]));
    }
    if path.len() > 0 {
        assert(rest[n] == path[0]);
    }
    lemma_find_is(rest, '/', n);
    assert(rest.take(n) =~= authority);
    lemma_find(rest, '?');
    lemma_find(rest, '#');
    if 0 <= i < rest.len() && !rest.take(i).contains('?') && !rest.take(i).contains('#') {
        let front = rest.take(i);
        assert forall|j: int| 0 <= j < i implies rest[j] != '?' && rest[j] != '#' by {
            assert(front[j] == rest[j]);
            assert(front.contains(front[j]));
        }
        if rest[i] == '?' {
            lemma_find_is(rest, '?', i);
        }
        if rest[i] == '#' {
            lemma_find_is(rest, '#', i);
        }
    }
}

} // verus!
