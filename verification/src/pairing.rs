//! Pairing: the payload a client scans, why there may be none, and what is
//! reported once a fresh token has been stored.

use crate::config::{setting, upsert_section_value, with_setting};
use crate::encoding::{
    base64url_text, fits_base64, is_fresh_token, is_token_text, random_bytes, token_from_bytes,
};
use crate::endpoint::{
    declared_advertised_endpoint, normalize_advertised_endpoint, normalized, rest_refusal,
};
use crate::net::{is_wildcard, loopback_of, socket_address, SocketAddress, SocketView};
use crate::text::{
    contains, declared, find, find_text, has_prefix, lemma_find, lemma_find_is, lemma_split_push,
    lemma_split_single, position_of, quote, quoted, split, str_view, to_chars, trimmed,
};
use vstd::prelude::*;
use vstd::slice::slice_subrange;
use vstd::string::StringSliceAdditionalSpecFns as _;
use vstd::utf8::{encode_utf8, is_ascii_chars, is_ascii_chars_encode_utf8};

verus! {

// ---- The pairing url -------------------------------------------------------------

pub open spec fn is_unreserved_byte(byte: u8) -> bool {
    ||| 48 <= byte <= 57
    ||| 65 <= byte <= 90
    ||| 97 <= byte <= 122
    ||| byte == 45
    ||| byte == 46
    ||| byte == 95
    ||| byte == 126
}

pub open spec fn upper_hex_char(digit: nat) -> char {
    if digit < 10 {
        ((48 + digit) as u32) as char
    } else {
        ((55 + digit) as u32) as char
    }
}

/// One byte of a query value: itself where it is url-unreserved, else `%` and
/// two uppercase hexadecimal digits.
pub open spec fn percent_encoded_byte(byte: u8) -> Seq<char> {
    if is_unreserved_byte(byte) {
        seq![byte as char]
    } else {
        seq!['%', upper_hex_char(byte as nat / 16), upper_hex_char(byte as nat % 16)]
    }
}

pub open spec fn percent_encoded(bytes: Seq<u8>) -> Seq<char>
    decreases bytes.len(),
{
    if bytes.len() == 0 {
        Seq::empty()
    } else {
        percent_encoded_byte(bytes[0]) + percent_encoded(bytes.skip(1))
    }
}

fn upper_hex(digit: u8) -> (c: char)
    requires
        digit < 16,
    ensures
        c == upper_hex_char(digit as nat),
{
    if digit < 10 {
        (48u8 + digit) as char
    } else {
        (55u8 + digit) as char
    }
}

/// Percent-encode a query parameter value, byte for byte of its utf-8.
pub fn percent_encode_query_value(value: &str) -> (encoded: String)
    ensures
        encoded@ == percent_encoded(encode_utf8(value@)),
{
    let bytes = value.as_bytes();
    let mut encoded = String::new();
    let mut i: usize = 0;
    assert(bytes@.skip(0) =~= bytes@);
    assert(encoded@ + percent_encoded(bytes@) =~= percent_encoded(bytes@));
    while i < bytes.len()
        invariant
            i <= bytes@.len(),
            encoded@ + percent_encoded(bytes@.skip(i as int)) == percent_encoded(bytes@),
        decreases bytes@.len() - i,
    {
        let byte: u8 = bytes[i];
        let ghost before = encoded@;
        let plain = (48 <= byte && byte <= 57) || (65 <= byte && byte <= 90) || (97 <= byte && byte
            <= 122) || byte == 45 || byte == 46 || byte == 95 || byte == 126;
        if plain {
            encoded.push(byte as char);
        } else {
            encoded.push('%');
            encoded.push(upper_hex(byte / 16));
            encoded.push(upper_hex(byte % 16));
        }
        proof {
            let rest = bytes@.skip(i as int);
            assert(rest[0] == byte);
            assert(rest.skip(1) =~= bytes@.skip(i + 1));
            assert(encoded@ =~= before + percent_encoded_byte(byte));
            assert(encoded@ + percent_encoded(rest.skip(1)) =~= before + (percent_encoded_byte(byte)
                + percent_encoded(rest.skip(1))));
        }
        i += 1;
    }
    assert(bytes@.skip(i as int) =~= Seq::<u8>::empty());
    assert(encoded@ + Seq::<char>::empty() =~= encoded@);
    encoded
}

/// Whether an endpoint names a path after its authority.
pub open spec fn declares_a_path(endpoint: Seq<char>) -> bool {
    match find_text(endpoint, "://"@) {
        Some(at) => endpoint.skip(at + 3).contains('/'),
        None => false,
    }
}

/// What goes between an endpoint and the pairing query, so that the url a
/// client dials carries exactly the path the endpoint declares.
pub fn query_prefix(endpoint: &str) -> (prefix: &'static str)
    ensures
        prefix@ == (if declares_a_path(endpoint@) {
            "?"@
        } else {
            "/?"@
        }),
{
    let url = to_chars(endpoint);
    let end: usize = url.len();
    proof {
        reveal_strlit("://");
    }
    match position_of(&url, "://") {
        Some(at) => {
            assert("://"@.len() == 3);
            let rest = slice_subrange(&url, at + 3, end);
            assert(rest@ =~= url@.skip(at + 3));
            if contains(rest, '/') {
                "?"
            } else {
                "/?"
            }
        },
        None => "/?",
    }
}

/// The pairing payload: endpoint, bearer token and display name. The name and
/// the token ride only the scannable url; the endpoint stays bare.
#[derive(Clone, Debug, PartialEq, Eq)]
pub struct PairingPayload {
    /// Base url without a trailing slash.
    pub endpoint: String,
    pub token: String,
    pub name: String,
}

/// The url that a client scans and can connect to directly.
pub open spec fn pairing_url(endpoint: Seq<char>, token: Seq<char>, name: Seq<char>) -> Seq<char> {
    endpoint + (if declares_a_path(endpoint) {
        "?"@
    } else {
        "/?"@
    }) + ("token="@ + token + "&name="@ + percent_encoded(encode_utf8(name)))
}

impl PairingPayload {
    pub fn url(&self) -> (url: String)
        ensures
            url@ == pairing_url(self.endpoint@, self.token@, self.name@),
    {
        let mut url = self.endpoint.clone();
        url.push_str(query_prefix(&self.endpoint));
        url.push_str("token=");
        url.push_str(&self.token);
        url.push_str("&name=");
        url.push_str(&percent_encode_query_value(&self.name));
        assert(url@ =~= pairing_url(self.endpoint@, self.token@, self.name@));
        url
    }
}

// ---- What a client reads back out of the url -----------------------------------------

pub open spec fn upper_hex_value(c: char) -> Option<nat> {
    if '0' <= c <= '9' {
        Some((c as nat - 48) as nat)
    } else if 'A' <= c <= 'F' {
        Some((c as nat - 55) as nat)
    } else {
        None
    }
}

/// The bytes that a percent-encoded text decodes to, where every escape is
/// whole.
pub open spec fn percent_decoded(text: Seq<char>) -> Option<Seq<u8>>
    decreases text.len(),
{
    if text.len() == 0 {
        Some(Seq::empty())
    } else if text[0] != '%' {
        match percent_decoded(text.skip(1)) {
            Some(rest) => Some(seq![text[0] as u8] + rest),
            None => None,
        }
    } else if text.len() < 3 {
        None
    } else {
        match (upper_hex_value(text[1]), upper_hex_value(text[2]), percent_decoded(text.skip(3))) {
            (Some(high), Some(low), Some(rest)) => Some(seq![(high * 16 + low) as u8] + rest),
            _ => None,
        }
    }
}

/// Percent-encoding loses nothing: decoding gives back the bytes encoded.
pub proof fn law_percent_encoding_round_trips(bytes: Seq<u8>)
    ensures
        percent_decoded(percent_encoded(bytes)) == Some(bytes),
    decreases bytes.len(),
{
    if bytes.len() > 0 {
        let head = percent_encoded_byte(bytes[0]);
        let tail = percent_encoded(bytes.skip(1));
        let text = head + tail;
        law_percent_encoding_round_trips(bytes.skip(1));
        assert(text[0] == head[0]);
        if is_unreserved_byte(bytes[0]) {
            assert(text.skip(1) =~= tail);
            assert(text[0] as u8 == bytes[0]);
        } else {
            assert(text[1] == head[1]);
            assert(text[2] == head[2]);
            assert(text.skip(3) =~= tail);
            assert(bytes[0] as nat / 16 < 16);
            assert(upper_hex_value(head[1]) == Some(bytes[0] as nat / 16));
            assert(upper_hex_value(head[2]) == Some(bytes[0] as nat % 16));
            assert((bytes[0] as nat / 16) * 16 + bytes[0] as nat % 16 == bytes[0] as nat);
        }
        assert(seq![bytes[0]] + bytes.skip(1) =~= bytes);
    }
}

/// Percent-encoding leaves url-unreserved characters and whole escapes only,
/// so a value never ends the parameter it stands in.
pub proof fn law_percent_encoding_stays_in_its_parameter(bytes: Seq<u8>)
    ensures
        forall|i: int|
            0 <= i < percent_encoded(bytes).len() ==> #[trigger] percent_encoded(bytes)[i] == '%'
                || crate::encoding::is_unreserved(percent_encoded(bytes)[i]),
    decreases bytes.len(),
{
    if bytes.len() > 0 {
        let head = percent_encoded_byte(bytes[0]);
        let tail = percent_encoded(bytes.skip(1));
        law_percent_encoding_stays_in_its_parameter(bytes.skip(1));
        assert forall|i: int| 0 <= i < percent_encoded(bytes).len() implies #[trigger] percent_encoded(
            bytes,
        )[i] == '%' || crate::encoding::is_unreserved(percent_encoded(bytes)[i]) by {
            if i < head.len() {
                assert(percent_encoded(bytes)[i] == head[i]);
            } else {
                assert(percent_encoded(bytes)[i] == tail[i - head.len()]);
            }
        }
    }
}

proof fn lemma_percent_encoding_never_shortens(bytes: Seq<u8>)
    ensures
        percent_encoded(bytes).len() >= bytes.len(),
        percent_encoded(bytes).len() == bytes.len() ==> forall|i: int|
            0 <= i < bytes.len() ==> is_unreserved_byte(#[trigger] bytes[i]),
    decreases bytes.len(),
{
    if bytes.len() > 0 {
        let rest = bytes.skip(1);
        lemma_percent_encoding_never_shortens(rest);
        if percent_encoded(bytes).len() == bytes.len() {
            assert forall|i: int| 0 <= i < bytes.len() implies is_unreserved_byte(
                #[trigger] bytes[i],
            ) by {
                if i > 0 {
                    assert(bytes[i] == rest[i - 1]);
                }
            }
        }
    }
}

proof fn lemma_unreserved_bytes_stand(bytes: Seq<u8>)
    requires
        forall|i: int| 0 <= i < bytes.len() ==> is_unreserved_byte(#[trigger] bytes[i]),
    ensures
        percent_encoded(bytes) == Seq::new(bytes.len(), |i: int| bytes[i] as char),
    decreases bytes.len(),
{
    let plain = Seq::new(bytes.len(), |i: int| bytes[i] as char);
    if bytes.len() > 0 {
        let rest = bytes.skip(1);
        assert forall|i: int| 0 <= i < rest.len() implies is_unreserved_byte(#[trigger] rest[i]) by {
            assert(rest[i] == bytes[i + 1]);
        }
        lemma_unreserved_bytes_stand(rest);
        assert(seq![bytes[0] as char] + Seq::new(rest.len(), |i: int| rest[i] as char) =~= plain);
    } else {
        assert(percent_encoded(bytes) =~= plain);
    }
}

/// Percent-encoding escapes nothing that may stand as it is: the encoded value
/// is the value itself exactly where every byte of it is url-unreserved.
pub proof fn law_percent_encoding_keeps_exactly_the_unreserved(value: Seq<char>)
    ensures
        percent_encoded(encode_utf8(value)) == value <==> forall|i: int|
            0 <= i < encode_utf8(value).len() ==> is_unreserved_byte(
                #[trigger] encode_utf8(value)[i],
            ),
{
    let bytes = encode_utf8(value);
    let encoded = percent_encoded(bytes);
    if encoded == value {
        law_percent_encoding_stays_in_its_parameter(bytes);
        assert(is_ascii_chars(value)) by {
            assert forall|i: int| 0 <= i < value.len() implies '\0' <= #[trigger] value[i]
                <= '\u{7f}' by {
                assert(encoded[i] == value[i]);
            }
        }
        is_ascii_chars_encode_utf8(value);
        lemma_percent_encoding_never_shortens(bytes);
    }
    if forall|i: int| 0 <= i < bytes.len() ==> is_unreserved_byte(#[trigger] bytes[i]) {
        lemma_unreserved_bytes_stand(bytes);
        assert(is_ascii_chars(encoded)) by {
            assert forall|i: int| 0 <= i < encoded.len() implies '\0' <= #[trigger] encoded[i]
                <= '\u{7f}' by {
                assert(is_unreserved_byte(bytes[i]));
            }
        }
        is_ascii_chars_encode_utf8(encoded);
        assert forall|i: int| 0 <= i < bytes.len() implies encode_utf8(encoded)[i] == bytes[i] by {
            assert(is_unreserved_byte(bytes[i]));
            assert(encoded[i] as u8 == bytes[i]);
        }
        assert(encode_utf8(encoded) =~= bytes);
        vstd::utf8::encode_utf8_decode_utf8(encoded);
        vstd::utf8::encode_utf8_decode_utf8(value);
    }
}

/// What a client keys a server by once it has parsed a url: scheme, authority
/// and path, with the query dropped and an absent path read as the root.
pub open spec fn client_server_key(url: Seq<char>) -> Option<(Seq<char>, Seq<char>, Seq<char>)> {
    match find_text(url, "://"@) {
        None => None,
        Some(at) => {
            let after = url.skip(at + 3);
            let rest = after.take(find(after, '?'));
            let slash = find(rest, '/');
            if slash < rest.len() {
                Some((url.take(at), rest.take(slash), rest.skip(slash)))
            } else {
                Some((url.take(at), rest, seq!['/']))
            }
        },
    }
}

proof fn lemma_find_in_sum(front: Seq<char>, back: Seq<char>, c: char)
    requires
        !front.contains(c),
    ensures
        find(front + back, c) == front.len() + find(back, c),
{
    let both = front + back;
    lemma_find(back, c);
    let at = front.len() + find(back, c);
    assert forall|j: int| 0 <= j < at implies both[j] != c by {
        if j < front.len() {
            assert(both[j] == front[j]);
            assert(front.contains(front[j]));
        } else {
            assert(both[j] == back[j - front.len()]);
        }
    }
    lemma_find_is(both, c, at);
}

proof fn lemma_accepted_rest_has_no_query(rest: Seq<char>)
    requires
        rest_refusal(rest) is None,
    ensures
        !rest.contains('?'),
{
    lemma_find(rest, '?');
    lemma_find(rest, '#');
}

/// A url that puts a query behind an endpoint of the given parts names the
/// server that the endpoint names.
proof fn lemma_query_keeps_the_server(scheme: Seq<char>, rest: Seq<char>, query: Seq<char>)
    requires
        scheme == "ws"@ || scheme == "wss"@,
        !rest.contains('?'),
    ensures
        ({
            let endpoint = scheme + "://"@ + rest;
            let url = endpoint + (if declares_a_path(endpoint) {
                "?"@
            } else {
                "/?"@
            }) + query;
            &&& has_prefix(url, endpoint)
            &&& client_server_key(url) == client_server_key(endpoint)
            &&& client_server_key(endpoint) is Some
        }),
{
    reveal_strlit("?");
    reveal_strlit("/?");
    let endpoint = scheme + "://"@ + rest;
    let prefix = if declares_a_path(endpoint) {
        "?"@
    } else {
        "/?"@
    };
    let url = endpoint + prefix + query;
    let tail = rest + prefix + query;
    assert(url =~= scheme + "://"@ + tail);
    assert(url.take(endpoint.len() as int) =~= endpoint);
    crate::endpoint::lemma_scheme_ends_first(scheme, rest);
    crate::endpoint::lemma_scheme_ends_first(scheme, tail);
    assert(declares_a_path(endpoint) == rest.contains('/'));
    lemma_find(rest, '?');
    assert(rest.take(rest.len() as int) =~= rest);
    lemma_find(rest, '/');
    if rest.contains('/') {
        assert(tail =~= rest + ("?"@ + query));
        lemma_find_in_sum(rest, "?"@ + query, '?');
        lemma_find_is("?"@ + query, '?', 0);
        assert(tail.take(rest.len() as int) =~= rest);
    } else {
        let rooted = rest.push('/');
        assert(tail =~= rooted + ("?"@ + query));
        if rooted.contains('?') {
            let k = choose|k: int| 0 <= k < rooted.len() && rooted[k] == '?';
            assert(rest[k] == '?');
        }
        lemma_find_in_sum(rooted, "?"@ + query, '?');
        lemma_find_is("?"@ + query, '?', 0);
        assert(tail.take(rooted.len() as int) =~= rooted);
        assert(rooted =~= rest + seq!['/']);
        lemma_find_in_sum(rest, seq!['/'], '/');
        lemma_find_is(seq!['/'], '/', 0);
        assert(rooted.take(rest.len() as int) =~= rest);
        assert(rooted.skip(rest.len() as int) =~= seq!['/']);
    }
}

/// The endpoint that the pong publishes and the pairing url name the same
/// server, whatever the token and the name, and the url begins with the
/// endpoint.
pub proof fn law_pong_and_pairing_url_name_the_same_server(
    advertised: Seq<char>,
    endpoint: Seq<char>,
    token: Seq<char>,
    name: Seq<char>,
)
    requires
        normalized(advertised) == Ok::<Seq<char>, Seq<char>>(endpoint),
    ensures
        client_server_key(endpoint) is Some,
        client_server_key(pairing_url(endpoint, token, name)) == client_server_key(endpoint),
        has_prefix(pairing_url(endpoint, token, name), endpoint),
{
    let at = find_text(advertised, "://"@)->0;
    let scheme = crate::text::ascii_lower_all(advertised.take(at));
    let rest = crate::text::without_last(advertised.skip(at + 3), '/');
    lemma_accepted_rest_has_no_query(rest);
    lemma_query_keeps_the_server(
        scheme,
        rest,
        "token="@ + token + "&name="@ + percent_encoded(encode_utf8(name)),
    );
}

// ---- Why there is no payload -----------------------------------------------------------

/// Why no payload is printed.
#[derive(Clone, Debug, PartialEq, Eq)]
pub enum PairingUnavailable {
    /// `[websocket_api].bind` is unset: there is no endpoint to encode.
    NotConfigured,
    /// `bind` is set but is not a socket address.
    InvalidBind { bind: String, error: String },
    /// `bind` parses, but no client could reach the address as printed.
    UnusableBind { bind: String, reason: String },
    /// `advertised_endpoint` is set but is not a url a client could dial.
    InvalidAdvertisedEndpoint { advertised: String, reason: String },
}

/// The explanation of a refusal, naming the config file to change.
pub open spec fn explanation_text(unavailable: PairingUnavailable, config: Seq<char>) -> Seq<char> {
    match unavailable {
        PairingUnavailable::NotConfigured => NOT_CONFIGURED_HEAD@ + config + NOT_CONFIGURED_TAIL@,
        PairingUnavailable::InvalidBind { bind, error } => "error: websocket_api.bind "@ + quoted(
            bind@,
        ) + " in "@ + config + " is not a usable listener address: "@ + error@
            + INVALID_BIND_TAIL@,
        PairingUnavailable::UnusableBind { bind, reason } => "error: websocket_api.bind "@ + quoted(
            bind@,
        ) + " in "@ + config + " cannot appear in a pairing payload: "@ + reason@
            + UNUSABLE_BIND_TAIL@,
        PairingUnavailable::InvalidAdvertisedEndpoint { advertised, reason } =>
            "error: websocket_api.advertised_endpoint "@ + quoted(advertised@) + " in "@ + config
            + " is not a url a client could dial: "@ + reason@ + INVALID_ENDPOINT_TAIL@,
    }
}

// Pairing comes before the server (re)start: with `bind` set and no token
// stored yet the server refuses to start, and pairing is what stores it.
pub const NOT_CONFIGURED_HEAD: &'static str = "error: the websocket api listener is not configured, so there is no endpoint to pair against.\n\nThe listener is off by default and never enabled implicitly. To enable it:\n\n1. add the listener address to ";

pub const NOT_CONFIGURED_TAIL: &'static str = ":\n\n[websocket_api]\nbind = \"<address>:4433\"   # exact TCP address to serve, e.g. your tailnet IP\n\n2. run `herdr pair` again — it mints and stores the bearer token —\n3. then start (or restart) the herdr server to bind the listener.\n";

pub const INVALID_BIND_TAIL: &'static str = ".\nUse an exact <ip>:<port> address, e.g. your tailnet IP, then run `herdr pair` again.\n";

pub const UNUSABLE_BIND_TAIL: &'static str = ".\nUpdate the bind address and run `herdr pair` again; it will say whether a server restart is still needed.\n";

pub const INVALID_ENDPOINT_TAIL: &'static str = ".\nDeclare the url something else serves this listener at, e.g. \"wss://a-host.example.net/herdr-ws\" — scheme, host, optional port, and optional path only.\nRemove it to pair against the bind address instead.\n";

impl PairingUnavailable {
    pub fn explanation(&self, config_path: &str) -> (text: String)
        ensures
            text@ == explanation_text(*self, config_path@),
    {
        let mut text = String::new();
        match self {
            PairingUnavailable::NotConfigured => {
                text.push_str(NOT_CONFIGURED_HEAD);
                text.push_str(config_path);
                text.push_str(NOT_CONFIGURED_TAIL);
            },
            PairingUnavailable::InvalidBind { bind, error } => {
                text.push_str("error: websocket_api.bind ");
                text.push_str(&quote(bind));
                text.push_str(" in ");
                text.push_str(config_path);
                text.push_str(" is not a usable listener address: ");
                text.push_str(error);
                text.push_str(INVALID_BIND_TAIL);
            },
            PairingUnavailable::UnusableBind { bind, reason } => {
                text.push_str("error: websocket_api.bind ");
                text.push_str(&quote(bind));
                text.push_str(" in ");
                text.push_str(config_path);
                text.push_str(" cannot appear in a pairing payload: ");
                text.push_str(reason);
                text.push_str(UNUSABLE_BIND_TAIL);
            },
            PairingUnavailable::InvalidAdvertisedEndpoint { advertised, reason } => {
                text.push_str("error: websocket_api.advertised_endpoint ");
                text.push_str(&quote(advertised));
                text.push_str(" in ");
                text.push_str(config_path);
                text.push_str(" is not a url a client could dial: ");
                text.push_str(reason);
                text.push_str(INVALID_ENDPOINT_TAIL);
            },
        }
        assert(text@ =~= explanation_text(*self, config_path@));
        text
    }
}

/// The declared endpoint in canonical form, or `None` where none is declared.
/// The declaration is judged by the code that publishes it in the pong, so a
/// payload and a pong never disagree about what to dial.
pub fn advertised_endpoint(advertised: Option<&str>) -> (endpoint: Result<
    Option<String>,
    PairingUnavailable,
>)
    ensures
        match declared(str_view(advertised)) {
            None => endpoint == Ok::<Option<String>, PairingUnavailable>(None),
            Some(declaration) => match normalized(declaration) {
                Ok(canonical) => endpoint matches Ok(Some(text)) && text@ == canonical,
                Err(refusal) => endpoint matches Err(
                    PairingUnavailable::InvalidAdvertisedEndpoint { advertised: value, reason },
                ) && value@ == declaration && reason@ == refusal,
            },
        },
{
    match declared_advertised_endpoint(advertised) {
        None => Ok(None),
        Some(declaration) => match normalize_advertised_endpoint(&declaration) {
            Ok(endpoint) => Ok(Some(endpoint)),
            Err(reason) => Err(
                PairingUnavailable::InvalidAdvertisedEndpoint { advertised: declaration, reason },
            ),
        },
    }
}

pub const NOT_A_SOCKET_ADDRESS: &'static str = "invalid socket address syntax";

pub const PORT_ZERO: &'static str = "port 0 makes the OS pick a random port, so nothing knows which port the listener ends up on";

pub const WILDCARD: &'static str = "clients cannot dial the wildcard address; bind a concrete address such as the machine's tailnet IP, or declare websocket_api.advertised_endpoint";

/// What a configured bind address is good for.
pub ghost enum BindVerdict {
    NotConfigured,
    NotAnAddress,
    PortZero,
    Wildcard,
    Usable(SocketView),
}

/// Port 0 is fatal either way; a wildcard address only where clients would
/// have to dial it.
pub open spec fn bind_verdict(bind: Option<Seq<char>>, advertised: bool) -> BindVerdict {
    match bind {
        None => BindVerdict::NotConfigured,
        Some(text) => if text.len() == 0 {
            BindVerdict::NotConfigured
        } else {
            match socket_address(text) {
                None => BindVerdict::NotAnAddress,
                Some(address) => if address.port == 0 {
                    BindVerdict::PortZero
                } else if is_wildcard(address.ip) && !advertised {
                    BindVerdict::Wildcard
                } else {
                    BindVerdict::Usable(address)
                },
            }
        },
    }
}

/// Whether a refusal is the one that a bind address earns.
pub open spec fn refuses_bind(
    bind: Option<Seq<char>>,
    advertised: bool,
    unavailable: PairingUnavailable,
) -> bool {
    match bind_verdict(bind, advertised) {
        BindVerdict::NotConfigured => unavailable is NotConfigured,
        BindVerdict::NotAnAddress => unavailable matches PairingUnavailable::InvalidBind {
            bind: value,
            error,
        } && Some(value@) == bind && error@ == NOT_A_SOCKET_ADDRESS@,
        BindVerdict::PortZero => unavailable matches PairingUnavailable::UnusableBind {
            bind: value,
            reason,
        } && Some(value@) == bind && reason@ == PORT_ZERO@,
        BindVerdict::Wildcard => unavailable matches PairingUnavailable::UnusableBind {
            bind: value,
            reason,
        } && Some(value@) == bind && reason@ == WILDCARD@,
        BindVerdict::Usable(_) => false,
    }
}

/// Resolve the configured bind address into the listener to work against.
pub fn pairing_endpoint(bind: Option<&str>, endpoint_is_advertised: bool) -> (address: Result<
    SocketAddress,
    PairingUnavailable,
>)
    ensures
        match address {
            Ok(read) => bind_verdict(str_view(bind), endpoint_is_advertised) == BindVerdict::Usable(
                read@,
            ),
            Err(unavailable) => refuses_bind(str_view(bind), endpoint_is_advertised, unavailable),
        },
{
    let text = match bind {
        None => {
            return Err(PairingUnavailable::NotConfigured);
        },
        Some(text) => text,
    };
    if text.is_empty() {
        return Err(PairingUnavailable::NotConfigured);
    }
    let chars = to_chars(text);
    let address = match SocketAddress::parse(&chars) {
        None => {
            return Err(
                PairingUnavailable::InvalidBind {
                    bind: text.to_string(),
                    error: NOT_A_SOCKET_ADDRESS.to_string(),
                },
            );
        },
        Some(address) => address,
    };
    if address.port == 0 {
        return Err(
            PairingUnavailable::UnusableBind {
                bind: text.to_string(),
                reason: PORT_ZERO.to_string(),
            },
        );
    }
    if address.ip.is_unspecified() && !endpoint_is_advertised {
        return Err(
            PairingUnavailable::UnusableBind {
                bind: text.to_string(),
                reason: WILDCARD.to_string(),
            },
        );
    }
    Ok(address)
}

/// Where the listener is dialled locally: a wildcard bind is no address to
/// connect to, and answers on loopback at the same port.
pub open spec fn local_listener(address: SocketView) -> SocketView {
    if is_wildcard(address.ip) {
        SocketView { ip: loopback_of(address.ip), scope_id: 0, port: address.port }
    } else {
        address
    }
}

pub fn local_listener_address(address: SocketAddress) -> (local: SocketAddress)
    ensures
        local@ == local_listener(address@),
{
    if !address.ip.is_unspecified() {
        return address;
    }
    SocketAddress { ip: address.ip.loopback(), scope_id: 0, port: address.port }
}

// ---- Minting ---------------------------------------------------------------------------

/// Random bytes per token. Their unpadded base64url text stays inside the
/// charset that the listener requires, so a token never needs escaping.
pub const TOKEN_BYTES: usize = 32;

pub const NO_TOKEN: &'static str = "could not gather randomness for the pairing token: ";

/// The token that some random bytes are written as, or why there is none.
pub fn token_of(random: Result<Vec<u8>, String>) -> (token: Result<String, String>)
    requires
        random matches Ok(bytes) ==> fits_base64(bytes@.len()),
    ensures
        match random {
            Ok(bytes) => token matches Ok(token) && token@ == base64url_text(bytes@),
            Err(error) => token matches Err(message) && message@ == NO_TOKEN@ + error@,
        },
        random matches Ok(bytes) ==> bytes@.len() == TOKEN_BYTES ==> is_fresh_token(token->Ok_0@),
{
    match random {
        Ok(bytes) => {
            let token = token_from_bytes(&bytes);
            assert(base64url_text(bytes@) == token@);
            Ok(token)
        },
        Err(error) => {
            let mut message = NO_TOKEN.to_string();
            message.push_str(&error);
            Err(message)
        },
    }
}

/// Whether this is what minting can come to: a fresh token, or the reason that
/// there is no randomness.
pub open spec fn is_minted(token: Result<String, String>) -> bool {
    match token {
        Ok(token) => is_fresh_token(token@),
        Err(message) => has_prefix(message@, NO_TOKEN@),
    }
}

/// Mint a fresh bearer token.
pub fn mint_token() -> (token: Result<String, String>)
    ensures
        is_minted(token),
{
    let token = token_of(random_bytes(TOKEN_BYTES));
    proof {
        if token is Err {
            assert(token->Err_0@.take(NO_TOKEN@.len() as int) =~= NO_TOKEN@);
        }
    }
    token
}

/// The terminal rendering of a url as a qr code, or why there is none.
pub uninterp spec fn qr_rendering(url: Seq<char>) -> Result<Seq<char>, Seq<char>>;

/// `qrcode`'s `QrCode::new` and `render` with inverted colors, as half-block
/// characters, or the text of its error: a function of the url's bytes.
#[verifier::external_body]
fn render_qr(url: &str) -> (rendering: Result<String, String>)
    ensures
        match rendering {
            Ok(text) => qr_rendering(url@) == Ok::<Seq<char>, Seq<char>>(text@),
            Err(error) => qr_rendering(url@) == Err::<Seq<char>, Seq<char>>(error@),
        },
{
    let code = qrcode::QrCode::new(url.as_bytes()).map_err(|err| err.to_string())?;
    Ok(
        code.render::<qrcode::render::unicode::Dense1x2>()
            .dark_color(qrcode::render::unicode::Dense1x2::Light)
            .light_color(qrcode::render::unicode::Dense1x2::Dark)
            .build(),
    )
}

/// What is shown for a rendering: the code, or the reason there is none.
pub open spec fn qr_outcome(rendering: Result<Seq<char>, Seq<char>>) -> Result<
    Seq<char>,
    Seq<char>,
> {
    match rendering {
        Ok(code) => Ok(code),
        Err(error) => Err("could not encode the pairing url as a qr code: "@ + error),
    }
}

pub fn explain_qr(rendering: Result<String, String>) -> (outcome: Result<String, String>)
    ensures
        match (rendering, outcome) {
            (Ok(code), Ok(shown)) => shown@ == code@,
            (Err(error), Err(reason)) => Err::<Seq<char>, Seq<char>>(reason@) == qr_outcome(
                Err(error@),
            ),
            _ => false,
        },
{
    match rendering {
        Ok(code) => Ok(code),
        Err(error) => {
            let mut reason = "could not encode the pairing url as a qr code: ".to_string();
            reason.push_str(&error);
            Err(reason)
        },
    }
}

/// The pairing url as a terminal qr code.
pub fn qr_code_text(url: &str) -> (code: Result<String, String>)
    ensures
        match code {
            Ok(text) => qr_outcome(qr_rendering(url@)) == Ok::<Seq<char>, Seq<char>>(text@),
            Err(reason) => qr_outcome(qr_rendering(url@)) == Err::<Seq<char>, Seq<char>>(reason@),
        },
{
    explain_qr(render_qr(url))
}

// ---- Storing the token -----------------------------------------------------------------

/// What a token is stored as: in quotes, which its charset never needs to
/// have escaped.
pub open spec fn stored_token(token: Seq<char>) -> Seq<char> {
    seq!['"'] + token + seq!['"']
}

/// Replace or add the stored token, keeping the rest of the config file,
/// comments included. Writing the new value is what ends the previous token.
pub fn rotate_token_in_config(content: &str, token: &str) -> (updated: String)
    ensures
        updated@ == with_setting(content@, "websocket_api"@, "token"@, quoted(token@)),
        is_token_text(token@) ==> updated@ == with_setting(
            content@,
            "websocket_api"@,
            "token"@,
            stored_token(token@),
        ),
{
    let value = quote(token);
    proof {
        if is_token_text(token@) {
            assert forall|i: int| 0 <= i < token@.len() implies crate::text::shows_as_is(
                #[trigger] token@[i],
            ) by {
                assert(crate::encoding::is_unreserved(token@[i]));
            }
        }
    }
    upsert_section_value(content, "websocket_api", "token", &value)
}

/// The token entry is one that a line can set.
proof fn lemma_token_is_settable(token: Seq<char>)
    requires
        is_token_text(token),
    ensures
        crate::config::settable("websocket_api"@, "token"@, stored_token(token)),
        !"token"@.contains('='),
{
    reveal_strlit("websocket_api");
    reveal_strlit("token");
    reveal_strlit(" = ");
    reveal_strlit("[");
    reveal_strlit("]");
    let key = "token"@;
    let value = stored_token(token);
    let entry = key + " = "@ + value;
    assert(key.len() == 5);
    assert(entry[6] == '=');
    assert(forall|j: int| 0 <= j < 5 ==> entry[j] == key[j]);
    assert(entry[5] == ' ');
    assert forall|j: int| 0 <= j < 6 implies entry[j] != '=' by {
        assert(j == 0 || j == 1 || j == 2 || j == 3 || j == 4 || j == 5);
    }
    lemma_find_is(entry, '=', 6);
    let front = entry.take(6);
    assert(front[0] == 't');
    assert(front.last() == ' ');
    assert(front.drop_last() =~= key);
    assert(key.last() == 'n');
    reveal_with_fuel(crate::text::trim_end, 3);
    assert(trimmed(front) == key);
    // The entry begins with a letter and ends with a quote.
    assert(entry[0] == 't');
    assert(entry.last() == '"');
    assert(trimmed(entry) == entry);
    let header = crate::config::header_of("websocket_api"@);
    assert(header[0] == '[');
    assert(header.last() == ']');
    assert(trimmed(header) == header);
    assert(header =~= seq!['['] + "websocket_api"@ + seq![']']);
    assert forall|i: int| 0 <= i < header.len() implies header[i] != '\n' by {
        if 0 < i < header.len() - 1 {
            assert(header[i] == "websocket_api"@[i - 1]);
        }
    }
    assert forall|i: int| 0 <= i < entry.len() implies entry[i] != '\n' by {
        if 9 <= i < entry.len() - 1 {
            assert(entry[i] == token[i - 9]);
            assert(crate::encoding::is_unreserved(token[i - 9]));
        } else if i < 8 {
            assert(i == 0 || i == 1 || i == 2 || i == 3 || i == 4 || i == 5 || i == 6 || i == 7);
        }
    }
    if key.contains('=') {
        let k = choose|k: int| 0 <= k < key.len() && key[k] == '=';
        assert(entry[k] == '=');
    }
}

/// A rotation stores the token it was given, whatever the file held before.
pub proof fn law_rotation_stores_the_token(content: Seq<char>, token: Seq<char>)
    requires
        is_token_text(token),
    ensures
        setting(
            split(
                with_setting(content, "websocket_api"@, "token"@, stored_token(token)),
                '\n',
            ),
            "websocket_api"@,
            "token"@,
        ) == Some(" "@ + stored_token(token)),
{
    lemma_token_is_settable(token);
    crate::config::law_stored_value_is_read_back(
        content,
        "websocket_api"@,
        "token"@,
        stored_token(token),
    );
}

/// A rotation keeps every other setting of the config file.
pub proof fn law_rotation_keeps_every_other_setting(
    content: Seq<char>,
    token: Seq<char>,
    section: Seq<char>,
    key: Seq<char>,
)
    requires
        is_token_text(token),
        section != "websocket_api"@ || key != "token"@,
    ensures
        setting(
            split(
                with_setting(content, "websocket_api"@, "token"@, stored_token(token)),
                '\n',
            ),
            section,
            key,
        ) == setting(split(content, '\n'), section, key),
{
    lemma_token_is_settable(token);
    crate::config::law_storing_keeps_every_other_setting(
        content,
        "websocket_api"@,
        "token"@,
        stored_token(token),
        section,
        key,
    );
}

/// Rotating twice keeps only the latest token.
pub proof fn law_rotating_twice_keeps_only_the_latest_token(
    content: Seq<char>,
    first: Seq<char>,
    second: Seq<char>,
)
    requires
        is_token_text(first),
        is_token_text(second),
    ensures
        with_setting(
            with_setting(content, "websocket_api"@, "token"@, stored_token(first)),
            "websocket_api"@,
            "token"@,
            stored_token(second),
        ) == with_setting(content, "websocket_api"@, "token"@, stored_token(second)),
{
    lemma_token_is_settable(first);
    lemma_token_is_settable(second);
    crate::config::law_storing_twice_keeps_only_the_latest(
        content,
        "websocket_api"@,
        "token"@,
        stored_token(first),
        stored_token(second),
    );
}

/// The pairing query stands behind a question mark, and what a client reads
/// there is the token under one name and the display name, escaped, under the
/// other.
pub proof fn law_what_a_client_reads_of_a_pairing_url(
    endpoint: Seq<char>,
    token: Seq<char>,
    name: Seq<char>,
)
    requires
        !endpoint.contains('?'),
        is_token_text(token),
    ensures
        ({
            let url = pairing_url(endpoint, token, name);
            let mark = find(url, '?');
            let fields = split(url.skip(mark + 1), '&');
            &&& mark < url.len()
            &&& fields.len() == 2
            &&& fields[0] == "token="@ + token
            &&& has_prefix(fields[1], "name="@)
            &&& percent_decoded(fields[1].skip(5)) == Some(encode_utf8(name))
        }),
{
    reveal_strlit("?");
    reveal_strlit("/?");
    reveal_strlit("token=");
    reveal_strlit("&name=");
    reveal_strlit("name=");
    let escaped = percent_encoded(encode_utf8(name));
    let first = "token="@ + token;
    let second = "name="@ + escaped;
    let query = "token="@ + token + "&name="@ + escaped;
    let url = pairing_url(endpoint, token, name);
    law_percent_encoding_stays_in_its_parameter(encode_utf8(name));
    law_percent_encoding_round_trips(encode_utf8(name));
    assert(query =~= first + seq!['&'] + second);
    assert(!first.contains('&')) by {
        if first.contains('&') {
            let i = choose|i: int| 0 <= i < first.len() && first[i] == '&';
            if i >= 6 {
                assert(first[i] == token[i - 6]);
                assert(crate::encoding::is_unreserved(token[i - 6]));
            } else {
                assert(first[i] == "token="@[i]);
            }
        }
    }
    assert(!second.contains('&')) by {
        if second.contains('&') {
            let i = choose|i: int| 0 <= i < second.len() && second[i] == '&';
            if i >= 5 {
                assert(second[i] == escaped[i - 5]);
            } else {
                assert(second[i] == "name="@[i]);
            }
        }
    }
    lemma_split_single(first, '&');
    lemma_split_push(first, second, '&');
    assert(second.take(5) =~= "name="@);
    assert(second.skip(5) =~= escaped);
    if declares_a_path(endpoint) {
        assert(url =~= endpoint + ("?"@ + query));
        lemma_find_in_sum(endpoint, "?"@ + query, '?');
        lemma_find_is("?"@ + query, '?', 0);
        assert(url.skip(endpoint.len() + 1int) =~= query);
    } else {
        let rooted = endpoint.push('/');
        assert(url =~= rooted + ("?"@ + query));
        assert(!rooted.contains('?')) by {
            if rooted.contains('?') {
                let i = choose|i: int| 0 <= i < rooted.len() && rooted[i] == '?';
                assert(endpoint[i] == '?');
            }
        }
        lemma_find_in_sum(rooted, "?"@ + query, '?');
        lemma_find_is("?"@ + query, '?', 0);
        assert(url.skip(rooted.len() + 1int) =~= query);
    }
}

/// The query follows a path directly, and a slash where the endpoint has none.
pub proof fn law_where_the_pairing_query_begins(
    scheme: Seq<char>,
    rest: Seq<char>,
    endpoint: &str,
    prefix: &str,
)
    requires
        call_ensures(query_prefix, (endpoint,), prefix),
        scheme == "ws"@ || scheme == "wss"@,
        endpoint@ == scheme + "://"@ + rest,
    ensures
        rest.contains('/') ==> prefix@ == "?"@,
        !rest.contains('/') ==> prefix@ == "/?"@,
{
    crate::endpoint::lemma_scheme_ends_first(scheme, rest);
    reveal_strlit("://");
    assert(endpoint@.skip(scheme.len() + 3int) =~= rest);
}

/// A listener is usable at an address with a port; at a wildcard address only
/// where an endpoint is advertised in its place; never on port zero, and not
/// without an address.
pub proof fn law_which_bind_address_is_usable(
    text: Seq<char>,
    address: SocketView,
    advertised: bool,
)
    ensures
        bind_verdict(None, advertised) is NotConfigured,
        bind_verdict(Some(Seq::empty()), advertised) is NotConfigured,
        text.len() > 0 && socket_address(text) is None ==> bind_verdict(Some(text), advertised)
            is NotAnAddress,
        text.len() > 0 && socket_address(text) == Some(address) && address.port == 0
            ==> bind_verdict(Some(text), advertised) is PortZero,
        text.len() > 0 && socket_address(text) == Some(address) && address.port != 0
            && !is_wildcard(address.ip) ==> bind_verdict(Some(text), advertised)
            == BindVerdict::Usable(address),
        text.len() > 0 && socket_address(text) == Some(address) && address.port != 0 && is_wildcard(
            address.ip,
        ) ==> bind_verdict(Some(text), true) == BindVerdict::Usable(address) && bind_verdict(
            Some(text),
            false,
        ) is Wildcard,
{
}

/// A listener is dialled where it is bound, and one that is bound to every
/// address on the loopback of its own family, at its own port.
pub proof fn law_where_a_listener_is_dialled(address: SocketView)
    ensures
        local_listener(address).port == address.port,
        !is_wildcard(address.ip) ==> local_listener(address) == address,
        is_wildcard(address.ip) ==> local_listener(address).ip == loopback_of(address.ip)
            && local_listener(address).scope_id == 0,
{
}

/// A minted token is what thirty-two bytes are written as, in forty-three
/// characters.
pub proof fn law_how_long_a_minted_token_is(bytes: Vec<u8>, token: Result<String, String>)
    requires
        call_ensures(token_of, (Ok::<Vec<u8>, String>(bytes),), token),
        bytes@.len() == TOKEN_BYTES,
    ensures
        bytes@.len() == 32,
        token matches Ok(token) && token@ == base64url_text(bytes@) && token@.len() == 43,
{
}

/// What could not be rendered is told as that, and what could is shown as it
/// is.
pub proof fn law_what_is_shown_of_a_code(code: Seq<char>)
    ensures
        qr_outcome(Ok(code)) == Ok::<Seq<char>, Seq<char>>(code),
        qr_outcome(Err(code)) == Err::<Seq<char>, Seq<char>>(
            "could not encode the pairing url as a qr code: "@ + code,
        ),
{
}

} // verus!
