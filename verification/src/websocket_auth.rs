//! Who may open a WebSocket connection.

use crate::credential_context::{ActorView, CredentialContext};
use crate::credentials::{
    fingerprint_of, holder_of_fingerprint, law_minted_then_revoked_is_remembered_by_its_id,
    law_rotation_leaves_limited_credentials_standing, minted, recognizes, reloaded, revoked_one,
    revoked_with, synced, with_fingerprint, HandshakeOutcome, Moment, RegistryView,
    SharedCredentialRegistry,
};
use crate::encoding::{is_token_text, is_unreserved};
use crate::schema::CredentialTier;
use crate::text::{
    ascii_lower_all, find, has_prefix, is_blank, is_white_space, law_split_parts_make_the_text,
    law_what_is_around_is_trimmed, lemma_rejoined_parts_split, lower_ascii, rejoined, slices,
    spells, split, split_at_each, starts_with, str_view, to_chars, to_text, trim, trimmed, view_of,
};
use crate::token::reloaded_token;
use crate::pairing::{law_what_a_client_reads_of_a_pairing_url, pairing_url};
use vstd::prelude::*;
use vstd::slice::slice_subrange;

verus! {

/// What a rejected handshake is answered.
pub const UNAUTHORIZED_STATUS: u16 = 401;

pub const UNAUTHORIZED_BODY: &'static str = "unauthorized\n";

/// Why a handshake was rejected.
#[derive(Clone, Copy, Debug, PartialEq, Eq, Structural)]
pub enum WsAuthError {
    /// No Authorization header and no token query parameter.
    MissingToken,
    /// An Authorization header was present but was not a usable bearer token.
    MalformedAuthorization,
    /// A token was presented and did not match.
    WrongToken,
}

impl WsAuthError {
    pub fn as_str(self) -> (reason: &'static str)
        ensures
            reason@ == (match self {
                WsAuthError::MissingToken => "missing_token"@,
                WsAuthError::MalformedAuthorization => "malformed_authorization"@,
                WsAuthError::WrongToken => "wrong_token"@,
            }),
    {
        match self {
            WsAuthError::MissingToken => "missing_token",
            WsAuthError::MalformedAuthorization => "malformed_authorization",
            WsAuthError::WrongToken => "wrong_token",
        }
    }
}

/// Where white space first stands; the length where it stands nowhere.
pub open spec fn find_white_space(text: Seq<char>) -> int
    decreases text.len(),
{
    if text.len() == 0 || is_white_space(text[0]) {
        0
    } else {
        1 + find_white_space(text.skip(1))
    }
}

fn white_space_position(text: &[char]) -> (at: usize)
    ensures
        at == find_white_space(text@),
        at <= text@.len(),
{
    let mut i: usize = 0;
    assert(text@.skip(0) =~= text@);
    while i < text.len() && !text[i].is_whitespace()
        invariant
            i <= text@.len(),
            i + find_white_space(text@.skip(i as int)) == find_white_space(text@),
        decreases text@.len() - i,
    {
        assert(text@.skip(i as int).skip(1) =~= text@.skip(i + 1));
        i += 1;
    }
    i
}

fn lowered(text: &[char]) -> (lower: Vec<char>)
    ensures
        lower@ == ascii_lower_all(text@),
{
    let mut lower: Vec<char> = Vec::new();
    let mut i: usize = 0;
    while i < text.len()
        invariant
            i <= text@.len(),
            lower@ == ascii_lower_all(text@.take(i as int)),
        decreases text@.len() - i,
    {
        lower.push(lower_ascii(text[i]));
        i += 1;
        assert(lower@ =~= ascii_lower_all(text@.take(i as int)));
    }
    assert(text@.take(i as int) =~= text@);
    lower
}

/// The token of an Authorization header: what follows the scheme `bearer`,
/// in any case, and white space.
pub open spec fn bearer(authorization: Seq<char>) -> Option<Seq<char>> {
    let text = trimmed(authorization);
    let at = find_white_space(text);
    if ascii_lower_all(text.take(at)) != "bearer"@ || at >= text.len() {
        None
    } else {
        let token = trimmed(text.skip(at + 1));
        if token.len() == 0 {
            None
        } else {
            Some(token)
        }
    }
}

/// The token of an Authorization header, where it carries a usable one.
pub fn bearer_token(authorization: &str) -> (token: Option<String>)
    ensures
        view_of(token) == bearer(authorization@),
{
    let chars = to_chars(authorization);
    let text = trim(&chars);
    let end: usize = text.len();
    let at = white_space_position(text);
    let scheme = slice_subrange(text, 0, at);
    assert(scheme@ =~= text@.take(at as int));
    let lower = lowered(scheme);
    if !spells(&lower, "bearer") || at >= end {
        return None;
    }
    let rest = slice_subrange(text, at + 1, end);
    assert(rest@ =~= text@.skip(at + 1));
    let token = trim(rest);
    if token.len() == 0 {
        None
    } else {
        Some(to_text(token))
    }
}

pub const TOKEN_PARAMETER: &'static str = "token=";

/// The value of the first pair that is a token.
pub open spec fn first_token(pairs: Seq<Seq<char>>) -> Option<Seq<char>>
    decreases pairs.len(),
{
    if pairs.len() == 0 {
        None
    } else if has_prefix(pairs[0], TOKEN_PARAMETER@) {
        Some(pairs[0].skip(TOKEN_PARAMETER@.len() as int))
    } else {
        first_token(pairs.skip(1))
    }
}

/// The token of a query: the first one, unless it is empty. Other parameters
/// are passed over.
pub open spec fn token_in_query(query: Option<Seq<char>>) -> Option<Seq<char>> {
    match query {
        None => None,
        Some(query) => match first_token(split(query, '&')) {
            Some(token) => if token.len() == 0 {
                None
            } else {
                Some(token)
            },
            None => None,
        },
    }
}

/// The token of a query, where it carries one.
#[verifier::loop_isolation(false)]
pub fn query_token(query: Option<&str>) -> (token: Option<String>)
    ensures
        view_of(token) == token_in_query(str_view(query)),
{
    let query = match query {
        None => {
            return None;
        },
        Some(query) => query,
    };
    let chars = to_chars(query);
    let pairs = split_at_each(&chars, '&');
    let ghost all = slices(pairs@);
    let mut i: usize = 0;
    assert(all.skip(0) =~= all);
    while i < pairs.len()
        invariant
            i <= pairs@.len(),
            all == slices(pairs@),
            all == split(query@, '&'),
            first_token(all.skip(i as int)) == first_token(all),
        decreases pairs@.len() - i,
    {
        let pair = pairs[i];
        assert(all.skip(i as int)[0] == pair@);
        if starts_with(pair, TOKEN_PARAMETER) {
            proof {
                reveal_strlit("token=");
                assert(TOKEN_PARAMETER@.len() == 6);
            }
            let token = slice_subrange(pair, 6, pair.len());
            assert(token@ =~= pair@.skip(6));
            if token.len() == 0 {
                return None;
            }
            return Some(to_text(token));
        }
        assert(all.skip(i as int).skip(1) =~= all.skip(i + 1));
        i += 1;
    }
    assert(all.skip(i as int) =~= Seq::<Seq<char>>::empty());
    None
}

/// The token that a handshake presents, or why it presents none. The header
/// is authoritative where there is one: a malformed header is not made up
/// for by the query.
pub open spec fn presented_token(
    authorization: Option<Seq<char>>,
    query: Option<Seq<char>>,
) -> Result<Seq<char>, WsAuthError> {
    match authorization {
        Some(authorization) => match bearer(authorization) {
            Some(token) => Ok(token),
            None => Err(WsAuthError::MalformedAuthorization),
        },
        None => match token_in_query(query) {
            Some(token) => Ok(token),
            None => Err(WsAuthError::MissingToken),
        },
    }
}

/// What validating a handshake does to the registry and comes to. A
/// credential that this server revoked is admitted, to be told so; only a
/// token that it never issued is wrong.
pub open spec fn admits(
    before: SharedCredentialRegistry,
    after: SharedCredentialRegistry,
    presented: Result<Seq<char>, WsAuthError>,
    moment: Moment,
    admission: Result<HandshakeOutcome, WsAuthError>,
) -> bool {
    match presented {
        Err(error) => after@ == before@ && admission == Err::<HandshakeOutcome, WsAuthError>(
            error,
        ),
        Ok(token) => match admission {
            Ok(outcome) => !(outcome is Unknown) && recognizes(
                before@,
                after@,
                token,
                moment.now,
                moment.fresh_id@,
                outcome,
            ),
            Err(error) => error == WsAuthError::WrongToken && recognizes(
                before@,
                after@,
                token,
                moment.now,
                moment.fresh_id@,
                HandshakeOutcome::Unknown,
            ),
        },
    }
}

fn check_token(presented: &str, registry: &mut SharedCredentialRegistry, moment: &Moment) -> (admission:
    Result<HandshakeOutcome, WsAuthError>)
    ensures
        admits(
            *old(registry),
            *final(registry),
            Ok::<Seq<char>, WsAuthError>(presented@),
            *moment,
            admission,
        ),
{
    match registry.authenticate_handshake(presented, moment) {
        HandshakeOutcome::Unknown => Err(WsAuthError::WrongToken),
        outcome => Ok(outcome),
    }
}

/// Validate a handshake's credentials against the registry.
pub fn authorize_ws_request(
    authorization: Option<&str>,
    query: Option<&str>,
    registry: &mut SharedCredentialRegistry,
    moment: &Moment,
) -> (admission: Result<HandshakeOutcome, WsAuthError>)
    ensures
        admits(
            *old(registry),
            *final(registry),
            presented_token(str_view(authorization), str_view(query)),
            *moment,
            admission,
        ),
{
    if let Some(authorization) = authorization {
        return match bearer_token(authorization) {
            Some(presented) => check_token(&presented, registry, moment),
            None => Err(WsAuthError::MalformedAuthorization),
        };
    }
    match query_token(query) {
        Some(presented) => check_token(&presented, registry, moment),
        None => Err(WsAuthError::MissingToken),
    }
}

/// An Authorization header as it arrives.
#[derive(Clone, Copy, Debug)]
pub enum AuthorizationHeader<'a> {
    Absent,
    Text(&'a str),
    /// The header holds something that is no text.
    NotText,
}

/// Validate an upgrade request. A header that is no text is malformed.
pub fn authorize_upgrade(
    header: AuthorizationHeader<'_>,
    query: Option<&str>,
    registry: &mut SharedCredentialRegistry,
    moment: &Moment,
) -> (admission: Result<HandshakeOutcome, WsAuthError>)
    ensures
        admits(
            *old(registry),
            *final(registry),
            match header {
                AuthorizationHeader::NotText => Err(WsAuthError::MalformedAuthorization),
                AuthorizationHeader::Text(text) => presented_token(Some(text@), str_view(query)),
                AuthorizationHeader::Absent => presented_token(None, str_view(query)),
            },
            *moment,
            admission,
        ),
{
    match header {
        AuthorizationHeader::NotText => Err(WsAuthError::MalformedAuthorization),
        AuthorizationHeader::Text(text) => authorize_ws_request(
            Some(text),
            query,
            registry,
            moment,
        ),
        AuthorizationHeader::Absent => authorize_ws_request(None, query, registry, moment),
    }
}

/// The context that a connection acts in, for its whole life: the credential
/// that it presented.
pub fn connection_context(outcome: HandshakeOutcome) -> (context: Option<CredentialContext>)
    ensures
        match outcome {
            HandshakeOutcome::Live(credential) => context matches Some(context) && context@ == (
            ActorView::Connection {
                credential_id: credential.credential_id@,
                tier: credential.tier,
            }),
            HandshakeOutcome::Revoked { credential_id } => context matches Some(context)
                && context@ == (ActorView::Revoked { credential_id: credential_id@ }),
            HandshakeOutcome::Unknown => context is None,
        },
{
    match outcome {
        HandshakeOutcome::Live(credential) => Some(CredentialContext::connection(credential)),
        HandshakeOutcome::Revoked { credential_id } => Some(
            CredentialContext::revoked_connection(credential_id),
        ),
        HandshakeOutcome::Unknown => None,
    }
}

/// A header decides alone: with one, the query changes nothing.
pub proof fn law_the_header_is_authoritative(
    authorization: Seq<char>,
    query: Option<Seq<char>>,
    other: Option<Seq<char>>,
)
    ensures
        presented_token(Some(authorization), query) == presented_token(Some(authorization), other),
{
}

proof fn lemma_bearer_of_token(token: Seq<char>)
    requires
        token.len() > 0,
        is_token_text(token),
    ensures
        bearer("Bearer "@ + token) == Some(token),
{
    reveal_strlit("Bearer ");
    reveal_strlit("bearer");
    let head = "Bearer "@;
    let text = head + token;
    assert(is_unreserved(token[0]));
    assert(is_unreserved(token[token.len() - 1]));
    assert(text.last() == token.last());
    assert(text[0] == 'B');
    assert(trimmed(text) == text);
    assert(trimmed(token) == token);
    assert(text.skip(1).skip(1).skip(1).skip(1).skip(1).skip(1)[0] == ' ');
    reveal_with_fuel(find_white_space, 7);
    assert(find_white_space(text) == 6);
    assert(ascii_lower_all(text.take(6)) =~= "bearer"@);
    assert(text.skip(7) =~= token);
}

/// A token that was minted and then revoked is admitted to be told so, with
/// the id of that very credential, where its fingerprint is its own.
pub proof fn law_a_revoked_credential_is_told_so_by_its_id(
    registry: RegistryView,
    id: Seq<char>,
    token: Seq<char>,
    label: Option<Seq<char>>,
    minted_at: u64,
    before: SharedCredentialRegistry,
    after: SharedCredentialRegistry,
    query: Option<Seq<char>>,
    moment: Moment,
    admission: Result<HandshakeOutcome, WsAuthError>,
)
    requires
        token.len() > 0 && is_token_text(token),
        holder_of_fingerprint(
            synced(registry, moment.now, moment.fresh_id@),
            fingerprint_of(token),
        ) is Nobody,
        revoked_with(registry.revoked, fingerprint_of(token)) >= registry.revoked.len(),
        before@ == revoked_one(minted(registry, id, token, label, minted_at), id),
        admits(
            before,
            after,
            presented_token(Some("Bearer "@ + token), query),
            moment,
            admission,
        ),
    ensures
        admission matches Ok(HandshakeOutcome::Revoked { credential_id }) && credential_id@ == id,
{
    lemma_bearer_of_token(token);
    law_minted_then_revoked_is_remembered_by_its_id(
        registry,
        id,
        token,
        label,
        minted_at,
        moment.now,
        moment.fresh_id@,
    );
}

/// A token that this server never issued, to a credential that is live or to
/// one that was revoked, is a wrong one.
pub proof fn law_a_token_never_issued_is_wrong(
    token: Seq<char>,
    before: SharedCredentialRegistry,
    after: SharedCredentialRegistry,
    query: Option<Seq<char>>,
    moment: Moment,
    admission: Result<HandshakeOutcome, WsAuthError>,
)
    requires
        token.len() > 0 && is_token_text(token),
        holder_of_fingerprint(
            synced(before@, moment.now, moment.fresh_id@),
            fingerprint_of(token),
        ) is Nobody,
        revoked_with(before@.revoked, fingerprint_of(token)) >= before@.revoked.len(),
        admits(
            before,
            after,
            presented_token(Some("Bearer "@ + token), query),
            moment,
            admission,
        ),
    ensures
        admission == Err::<HandshakeOutcome, WsAuthError>(WsAuthError::WrongToken),
{
    lemma_bearer_of_token(token);
}

/// A rotation decides the very next handshake: the new token is the managing
/// credential's, and the rotated-away one is wrong unless it was also issued to
/// a limited credential.
pub proof fn law_a_rotation_decides_the_next_handshake(
    registry: RegistryView,
    previous: Seq<char>,
    bind: Option<Seq<char>>,
    configured: Option<Seq<char>>,
    token: Seq<char>,
    presented: Seq<char>,
    before: SharedCredentialRegistry,
    after: SharedCredentialRegistry,
    query: Option<Seq<char>>,
    moment: Moment,
    admission: Result<HandshakeOutcome, WsAuthError>,
)
    requires
        registry.managing_token == Some(previous),
        previous.len() > 0 && is_token_text(previous),
        reloaded_token(bind, configured) == Ok::<Seq<char>, Seq<char>>(token),
        fingerprint_of(previous) != fingerprint_of(token),
        before@ == reloaded(registry, bind, configured),
        presented == previous || presented == token,
        admits(
            before,
            after,
            presented_token(Some("Bearer "@ + presented), query),
            moment,
            admission,
        ),
    ensures
        presented == token ==> (admission matches Ok(HandshakeOutcome::Live(credential))
            && credential.tier == CredentialTier::Managing),
        presented == previous && with_fingerprint(registry.limited, fingerprint_of(previous))
            >= registry.limited.len() && revoked_with(registry.revoked, fingerprint_of(previous))
            >= registry.revoked.len() ==> admission == Err::<HandshakeOutcome, WsAuthError>(
            WsAuthError::WrongToken,
        ),
        presented == previous ==> !(admission matches Ok(HandshakeOutcome::Live(credential))
            && credential.tier == CredentialTier::Managing),
{
    lemma_bearer_of_token(presented);
    law_rotation_leaves_limited_credentials_standing(
        registry,
        previous,
        bind,
        configured,
        token,
        presented,
        moment.now,
        moment.fresh_id@,
    );
}

/// Without a token nobody is admitted, and the registry is left alone.
pub proof fn law_nobody_is_admitted_without_a_token(
    before: SharedCredentialRegistry,
    after: SharedCredentialRegistry,
    presented: Result<Seq<char>, WsAuthError>,
    moment: Moment,
    admission: Result<HandshakeOutcome, WsAuthError>,
)
    requires
        presented is Err,
        admits(before, after, presented, moment, admission),
    ensures
        admission is Err,
        after@ == before@,
{
}

proof fn lemma_no_white_space_before(text: Seq<char>, at: int)
    requires
        0 <= at <= text.len(),
        forall|j: int| 0 <= j < at ==> !is_white_space(#[trigger] text[j]),
        at < text.len() ==> is_white_space(text[at]),
    ensures
        find_white_space(text) == at,
    decreases text.len(),
{
    if at > 0 {
        assert(!is_white_space(text[0]));
        let rest = text.skip(1);
        assert forall|j: int| 0 <= j < at - 1 implies !is_white_space(#[trigger] rest[j]) by {
            assert(rest[j] == text[j + 1]);
        }
        if at < text.len() {
            assert(rest[at - 1] == text[at]);
        }
        lemma_no_white_space_before(rest, at - 1);
    }
}

/// A header carries the token that follows the word `bearer`, in any letter
/// case, and white space, however much of it stands there and around the whole.
pub proof fn law_a_bearer_token_is_read(
    lead: Seq<char>,
    scheme: Seq<char>,
    gap: Seq<char>,
    token: Seq<char>,
    tail: Seq<char>,
)
    requires
        is_blank(lead) && is_blank(gap) && is_blank(tail),
        gap.len() > 0,
        ascii_lower_all(scheme) == seq!['b', 'e', 'a', 'r', 'e', 'r'],
        token.len() > 0 && !is_white_space(token[0]) && !is_white_space(token.last()),
    ensures
        bearer(lead + (scheme + gap + token) + tail) == Some(token),
{
    let inner = scheme + gap + token;
    let lower = ascii_lower_all(scheme);
    reveal_strlit("bearer");
    assert("bearer"@ =~= seq!['b', 'e', 'a', 'r', 'e', 'r']);
    assert(scheme.len() == 6);
    assert forall|j: int| 0 <= j < 6 implies !is_white_space(#[trigger] scheme[j]) by {
        assert(lower[j] == crate::text::ascii_lower(scheme[j]));
        assert('a' <= lower[j] <= 'r');
    }
    assert(inner[0] == scheme[0]);
    assert(inner.last() == token.last());
    law_what_is_around_is_trimmed(lead, inner, tail);
    assert forall|j: int| 0 <= j < 6 implies !is_white_space(#[trigger] inner[j]) by {
        assert(inner[j] == scheme[j]);
    }
    assert(inner[6] == gap[0]);
    lemma_no_white_space_before(inner, 6);
    assert(inner.take(6) =~= scheme);
    let rest = gap.skip(1);
    let none = Seq::<char>::empty();
    assert forall|j: int| 0 <= j < rest.len() implies is_white_space(#[trigger] rest[j]) by {
        assert(rest[j] == gap[j + 1]);
    }
    assert(inner.skip(7) =~= rest + token + none);
    law_what_is_around_is_trimmed(rest, token, none);
}

/// A header with another scheme carries no token, and neither does one with a
/// scheme alone.
pub proof fn law_another_scheme_carries_no_token(scheme: Seq<char>, rest: Seq<char>)
    requires
        scheme.len() > 0,
        forall|j: int| 0 <= j < scheme.len() ==> !is_white_space(#[trigger] scheme[j]),
        ascii_lower_all(scheme) != seq!['b', 'e', 'a', 'r', 'e', 'r'],
        rest.len() > 0 && !is_white_space(rest.last()),
    ensures
        bearer(scheme + seq![' '] + rest) is None,
        bearer(scheme) is None,
        bearer("Bearer"@) is None,
{
    reveal_strlit("bearer");
    reveal_strlit("Bearer");
    assert("bearer"@ =~= seq!['b', 'e', 'a', 'r', 'e', 'r']);
    let none = Seq::<char>::empty();
    let whole = scheme + seq![' '] + rest;
    let n = scheme.len() as int;
    assert(whole[0] == scheme[0] && whole.last() == rest.last());
    assert(none + whole + none =~= whole);
    assert(none + scheme + none =~= scheme);
    law_what_is_around_is_trimmed(none, whole, none);
    assert(!is_white_space(scheme[n - 1]));
    law_what_is_around_is_trimmed(none, scheme, none);
    assert forall|j: int| 0 <= j < n implies !is_white_space(#[trigger] whole[j]) by {
        assert(whole[j] == scheme[j]);
    }
    assert(whole[n] == ' ');
    lemma_no_white_space_before(whole, n);
    lemma_no_white_space_before(scheme, n);
    assert(whole.take(n) =~= scheme);
    assert(scheme.take(n) =~= scheme);
    let word = "Bearer"@;
    assert(none + word + none =~= word);
    law_what_is_around_is_trimmed(none, word, none);
    assert forall|j: int| 0 <= j < 6 implies !is_white_space(#[trigger] word[j]) by {}
    lemma_no_white_space_before(word, 6);
}

/// A query carries the value of its first parameter named `token`, whatever
/// other parameters stand before and behind it, unless that value is empty.
pub proof fn law_the_first_token_of_a_query_is_read(
    before: Seq<Seq<char>>,
    value: Seq<char>,
    after: Seq<Seq<char>>,
)
    requires
        forall|i: int| 0 <= i < before.len() ==> !(#[trigger] before[i]).contains('&'),
        forall|i: int| 0 <= i < before.len() ==> !has_prefix(#[trigger] before[i], "token="@),
        forall|i: int| 0 <= i < after.len() ==> !(#[trigger] after[i]).contains('&'),
        !value.contains('&'),
    ensures
        ({
            let query = rejoined(before + seq!["token="@ + value] + after, '&');
            token_in_query(Some(query)) == (if value.len() > 0 {
                Some(value)
            } else {
                None
            })
        }),
        token_in_query(None) is None,
        before.len() > 0 ==> token_in_query(Some(rejoined(before, '&'))) is None,
{
    reveal_strlit("token=");
    let pair = "token="@ + value;
    let all = before + seq![pair] + after;
    assert(!pair.contains('&')) by {
        if pair.contains('&') {
            let k = choose|k: int| 0 <= k < pair.len() && pair[k] == '&';
            if k >= 6 {
                assert(value[k - 6] == '&');
            }
        }
    }
    assert forall|i: int| 0 <= i < all.len() implies !(#[trigger] all[i]).contains('&') by {
        if i < before.len() {
            assert(all[i] == before[i]);
        } else if i > before.len() {
            assert(all[i] == after[i - before.len() - 1]);
        }
    }
    lemma_rejoined_parts_split(all, '&');
    assert(pair.take(6) =~= "token="@);
    assert(pair.skip(6) =~= value);
    lemma_first_token(before, pair, after);
    if before.len() > 0 {
        lemma_rejoined_parts_split(before, '&');
        lemma_no_first_token(before);
    }
}

proof fn lemma_no_first_token(pairs: Seq<Seq<char>>)
    requires
        forall|i: int| 0 <= i < pairs.len() ==> !has_prefix(#[trigger] pairs[i], "token="@),
    ensures
        first_token(pairs) is None,
    decreases pairs.len(),
{
    if pairs.len() > 0 {
        let rest = pairs.skip(1);
        assert(!has_prefix(pairs[0], "token="@));
        assert forall|i: int| 0 <= i < rest.len() implies !has_prefix(
            #[trigger] rest[i],
            "token="@,
        ) by {
            assert(rest[i] == pairs[i + 1]);
        }
        lemma_no_first_token(rest);
    }
}

proof fn lemma_first_token(before: Seq<Seq<char>>, pair: Seq<char>, after: Seq<Seq<char>>)
    requires
        forall|i: int| 0 <= i < before.len() ==> !has_prefix(#[trigger] before[i], "token="@),
        has_prefix(pair, "token="@) || pair.take(6) == "token="@,
        pair.len() >= 6,
    ensures
        first_token(before + seq![pair] + after) == Some(pair.skip(6)),
    decreases before.len(),
{
    reveal_strlit("token=");
    let all = before + seq![pair] + after;
    if before.len() == 0 {
        assert(all[0] == pair);
        assert(pair.take(6) == "token="@);
    } else {
        assert(all[0] == before[0]);
        let rest = before.skip(1);
        assert forall|i: int| 0 <= i < rest.len() implies !has_prefix(
            #[trigger] rest[i],
            "token="@,
        ) by {
            assert(rest[i] == before[i + 1]);
        }
        lemma_first_token(rest, pair, after);
        assert(all.skip(1) =~= rest + seq![pair] + after);
    }
}

/// A live credential acts for itself, a revoked one is let on to be told so, and
/// nobody else gets a connection.
pub proof fn law_whom_a_connection_acts_for(
    outcome: HandshakeOutcome,
    context: Option<CredentialContext>,
)
    requires
        call_ensures(connection_context, (outcome,), context),
    ensures
        context is None <==> outcome is Unknown,
        outcome matches HandshakeOutcome::Live(credential) ==> (context matches Some(context)
            && context@ == (ActorView::Connection {
            credential_id: credential.credential_id@,
            tier: credential.tier,
        })),
        outcome matches HandshakeOutcome::Revoked { credential_id } ==> (context matches Some(
            context,
        ) && context@ == (ActorView::Revoked { credential_id: credential_id@ })),
{
}

/// Who is not admitted is told that it is unauthorized.
pub proof fn law_how_a_refusal_is_answered()
    ensures
        UNAUTHORIZED_STATUS == 401,
        UNAUTHORIZED_BODY@ == "unauthorized\n"@,
{
}

/// A header presents its bearer token or is malformed, whatever the query says;
/// without one the query presents its token or there is none.
pub proof fn law_which_token_is_presented(
    authorization: Seq<char>,
    query: Option<Seq<char>>,
    token: Seq<char>,
)
    ensures
        bearer(authorization) == Some(token) ==> presented_token(Some(authorization), query) == Ok::<
            Seq<char>,
            WsAuthError,
        >(token),
        bearer(authorization) is None ==> presented_token(Some(authorization), query) == Err::<
            Seq<char>,
            WsAuthError,
        >(WsAuthError::MalformedAuthorization),
        token_in_query(query) == Some(token) ==> presented_token(None, query) == Ok::<
            Seq<char>,
            WsAuthError,
        >(token),
        token_in_query(query) is None ==> presented_token(None, query) == Err::<
            Seq<char>,
            WsAuthError,
        >(WsAuthError::MissingToken),
{
}

/// A client that dials a pairing url presents the token that the url was made
/// with, whatever the endpoint and the name are.
pub proof fn law_a_pairing_url_presents_its_token(
    endpoint: Seq<char>,
    token: Seq<char>,
    name: Seq<char>,
)
    requires
        !endpoint.contains('?'),
        token.len() > 0,
        is_token_text(token),
    ensures
        ({
            let url = pairing_url(endpoint, token, name);
            let query = url.skip(find(url, '?') + 1);
            presented_token(None, Some(query)) == Ok::<Seq<char>, WsAuthError>(token)
        }),
{
    let url = pairing_url(endpoint, token, name);
    let query = url.skip(find(url, '?') + 1);
    law_what_a_client_reads_of_a_pairing_url(endpoint, token, name);
    let fields = split(query, '&');
    let before = Seq::<Seq<char>>::empty();
    let after = seq![fields[1]];
    law_split_parts_make_the_text(query, '&');
    assert(!token.contains('&')) by {
        if token.contains('&') {
            let k = choose|k: int| 0 <= k < token.len() && token[k] == '&';
            assert(is_unreserved(token[k]));
        }
    }
    assert(!after[0].contains('&'));
    assert(before + seq!["token="@ + token] + after =~= fields);
    law_the_first_token_of_a_query_is_read(before, token, after);
}

/// A header is read by what it says: the token behind `bearer`, in any case.
pub proof fn law_what_a_header_presents(
    scheme: Seq<char>,
    token: Seq<char>,
    header: &str,
    presented: Option<String>,
)
    requires
        call_ensures(bearer_token, (header,), presented),
        ascii_lower_all(scheme) == seq!['b', 'e', 'a', 'r', 'e', 'r'],
        token.len() > 0 && !is_white_space(token[0]) && !is_white_space(token.last()),
        header@ == scheme + seq![' '] + token,
    ensures
        presented matches Some(read) && read@ == token,
{
    let none = Seq::<char>::empty();
    assert(is_white_space(' '));
    law_a_bearer_token_is_read(none, scheme, seq![' '], token, none);
    assert(none + (scheme + seq![' '] + token) + none =~= header@);
}

} // verus!
