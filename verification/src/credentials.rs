//! The per-server credential registry.
//!
//! A server honors more than one credential: the pairing's managing
//! credential, rotated by pairing again, and any number of limited
//! credentials that the managing one mints. Every live credential drives the
//! whole pane api; only the managing one may mint, list or revoke others. A
//! limited credential may revoke itself and nothing else.
//!
//! Nothing in the registry is a secret: credentials are stored and compared
//! as fingerprints, so a minted token exists in full exactly once, in the
//! response that hands it to its holder. A revoked credential stays known as
//! a revoked one, so that its holder can be told so.

use crate::config::WebSocketApiConfig;
use crate::encoding::{
    base64url_text, fits_base64, hex_bytes, is_fresh_token, push_hex_bytes, random_bytes, sha256,
    sha256_digest, token_from_bytes,
};
use crate::last_seen::{seen_in, LastSeenIndex};
use crate::net::{hex_digit_value, is_hex_digit};
use crate::schema::{CredentialInfo, CredentialTier};
use crate::text::{
    has_prefix, is_blank, is_control_code, is_white_space, law_what_is_around_is_trimmed,
    same_text, str_view, to_chars, to_text, trim, trimmed, view_of,
};
use crate::token::{reloaded_token, SharedWebSocketToken};
use vstd::prelude::*;
use vstd::string::StringSliceAdditionalSpecFns as _;
use vstd::utf8::encode_utf8;

verus! {

/// On-disk format version. A newer version is ignored rather than downgraded.
pub const REGISTRY_VERSION: u32 = 1;

/// Labels are display strings.
pub const MAX_LABEL_LEN: usize = 120;

/// How stale a persisted last-seen may get: requests touch last-seen in
/// memory on every call, and the file is rewritten at most this often.
pub const LAST_SEEN_PERSIST_INTERVAL_SECS: u64 = 60;

/// Refusals that a client can act on. Only these mean that the credential is
/// not allowed; everything else is trouble, not a verdict.
pub const CODE_FORBIDDEN: &'static str = "credential_forbidden";

pub const CODE_NOT_FOUND: &'static str = "credential_not_found";

pub const CODE_REVOKED: &'static str = "credential_revoked";

pub const REVOKED_MESSAGE: &'static str = "this credential has been revoked; pair or link again";

// ---- Fingerprints and ids ------------------------------------------------------------------

/// The fingerprint of a token: the lowercase hex of its sha-256.
pub open spec fn fingerprint_of(token: Seq<char>) -> Seq<char> {
    hex_bytes(sha256_digest(encode_utf8(token)))
}

pub fn fingerprint(token: &str) -> (hex: String)
    ensures
        hex@ == fingerprint_of(token@),
{
    let digest = sha256(token.as_bytes());
    let mut hex = String::new();
    push_hex_bytes(&mut hex, digest.as_slice());
    assert(hex@ =~= fingerprint_of(token@));
    hex
}

/// Compare without an early exit, so that the time taken does not depend on
/// how many leading bytes match.
pub fn constant_time_eq(a: &[u8], b: &[u8]) -> (equal: bool)
    ensures
        equal == (a@ == b@),
{
    if a.len() != b.len() {
        return false;
    }
    let mut diff: u8 = 0;
    let mut i: usize = 0;
    assert(a@.take(0) =~= b@.take(0));
    while i < a.len()
        invariant
            i <= a@.len(),
            a@.len() == b@.len(),
            (diff == 0) == (a@.take(i as int) == b@.take(i as int)),
        decreases a@.len() - i,
    {
        let x: u8 = a[i];
        let y: u8 = b[i];
        let ghost before = diff;
        diff = diff | (x ^ y);
        i += 1;
        proof {
            assert((before | (x ^ y)) == 0 <==> before == 0 && x == y) by (bit_vector);
            let left = a@.take(i as int);
            let right = b@.take(i as int);
            assert(left =~= a@.take(i - 1).push(x));
            assert(right =~= b@.take(i - 1).push(y));
            if left == right {
                assert(left[i - 1] == right[i - 1]);
                assert(a@.take(i - 1) =~= left.drop_last());
                assert(b@.take(i - 1) =~= right.drop_last());
            }
        }
    }
    assert(a@.take(i as int) =~= a@);
    assert(b@.take(i as int) =~= b@);
    diff == 0
}

fn same_fingerprint(a: &String, b: &String) -> (equal: bool)
    ensures
        equal == (a@ == b@),
{
    let equal = constant_time_eq(a.as_str().as_bytes(), b.as_str().as_bytes());
    proof {
        vstd::utf8::encode_utf8_decode_utf8(a@);
        vstd::utf8::encode_utf8_decode_utf8(b@);
    }
    equal
}

/// The id that eight bytes are written as.
pub open spec fn credential_id(bytes: Seq<u8>) -> Seq<char> {
    "cred_"@ + hex_bytes(bytes)
}

/// Whether a text is an id that eight bytes are written as.
pub open spec fn is_credential_id(id: Seq<char>) -> bool {
    exists|bytes: Seq<u8>| #[trigger] credential_id(bytes) == id && bytes.len() == 8
}

pub fn credential_id_from(bytes: &[u8]) -> (id: String)
    ensures
        id@ == credential_id(bytes@),
{
    let mut id = "cred_".to_string();
    push_hex_bytes(&mut id, bytes);
    id
}

/// The big-endian bytes of a clock reading.
pub open spec fn nanos_bytes(nanos: u64) -> Seq<u8> {
    seq![
        (nanos / 0x100_0000_0000_0000 % 256) as u8,
        (nanos / 0x1_0000_0000_0000 % 256) as u8,
        (nanos / 0x100_0000_0000 % 256) as u8,
        (nanos / 0x1_0000_0000 % 256) as u8,
        (nanos / 0x100_0000 % 256) as u8,
        (nanos / 0x1_0000 % 256) as u8,
        (nanos / 0x100 % 256) as u8,
        (nanos % 256) as u8,
    ]
}

/// The bytes of a fresh id: random ones, or those of the clock where there is
/// no randomness to be had. Ids only need to be unique within one registry.
pub fn id_bytes(random: Result<Vec<u8>, String>, nanos: u64) -> (bytes: Vec<u8>)
    ensures
        match random {
            Ok(random) => bytes@ == random@,
            Err(_) => bytes@ == nanos_bytes(nanos),
        },
{
    match random {
        Ok(random) => random,
        Err(_) => {
            let bytes: Vec<u8> = vec![
                (nanos / 0x100_0000_0000_0000 % 256) as u8,
                (nanos / 0x1_0000_0000_0000 % 256) as u8,
                (nanos / 0x100_0000_0000 % 256) as u8,
                (nanos / 0x1_0000_0000 % 256) as u8,
                (nanos / 0x100_0000 % 256) as u8,
                (nanos / 0x1_0000 % 256) as u8,
                (nanos / 0x100 % 256) as u8,
                (nanos % 256) as u8,
            ];
            assert(bytes@ =~= nanos_bytes(nanos));
            bytes
        },
    }
}

/// A fresh credential id; the clock stands in where randomness fails.
pub fn new_credential_id(nanos: u64) -> (id: String)
    ensures
        is_credential_id(id@),
{
    let bytes = id_bytes(random_bytes(8), nanos);
    let id = credential_id_from(&bytes);
    assert(credential_id(bytes@) == id@ && bytes@.len() == 8);
    id
}

/// What an operation observes of the clock and of chance: the time, and an id
/// to give to a credential that has to be recorded.
#[derive(Clone, Debug, PartialEq, Eq)]
pub struct Moment {
    pub now: u64,
    pub fresh_id: String,
}

/// A credential about to be minted: its id and its token.
#[derive(Clone, Debug, PartialEq, Eq)]
pub struct FreshCredential {
    pub id: String,
    pub token: String,
}

pub const NO_CREDENTIAL: &'static str = "could not gather randomness for a credential: ";

/// What a mint needs, made of a fresh id and the random bytes of a token, or
/// why there is none.
pub fn credential_of(id: String, random: Result<Vec<u8>, String>) -> (fresh: Result<
    FreshCredential,
    String,
>)
    requires
        random matches Ok(bytes) ==> fits_base64(bytes@.len()),
    ensures
        match random {
            Ok(bytes) => fresh matches Ok(fresh) && fresh.id == id && fresh.token@
                == base64url_text(bytes@),
            Err(error) => fresh matches Err(message) && message@ == NO_CREDENTIAL@ + error@,
        },
        random matches Ok(bytes) ==> bytes@.len() == 32 ==> is_fresh_token(fresh->Ok_0.token@),
{
    match random {
        Ok(bytes) => {
            let token = token_from_bytes(&bytes);
            assert(base64url_text(bytes@) == token@);
            Ok(FreshCredential { id, token })
        },
        Err(error) => {
            let mut message = NO_CREDENTIAL.to_string();
            message.push_str(&error);
            Err(message)
        },
    }
}

/// Whether this is what gathering for a mint can come to: an id and a token in
/// their forms, or the reason that there is no randomness.
pub open spec fn is_gathered(fresh: Result<FreshCredential, String>) -> bool {
    match fresh {
        Ok(fresh) => is_credential_id(fresh.id@) && is_fresh_token(fresh.token@),
        Err(message) => has_prefix(message@, NO_CREDENTIAL@),
    }
}

/// Gather what a mint needs: a fresh id and a fresh token, or why there is no
/// randomness for one.
pub fn fresh_credential(nanos: u64) -> (fresh: Result<FreshCredential, String>)
    ensures
        is_gathered(fresh),
{
    let fresh = credential_of(new_credential_id(nanos), random_bytes(32));
    proof {
        if fresh is Err {
            assert(fresh->Err_0@.take(NO_CREDENTIAL@.len() as int) =~= NO_CREDENTIAL@);
        }
    }
    fresh
}

// ---- Labels --------------------------------------------------------------------------------

/// The label that a mint records: trimmed, absent where blank, and refused
/// where it is too long or holds control characters.
pub open spec fn recorded_label(label: Option<Seq<char>>) -> Result<Option<Seq<char>>, Seq<char>> {
    match label {
        None => Ok(None),
        Some(text) => {
            let inner = trimmed(text);
            if inner.len() == 0 {
                Ok(None)
            } else if inner.len() > MAX_LABEL_LEN {
                Err("label is longer than 120 characters"@)
            } else if exists|i: int| 0 <= i < inner.len() && is_control_code(#[trigger] inner[i]) {
                Err("label must not contain control characters"@)
            } else {
                Ok(Some(inner))
            }
        },
    }
}

#[verifier::loop_isolation(false)]
pub fn normalize_label(label: Option<&str>) -> (recorded: Result<Option<String>, String>)
    ensures
        match (recorded_label(str_view(label)), recorded) {
            (Ok(inner), Ok(text)) => view_of(text) == inner,
            (Err(reason), Err(text)) => text@ == reason,
            _ => false,
        },
{
    let text = match label {
        None => {
            return Ok(None);
        },
        Some(text) => text,
    };
    let chars = to_chars(text);
    let inner = trim(&chars);
    if inner.len() == 0 {
        return Ok(None);
    }
    if inner.len() > MAX_LABEL_LEN {
        return Err("label is longer than 120 characters".to_string());
    }
    let mut i: usize = 0;
    while i < inner.len()
        invariant
            i <= inner@.len(),
            forall|j: int| 0 <= j < i ==> !is_control_code(#[trigger] inner@[j]),
        decreases inner@.len() - i,
    {
        if inner[i].is_control() {
            assert(is_control_code(inner@[i as int]));
            return Err("label must not contain control characters".to_string());
        }
        i += 1;
    }
    Ok(Some(to_text(inner)))
}

/// A label is recorded as it stands without the white space around it, where
/// that is at most a hundred and twenty characters and none of them is a control
/// character; a longer one is refused, and so is one with a control character; a
/// blank one is no label.
pub proof fn law_labels_up_to_a_hundred_and_twenty_characters(
    lead: Seq<char>,
    inner: Seq<char>,
    tail: Seq<char>,
)
    requires
        is_blank(lead),
        is_blank(tail),
        inner.len() > 0 ==> !is_white_space(inner[0]) && !is_white_space(inner.last()),
    ensures
        ({
            let recorded = recorded_label(Some(lead + inner + tail));
            let controlled = exists|i: int|
                0 <= i < inner.len() && ((#[trigger] inner[i] as u32) < 0x20 || 0x7f
                    <= inner[i] as u32 <= 0x9f);
            &&& inner.len() == 0 ==> recorded == Ok::<Option<Seq<char>>, Seq<char>>(None)
            &&& 1 <= inner.len() <= 120 && !controlled ==> recorded == Ok::<
                Option<Seq<char>>,
                Seq<char>,
            >(Some(inner))
            &&& inner.len() > 120 ==> recorded == Err::<Option<Seq<char>>, Seq<char>>(
                "label is longer than 120 characters"@,
            )
            &&& 1 <= inner.len() <= 120 && controlled ==> recorded == Err::<
                Option<Seq<char>>,
                Seq<char>,
            >("label must not contain control characters"@)
        }),
        recorded_label(None) == Ok::<Option<Seq<char>>, Seq<char>>(None),
{
    law_what_is_around_is_trimmed(lead, inner, tail);
    if exists|i: int|
        0 <= i < inner.len() && ((#[trigger] inner[i] as u32) < 0x20 || 0x7f <= inner[i] as u32
            <= 0x9f) {
        let i = choose|i: int|
            0 <= i < inner.len() && ((#[trigger] inner[i] as u32) < 0x20 || 0x7f <= inner[i] as u32
                <= 0x9f);
        assert(is_control_code(inner[i]));
    }
    if exists|i: int| 0 <= i < inner.len() && is_control_code(#[trigger] inner[i]) {
        let i = choose|i: int| 0 <= i < inner.len() && is_control_code(#[trigger] inner[i]);
        assert((inner[i] as u32) < 0x20 || 0x7f <= inner[i] as u32 <= 0x9f);
    }
}

// ---- The registry's contents ------------------------------------------------------------------

/// One credential as stored. The token itself is never written down.
#[derive(Clone, Debug, PartialEq, Eq)]
pub struct StoredCredential {
    pub id: String,
    /// Lowercase hex sha-256 of the credential's token.
    pub fingerprint: String,
    pub label: Option<String>,
    pub created_at_unix: u64,
    pub last_seen_unix: Option<u64>,
}

/// A credential that was revoked: enough to recognize it and say so.
#[derive(Clone, Debug, PartialEq, Eq)]
pub struct RevokedCredential {
    pub id: String,
    pub fingerprint: String,
}

/// The registry as it is written to disk.
#[derive(Clone, Debug, PartialEq, Eq)]
pub struct RegistryFile {
    pub version: u32,
    pub managing: Option<StoredCredential>,
    pub limited: Vec<StoredCredential>,
    pub revoked: Vec<RevokedCredential>,
}

/// A credential over its texts.
pub ghost struct CredentialView {
    pub id: Seq<char>,
    pub fingerprint: Seq<char>,
    pub label: Option<Seq<char>>,
    pub created_at: u64,
    pub last_seen: Option<u64>,
}

/// The registry over its credentials.
pub ghost struct RegistryView {
    pub managing: Option<CredentialView>,
    pub limited: Seq<CredentialView>,
    /// Id and fingerprint of each revoked credential.
    pub revoked: Seq<(Seq<char>, Seq<char>)>,
    /// The last-seen that the file holds, by id.
    pub persisted: Map<Seq<char>, u64>,
    /// What the listener's token slot holds, once a listener was attached.
    pub managing_token: Option<Seq<char>>,
    /// Whether the file is to be written.
    pub unsaved: bool,
}

impl View for StoredCredential {
    type V = CredentialView;

    open spec fn view(&self) -> CredentialView {
        CredentialView {
            id: self.id@,
            fingerprint: self.fingerprint@,
            label: view_of(self.label),
            created_at: self.created_at_unix,
            last_seen: self.last_seen_unix,
        }
    }
}

pub open spec fn credential_views(stored: Seq<StoredCredential>) -> Seq<CredentialView> {
    Seq::new(stored.len(), |i: int| stored[i]@)
}

pub open spec fn credential_view(stored: Option<StoredCredential>) -> Option<CredentialView> {
    match stored {
        Some(stored) => Some(stored@),
        None => None,
    }
}

pub open spec fn revoked_view(revoked: Seq<RevokedCredential>) -> Seq<(Seq<char>, Seq<char>)> {
    Seq::new(revoked.len(), |i: int| (revoked[i].id@, revoked[i].fingerprint@))
}

/// When credentials were last seen, by id; the last of some with one id counts.
pub open spec fn seen_index(credentials: Seq<CredentialView>) -> Map<Seq<char>, u64>
    decreases credentials.len(),
{
    if credentials.len() == 0 {
        Map::empty()
    } else {
        let front = seen_index(credentials.drop_last());
        match credentials.last().last_seen {
            Some(seen) => front.insert(credentials.last().id, seen),
            None => front,
        }
    }
}

/// Every live credential, managing first.
pub open spec fn all_credentials(
    managing: Option<CredentialView>,
    limited: Seq<CredentialView>,
) -> Seq<CredentialView> {
    match managing {
        Some(credential) => seq![credential] + limited,
        None => limited,
    }
}

/// Whether a file can be used: it was read and parsed, and its format is not
/// newer than this one.
pub open spec fn is_usable(file: Option<RegistryFile>) -> bool {
    match file {
        Some(file) => file.version <= REGISTRY_VERSION,
        None => false,
    }
}

/// The registry that a file opens as. One that is missing, unreadable or from
/// a newer version is an empty registry, never a failure.
pub open spec fn opened(file: Option<RegistryFile>) -> RegistryView {
    if is_usable(file) {
        RegistryView {
            managing: credential_view(file->0.managing),
            limited: credential_views(file->0.limited@),
            revoked: revoked_view(file->0.revoked@),
            persisted: seen_index(
                all_credentials(
                    credential_view(file->0.managing),
                    credential_views(file->0.limited@),
                ),
            ),
            managing_token: None,
            unsaved: false,
        }
    } else {
        RegistryView {
            managing: None,
            limited: Seq::empty(),
            revoked: Seq::empty(),
            persisted: Map::empty(),
            managing_token: None,
            unsaved: false,
        }
    }
}

/// Where the first credential with a fingerprint stands; the number of
/// credentials where none has it.
pub open spec fn with_fingerprint(entries: Seq<CredentialView>, fingerprint: Seq<char>) -> int
    decreases entries.len(),
{
    if entries.len() == 0 || entries[0].fingerprint == fingerprint {
        0
    } else {
        1 + with_fingerprint(entries.skip(1), fingerprint)
    }
}

/// Where the first credential with an id stands; the number of credentials
/// where none has it.
pub open spec fn with_id(entries: Seq<CredentialView>, id: Seq<char>) -> int
    decreases entries.len(),
{
    if entries.len() == 0 || entries[0].id == id {
        0
    } else {
        1 + with_id(entries.skip(1), id)
    }
}

/// Whether the file has drifted far enough from the clock to be rewritten.
pub open spec fn is_due(persisted: Option<u64>, now: u64) -> bool {
    match persisted {
        Some(previous) => now >= previous && now - previous >= LAST_SEEN_PERSIST_INTERVAL_SECS,
        None => true,
    }
}

/// A credential that was just used.
pub open spec fn touched(credential: CredentialView, now: u64) -> CredentialView {
    CredentialView { last_seen: Some(now), ..credential }
}

/// What the file holds of an id's last-seen once that was used, where the file
/// is due to be rewritten for it.
pub open spec fn persisted_after(
    persisted: Map<Seq<char>, u64>,
    id: Seq<char>,
    now: u64,
) -> Map<Seq<char>, u64> {
    if is_due(seen_in(persisted, id), now) {
        persisted.insert(id, now)
    } else {
        persisted
    }
}

/// What the file holds once credentials are forgotten.
pub open spec fn forgotten(
    persisted: Map<Seq<char>, u64>,
    credentials: Seq<CredentialView>,
) -> Map<Seq<char>, u64>
    decreases credentials.len(),
{
    if credentials.len() == 0 {
        persisted
    } else {
        forgotten(persisted, credentials.drop_last()).remove(credentials.last().id)
    }
}

/// The registry once the managing credential is in step with the live token:
/// a new token starts a fresh managing credential, and nothing else changes.
pub open spec fn synced(registry: RegistryView, now: u64, fresh_id: Seq<char>) -> RegistryView {
    match registry.managing_token {
        None => registry,
        Some(token) => if registry.managing is Some && registry.managing->0.fingerprint
            == fingerprint_of(token) {
            registry
        } else {
            RegistryView {
                managing: Some(
                    CredentialView {
                        id: fresh_id,
                        fingerprint: fingerprint_of(token),
                        label: None,
                        created_at: now,
                        last_seen: None,
                    },
                ),
                persisted: match registry.managing {
                    Some(previous) => registry.persisted.remove(previous.id),
                    None => registry.persisted,
                },
                unsaved: true,
                ..registry
            }
        },
    }
}

/// The registry after a reloaded section was applied to its token slot: a
/// usable section puts its token in effect, and any other changes nothing.
pub open spec fn reloaded(
    registry: RegistryView,
    bind: Option<Seq<char>>,
    token: Option<Seq<char>>,
) -> RegistryView {
    match (registry.managing_token, reloaded_token(bind, token)) {
        (Some(_), Ok(new)) => RegistryView { managing_token: Some(new), ..registry },
        _ => registry,
    }
}

/// The registry after its managing credential was used.
pub open spec fn managing_used(registry: RegistryView, now: u64) -> RegistryView {
    RegistryView {
        managing: Some(touched(registry.managing->0, now)),
        persisted: persisted_after(registry.persisted, registry.managing->0.id, now),
        unsaved: registry.unsaved || is_due(
            seen_in(registry.persisted, registry.managing->0.id),
            now,
        ),
        ..registry
    }
}

/// The registry after one of its limited credentials was used.
pub open spec fn limited_used(registry: RegistryView, at: int, now: u64) -> RegistryView {
    RegistryView {
        limited: registry.limited.update(at, touched(registry.limited[at], now)),
        persisted: persisted_after(registry.persisted, registry.limited[at].id, now),
        unsaved: registry.unsaved || is_due(
            seen_in(registry.persisted, registry.limited[at].id),
            now,
        ),
        ..registry
    }
}

/// Which live credential a fingerprint belongs to, the managing one first.
pub ghost enum Holder {
    Managing,
    Limited(int),
    Nobody,
}

pub open spec fn holder_of_fingerprint(registry: RegistryView, fingerprint: Seq<char>) -> Holder {
    if registry.managing is Some && registry.managing->0.fingerprint == fingerprint {
        Holder::Managing
    } else if with_fingerprint(registry.limited, fingerprint) < registry.limited.len() {
        Holder::Limited(with_fingerprint(registry.limited, fingerprint))
    } else {
        Holder::Nobody
    }
}

pub open spec fn holder_of_id(registry: RegistryView, id: Seq<char>) -> Holder {
    if registry.managing is Some && registry.managing->0.id == id {
        Holder::Managing
    } else if with_id(registry.limited, id) < registry.limited.len() {
        Holder::Limited(with_id(registry.limited, id))
    } else {
        Holder::Nobody
    }
}

/// The registry after a holder was seen using it.
pub open spec fn used(registry: RegistryView, holder: Holder, now: u64) -> RegistryView {
    match holder {
        Holder::Managing => managing_used(registry, now),
        Holder::Limited(at) => limited_used(registry, at, now),
        Holder::Nobody => registry,
    }
}

/// The id and tier of a holder.
pub open spec fn identity(registry: RegistryView, holder: Holder) -> Option<
    (Seq<char>, CredentialTier),
> {
    match holder {
        Holder::Managing => Some((registry.managing->0.id, CredentialTier::Managing)),
        Holder::Limited(at) => Some((registry.limited[at].id, CredentialTier::Limited)),
        Holder::Nobody => None,
    }
}

/// The credentials that do not have an id.
pub open spec fn without_id(entries: Seq<CredentialView>, id: Seq<char>) -> Seq<CredentialView>
    decreases entries.len(),
{
    if entries.len() == 0 {
        Seq::empty()
    } else if entries.last().id == id {
        without_id(entries.drop_last(), id)
    } else {
        without_id(entries.drop_last(), id).push(entries.last())
    }
}

/// What is remembered of the credentials that have an id.
pub open spec fn remembered(entries: Seq<CredentialView>, id: Seq<char>) -> Seq<
    (Seq<char>, Seq<char>),
>
    decreases entries.len(),
{
    if entries.len() == 0 {
        Seq::empty()
    } else if entries.last().id == id {
        remembered(entries.drop_last(), id).push((id, entries.last().fingerprint))
    } else {
        remembered(entries.drop_last(), id)
    }
}

/// The registry after a limited credential was revoked by id.
pub open spec fn revoked_one(registry: RegistryView, id: Seq<char>) -> RegistryView {
    RegistryView {
        limited: without_id(registry.limited, id),
        revoked: registry.revoked + remembered(registry.limited, id),
        persisted: if without_id(registry.limited, id).len() != registry.limited.len() {
            registry.persisted.remove(id)
        } else {
            registry.persisted
        },
        unsaved: registry.unsaved || without_id(registry.limited, id).len()
            != registry.limited.len(),
        ..registry
    }
}

/// The registry after every limited credential was revoked.
pub open spec fn revoked_all(registry: RegistryView) -> RegistryView {
    RegistryView {
        limited: Seq::empty(),
        revoked: registry.revoked + Seq::new(
            registry.limited.len(),
            |i: int| (registry.limited[i].id, registry.limited[i].fingerprint),
        ),
        persisted: forgotten(registry.persisted, registry.limited),
        unsaved: registry.unsaved || registry.limited.len() > 0,
        ..registry
    }
}

/// The registry after a credential was minted.
pub open spec fn minted(
    registry: RegistryView,
    id: Seq<char>,
    token: Seq<char>,
    label: Option<Seq<char>>,
    now: u64,
) -> RegistryView {
    RegistryView {
        limited: registry.limited.push(
            CredentialView {
                id,
                fingerprint: fingerprint_of(token),
                label,
                created_at: now,
                last_seen: None,
            },
        ),
        unsaved: true,
        ..registry
    }
}

/// Where the first revoked credential with a fingerprint stands.
pub open spec fn revoked_with(revoked: Seq<(Seq<char>, Seq<char>)>, fingerprint: Seq<char>) -> int
    decreases revoked.len(),
{
    if revoked.len() == 0 || revoked[0].1 == fingerprint {
        0
    } else {
        1 + revoked_with(revoked.skip(1), fingerprint)
    }
}

// ---- The registry ---------------------------------------------------------------------------

/// Whether an info reports a credential.
pub open spec fn reports(info: CredentialInfo, credential: CredentialView, tier: CredentialTier) -> bool {
    &&& info.credential_id@ == credential.id
    &&& info.tier == tier
    &&& view_of(info.label) == credential.label
    &&& info.created_at_unix == credential.created_at
    &&& info.last_seen_unix == credential.last_seen
}

fn copy_text(text: &Option<String>) -> (copy: Option<String>)
    ensures
        view_of(copy) == view_of(*text),
{
    match text {
        Some(text) => Some(text.clone()),
        None => None,
    }
}

impl StoredCredential {
    fn copy(&self) -> (copy: StoredCredential)
        ensures
            copy@ == self@,
    {
        StoredCredential {
            id: self.id.clone(),
            fingerprint: self.fingerprint.clone(),
            label: copy_text(&self.label),
            created_at_unix: self.created_at_unix,
            last_seen_unix: self.last_seen_unix,
        }
    }

    fn info(&self, tier: CredentialTier) -> (info: CredentialInfo)
        ensures
            reports(info, self@, tier),
    {
        CredentialInfo {
            credential_id: self.id.clone(),
            tier,
            label: copy_text(&self.label),
            created_at_unix: self.created_at_unix,
            last_seen_unix: self.last_seen_unix,
        }
    }
}

/// A credential that presented itself and was recognized.
#[derive(Clone, Debug, PartialEq, Eq)]
pub struct AuthenticatedCredential {
    pub credential_id: String,
    pub tier: CredentialTier,
}

/// What presenting a token at a handshake came to.
#[derive(Clone, Debug, PartialEq, Eq)]
pub enum HandshakeOutcome {
    /// The token of a live credential.
    Live(AuthenticatedCredential),
    /// The token of a credential that this server has revoked.
    Revoked { credential_id: String },
    /// A token that this server never issued.
    Unknown,
}

/// What a token presented at a handshake does to the registry and comes to.
pub open spec fn recognizes(
    before: RegistryView,
    after: RegistryView,
    presented: Seq<char>,
    now: u64,
    fresh_id: Seq<char>,
    outcome: HandshakeOutcome,
) -> bool {
    let current = synced(before, now, fresh_id);
    let fingerprint = fingerprint_of(presented);
    let holder = holder_of_fingerprint(current, fingerprint);
    let gone = revoked_with(current.revoked, fingerprint);
    &&& after == used(current, holder, now)
    &&& match identity(current, holder) {
        Some((id, tier)) => outcome matches HandshakeOutcome::Live(credential)
            && credential.credential_id@ == id && credential.tier == tier,
        None => if gone < current.revoked.len() {
            outcome matches HandshakeOutcome::Revoked { credential_id } && credential_id@
                == current.revoked[gone].0
        } else {
            outcome is Unknown
        },
    }
}

/// The live registry. There is one of it, and every listener of the process
/// works on that one: a credential minted over one transport is live on the
/// other at once. It holds the listener's token slot itself, so a rotation of
/// the token is one of what it recognizes.
#[derive(Debug)]
pub struct SharedCredentialRegistry {
    managing: Option<StoredCredential>,
    limited: Vec<StoredCredential>,
    revoked: Vec<RevokedCredential>,
    persisted: LastSeenIndex,
    managing_token: Option<SharedWebSocketToken>,
    unsaved: bool,
}

impl View for SharedCredentialRegistry {
    type V = RegistryView;

    closed spec fn view(&self) -> RegistryView {
        RegistryView {
            managing: credential_view(self.managing),
            limited: credential_views(self.limited@),
            revoked: revoked_view(self.revoked@),
            persisted: self.persisted@,
            managing_token: match self.managing_token {
                Some(slot) => Some(slot@),
                None => None,
            },
            unsaved: self.unsaved,
        }
    }
}

/// Whether a file holds exactly the credentials of a registry.
pub open spec fn records(file: RegistryFile, registry: RegistryView) -> bool {
    &&& file.version == REGISTRY_VERSION
    &&& credential_view(file.managing) == registry.managing
    &&& credential_views(file.limited@) == registry.limited
    &&& revoked_view(file.revoked@) == registry.revoked
}

impl SharedCredentialRegistry {
    /// Open the registry stored in a file, as far as it could be read and
    /// parsed. A file that could not be used is ignored rather than fatal:
    /// the managing credential still authenticates from the config.
    pub fn open(file: Option<RegistryFile>) -> (registry: SharedCredentialRegistry)
        ensures
            registry@ == opened(file),
    {
        let mut persisted = LastSeenIndex::new();
        if let Some(file) = file {
            if file.version <= REGISTRY_VERSION {
                let ghost all = all_credentials(
                    credential_view(file.managing),
                    credential_views(file.limited@),
                );
                let ghost mut head: int = 0;
                assert(all.take(0) =~= Seq::<CredentialView>::empty());
                assert(persisted@ == seen_index(all.take(0)));
                if let Some(managing) = &file.managing {
                    if let Some(seen) = managing.last_seen_unix {
                        persisted.insert(&managing.id, seen);
                    }
                    proof {
                        head = 1;
                        assert(all.take(1).drop_last() =~= all.take(0));
                        assert(all.take(1).last() == managing@);
                        assert(persisted@ == seen_index(all.take(1)));
                    }
                }
                assert(persisted@ == seen_index(all.take(head)));
                let mut i: usize = 0;
                while i < file.limited.len()
                    invariant
                        i <= file.limited@.len(),
                        head == 0 || head == 1,
                        all.len() == head + file.limited@.len(),
                        forall|j: int|
                            0 <= j < file.limited@.len() ==> #[trigger] all[head + j]
                                == file.limited@[j]@,
                        persisted@ == seen_index(all.take(head + i)),
                    decreases file.limited@.len() - i,
                {
                    let ghost before = all.take(head + i);
                    if let Some(seen) = file.limited[i].last_seen_unix {
                        persisted.insert(&file.limited[i].id, seen);
                    }
                    proof {
                        assert(all[head + i] == file.limited@[i as int]@);
                        assert(all.take(head + i + 1).drop_last() =~= before);
                        assert(all.take(head + i + 1).last() == all[head + i]);
                    }
                    i += 1;
                }
                assert(all.take(head + i) =~= all);
                return SharedCredentialRegistry {
                    managing: file.managing,
                    limited: file.limited,
                    revoked: file.revoked,
                    persisted,
                    managing_token: None,
                    unsaved: false,
                };
            }
        }
        let registry = SharedCredentialRegistry {
            managing: None,
            limited: Vec::new(),
            revoked: Vec::new(),
            persisted,
            managing_token: None,
            unsaved: false,
        };
        assert(registry@.limited =~= Seq::<CredentialView>::empty());
        assert(registry@.revoked =~= Seq::<(Seq<char>, Seq<char>)>::empty());
        registry
    }

    /// Whether there is something to write, and what.
    pub fn take_unsaved(&mut self) -> (file: Option<RegistryFile>)
        ensures
            file is Some == old(self)@.unsaved,
            file matches Some(file) ==> records(file, old(self)@),
            final(self)@ == (RegistryView { unsaved: false, ..old(self)@ }),
    {
        if !self.unsaved {
            return None;
        }
        self.unsaved = false;
        Some(self.file())
    }

    /// The registry as it is written to disk.
    pub fn file(&self) -> (file: RegistryFile)
        ensures
            records(file, self@),
    {
        let managing = match &self.managing {
            Some(stored) => Some(stored.copy()),
            None => None,
        };
        let mut limited: Vec<StoredCredential> = Vec::new();
        let mut i: usize = 0;
        while i < self.limited.len()
            invariant
                i <= self.limited@.len(),
                limited@.len() == i,
                credential_views(limited@) == credential_views(self.limited@).take(i as int),
            decreases self.limited@.len() - i,
        {
            let ghost was = limited@;
            limited.push(self.limited[i].copy());
            i += 1;
            assert forall|j: int| 0 <= j < i implies credential_views(limited@)[j]
                == credential_views(self.limited@).take(i as int)[j] by {
                if j < i - 1 {
                    assert(limited@[j] == was[j]);
                    assert(credential_views(was)[j] == credential_views(self.limited@).take(
                        i - 1,
                    )[j]);
                }
            }
            assert(credential_views(limited@) =~= credential_views(self.limited@).take(i as int));
        }
        assert(credential_views(self.limited@).take(i as int) =~= credential_views(
            self.limited@,
        ));
        let mut revoked: Vec<RevokedCredential> = Vec::new();
        let mut k: usize = 0;
        while k < self.revoked.len()
            invariant
                k <= self.revoked@.len(),
                revoked@.len() == k,
                revoked_view(revoked@) == revoked_view(self.revoked@).take(k as int),
            decreases self.revoked@.len() - k,
        {
            let ghost was = revoked@;
            revoked.push(
                RevokedCredential {
                    id: self.revoked[k].id.clone(),
                    fingerprint: self.revoked[k].fingerprint.clone(),
                },
            );
            k += 1;
            assert forall|j: int| 0 <= j < k implies revoked_view(revoked@)[j] == revoked_view(
                self.revoked@,
            ).take(k as int)[j] by {
                if j < k - 1 {
                    assert(revoked@[j] == was[j]);
                    assert(revoked_view(was)[j] == revoked_view(self.revoked@).take(k - 1)[j]);
                }
            }
            assert(revoked_view(revoked@) =~= revoked_view(self.revoked@).take(k as int));
        }
        assert(revoked_view(self.revoked@).take(k as int) =~= revoked_view(self.revoked@));
        RegistryFile { version: REGISTRY_VERSION, managing, limited, revoked }
    }

    /// Take over the listener's token slot. Without one the registry knows
    /// only its limited credentials. The slot itself goes into the registry,
    /// which from then on is where the token is rotated.
    pub fn attach_managing_token(&mut self, token: SharedWebSocketToken)
        ensures
            final(self)@ == (RegistryView { managing_token: Some(token@), ..old(self)@ }),
    {
        self.managing_token = Some(token);
    }

    /// Apply a reloaded section to the token slot, as
    /// `SharedWebSocketToken::apply_reloaded_config` does. The next operation
    /// goes by the new token. Nothing happens where no listener was attached.
    pub fn apply_reloaded_config(&mut self, config: &WebSocketApiConfig) -> (changed: Option<
        Result<bool, String>,
    >)
        ensures
            final(self)@ == reloaded(old(self)@, view_of(config.bind), view_of(config.token)),
            match old(self)@.managing_token {
                None => changed is None,
                Some(previous) => match reloaded_token(
                    view_of(config.bind),
                    view_of(config.token),
                ) {
                    Ok(token) => changed == Some(Ok::<bool, String>(previous != token)),
                    Err(reason) => changed matches Some(Err(text)) && text@ == reason,
                },
            },
    {
        match self.managing_token.take() {
            None => None,
            Some(slot) => {
                let mut slot = slot;
                let changed = slot.apply_reloaded_config(config);
                self.managing_token = Some(slot);
                Some(changed)
            },
        }
    }

    /// Keep the stored managing credential in step with the live token.
    /// Limited credentials are not involved, so a rotation does not log the
    /// browsers out.
    fn sync_managing(&mut self, moment: &Moment)
        ensures
            final(self)@ == synced(old(self)@, moment.now, moment.fresh_id@),
    {
        let fingerprint = match &self.managing_token {
            None => {
                return ;
            },
            Some(slot) => fingerprint(&slot.current()),
        };
        if let Some(managing) = &self.managing {
            if same_text(&managing.fingerprint, &fingerprint) {
                return ;
            }
            self.persisted.remove(&managing.id);
        }
        self.managing = Some(
            StoredCredential {
                id: moment.fresh_id.clone(),
                fingerprint,
                label: None,
                created_at_unix: moment.now,
                last_seen_unix: None,
            },
        );
        self.unsaved = true;
    }

    /// Record a fresh last-seen; the file is rewritten only where what it
    /// holds has drifted far enough.
    fn persist_last_seen(&mut self, id: &str, now: u64)
        ensures
            final(self)@ == (RegistryView {
                persisted: persisted_after(old(self)@.persisted, id@, now),
                unsaved: old(self)@.unsaved || is_due(seen_in(old(self)@.persisted, id@), now),
                ..old(self)@
            }),
    {
        let due = match self.persisted.get(id) {
            Some(previous) => now >= previous && now - previous >= LAST_SEEN_PERSIST_INTERVAL_SECS,
            None => true,
        };
        if due {
            self.persisted.insert(id, now);
            self.unsaved = true;
        }
    }

    fn touch_limited(&mut self, at: usize, now: u64)
        requires
            at < old(self)@.limited.len(),
        ensures
            final(self)@ == limited_used(old(self)@, at as int, now),
    {
        let ghost before = self@;
        let mut credential = self.limited.remove(at);
        credential.last_seen_unix = Some(now);
        let id = credential.id.clone();
        self.limited.insert(at, credential);
        assert(self@.limited =~= before.limited.update(
            at as int,
            touched(before.limited[at as int], now),
        ));
        self.persist_last_seen(&id, now);
    }

    fn touch_managing(&mut self, now: u64)
        requires
            old(self)@.managing is Some,
        ensures
            final(self)@ == managing_used(old(self)@, now),
    {
        match self.managing.take() {
            Some(credential) => {
                let mut credential = credential;
                credential.last_seen_unix = Some(now);
                self.persist_last_seen(&credential.id, now);
                self.managing = Some(credential);
            },
            None => {},
        }
    }

    fn find_fingerprint(&self, fingerprint: &String) -> (at: usize)
        ensures
            at == with_fingerprint(self@.limited, fingerprint@),
            at <= self@.limited.len(),
    {
        let ghost all = self@.limited;
        let mut at: usize = 0;
        assert(all.skip(0) =~= all);
        while at < self.limited.len()
            invariant
                at <= all.len(),
                all == self@.limited,
                at + with_fingerprint(all.skip(at as int), fingerprint@) == with_fingerprint(
                    all,
                    fingerprint@,
                ),
            decreases all.len() - at,
        {
            assert(all[at as int] == self.limited@[at as int]@);
            assert(all.skip(at as int)[0] == all[at as int]);
            assert(all.skip(at as int).skip(1) =~= all.skip(at + 1));
            if same_fingerprint(&self.limited[at].fingerprint, fingerprint) {
                return at;
            }
            at += 1;
        }
        at
    }

    fn find_id(&self, id: &str) -> (at: usize)
        ensures
            at == with_id(self@.limited, id@),
            at <= self@.limited.len(),
    {
        let ghost all = self@.limited;
        let mut at: usize = 0;
        assert(all.skip(0) =~= all);
        while at < self.limited.len()
            invariant
                at <= all.len(),
                all == self@.limited,
                at + with_id(all.skip(at as int), id@) == with_id(all, id@),
            decreases all.len() - at,
        {
            assert(all[at as int] == self.limited@[at as int]@);
            assert(all.skip(at as int)[0] == all[at as int]);
            assert(all.skip(at as int).skip(1) =~= all.skip(at + 1));
            if same_text(&self.limited[at].id, id) {
                return at;
            }
            at += 1;
        }
        at
    }

    /// Recognize a presented token. Any live credential authenticates, and is
    /// marked seen.
    pub fn authenticate(&mut self, presented: &str, moment: &Moment) -> (credential: Option<
        AuthenticatedCredential,
    >)
        ensures
            ({
                let current = synced(old(self)@, moment.now, moment.fresh_id@);
                let holder = holder_of_fingerprint(current, fingerprint_of(presented@));
                &&& final(self)@ == used(current, holder, moment.now)
                &&& match (credential, identity(current, holder)) {
                    (Some(credential), Some((id, tier))) => credential.credential_id@ == id
                        && credential.tier == tier,
                    (None, None) => true,
                    _ => false,
                }
            }),
    {
        let fingerprint = fingerprint(presented);
        self.sync_managing(moment);
        if let Some(managing) = &self.managing {
            if same_fingerprint(&managing.fingerprint, &fingerprint) {
                let credential_id = managing.id.clone();
                self.touch_managing(moment.now);
                return Some(
                    AuthenticatedCredential { credential_id, tier: CredentialTier::Managing },
                );
            }
        }
        let at: usize = self.find_fingerprint(&fingerprint);
        if at >= self.limited.len() {
            return None;
        }
        assert(self@.limited[at as int] == self.limited@[at as int]@);
        let credential_id = self.limited[at].id.clone();
        self.touch_limited(at, moment.now);
        Some(AuthenticatedCredential { credential_id, tier: CredentialTier::Limited })
    }

    /// Recognize a token presented at a handshake. A revoked credential is
    /// recognized as such, and a live one always goes first.
    pub fn authenticate_handshake(&mut self, presented: &str, moment: &Moment) -> (outcome:
        HandshakeOutcome)
        ensures
            recognizes(
                old(self)@,
                final(self)@,
                presented@,
                moment.now,
                moment.fresh_id@,
                outcome,
            ),
    {
        if let Some(credential) = self.authenticate(presented, moment) {
            return HandshakeOutcome::Live(credential);
        }
        let fingerprint = fingerprint(presented);
        let ghost all = self@.revoked;
        let mut at: usize = 0;
        assert(all.skip(0) =~= all);
        while at < self.revoked.len()
            invariant
                at <= all.len(),
                all == self@.revoked,
                all.len() == self.revoked@.len(),
                at + revoked_with(all.skip(at as int), fingerprint@) == revoked_with(
                    all,
                    fingerprint@,
                ),
            ensures
                at <= all.len(),
                at == revoked_with(all, fingerprint@),
            decreases all.len() - at,
        {
            assert(all[at as int] == (
                self.revoked@[at as int].id@,
                self.revoked@[at as int].fingerprint@,
            ));
            assert(all.skip(at as int)[0] == all[at as int]);
            assert(all.skip(at as int).skip(1) =~= all.skip(at + 1));
            if same_fingerprint(&self.revoked[at].fingerprint, &fingerprint) {
                break;
            }
            at += 1;
        }
        if at < self.revoked.len() {
            assert(all[at as int] == (
                self.revoked@[at as int].id@,
                self.revoked@[at as int].fingerprint@,
            ));
            HandshakeOutcome::Revoked { credential_id: self.revoked[at].id.clone() }
        } else {
            HandshakeOutcome::Unknown
        }
    }

    /// Mark an already-authenticated credential seen, and say whether it is
    /// still live. This is the per-request check that turns a revoke into
    /// enforcement on an open connection.
    pub fn mark_seen(&mut self, credential_id: &str, moment: &Moment) -> (tier: Option<
        CredentialTier,
    >)
        ensures
            ({
                let current = synced(old(self)@, moment.now, moment.fresh_id@);
                let holder = holder_of_id(current, credential_id@);
                &&& final(self)@ == used(current, holder, moment.now)
                &&& tier == (match holder {
                    Holder::Managing => Some(CredentialTier::Managing),
                    Holder::Limited(_) => Some(CredentialTier::Limited),
                    Holder::Nobody => None,
                })
            }),
    {
        self.sync_managing(moment);
        if let Some(managing) = &self.managing {
            if same_text(&managing.id, credential_id) {
                self.touch_managing(moment.now);
                return Some(CredentialTier::Managing);
            }
        }
        let at: usize = self.find_id(credential_id);
        if at >= self.limited.len() {
            return None;
        }
        self.touch_limited(at, moment.now);
        Some(CredentialTier::Limited)
    }

    /// Every live credential, managing first. Metadata only.
    pub fn list(&mut self, moment: &Moment) -> (credentials: Vec<CredentialInfo>)
        ensures
            final(self)@ == synced(old(self)@, moment.now, moment.fresh_id@),
            lists(credentials@, final(self)@),
    {
        self.sync_managing(moment);
        let mut credentials: Vec<CredentialInfo> = Vec::new();
        let ghost mut head: nat = 0;
        if let Some(managing) = &self.managing {
            let info = managing.info(CredentialTier::Managing);
            credentials.push(info);
            proof {
                head = 1;
            }
        }
        let mut i: usize = 0;
        while i < self.limited.len()
            invariant
                i <= self.limited@.len(),
                head == (if self@.managing is Some {
                    1nat
                } else {
                    0nat
                }),
                credentials@.len() == head + i,
                self@.managing is Some ==> reports(
                    credentials@[0],
                    self@.managing->0,
                    CredentialTier::Managing,
                ),
                forall|j: int|
                    0 <= j < i ==> reports(
                        credentials@[head + j],
                        #[trigger] self@.limited[j],
                        CredentialTier::Limited,
                    ),
            decreases self.limited@.len() - i,
        {
            let info = self.limited[i].info(CredentialTier::Limited);
            proof {
                assert(self@.limited[i as int] == self.limited@[i as int]@);
            }
            credentials.push(info);
            i += 1;
        }
        credentials
    }

    /// Mint a limited credential. Returns its record and, once, its token.
    pub fn mint(&mut self, label: Option<String>, fresh: FreshCredential, now: u64) -> (minted_now: (
        CredentialInfo,
        String,
    ))
        ensures
            final(self)@ == minted(old(self)@, fresh.id@, fresh.token@, view_of(label), now),
            reports(minted_now.0, final(self)@.limited.last(), CredentialTier::Limited),
            minted_now.1@ == fresh.token@,
    {
        let ghost before = self@;
        let stored = StoredCredential {
            id: fresh.id,
            fingerprint: fingerprint(&fresh.token),
            label,
            created_at_unix: now,
            last_seen_unix: None,
        };
        let info = stored.info(CredentialTier::Limited);
        self.limited.push(stored);
        self.unsaved = true;
        assert(self@.limited =~= minted(
            before,
            fresh.id@,
            fresh.token@,
            view_of(label),
            now,
        ).limited);
        (info, fresh.token)
    }

    /// Revoke one limited credential by id, and say whether there was one.
    pub fn revoke_limited(&mut self, credential_id: &str) -> (ended: bool)
        ensures
            final(self)@ == revoked_one(old(self)@, credential_id@),
            ended == (with_id(old(self)@.limited, credential_id@) < old(self)@.limited.len()),
    {
        let ghost before = self@;
        let ghost id = credential_id@;
        let mut done: Ghost<int> = Ghost(0);
        let mut at: usize = 0;
        let mut ended = false;
        proof {
            assert(before.limited.take(0) =~= Seq::<CredentialView>::empty());
            assert(self@.limited =~= without_id(before.limited.take(0), id) + before.limited.skip(
                0,
            ));
            assert(before.revoked + remembered(before.limited.take(0), id) =~= before.revoked);
        }
        while at < self.limited.len()
            invariant
                0 <= done@ <= before.limited.len(),
                id == credential_id@,
                self@.managing == before.managing,
                self@.managing_token == before.managing_token,
                self@.unsaved == before.unsaved,
                self@.persisted == before.persisted,
                at == without_id(before.limited.take(done@), id).len(),
                self@.limited == without_id(before.limited.take(done@), id) + before.limited.skip(
                    done@,
                ),
                self@.limited.len() == self.limited@.len(),
                self@.revoked == before.revoked + remembered(before.limited.take(done@), id),
                ended == (at < done@),
                !ended ==> at == done@,
                at <= done@,
                forall|j: int|
                    !ended && 0 <= j < done@ ==> (#[trigger] before.limited[j]).id != id,
                ended ==> exists|j: int| 0 <= j < done@ && (#[trigger] before.limited[j]).id == id,
            decreases before.limited.len() - done@,
        {
            let ghost k = done@;
            let ghost kept = without_id(before.limited.take(k), id);
            proof {
                assert(self@.limited[at as int] == before.limited[k]);
                assert(self@.limited[at as int] == self.limited@[at as int]@);
                assert(before.limited.take(k + 1).drop_last() =~= before.limited.take(k));
                assert(before.limited.take(k + 1).last() == before.limited[k]);
            }
            if same_text(&self.limited[at].id, credential_id) {
                let ghost was = self.limited@;
                let ghost was_revoked = self.revoked@;
                let gone = self.limited.remove(at);
                assert(gone == was[at as int]);
                self.revoked.push(
                    RevokedCredential { id: gone.id, fingerprint: gone.fingerprint },
                );
                ended = true;
                proof {
                    assert(self@.limited =~= credential_views(was).remove(at as int));
                    assert(credential_views(was).remove(at as int) =~= kept + before.limited.skip(
                        k + 1,
                    ));
                    assert(self@.revoked =~= revoked_view(was_revoked).push(
                        (id, before.limited[k].fingerprint),
                    ));
                    assert(self@.revoked =~= before.revoked + remembered(
                        before.limited.take(k + 1),
                        id,
                    ));
                }
            } else {
                at += 1;
                proof {
                    assert(self@.limited =~= kept.push(before.limited[k]) + before.limited.skip(
                        k + 1,
                    ));
                }
            }
            proof {
                done@ = k + 1;
            }
        }
        proof {
            assert(done@ == before.limited.len());
            assert(before.limited.take(done@) =~= before.limited);
            assert(self@.limited =~= without_id(before.limited, id));
            lemma_with_id(before.limited, id);
        }
        if ended {
            self.persisted.remove(credential_id);
            self.unsaved = true;
        }
        ended
    }

    /// End every limited credential at once. The managing credential is
    /// untouched: it rotates with the pairing.
    pub fn revoke_all_limited(&mut self) -> (ended: Vec<String>)
        ensures
            final(self)@ == revoked_all(old(self)@),
            ended@.len() == old(self)@.limited.len(),
            forall|i: int|
                0 <= i < ended@.len() ==> (#[trigger] ended@[i])@ == old(self)@.limited[i].id,
    {
        let ghost before = self@;
        let mut ended: Vec<String> = Vec::new();
        let mut i: usize = 0;
        while i < self.limited.len()
            invariant
                i <= self.limited@.len(),
                self@.limited == before.limited,
                self@.managing == before.managing,
                self@.managing_token == before.managing_token,
                self@.unsaved == before.unsaved,
                self@.persisted == forgotten(before.persisted, before.limited.take(i as int)),
                self@.limited.len() == self.limited@.len(),
                ended@.len() == i,
                forall|j: int|
                    0 <= j < i ==> (#[trigger] ended@[j])@ == before.limited[j].id,
                self@.revoked == before.revoked + Seq::new(
                    i as nat,
                    |j: int| (before.limited[j].id, before.limited[j].fingerprint),
                ),
            decreases self.limited@.len() - i,
        {
            assert(self@.limited[i as int] == self.limited@[i as int]@);
            let ghost was = self.revoked@;
            let id = self.limited[i].id.clone();
            let fingerprint = self.limited[i].fingerprint.clone();
            self.persisted.remove(&id);
            ended.push(id.clone());
            self.revoked.push(RevokedCredential { id, fingerprint });
            i += 1;
            proof {
                assert(before.limited.take(i as int).drop_last() =~= before.limited.take(i - 1));
                assert(before.limited.take(i as int).last() == before.limited[i - 1]);
                assert(self@.revoked =~= revoked_view(was).push(
                    (before.limited[i - 1].id, before.limited[i - 1].fingerprint),
                ));
                assert(self@.revoked =~= before.revoked + Seq::new(
                    i as nat,
                    |j: int| (before.limited[j].id, before.limited[j].fingerprint),
                ));
            }
        }
        assert(before.limited.take(i as int) =~= before.limited);
        if i > 0 {
            self.unsaved = true;
        }
        self.limited = Vec::new();
        assert(self@.limited =~= Seq::<CredentialView>::empty());
        ended
    }

    /// Whether an id names the managing credential, which is never revoked
    /// through the api.
    pub fn is_managing_id(&mut self, credential_id: &str, moment: &Moment) -> (yes: bool)
        ensures
            final(self)@ == synced(old(self)@, moment.now, moment.fresh_id@),
            yes == (final(self)@.managing is Some && final(self)@.managing->0.id == credential_id@),
    {
        self.sync_managing(moment);
        match &self.managing {
            Some(managing) => same_text(&managing.id, credential_id),
            None => false,
        }
    }
}

/// Whether some infos report exactly the live credentials, managing first.
pub open spec fn lists(infos: Seq<CredentialInfo>, registry: RegistryView) -> bool {
    let head = if registry.managing is Some {
        1int
    } else {
        0int
    };
    &&& infos.len() == head + registry.limited.len()
    &&& registry.managing is Some ==> reports(
        infos[0],
        registry.managing->0,
        CredentialTier::Managing,
    )
    &&& forall|j: int|
        0 <= j < registry.limited.len() ==> reports(
            infos[head + j],
            #[trigger] registry.limited[j],
            CredentialTier::Limited,
        )
}

pub proof fn lemma_with_id(entries: Seq<CredentialView>, id: Seq<char>)
    ensures
        0 <= with_id(entries, id) <= entries.len(),
        with_id(entries, id) < entries.len() ==> entries[with_id(entries, id)].id == id,
        (with_id(entries, id) < entries.len()) == (exists|j: int|
            0 <= j < entries.len() && (#[trigger] entries[j]).id == id),
    decreases entries.len(),
{
    if entries.len() > 0 && entries[0].id != id {
        let rest = entries.skip(1);
        lemma_with_id(rest, id);
        if exists|j: int| 0 <= j < entries.len() && (#[trigger] entries[j]).id == id {
            let j = choose|j: int| 0 <= j < entries.len() && (#[trigger] entries[j]).id == id;
            assert(rest[j - 1].id == id);
        }
        if with_id(rest, id) < rest.len() {
            assert(entries[with_id(rest, id) + 1].id == id);
        }
    }
}

// ---- Laws -----------------------------------------------------------------------------------

pub proof fn lemma_with_fingerprint(entries: Seq<CredentialView>, fingerprint: Seq<char>)
    ensures
        0 <= with_fingerprint(entries, fingerprint) <= entries.len(),
        with_fingerprint(entries, fingerprint) < entries.len() ==> entries[with_fingerprint(
            entries,
            fingerprint,
        )].fingerprint == fingerprint,
        forall|j: int|
            0 <= j < with_fingerprint(entries, fingerprint) ==> (#[trigger] entries[j]).fingerprint
                != fingerprint,
    decreases entries.len(),
{
    if entries.len() > 0 && entries[0].fingerprint != fingerprint {
        let rest = entries.skip(1);
        lemma_with_fingerprint(rest, fingerprint);
        assert forall|j: int| 0 <= j < with_fingerprint(entries, fingerprint) implies (
        #[trigger] entries[j]).fingerprint != fingerprint by {
            if j > 0 {
                assert(entries[j] == rest[j - 1]);
            }
        }
    }
}

proof fn lemma_with_fingerprint_is(entries: Seq<CredentialView>, fingerprint: Seq<char>, at: int)
    requires
        0 <= at <= entries.len(),
        forall|j: int| 0 <= j < at ==> (#[trigger] entries[j]).fingerprint != fingerprint,
        at < entries.len() ==> entries[at].fingerprint == fingerprint,
    ensures
        with_fingerprint(entries, fingerprint) == at,
{
    lemma_with_fingerprint(entries, fingerprint);
}

/// Revoking an id that nobody has changes nothing.
pub proof fn lemma_absent_id(entries: Seq<CredentialView>, id: Seq<char>)
    requires
        forall|j: int| 0 <= j < entries.len() ==> (#[trigger] entries[j]).id != id,
    ensures
        without_id(entries, id) == entries,
        remembered(entries, id).len() == 0,
    decreases entries.len(),
{
    if entries.len() > 0 {
        let front = entries.drop_last();
        assert forall|j: int| 0 <= j < front.len() implies (#[trigger] front[j]).id != id by {
            assert(front[j] == entries[j]);
        }
        lemma_absent_id(front, id);
        assert(entries[entries.len() - 1].id != id);
        assert(front.push(entries.last()) =~= entries);
    } else {
        assert(without_id(entries, id) =~= entries);
    }
}

/// An id that no limited credential has is not found, and revoking it leaves
/// the registry as it was.
pub proof fn law_revoking_an_unknown_id_changes_nothing(registry: RegistryView, id: Seq<char>)
    requires
        with_id(registry.limited, id) >= registry.limited.len(),
    ensures
        revoked_one(registry, id) == registry,
{
    lemma_with_id(registry.limited, id);
    assert forall|j: int| 0 <= j < registry.limited.len() implies (#[trigger] registry.limited[j]).id
        != id by {}
    lemma_absent_id(registry.limited, id);
    assert(registry.revoked + remembered(registry.limited, id) =~= registry.revoked);
}

/// A minted token is live at once: presented to the registry, it is the
/// limited credential that was minted, where no other credential has its
/// fingerprint.
pub proof fn law_minted_credential_authenticates(
    registry: RegistryView,
    id: Seq<char>,
    token: Seq<char>,
    label: Option<Seq<char>>,
    now: u64,
)
    requires
        holder_of_fingerprint(registry, fingerprint_of(token)) is Nobody,
    ensures
        ({
            let after = minted(registry, id, token, label, now);
            identity(after, holder_of_fingerprint(after, fingerprint_of(token))) == Some(
                (id, CredentialTier::Limited),
            )
        }),
{
    let after = minted(registry, id, token, label, now);
    let fingerprint = fingerprint_of(token);
    lemma_with_fingerprint(registry.limited, fingerprint);
    assert forall|j: int| 0 <= j < registry.limited.len() implies (#[trigger] after.limited[j]).fingerprint
        != fingerprint by {
        assert(after.limited[j] == registry.limited[j]);
    }
    lemma_with_fingerprint_is(after.limited, fingerprint, registry.limited.len() as int);
}

proof fn lemma_without_id(entries: Seq<CredentialView>, id: Seq<char>)
    ensures
        forall|j: int|
            0 <= j < without_id(entries, id).len() ==> (#[trigger] without_id(entries, id)[j]).id
                != id && entries.contains(without_id(entries, id)[j]),
        forall|j: int|
            0 <= j < entries.len() && (#[trigger] entries[j]).id != id ==> without_id(
                entries,
                id,
            ).contains(entries[j]),
        forall|j: int|
            0 <= j < entries.len() && (#[trigger] entries[j]).id == id ==> remembered(
                entries,
                id,
            ).contains((id, entries[j].fingerprint)),
    decreases entries.len(),
{
    if entries.len() > 0 {
        let front = entries.drop_last();
        let kept = without_id(front, id);
        let all = without_id(entries, id);
        lemma_without_id(front, id);
        assert forall|j: int| 0 <= j < all.len() implies (#[trigger] all[j]).id != id
            && entries.contains(all[j]) by {
            if j < kept.len() {
                assert(all[j] == kept[j]);
                let k = choose|k: int| 0 <= k < front.len() && front[k] == kept[j];
                assert(entries[k] == all[j]);
            } else {
                assert(all[j] == entries[entries.len() - 1]);
            }
        }
        assert forall|j: int| 0 <= j < entries.len() && (#[trigger] entries[j]).id
            != id implies all.contains(entries[j]) by {
            if j < front.len() {
                assert(front[j] == entries[j]);
                assert(kept.contains(front[j]));
                let k = choose|k: int| 0 <= k < kept.len() && kept[k] == front[j];
                assert(all[k] == entries[j]);
            } else {
                assert(all[kept.len() as int] == entries[j]);
            }
        }
        let gone = remembered(front, id);
        let all_gone = remembered(entries, id);
        assert forall|j: int| 0 <= j < entries.len() && (#[trigger] entries[j]).id
            == id implies all_gone.contains((id, entries[j].fingerprint)) by {
            if j < front.len() {
                assert(front[j] == entries[j]);
                assert(gone.contains((id, front[j].fingerprint)));
                let k = choose|k: int|
                    0 <= k < gone.len() && gone[k] == (id, front[j].fingerprint);
                assert(all_gone[k] == gone[k]);
            } else {
                assert(all_gone[gone.len() as int] == (id, entries[j].fingerprint));
            }
        }
    }
}

/// Revoking ends exactly the credentials with that id: none of them is left,
/// every other one is still there as it was, no new one appears, and the
/// managing credential is untouched.
pub proof fn law_revoking_ends_one_and_leaves_the_others(registry: RegistryView, id: Seq<char>)
    ensures
        ({
            let after = revoked_one(registry, id);
            &&& after.managing == registry.managing
            &&& forall|j: int|
                0 <= j < after.limited.len() ==> (#[trigger] after.limited[j]).id != id
                    && registry.limited.contains(after.limited[j])
            &&& forall|j: int|
                0 <= j < registry.limited.len() && (#[trigger] registry.limited[j]).id != id
                    ==> after.limited.contains(registry.limited[j])
        }),
{
    lemma_without_id(registry.limited, id);
}

proof fn lemma_revoked_with(
    revoked: Seq<(Seq<char>, Seq<char>)>,
    fingerprint: Seq<char>,
    at: int,
)
    requires
        0 <= at < revoked.len(),
        revoked[at].1 == fingerprint,
    ensures
        0 <= revoked_with(revoked, fingerprint) <= at,
        revoked[revoked_with(revoked, fingerprint)].1 == fingerprint,
    decreases revoked.len(),
{
    if revoked[0].1 != fingerprint {
        assert(revoked.skip(1)[at - 1] == revoked[at]);
        lemma_revoked_with(revoked.skip(1), fingerprint, at - 1);
    }
}

proof fn lemma_remembered_ids(entries: Seq<CredentialView>, id: Seq<char>)
    ensures
        forall|j: int|
            0 <= j < remembered(entries, id).len() ==> (#[trigger] remembered(entries, id)[j]).0
                == id,
    decreases entries.len(),
{
    if entries.len() > 0 {
        let front = remembered(entries.drop_last(), id);
        let all = remembered(entries, id);
        lemma_remembered_ids(entries.drop_last(), id);
        assert forall|j: int| 0 <= j < all.len() implies (#[trigger] all[j]).0 == id by {
            if j < front.len() {
                assert(all[j] == front[j]);
            }
        }
    }
}

/// A revoked token stops authenticating and is recognized as revoked: where
/// the credential was the only live one with its fingerprint, presenting its
/// token afterwards finds no live holder and a revoked one, which is that very
/// credential where none that was revoked before has its fingerprint.
pub proof fn law_revoked_credential_is_recognized_as_revoked(
    registry: RegistryView,
    at: int,
)
    requires
        0 <= at < registry.limited.len(),
        registry.managing is Some ==> registry.managing->0.fingerprint
            != registry.limited[at].fingerprint,
        forall|j: int|
            0 <= j < registry.limited.len() && (#[trigger] registry.limited[j]).fingerprint
                == registry.limited[at].fingerprint ==> j == at,
    ensures
        ({
            let credential = registry.limited[at];
            let after = revoked_one(registry, credential.id);
            let gone = revoked_with(after.revoked, credential.fingerprint);
            &&& holder_of_fingerprint(after, credential.fingerprint) is Nobody
            &&& gone < after.revoked.len()
            &&& revoked_with(registry.revoked, credential.fingerprint) >= registry.revoked.len()
                ==> after.revoked[gone].0 == credential.id
        }),
{
    let credential = registry.limited[at];
    let after = revoked_one(registry, credential.id);
    lemma_without_id(registry.limited, credential.id);
    assert forall|j: int| 0 <= j < after.limited.len() implies (#[trigger] after.limited[j]).fingerprint
        != credential.fingerprint by {
        let kept = after.limited[j];
        assert(registry.limited.contains(kept));
        let k = choose|k: int| 0 <= k < registry.limited.len() && registry.limited[k] == kept;
        if kept.fingerprint == credential.fingerprint {
            assert(registry.limited[k].fingerprint == credential.fingerprint);
            assert(k == at);
        }
    }
    lemma_with_fingerprint_is(
        after.limited,
        credential.fingerprint,
        after.limited.len() as int,
    );
    let gone = remembered(registry.limited, credential.id);
    assert(gone.contains((credential.id, credential.fingerprint)));
    let k = choose|k: int|
        0 <= k < gone.len() && gone[k] == (credential.id, credential.fingerprint);
    assert(after.revoked[registry.revoked.len() + k] == gone[k]);
    lemma_revoked_with(after.revoked, credential.fingerprint, registry.revoked.len() + k);
    let first = revoked_with(after.revoked, credential.fingerprint);
    if first < registry.revoked.len() {
        assert(registry.revoked[first] == after.revoked[first]);
        lemma_revoked_with(registry.revoked, credential.fingerprint, first);
    } else {
        assert(after.revoked[first] == gone[first - registry.revoked.len()]);
        lemma_remembered_ids(registry.limited, credential.id);
    }
}

/// A credential that was minted and then revoked is nobody's, and is remembered
/// as revoked under its own id: where its token's fingerprint is its own, the
/// next operation finds it so.
pub proof fn law_minted_then_revoked_is_remembered_by_its_id(
    registry: RegistryView,
    id: Seq<char>,
    token: Seq<char>,
    label: Option<Seq<char>>,
    minted_at: u64,
    now: u64,
    fresh_id: Seq<char>,
)
    requires
        holder_of_fingerprint(synced(registry, now, fresh_id), fingerprint_of(token)) is Nobody,
        revoked_with(registry.revoked, fingerprint_of(token)) >= registry.revoked.len(),
    ensures
        ({
            let after = revoked_one(minted(registry, id, token, label, minted_at), id);
            let current = synced(after, now, fresh_id);
            let gone = revoked_with(current.revoked, fingerprint_of(token));
            &&& holder_of_fingerprint(current, fingerprint_of(token)) is Nobody
            &&& gone < current.revoked.len()
            &&& current.revoked[gone].0 == id
        }),
{
    let current = synced(registry, now, fresh_id);
    let live = minted(current, id, token, label, minted_at);
    let fingerprint = fingerprint_of(token);
    lemma_with_fingerprint(current.limited, fingerprint);
    assert forall|j: int|
        0 <= j < live.limited.len() && (#[trigger] live.limited[j]).fingerprint
            == live.limited.last().fingerprint implies j == live.limited.len() - 1 by {
        if j < current.limited.len() {
            assert(live.limited[j] == current.limited[j]);
        }
    }
    law_revoked_credential_is_recognized_as_revoked(live, live.limited.len() - 1);
    let after = revoked_one(minted(registry, id, token, label, minted_at), id);
    assert(synced(after, now, fresh_id).limited == revoked_one(live, id).limited);
    assert(synced(after, now, fresh_id).revoked == revoked_one(live, id).revoked);
    assert(synced(after, now, fresh_id).managing == revoked_one(live, id).managing);
}

/// Revoking all ends every limited credential and keeps the managing one. The
/// token of one that was ended is recognized as revoked, unless its fingerprint
/// is the managing credential's, which it then still is.
pub proof fn law_revoking_all_keeps_managing(registry: RegistryView, token: Seq<char>)
    ensures
        revoked_all(registry).limited.len() == 0,
        revoked_all(registry).managing == registry.managing,
        !(holder_of_fingerprint(revoked_all(registry), fingerprint_of(token)) is Limited),
        ({
            let after = revoked_all(registry);
            let held = with_fingerprint(registry.limited, fingerprint_of(token))
                < registry.limited.len();
            let managing = holder_of_fingerprint(registry, fingerprint_of(token)) is Managing;
            &&& managing ==> holder_of_fingerprint(after, fingerprint_of(token)) is Managing
            &&& held && !managing ==> holder_of_fingerprint(after, fingerprint_of(token)) is Nobody
                && revoked_with(after.revoked, fingerprint_of(token)) < after.revoked.len()
        }),
{
    let after = revoked_all(registry);
    let fingerprint = fingerprint_of(token);
    lemma_with_fingerprint(after.limited, fingerprint);
    lemma_with_fingerprint(registry.limited, fingerprint);
    let at = with_fingerprint(registry.limited, fingerprint);
    if at < registry.limited.len() {
        let gone = registry.revoked.len() + at;
        assert(after.revoked[gone] == (registry.limited[at].id, registry.limited[at].fingerprint));
        lemma_revoked_with(after.revoked, fingerprint, gone);
    }
}

/// A rotation of the managing token is recognized by the very next operation,
/// with nothing to be done in between: the new token is the managing
/// credential, the rotated-away one is not, and it is nobody's unless a limited
/// credential has it. Every limited credential stands, and its token still is
/// its own unless it is the new managing one.
pub proof fn law_rotation_leaves_limited_credentials_standing(
    registry: RegistryView,
    previous: Seq<char>,
    bind: Option<Seq<char>>,
    configured: Option<Seq<char>>,
    token: Seq<char>,
    presented: Seq<char>,
    now: u64,
    fresh_id: Seq<char>,
)
    requires
        registry.managing_token == Some(previous),
        reloaded_token(bind, configured) == Ok::<Seq<char>, Seq<char>>(token),
        fingerprint_of(previous) != fingerprint_of(token),
    ensures
        ({
            let current = synced(reloaded(registry, bind, configured), now, fresh_id);
            let limited = |text: Seq<char>|
                with_fingerprint(registry.limited, fingerprint_of(text)) < registry.limited.len();
            &&& current.limited == registry.limited
            &&& current.revoked == registry.revoked
            &&& holder_of_fingerprint(current, fingerprint_of(token)) is Managing
            &&& !(holder_of_fingerprint(current, fingerprint_of(previous)) is Managing)
            &&& !limited(previous) ==> identity(
                current,
                holder_of_fingerprint(current, fingerprint_of(previous)),
            ) is None
            &&& fingerprint_of(presented) != fingerprint_of(token) && limited(presented)
                ==> holder_of_fingerprint(current, fingerprint_of(presented)) == Holder::Limited(
                with_fingerprint(registry.limited, fingerprint_of(presented)),
            )
        }),
{
}

/// A restart keeps every credential: opening the file that was written gives
/// the same credentials back, in the same order.
pub proof fn law_credentials_survive_a_restart(registry: RegistryView, file: RegistryFile)
    requires
        records(file, registry),
    ensures
        ({
            let after = opened(Some(file));
            &&& after.managing == registry.managing
            &&& after.limited == registry.limited
            &&& after.revoked == registry.revoked
            &&& after.persisted == seen_index(
                all_credentials(registry.managing, registry.limited),
            )
        }),
{
}

/// What the file holds of a last-seen is rewritten exactly where nothing is
/// known of it, or where it is sixty seconds old or older; a clock that went
/// back rewrites nothing.
pub proof fn law_last_seen_is_written_once_a_minute(
    persisted: Map<Seq<char>, u64>,
    id: Seq<char>,
    now: u64,
)
    ensures
        is_due(None, now),
        forall|previous: u64| #[trigger] is_due(Some(previous), now) <==> now >= previous + 60,
        persisted_after(persisted, id, now).dom().contains(id),
        !persisted.dom().contains(id) ==> persisted_after(persisted, id, now)[id] == now,
        persisted.dom().contains(id) && now >= persisted[id] + 60 ==> persisted_after(
            persisted,
            id,
            now,
        )[id] == now,
        persisted.dom().contains(id) && now < persisted[id] + 60 ==> persisted_after(
            persisted,
            id,
            now,
        )[id] == persisted[id],
        forall|other: Seq<char>|
            other != id ==> #[trigger] seen_in(persisted_after(persisted, id, now), other)
                == seen_in(persisted, other),
{
}

/// Whether a credential is another one but for when it was last seen.
pub open spec fn same_but_seen(one: CredentialView, other: CredentialView) -> bool {
    &&& one.id == other.id
    &&& one.fingerprint == other.fingerprint
    &&& one.label == other.label
    &&& one.created_at == other.created_at
}

/// A use is seen and changes nothing else: the credential that was used was last
/// seen now, and every other one is as it was.
pub proof fn law_a_use_is_seen(registry: RegistryView, at: int, now: u64)
    requires
        registry.managing is Some,
        0 <= at < registry.limited.len(),
    ensures
        ({
            let after = used(registry, Holder::Managing, now);
            &&& after.managing is Some && after.managing->0.last_seen == Some(now)
            &&& same_but_seen(after.managing->0, registry.managing->0)
            &&& after.limited == registry.limited && after.revoked == registry.revoked
        }),
        ({
            let after = used(registry, Holder::Limited(at), now);
            &&& after.limited.len() == registry.limited.len()
            &&& after.limited[at].last_seen == Some(now)
            &&& same_but_seen(after.limited[at], registry.limited[at])
            &&& forall|j: int|
                0 <= j < registry.limited.len() && j != at ==> #[trigger] after.limited[j]
                    == registry.limited[j]
            &&& after.managing == registry.managing && after.revoked == registry.revoked
        }),
        used(registry, Holder::Nobody, now) == registry,
{
}

/// A mint adds one credential behind the others, with the label that it was
/// asked for, made now and never seen, and changes no other; the file is then
/// to be written.
pub proof fn law_a_mint_adds_one(
    registry: RegistryView,
    id: Seq<char>,
    token: Seq<char>,
    label: Option<Seq<char>>,
    now: u64,
)
    ensures
        ({
            let after = minted(registry, id, token, label, now);
            let last = after.limited.last();
            &&& after.limited.len() == registry.limited.len() + 1
            &&& after.limited.drop_last() == registry.limited
            &&& last.id == id && last.label == label && last.created_at == now
            &&& last.last_seen is None && last.fingerprint == fingerprint_of(token)
            &&& after.managing == registry.managing && after.revoked == registry.revoked
            &&& after.unsaved
        }),
{
    assert(minted(registry, id, token, label, now).limited.drop_last() =~= registry.limited);
}

/// A managing credential that is in step with the token stays as it is; a new
/// token starts one with a fresh id, made now, without a label and never seen;
/// and without a listener nothing happens.
pub proof fn law_a_new_token_starts_a_fresh_credential(
    registry: RegistryView,
    token: Seq<char>,
    now: u64,
    fresh_id: Seq<char>,
)
    ensures
        registry.managing_token is None ==> synced(registry, now, fresh_id) == registry,
        registry.managing_token == Some(token) && registry.managing is Some
            && registry.managing->0.fingerprint == fingerprint_of(token) ==> synced(
            registry,
            now,
            fresh_id,
        ) == registry,
        registry.managing_token == Some(token) && !(registry.managing is Some
            && registry.managing->0.fingerprint == fingerprint_of(token)) ==> ({
            let after = synced(registry, now, fresh_id);
            &&& after.managing is Some
            &&& after.managing->0.id == fresh_id
            &&& after.managing->0.fingerprint == fingerprint_of(token)
            &&& after.managing->0.label is None
            &&& after.managing->0.created_at == now
            &&& after.managing->0.last_seen is None
            &&& after.limited == registry.limited && after.revoked == registry.revoked
            &&& after.unsaved
        }),
{
}

/// The bytes of a clock reading are its digits in base 256, the highest first.
pub proof fn law_clock_bytes_are_the_reading(nanos: u64)
    ensures
        ({
            let bytes = nanos_bytes(nanos);
            &&& bytes.len() == 8
            &&& ((((((bytes[0] * 256 + bytes[1]) * 256 + bytes[2]) * 256 + bytes[3]) * 256
                + bytes[4]) * 256 + bytes[5]) * 256 + bytes[6]) * 256 + bytes[7] == nanos
        }),
{
    let a = nanos as int / 256;
    let b = a / 256;
    let c = b / 256;
    let d = c / 256;
    let e = d / 256;
    let f = e / 256;
    let g = f / 256;
    assert(nanos as int / 0x1_0000 == b);
    assert(nanos as int / 0x100_0000 == c);
    assert(nanos as int / 0x1_0000_0000 == d);
    assert(nanos as int / 0x100_0000_0000 == e);
    assert(nanos as int / 0x1_0000_0000_0000 == f);
    assert(nanos as int / 0x100_0000_0000_0000 == g);
    assert(g < 256);
}

/// A fingerprint and an id are read by their bytes: two lowercase hexadecimal
/// digits for each, the higher one first.
pub proof fn law_hex_spells_the_bytes(bytes: Seq<u8>, i: int)
    requires
        0 <= i < bytes.len(),
    ensures
        hex_bytes(bytes).len() == 2 * bytes.len(),
        ({
            let high = hex_bytes(bytes)[2 * i];
            let low = hex_bytes(bytes)[2 * i + 1];
            &&& is_hex_digit(high) && is_hex_digit(low)
            &&& !('A' <= high <= 'F') && !('A' <= low <= 'F')
            &&& hex_digit_value(high) * 16 + hex_digit_value(low) == bytes[i]
        }),
    decreases bytes.len(),
{
    let front = bytes.drop_last();
    if front.len() > 0 {
        if i < front.len() {
            law_hex_spells_the_bytes(front, i);
            assert(front[i] == bytes[i]);
        } else {
            law_hex_spells_the_bytes(front, 0);
        }
    } else {
        assert(hex_bytes(front) =~= Seq::<char>::empty());
    }
}

/// An id that was made for a credential is `cred_` and sixteen hexadecimal
/// digits.
pub proof fn law_what_an_id_looks_like(id: Seq<char>)
    requires
        is_credential_id(id),
    ensures
        id.len() == 21,
        id.take(5) == seq!['c', 'r', 'e', 'd', '_'],
        forall|k: int| 5 <= k < 21 ==> is_hex_digit(#[trigger] id[k]),
{
    let bytes = choose|bytes: Seq<u8>| #[trigger] credential_id(bytes) == id && bytes.len() == 8;
    reveal_strlit("cred_");
    law_hex_spells_the_bytes(bytes, 0);
    assert(id.take(5) =~= seq!['c', 'r', 'e', 'd', '_']);
    assert forall|k: int| 5 <= k < 21 implies is_hex_digit(#[trigger] id[k]) by {
        law_hex_spells_the_bytes(bytes, (k - 5) / 2);
        assert(id[k] == hex_bytes(bytes)[k - 5]);
        let half = (k - 5) / 2;
        assert(k - 5 == 2 * half || k - 5 == 2 * half + 1);
    }
}

/// A file of this format or an earlier one opens as what it holds, and a newer
/// one, or none, as an empty registry.
pub proof fn law_which_file_is_opened(file: RegistryFile)
    ensures
        opened(None).managing is None && opened(None).limited.len() == 0 && opened(
            None,
        ).revoked.len() == 0,
        file.version > 1 ==> opened(Some(file)) == opened(None),
        file.version <= 1 ==> opened(Some(file)).limited.len() == file.limited@.len() && opened(
            Some(file),
        ).revoked.len() == file.revoked@.len() && (opened(Some(file)).managing is Some
            <==> file.managing is Some),
        !opened(Some(file)).unsaved && opened(Some(file)).managing_token is None,
{
}

/// What an opened file knows of a last-seen is what the last of its credentials
/// with that id says.
pub proof fn law_the_last_of_an_id_tells_when_it_was_seen(
    credentials: Seq<CredentialView>,
    at: int,
    seen: u64,
)
    requires
        0 <= at < credentials.len(),
        credentials[at].last_seen == Some(seen),
        forall|j: int|
            at < j < credentials.len() ==> (#[trigger] credentials[j]).id != credentials[at].id
                || credentials[j].last_seen is None,
    ensures
        seen_in(seen_index(credentials), credentials[at].id) == Some(seen),
    decreases credentials.len(),
{
    if at < credentials.len() - 1 {
        let front = credentials.drop_last();
        assert(front[at] == credentials[at]);
        assert forall|j: int| at < j < front.len() implies (#[trigger] front[j]).id
            != front[at].id || front[j].last_seen is None by {
            assert(front[j] == credentials[j]);
        }
        law_the_last_of_an_id_tells_when_it_was_seen(front, at, seen);
        assert(credentials[credentials.len() - 1].id != credentials[at].id
            || credentials[credentials.len() - 1].last_seen is None);
    }
}

proof fn lemma_forgotten(
    persisted: Map<Seq<char>, u64>,
    credentials: Seq<CredentialView>,
    id: Seq<char>,
)
    ensures
        seen_in(forgotten(persisted, credentials), id) == (if exists|i: int|
            0 <= i < credentials.len() && (#[trigger] credentials[i]).id == id {
            None
        } else {
            seen_in(persisted, id)
        }),
    decreases credentials.len(),
{
    if credentials.len() > 0 {
        let front = credentials.drop_last();
        lemma_forgotten(persisted, front, id);
        let last = credentials.len() - 1;
        if exists|i: int| 0 <= i < front.len() && (#[trigger] front[i]).id == id {
            let i = choose|i: int| 0 <= i < front.len() && (#[trigger] front[i]).id == id;
            assert(credentials[i].id == id);
        }
        if exists|i: int| 0 <= i < credentials.len() && (#[trigger] credentials[i]).id == id {
            let i = choose|i: int| 0 <= i < credentials.len() && (#[trigger] credentials[i]).id
                == id;
            if i < last {
                assert(front[i].id == id);
            }
        }
        if credentials.last().id == id {
            assert(credentials[last].id == id);
        }
    }
}

/// A revocation that ended something is to be written; what the file knew of
/// when an ended credential was seen is forgotten, and of every other one kept.
pub proof fn law_a_revocation_is_to_be_written(
    registry: RegistryView,
    at: int,
    other: Seq<char>,
)
    requires
        0 <= at < registry.limited.len(),
    ensures
        ({
            let id = registry.limited[at].id;
            let one = revoked_one(registry, id);
            let all = revoked_all(registry);
            &&& one.unsaved && all.unsaved
            &&& seen_in(one.persisted, id) is None && seen_in(all.persisted, id) is None
            &&& other != id ==> seen_in(one.persisted, other) == seen_in(registry.persisted, other)
            &&& (forall|i: int|
                0 <= i < registry.limited.len() ==> (#[trigger] registry.limited[i]).id != other)
                ==> seen_in(all.persisted, other) == seen_in(registry.persisted, other)
        }),
{
    let id = registry.limited[at].id;
    lemma_forgotten(registry.persisted, registry.limited, id);
    lemma_forgotten(registry.persisted, registry.limited, other);
    lemma_without_id_is_shorter(registry.limited, id, at);
}

proof fn lemma_without_id_is_shorter(entries: Seq<CredentialView>, id: Seq<char>, at: int)
    requires
        0 <= at < entries.len() ==> entries[at].id == id,
    ensures
        without_id(entries, id).len() <= entries.len(),
        0 <= at < entries.len() ==> without_id(entries, id).len() < entries.len(),
    decreases entries.len(),
{
    if entries.len() > 0 {
        let front = entries.drop_last();
        if 0 <= at < front.len() {
            assert(front[at] == entries[at]);
        }
        lemma_without_id_is_shorter(front, id, at);
    }
}

/// A list tells of every live credential once, the managing one first and the
/// others in their order, each with its id, tier, label, birth and last use.
pub proof fn law_what_a_list_tells(infos: Seq<CredentialInfo>, registry: RegistryView, j: int)
    requires
        lists(infos, registry),
    ensures
        registry.managing matches Some(managing) ==> infos.len() == registry.limited.len() + 1
            && infos[0].credential_id@ == managing.id && infos[0].tier is Managing
            && infos[0].last_seen_unix == managing.last_seen,
        registry.managing is None ==> infos.len() == registry.limited.len(),
        0 <= j < registry.limited.len() ==> ({
            let info = infos[infos.len() - registry.limited.len() + j];
            let credential = registry.limited[j];
            &&& info.credential_id@ == credential.id
            &&& info.tier is Limited
            &&& view_of(info.label) == credential.label
            &&& info.created_at_unix == credential.created_at
            &&& info.last_seen_unix == credential.last_seen
        }),
{
}

/// A label of up to a hundred and twenty characters without a control character
/// is recorded, without the white space around it; a longer one is refused.
pub proof fn law_which_labels_are_recorded(
    lead: Seq<char>,
    inner: Seq<char>,
    tail: Seq<char>,
    label: &str,
    recorded: Result<Option<String>, String>,
)
    requires
        call_ensures(normalize_label, (Some(label),), recorded),
        label@ == lead + inner + tail,
        is_blank(lead),
        is_blank(tail),
        inner.len() > 0 ==> !is_white_space(inner[0]) && !is_white_space(inner.last()),
        forall|i: int| 0 <= i < inner.len() ==> !is_control_code(#[trigger] inner[i]),
    ensures
        inner.len() == 0 ==> recorded == Ok::<Option<String>, String>(None),
        1 <= inner.len() <= 120 ==> (recorded matches Ok(Some(text)) && text@ == inner),
        inner.len() > 120 ==> recorded is Err,
{
    law_labels_up_to_a_hundred_and_twenty_characters(lead, inner, tail);
}

/// Bytes are equal where they are the same, whatever time it takes to tell.
pub proof fn law_what_is_equal_is_the_same(left: &[u8], right: &[u8], equal: bool)
    requires
        call_ensures(constant_time_eq, (left, right), equal),
    ensures
        equal <==> left@ == right@,
{
}

} // verus!
