//! Who is asking, and what the registry answers them.
//!
//! The actor is a fact of the transport, never a claim in the payload: a
//! connection acts as the credential its handshake presented, and the local
//! socket acts as the machine's owner.

use crate::credentials::{
    AuthenticatedCredential, CODE_FORBIDDEN, CODE_NOT_FOUND, CODE_REVOKED, CredentialView,
    FreshCredential, Holder, Moment, REVOKED_MESSAGE, RegistryView, SharedCredentialRegistry,
    fingerprint_of, holder_of_fingerprint, holder_of_id, identity,
    law_revoking_an_unknown_id_changes_nothing, lemma_with_fingerprint, lemma_with_id, lists,
    minted, normalize_label, recorded_label, reports, revoked_all, revoked_one, synced, used,
    with_id,
};
use crate::schema::{
    error_response, is_error, success, CredentialMintParams, CredentialRevokeParams, CredentialTier,
    Response, ResponseResult,
};
use crate::text::{borrowed, same_text, str_view, view_of};
use vstd::prelude::*;

verus! {

/// Who is acting on a connection.
#[derive(Clone, Debug, PartialEq, Eq)]
enum Actor {
    /// The local socket: authority comes from owning the socket file.
    LocalSocket,
    /// A connection authenticated as this credential at its handshake. The
    /// tier is the one it presented and never changes for this connection.
    Connection { credential_id: String, tier: CredentialTier },
    /// A connection that presented a revoked credential, and was let on only
    /// to be told so.
    Revoked { credential_id: String },
}

/// An actor over its texts.
pub ghost enum ActorView {
    LocalSocket,
    Connection { credential_id: Seq<char>, tier: CredentialTier },
    Revoked { credential_id: Seq<char> },
}

/// The context in which a connection's requests are served.
#[derive(Clone, Debug)]
pub struct CredentialContext {
    actor: Actor,
}

impl View for CredentialContext {
    type V = ActorView;

    closed spec fn view(&self) -> ActorView {
        match self.actor {
            Actor::LocalSocket => ActorView::LocalSocket,
            Actor::Connection { credential_id, tier } => ActorView::Connection {
                credential_id: credential_id@,
                tier,
            },
            Actor::Revoked { credential_id } => ActorView::Revoked {
                credential_id: credential_id@,
            },
        }
    }
}

/// The acting credential, resolved against the registry at request time.
struct ResolvedActor {
    credential_id: Option<String>,
    tier: CredentialTier,
}

/// A resolved actor over its texts.
pub ghost struct ResolvedView {
    pub credential_id: Option<Seq<char>>,
    pub tier: CredentialTier,
}

pub const ACTING_TOKEN_REFUSED: &'static str = "acting_token is not accepted on an authenticated connection; the credential presented at the handshake is the actor";

pub const NOT_IN_REGISTRY: &'static str = "the presented credential is not in this server's registry";

pub const TARGET_REQUIRED: &'static str = "credential_id is required when the caller is not itself a credential";

pub const MANAGING_NOT_REVOCABLE: &'static str = "the managing credential cannot be revoked; `herdr pair` rotates it";

/// What became of resolving an actor: who acts, or the code and message of
/// the refusal, and the registry afterwards.
pub open spec fn resolution(
    actor: ActorView,
    acting_token: Option<Seq<char>>,
    registry: RegistryView,
    now: u64,
    fresh_id: Seq<char>,
) -> (Result<ResolvedView, (Seq<char>, Seq<char>)>, RegistryView) {
    let current = synced(registry, now, fresh_id);
    match (actor, acting_token) {
        (ActorView::LocalSocket, None) => (
            Ok(ResolvedView { credential_id: None, tier: CredentialTier::Managing }),
            registry,
        ),
        (ActorView::LocalSocket, Some(token)) => {
            let holder = holder_of_fingerprint(current, fingerprint_of(token));
            (
                match identity(current, holder) {
                    Some((id, tier)) => Ok(ResolvedView { credential_id: Some(id), tier }),
                    None => Err((CODE_REVOKED@, NOT_IN_REGISTRY@)),
                },
                used(current, holder, now),
            )
        },
        (_, Some(_)) => (Err(("invalid_params"@, ACTING_TOKEN_REFUSED@)), registry),
        (ActorView::Connection { credential_id, tier }, None) => {
            let holder = holder_of_id(current, credential_id);
            (
                if tier is Managing {
                    Ok(
                        ResolvedView {
                            credential_id: Some(credential_id),
                            tier: CredentialTier::Managing,
                        },
                    )
                } else {
                    match holder {
                        Holder::Managing => Ok(
                            ResolvedView {
                                credential_id: Some(credential_id),
                                tier: CredentialTier::Managing,
                            },
                        ),
                        Holder::Limited(_) => Ok(
                            ResolvedView {
                                credential_id: Some(credential_id),
                                tier: CredentialTier::Limited,
                            },
                        ),
                        Holder::Nobody => Err((CODE_REVOKED@, REVOKED_MESSAGE@)),
                    }
                },
                used(current, holder, now),
            )
        },
        (ActorView::Revoked { .. }, None) => (Err((CODE_REVOKED@, REVOKED_MESSAGE@)), registry),
    }
}

/// The refusal of a limited credential.
pub open spec fn forbidden_text(action: Seq<char>) -> Seq<char> {
    "a limited credential may not "@ + action + "; only the managing credential can"@
}

fn forbidden(request_id: &str, action: &str) -> (response: Response)
    ensures
        is_error(response, request_id@, CODE_FORBIDDEN@, forbidden_text(action@)),
{
    let mut message = "a limited credential may not ".to_string();
    message.push_str(action);
    message.push_str("; only the managing credential can");
    error_response(request_id, CODE_FORBIDDEN, message)
}

/// The answer where the registry could not be written. Storage trouble is
/// trouble, never a verdict about the credential.
pub fn internal_error(request_id: &str, error: &str) -> (response: Response)
    ensures
        is_error(
            response,
            request_id@,
            "internal_error"@,
            "failed to update the credential registry: "@ + error@,
        ),
{
    let mut message = "failed to update the credential registry: ".to_string();
    message.push_str(error);
    error_response(request_id, "internal_error", message)
}

/// Whether an answer reports a change of the registry that has to be written:
/// a credential that was minted, or some that were ended.
pub open spec fn reports_a_change(response: Response) -> bool {
    response matches Response::Success(answer) && match answer.result {
        ResponseResult::CredentialMinted { .. } => true,
        ResponseResult::CredentialRevoked { revoked } => revoked@.len() > 0,
        _ => false,
    }
}

/// What a request is answered with once the registry was written or could not
/// be: an answer that reports a change stands only where it was, and any other
/// stands either way. When a credential was last seen is no such change.
pub fn conclude(response: Response, saved: Result<(), String>) -> (answer: Response)
    ensures
        match saved {
            Ok(()) => answer == response,
            Err(error) => if reports_a_change(response) {
                is_error(
                    answer,
                    response->Success_0.id@,
                    "internal_error"@,
                    "failed to update the credential registry: "@ + error@,
                )
            } else {
                answer == response
            },
        },
{
    let error = match saved {
        Ok(()) => {
            return response;
        },
        Err(error) => error,
    };
    match response {
        Response::Success(answer) => {
            let changed = match &answer.result {
                ResponseResult::CredentialMinted { .. } => true,
                ResponseResult::CredentialRevoked { revoked } => revoked.len() > 0,
                _ => false,
            };
            if changed {
                internal_error(&answer.id, &error)
            } else {
                Response::Success(answer)
            }
        },
        response => response,
    }
}

/// Whether a connection's own credential has been revoked: the local socket
/// has none, a managing connection keeps its grant for its lifetime, and a
/// limited one loses it with its entry.
pub open spec fn connection_is_revoked(
    actor: ActorView,
    registry: RegistryView,
    now: u64,
    fresh_id: Seq<char>,
) -> bool {
    match actor {
        ActorView::LocalSocket => false,
        ActorView::Revoked { .. } => true,
        ActorView::Connection { credential_id, tier } => tier is Limited && holder_of_id(
            synced(registry, now, fresh_id),
            credential_id,
        ) is Nobody,
    }
}

/// The registry after a connection's own credential was checked.
pub open spec fn after_check(
    actor: ActorView,
    registry: RegistryView,
    now: u64,
    fresh_id: Seq<char>,
) -> RegistryView {
    match actor {
        ActorView::Connection { credential_id, .. } => {
            let current = synced(registry, now, fresh_id);
            used(current, holder_of_id(current, credential_id), now)
        },
        _ => registry,
    }
}

/// What minting does to the registry and answers.
pub open spec fn mint_outcome(
    asker: ActorView,
    before: RegistryView,
    after: RegistryView,
    request_id: String,
    params: CredentialMintParams,
    fresh: Result<FreshCredential, String>,
    now: u64,
    fresh_id: Seq<char>,
    response: Response,
) -> bool {
    let (actor, resolved) = resolution(
        asker,
        view_of(params.acting_token),
        before,
        now,
        fresh_id,
    );
    match actor {
        Err((code, message)) => after == resolved && is_error(
            response,
            request_id@,
            code,
            message,
        ),
        Ok(actor) => if !(actor.tier is Managing) {
            after == resolved && is_error(
                response,
                request_id@,
                CODE_FORBIDDEN@,
                forbidden_text("mint credentials"@),
            )
        } else {
            match (recorded_label(view_of(params.label)), fresh) {
                (Err(reason), _) => after == resolved && is_error(
                    response,
                    request_id@,
                    "invalid_params"@,
                    reason,
                ),
                (Ok(_), Err(error)) => after == resolved && is_error(
                    response,
                    request_id@,
                    "internal_error"@,
                    "failed to update the credential registry: "@ + error@,
                ),
                (Ok(label), Ok(fresh)) => {
                    &&& after == minted(
                        resolved,
                        fresh.id@,
                        fresh.token@,
                        label,
                        now,
                    )
                    &&& response matches Response::Success(answer)
                    &&& answer.id == request_id
                    &&& answer.result matches ResponseResult::CredentialMinted {
                        credential,
                        token,
                    }
                    &&& token@ == fresh.token@
                    &&& reports(
                        credential,
                        after.limited.last(),
                        CredentialTier::Limited,
                    )
                },
            }
        },
    }
}

/// What listing does to the registry and answers.
pub open spec fn list_outcome(
    asker: ActorView,
    before: RegistryView,
    after: RegistryView,
    request_id: String,
    acting_token: Option<Seq<char>>,
    now: u64,
    fresh_id: Seq<char>,
    response: Response,
) -> bool {
    let (actor, resolved) = resolution(
        asker,
        acting_token,
        before,
        now,
        fresh_id,
    );
    match actor {
        Err((code, message)) => after == resolved && is_error(
            response,
            request_id@,
            code,
            message,
        ),
        Ok(actor) => if !(actor.tier is Managing) {
            after == resolved && is_error(
                response,
                request_id@,
                CODE_FORBIDDEN@,
                forbidden_text("list credentials"@),
            )
        } else {
            &&& after == synced(resolved, now, fresh_id)
            &&& response matches Response::Success(answer)
            &&& answer.id == request_id
            &&& answer.result matches ResponseResult::CredentialList { credentials }
            &&& lists(credentials@, after)
        },
    }
}

/// What revoking one credential does to the registry and answers.
pub open spec fn revoke_outcome(
    asker: ActorView,
    before: RegistryView,
    after: RegistryView,
    request_id: String,
    params: CredentialRevokeParams,
    now: u64,
    fresh_id: Seq<char>,
    response: Response,
) -> bool {
    let (actor, resolved) = resolution(
        asker,
        view_of(params.acting_token),
        before,
        now,
        fresh_id,
    );
    match actor {
        Err((code, message)) => after == resolved && is_error(
            response,
            request_id@,
            code,
            message,
        ),
        Ok(actor) => match revoke_target(
            view_of(params.credential_id),
            actor.credential_id,
        ) {
            None => after == resolved && is_error(
                response,
                request_id@,
                "invalid_params"@,
                TARGET_REQUIRED@,
            ),
            Some(target) => if !(actor.tier is Managing) && actor.credential_id != Some(
                target,
            ) {
                after == resolved && is_error(
                    response,
                    request_id@,
                    CODE_FORBIDDEN@,
                    forbidden_text("revoke another credential"@),
                )
            } else {
                revoke_answer(
                    synced(resolved, now, fresh_id),
                    after,
                    request_id,
                    target,
                    response,
                )
            },
        },
    }
}

/// What revoking every limited credential does to the registry and answers.
pub open spec fn revoke_all_outcome(
    asker: ActorView,
    before: RegistryView,
    after: RegistryView,
    request_id: String,
    acting_token: Option<Seq<char>>,
    now: u64,
    fresh_id: Seq<char>,
    response: Response,
) -> bool {
    let (actor, resolved) = resolution(
        asker,
        acting_token,
        before,
        now,
        fresh_id,
    );
    match actor {
        Err((code, message)) => after == resolved && is_error(
            response,
            request_id@,
            code,
            message,
        ),
        Ok(actor) => if !(actor.tier is Managing) {
            after == resolved && is_error(
                response,
                request_id@,
                CODE_FORBIDDEN@,
                forbidden_text("revoke every credential"@),
            )
        } else {
            &&& after == revoked_all(resolved)
            &&& response matches Response::Success(answer)
            &&& answer.id == request_id
            &&& answer.result matches ResponseResult::CredentialRevoked { revoked }
            &&& revoked@.len() == resolved.limited.len()
            &&& forall|i: int|
                0 <= i < revoked@.len() ==> (#[trigger] revoked@[i])@
                    == resolved.limited[i].id
        },
    }
}

impl CredentialContext {
    pub fn local_socket() -> (context: CredentialContext)
        ensures
            context@ is LocalSocket,
    {
        CredentialContext { actor: Actor::LocalSocket }
    }

    pub fn connection(credential: AuthenticatedCredential) -> (context: CredentialContext)
        ensures
            context@ == (ActorView::Connection {
                credential_id: credential.credential_id@,
                tier: credential.tier,
            }),
    {
        CredentialContext {
            actor: Actor::Connection {
                credential_id: credential.credential_id,
                tier: credential.tier,
            },
        }
    }

    pub fn revoked_connection(credential_id: String) -> (context: CredentialContext)
        ensures
            context@ == (ActorView::Revoked { credential_id: credential_id@ }),
    {
        CredentialContext { actor: Actor::Revoked { credential_id } }
    }

    /// The id of the connection's own credential, where it has one.
    pub fn credential_id(&self) -> (id: Option<&str>)
        ensures
            str_view(id) == (match self@ {
                ActorView::LocalSocket => None,
                ActorView::Connection { credential_id, .. } => Some(credential_id),
                ActorView::Revoked { credential_id } => Some(credential_id),
            }),
    {
        match &self.actor {
            Actor::LocalSocket => None,
            Actor::Connection { credential_id, .. } => Some(credential_id.as_str()),
            Actor::Revoked { credential_id } => Some(credential_id.as_str()),
        }
    }

    /// Whether the connection's own credential has been revoked, marking it
    /// seen where it has not.
    pub fn is_revoked(&self, registry: &mut SharedCredentialRegistry, moment: &Moment) -> (yes: bool)
        ensures
            yes == connection_is_revoked(self@, old(registry)@, moment.now, moment.fresh_id@),
            final(registry)@ == after_check(self@, old(registry)@, moment.now, moment.fresh_id@),
    {
        match &self.actor {
            Actor::LocalSocket => false,
            Actor::Revoked { .. } => true,
            Actor::Connection { credential_id, tier } => {
                let seen = registry.mark_seen(credential_id, moment);
                match tier {
                    CredentialTier::Managing => false,
                    CredentialTier::Limited => seen.is_none(),
                }
            },
        }
    }

    /// The refusal to write instead of serving a request, where the
    /// connection's credential was revoked while it was open.
    pub fn revocation_refusal(
        &self,
        registry: &mut SharedCredentialRegistry,
        request_id: &str,
        moment: &Moment,
    ) -> (refusal: Option<Response>)
        ensures
            final(registry)@ == after_check(self@, old(registry)@, moment.now, moment.fresh_id@),
            if connection_is_revoked(self@, old(registry)@, moment.now, moment.fresh_id@) {
                refusal matches Some(response) && is_error(
                    response,
                    request_id@,
                    CODE_REVOKED@,
                    REVOKED_MESSAGE@,
                )
            } else {
                refusal is None
            },
    {
        if !self.is_revoked(registry, moment) {
            return None;
        }
        Some(error_response(request_id, CODE_REVOKED, REVOKED_MESSAGE.to_string()))
    }

    /// The terminal verdict for a connection with no request to answer.
    pub fn revocation_verdict(&self) -> (verdict: Response)
        ensures
            is_error(verdict, Seq::empty(), CODE_REVOKED@, REVOKED_MESSAGE@),
    {
        proof {
            reveal_strlit("");
            assert(""@ =~= Seq::<char>::empty());
        }
        error_response("", CODE_REVOKED, REVOKED_MESSAGE.to_string())
    }

    /// Resolve who is acting. Acting as another credential is an affordance
    /// of the local socket: an authenticated connection cannot claim to be
    /// someone else.
    fn resolve(
        &self,
        registry: &mut SharedCredentialRegistry,
        acting_token: Option<&str>,
        moment: &Moment,
    ) -> (actor: Result<ResolvedActor, (&'static str, String)>)
        ensures
            ({
                let (wanted, after) = resolution(
                    self@,
                    str_view(acting_token),
                    old(registry)@,
                    moment.now,
                    moment.fresh_id@,
                );
                &&& final(registry)@ == after
                &&& match (wanted, actor) {
                    (Ok(wanted), Ok(actor)) => view_of(actor.credential_id) == wanted.credential_id
                        && actor.tier == wanted.tier,
                    (Err((code, message)), Err((text, detail))) => text@ == code && detail@
                        == message,
                    _ => false,
                }
            }),
    {
        match (&self.actor, acting_token) {
            (Actor::LocalSocket, None) => Ok(
                ResolvedActor { credential_id: None, tier: CredentialTier::Managing },
            ),
            (Actor::LocalSocket, Some(token)) => match registry.authenticate(token, moment) {
                Some(credential) => Ok(
                    ResolvedActor {
                        credential_id: Some(credential.credential_id),
                        tier: credential.tier,
                    },
                ),
                None => Err((CODE_REVOKED, NOT_IN_REGISTRY.to_string())),
            },
            (_, Some(_)) => Err(("invalid_params", ACTING_TOKEN_REFUSED.to_string())),
            (Actor::Connection { credential_id, tier }, None) => {
                let seen = registry.mark_seen(credential_id, moment);
                match (tier, seen) {
                    (CredentialTier::Managing, _) => Ok(
                        ResolvedActor {
                            credential_id: Some(credential_id.clone()),
                            tier: CredentialTier::Managing,
                        },
                    ),
                    (CredentialTier::Limited, Some(seen)) => Ok(
                        ResolvedActor { credential_id: Some(credential_id.clone()), tier: seen },
                    ),
                    (CredentialTier::Limited, None) => Err(
                        (CODE_REVOKED, REVOKED_MESSAGE.to_string()),
                    ),
                }
            },
            (Actor::Revoked { .. }, None) => Err((CODE_REVOKED, REVOKED_MESSAGE.to_string())),
        }
    }

    /// Serve `credential.mint`. The caller gathers the fresh credential
    /// beforehand; where that failed, a mint that would otherwise have
    /// succeeded is answered with the trouble instead.
    pub fn serve_mint(
        &self,
        registry: &mut SharedCredentialRegistry,
        request_id: String,
        params: &CredentialMintParams,
        fresh: Result<FreshCredential, String>,
        moment: &Moment,
    ) -> (response: Response)
        ensures
            mint_outcome(
                self@,
                old(registry)@,
                final(registry)@,
                request_id,
                *params,
                fresh,
                moment.now,
                moment.fresh_id@,
                response,
            ),
    {
        let actor = match self.resolve(registry, borrowed(&params.acting_token), moment) {
            Ok(actor) => actor,
            Err((code, message)) => {
                return error_response(&request_id, code, message);
            },
        };
        if actor.tier != CredentialTier::Managing {
            return forbidden(&request_id, "mint credentials");
        }
        let label = match normalize_label(borrowed(&params.label)) {
            Ok(label) => label,
            Err(message) => {
                return error_response(&request_id, "invalid_params", message);
            },
        };
        match fresh {
            Err(error) => internal_error(&request_id, &error),
            Ok(fresh) => {
                let (credential, token) = registry.mint(label, fresh, moment.now);
                success(request_id, ResponseResult::CredentialMinted { credential, token })
            },
        }
    }

    /// Serve `credential.list`.
    pub fn serve_list(
        &self,
        registry: &mut SharedCredentialRegistry,
        request_id: String,
        acting_token: Option<&str>,
        moment: &Moment,
    ) -> (response: Response)
        ensures
            list_outcome(
                self@,
                old(registry)@,
                final(registry)@,
                request_id,
                str_view(acting_token),
                moment.now,
                moment.fresh_id@,
                response,
            ),
    {
        let actor = match self.resolve(registry, acting_token, moment) {
            Ok(actor) => actor,
            Err((code, message)) => {
                return error_response(&request_id, code, message);
            },
        };
        if actor.tier != CredentialTier::Managing {
            return forbidden(&request_id, "list credentials");
        }
        let credentials = registry.list(moment);
        success(request_id, ResponseResult::CredentialList { credentials })
    }

    /// Serve `credential.revoke`. A limited credential may end only itself,
    /// and nobody may end the managing credential.
    pub fn serve_revoke(
        &self,
        registry: &mut SharedCredentialRegistry,
        request_id: String,
        params: &CredentialRevokeParams,
        moment: &Moment,
    ) -> (response: Response)
        ensures
            revoke_outcome(
                self@,
                old(registry)@,
                final(registry)@,
                request_id,
                *params,
                moment.now,
                moment.fresh_id@,
                response,
            ),
    {
        let actor = match self.resolve(registry, borrowed(&params.acting_token), moment) {
            Ok(actor) => actor,
            Err((code, message)) => {
                return error_response(&request_id, code, message);
            },
        };
        let target = match &params.credential_id {
            Some(target) => target.clone(),
            None => match &actor.credential_id {
                Some(own) => own.clone(),
                None => {
                    return error_response(
                        &request_id,
                        "invalid_params",
                        TARGET_REQUIRED.to_string(),
                    );
                },
            },
        };
        let is_self = match &actor.credential_id {
            Some(own) => same_text(own, &target),
            None => false,
        };
        if actor.tier != CredentialTier::Managing && !is_self {
            return forbidden(&request_id, "revoke another credential");
        }
        if registry.is_managing_id(&target, moment) {
            return error_response(
                &request_id,
                CODE_FORBIDDEN,
                MANAGING_NOT_REVOCABLE.to_string(),
            );
        }
        proof {
            if with_id(registry@.limited, target@) >= registry@.limited.len() {
                law_revoking_an_unknown_id_changes_nothing(registry@, target@);
            }
        }
        if registry.revoke_limited(&target) {
            let revoked: Vec<String> = vec![target];
            assert(revoked@ =~= seq![target]);
            success(request_id, ResponseResult::CredentialRevoked { revoked })
        } else {
            let mut message = "no credential ".to_string();
            message.push_str(&target);
            message.push_str(" in this server's registry");
            error_response(&request_id, CODE_NOT_FOUND, message)
        }
    }

    /// Serve `credential.revoke_all`.
    pub fn serve_revoke_all(
        &self,
        registry: &mut SharedCredentialRegistry,
        request_id: String,
        acting_token: Option<&str>,
        moment: &Moment,
    ) -> (response: Response)
        ensures
            revoke_all_outcome(
                self@,
                old(registry)@,
                final(registry)@,
                request_id,
                str_view(acting_token),
                moment.now,
                moment.fresh_id@,
                response,
            ),
    {
        let actor = match self.resolve(registry, acting_token, moment) {
            Ok(actor) => actor,
            Err((code, message)) => {
                return error_response(&request_id, code, message);
            },
        };
        if actor.tier != CredentialTier::Managing {
            return forbidden(&request_id, "revoke every credential");
        }
        let revoked = registry.revoke_all_limited();
        success(request_id, ResponseResult::CredentialRevoked { revoked })
    }
}

/// The credential that a revoke is about: the one named, else the caller's
/// own.
pub open spec fn revoke_target(named: Option<Seq<char>>, own: Option<Seq<char>>) -> Option<
    Seq<char>,
> {
    match named {
        Some(target) => Some(target),
        None => own,
    }
}

/// What an allowed revoke does and answers.
pub open spec fn revoke_answer(
    before: RegistryView,
    after: RegistryView,
    request_id: String,
    target: Seq<char>,
    response: Response,
) -> bool {
    if before.managing is Some && before.managing->0.id == target {
        after == before && is_error(
            response,
            request_id@,
            CODE_FORBIDDEN@,
            MANAGING_NOT_REVOCABLE@,
        )
    } else if with_id(before.limited, target) < before.limited.len() {
        &&& after == revoked_one(before, target)
        &&& response matches Response::Success(answer)
        &&& answer.id == request_id
        &&& answer.result matches ResponseResult::CredentialRevoked { revoked }
        &&& revoked@.len() == 1
        &&& revoked@[0]@ == target
    } else {
        after == before && is_error(
            response,
            request_id@,
            CODE_NOT_FOUND@,
            "no credential "@ + target + " in this server's registry"@,
        )
    }
}

// ---- Who may do what -------------------------------------------------------------------------

/// Whether two registries hold the same limited credentials, live and
/// revoked, whenever they were last seen.
pub open spec fn same_limited(one: RegistryView, two: RegistryView) -> bool {
    &&& one.limited.len() == two.limited.len()
    &&& forall|i: int|
        0 <= i < one.limited.len() ==> (#[trigger] one.limited[i]).id == two.limited[i].id
            && one.limited[i].fingerprint == two.limited[i].fingerprint
    &&& one.revoked == two.revoked
}

/// Whether an actor is a limited credential: its connection presented one, and
/// its id is not the managing credential's.
pub open spec fn acts_limited(
    asker: ActorView,
    registry: RegistryView,
    now: u64,
    fresh_id: Seq<char>,
) -> bool {
    &&& asker matches ActorView::Connection { credential_id, tier }
    &&& tier is Limited
    &&& !(holder_of_id(synced(registry, now, fresh_id), credential_id) is Managing)
}

proof fn lemma_resolving_keeps_credentials(
    actor: ActorView,
    acting_token: Option<Seq<char>>,
    registry: RegistryView,
    now: u64,
    fresh_id: Seq<char>,
)
    ensures
        same_limited(resolution(actor, acting_token, registry, now, fresh_id).1, registry),
{
    let current = synced(registry, now, fresh_id);
    match (actor, acting_token) {
        (ActorView::LocalSocket, Some(token)) => {
            lemma_with_fingerprint(current.limited, fingerprint_of(token));
            lemma_using_keeps_credentials(
                current,
                holder_of_fingerprint(current, fingerprint_of(token)),
                now,
            );
        },
        (ActorView::Connection { credential_id, .. }, None) => {
            lemma_with_id(current.limited, credential_id);
            lemma_using_keeps_credentials(current, holder_of_id(current, credential_id), now);
        },
        _ => {},
    }
}

proof fn lemma_using_keeps_credentials(registry: RegistryView, holder: Holder, now: u64)
    requires
        holder matches Holder::Limited(at) ==> 0 <= at < registry.limited.len(),
    ensures
        same_limited(used(registry, holder, now), registry),
{
}

/// A limited credential may neither mint nor list nor revoke every credential:
/// it is refused, and the registry keeps its credentials.
pub proof fn law_a_limited_credential_manages_nothing(
    asker: ActorView,
    before: RegistryView,
    after: RegistryView,
    request_id: String,
    mint: CredentialMintParams,
    fresh: Result<FreshCredential, String>,
    acting_token: Option<Seq<char>>,
    now: u64,
    fresh_id: Seq<char>,
    response: Response,
)
    requires
        acts_limited(asker, before, now, fresh_id),
        mint_outcome(
            asker,
            before,
            after,
            request_id,
            mint,
            fresh,
            now,
            fresh_id,
            response,
        ) || list_outcome(
            asker,
            before,
            after,
            request_id,
            acting_token,
            now,
            fresh_id,
            response,
        ) || revoke_all_outcome(
            asker,
            before,
            after,
            request_id,
            acting_token,
            now,
            fresh_id,
            response,
        ),
    ensures
        response is Error,
        same_limited(after, before),
{
    lemma_resolving_keeps_credentials(asker, view_of(mint.acting_token), before, now, fresh_id);
    lemma_resolving_keeps_credentials(asker, acting_token, before, now, fresh_id);
}

/// A limited credential may revoke itself and nothing else: where a revoke of
/// its succeeds, its own id is what ended, and otherwise nothing ended.
pub proof fn law_a_limited_credential_revokes_only_itself(
    asker: ActorView,
    before: RegistryView,
    after: RegistryView,
    request_id: String,
    params: CredentialRevokeParams,
    now: u64,
    fresh_id: Seq<char>,
    response: Response,
)
    requires
        acts_limited(asker, before, now, fresh_id),
        revoke_outcome(
            asker,
            before,
            after,
            request_id,
            params,
            now,
            fresh_id,
            response,
        ),
    ensures
        response is Error ==> same_limited(after, before),
        response matches Response::Success(answer) ==> {
            let own = asker->Connection_credential_id;
            let resolved = synced(
                resolution(asker, view_of(params.acting_token), before, now, fresh_id).1,
                now,
                fresh_id,
            );
            &&& answer.result matches ResponseResult::CredentialRevoked { revoked }
            &&& revoked@.len() == 1
            &&& revoked@[0]@ == own
            &&& same_limited(resolved, before)
            &&& after == revoked_one(resolved, own)
        },
{
    lemma_resolving_keeps_credentials(asker, view_of(params.acting_token), before, now, fresh_id);
}

/// A connection that was let on with a revoked credential is told so whatever
/// it asks of the registry, and changes nothing.
pub proof fn law_a_revoked_actor_is_only_told_so(
    asker: ActorView,
    before: RegistryView,
    after: RegistryView,
    request_id: String,
    mint: CredentialMintParams,
    fresh: Result<FreshCredential, String>,
    revoke: CredentialRevokeParams,
    now: u64,
    fresh_id: Seq<char>,
    response: Response,
)
    requires
        asker is Revoked,
        mint.acting_token is None,
        revoke.acting_token is None,
        mint_outcome(
            asker,
            before,
            after,
            request_id,
            mint,
            fresh,
            now,
            fresh_id,
            response,
        ) || list_outcome(
            asker,
            before,
            after,
            request_id,
            None,
            now,
            fresh_id,
            response,
        ) || revoke_outcome(
            asker,
            before,
            after,
            request_id,
            revoke,
            now,
            fresh_id,
            response,
        ) || revoke_all_outcome(
            asker,
            before,
            after,
            request_id,
            None,
            now,
            fresh_id,
            response,
        ),
    ensures
        after == before,
        is_error(response, request_id@, CODE_REVOKED@, REVOKED_MESSAGE@),
{
}

/// The managing credential is never revoked through the api, whoever asks:
/// every request to the registry leaves it as it is, but for a rotation and
/// for when it was last seen.
pub proof fn law_the_managing_credential_is_never_revoked(
    asker: ActorView,
    before: RegistryView,
    after: RegistryView,
    request_id: String,
    params: CredentialRevokeParams,
    acting_token: Option<Seq<char>>,
    now: u64,
    fresh_id: Seq<char>,
    response: Response,
)
    requires
        before.managing is Some,
        before == synced(before, now, fresh_id),
        revoke_outcome(
            asker,
            before,
            after,
            request_id,
            params,
            now,
            fresh_id,
            response,
        ) || revoke_all_outcome(
            asker,
            before,
            after,
            request_id,
            acting_token,
            now,
            fresh_id,
            response,
        ),
    ensures
        after.managing matches Some(managing) && managing.id == before.managing->0.id
            && managing.fingerprint == before.managing->0.fingerprint,
{
}

/// Who acts: on the local socket its owner does, as a managing actor without a
/// credential, or the holder of the token that is handed in; on a connection its
/// own credential, whatever is handed in, which is refused.
pub proof fn law_who_acts(
    credential_id: Seq<char>,
    tier: CredentialTier,
    token: Seq<char>,
    registry: RegistryView,
    now: u64,
    fresh_id: Seq<char>,
)
    ensures
        resolution(ActorView::LocalSocket, None, registry, now, fresh_id).0 matches Ok(actor)
            && actor.credential_id is None && actor.tier is Managing,
        ({
            let current = synced(registry, now, fresh_id);
            let holder = holder_of_fingerprint(current, fingerprint_of(token));
            let resolved = resolution(
                ActorView::LocalSocket,
                Some(token),
                registry,
                now,
                fresh_id,
            ).0;
            &&& holder is Managing ==> resolved == Ok::<ResolvedView, (Seq<char>, Seq<char>)>(
                ResolvedView {
                    credential_id: Some(current.managing->0.id),
                    tier: CredentialTier::Managing,
                },
            )
            &&& holder matches Holder::Limited(at) ==> resolved == Ok::<
                ResolvedView,
                (Seq<char>, Seq<char>),
            >(
                ResolvedView {
                    credential_id: Some(current.limited[at].id),
                    tier: CredentialTier::Limited,
                },
            )
            &&& holder is Nobody ==> (resolved matches Err(refusal) && refusal.0
                == "credential_revoked"@)
        }),
        resolution(
            ActorView::Connection { credential_id, tier },
            Some(token),
            registry,
            now,
            fresh_id,
        ) == (Err::<ResolvedView, (Seq<char>, Seq<char>)>(
            ("invalid_params"@, ACTING_TOKEN_REFUSED@),
        ), registry),
        resolution(
            ActorView::Connection { credential_id, tier: CredentialTier::Managing },
            None,
            registry,
            now,
            fresh_id,
        ).0 matches Ok(actor) && actor.credential_id == Some(credential_id)
            && actor.tier is Managing,
        ({
            let holder = holder_of_id(synced(registry, now, fresh_id), credential_id);
            let resolved = resolution(
                ActorView::Connection { credential_id, tier: CredentialTier::Limited },
                None,
                registry,
                now,
                fresh_id,
            ).0;
            &&& holder is Limited ==> (resolved matches Ok(actor) && actor.credential_id == Some(
                credential_id,
            ) && actor.tier is Limited)
            &&& holder is Nobody ==> (resolved matches Err(refusal) && refusal.0
                == "credential_revoked"@ && refusal.1
                == "this credential has been revoked; pair or link again"@)
        }),
{
}

/// The owner of the local socket is refused nothing: a mint with a usable label
/// mints, a list lists, revoking all revokes all, and revoking a limited
/// credential by its id ends it.
pub proof fn law_the_local_owner_is_refused_nothing(
    before: RegistryView,
    after: RegistryView,
    request_id: String,
    mint: CredentialMintParams,
    revoke: CredentialRevokeParams,
    fresh: Result<FreshCredential, String>,
    now: u64,
    fresh_id: Seq<char>,
    response: Response,
)
    requires
        mint.acting_token is None,
        revoke.acting_token is None,
        recorded_label(view_of(mint.label)) is Ok,
        fresh is Ok,
    ensures
        mint_outcome(
            ActorView::LocalSocket,
            before,
            after,
            request_id,
            mint,
            fresh,
            now,
            fresh_id,
            response,
        ) ==> response is Success && after.limited.len() == before.limited.len() + 1
            && after.limited.last().id == fresh->Ok_0.id@ && after.limited.last().label
            == recorded_label(view_of(mint.label))->Ok_0,
        list_outcome(
            ActorView::LocalSocket,
            before,
            after,
            request_id,
            None,
            now,
            fresh_id,
            response,
        ) ==> response is Success && after.limited == before.limited,
        revoke_all_outcome(
            ActorView::LocalSocket,
            before,
            after,
            request_id,
            None,
            now,
            fresh_id,
            response,
        ) ==> response is Success && after.limited.len() == 0,
        revoke_outcome(
            ActorView::LocalSocket,
            before,
            after,
            request_id,
            revoke,
            now,
            fresh_id,
            response,
        ) && revoke.credential_id is Some && holder_of_id(
            synced(before, now, fresh_id),
            revoke.credential_id->0@,
        ) is Limited ==> response is Success && forall|j: int|
            0 <= j < after.limited.len() ==> (#[trigger] after.limited[j]).id
                != revoke.credential_id->0@,
        revoke_outcome(
            ActorView::LocalSocket,
            before,
            after,
            request_id,
            revoke,
            now,
            fresh_id,
            response,
        ) && revoke.credential_id is None ==> response is Error && after == before,
{
    if revoke.credential_id is Some {
        let target = revoke.credential_id->0@;
        crate::credentials::law_revoking_ends_one_and_leaves_the_others(
            synced(before, now, fresh_id),
            target,
        );
    }
}

/// A connection has lost its credential where that is neither the managing one
/// nor among the limited ones any more; the local socket has none to lose, and
/// a managing connection keeps its own.
pub proof fn law_when_a_connection_has_lost_its_credential(
    registry: RegistryView,
    id: Seq<char>,
    now: u64,
    fresh_id: Seq<char>,
)
    ensures
        ({
            let current = synced(registry, now, fresh_id);
            let limited = ActorView::Connection { credential_id: id, tier: CredentialTier::Limited };
            let managing = ActorView::Connection {
                credential_id: id,
                tier: CredentialTier::Managing,
            };
            &&& !connection_is_revoked(ActorView::LocalSocket, registry, now, fresh_id)
            &&& connection_is_revoked(
                ActorView::Revoked { credential_id: id },
                registry,
                now,
                fresh_id,
            )
            &&& !connection_is_revoked(managing, registry, now, fresh_id)
            &&& connection_is_revoked(limited, registry, now, fresh_id) <==> !(current.managing
                is Some && current.managing->0.id == id) && (forall|i: int|
                0 <= i < current.limited.len() ==> (#[trigger] current.limited[i]).id != id)
        }),
{
    let current = synced(registry, now, fresh_id);
    lemma_where_an_id_stands(current.limited, id);
}

proof fn lemma_where_an_id_stands(entries: Seq<CredentialView>, id: Seq<char>)
    ensures
        with_id(entries, id) < entries.len() <==> exists|i: int|
            0 <= i < entries.len() && (#[trigger] entries[i]).id == id,
        0 <= with_id(entries, id) <= entries.len(),
    decreases entries.len(),
{
    if entries.len() > 0 {
        let rest = entries.skip(1);
        lemma_where_an_id_stands(rest, id);
        if entries[0].id != id {
            if exists|i: int| 0 <= i < entries.len() && (#[trigger] entries[i]).id == id {
                let i = choose|i: int| 0 <= i < entries.len() && (#[trigger] entries[i]).id == id;
                assert(rest[i - 1].id == id);
            }
            if exists|i: int| 0 <= i < rest.len() && (#[trigger] rest[i]).id == id {
                let i = choose|i: int| 0 <= i < rest.len() && (#[trigger] rest[i]).id == id;
                assert(entries[i + 1].id == id);
            }
        }
    }
}

/// A revoke is of the credential that it names, and of the caller's own where
/// it names none.
pub proof fn law_what_a_revoke_is_of(named: Seq<char>, own: Option<Seq<char>>)
    ensures
        revoke_target(Some(named), own) == Some(named),
        revoke_target(None, own) == own,
{
}

/// A revoke that is allowed ends a limited credential and says which, refuses
/// the managing one as forbidden, and does not find any other id.
pub proof fn law_what_an_allowed_revoke_is_answered(
    before: RegistryView,
    after: RegistryView,
    request_id: String,
    target: Seq<char>,
    response: Response,
)
    requires
        revoke_answer(before, after, request_id, target, response),
    ensures
        ({
            let managing = before.managing is Some && before.managing->0.id == target;
            let limited = exists|i: int|
                0 <= i < before.limited.len() && (#[trigger] before.limited[i]).id == target;
            &&& managing ==> after == before && (response matches Response::Error(failed)
                && failed.id@ == request_id@ && failed.error.code@ == "credential_forbidden"@)
            &&& !managing && !limited ==> after == before && (response matches Response::Error(
                failed,
            ) && failed.id@ == request_id@ && failed.error.code@ == "credential_not_found"@)
            &&& !managing && limited ==> after == revoked_one(before, target) && (
            response matches Response::Success(answer) && answer.id == request_id && (
            answer.result matches ResponseResult::CredentialRevoked { revoked } && revoked@.len()
                == 1 && revoked@[0]@ == target))
        }),
{
    lemma_where_an_id_stands(before.limited, target);
}

/// What a limited credential may not do is answered as forbidden, by its code
/// and in words that name the deed.
pub proof fn law_what_a_limited_credential_is_told(
    asker: ActorView,
    before: RegistryView,
    after: RegistryView,
    request_id: String,
    params: CredentialMintParams,
    fresh: Result<FreshCredential, String>,
    now: u64,
    fresh_id: Seq<char>,
    minting: Response,
    listing: Response,
    revoking: Response,
)
    requires
        acts_limited(asker, before, now, fresh_id),
        params.acting_token is None,
        resolution(asker, None, before, now, fresh_id).0 is Ok,
        mint_outcome(
            asker,
            before,
            after,
            request_id,
            params,
            fresh,
            now,
            fresh_id,
            minting,
        ),
        list_outcome(asker, before, after, request_id, None, now, fresh_id, listing),
        revoke_all_outcome(asker, before, after, request_id, None, now, fresh_id, revoking),
    ensures
        is_error(
            minting,
            request_id@,
            "credential_forbidden"@,
            "a limited credential may not "@ + "mint credentials"@
                + "; only the managing credential can"@,
        ),
        is_error(
            listing,
            request_id@,
            "credential_forbidden"@,
            "a limited credential may not "@ + "list credentials"@
                + "; only the managing credential can"@,
        ),
        is_error(
            revoking,
            request_id@,
            "credential_forbidden"@,
            "a limited credential may not "@ + "revoke every credential"@
                + "; only the managing credential can"@,
        ),
{
}

/// An answer reports a change exactly where something was minted or ended.
pub proof fn law_which_answers_report_a_change(response: Response)
    ensures
        response is Error ==> !reports_a_change(response),
        response matches Response::Success(answer) ==> {
            &&& answer.result is CredentialMinted ==> reports_a_change(response)
            &&& answer.result matches ResponseResult::CredentialRevoked { revoked } ==> (
            reports_a_change(response) <==> revoked@.len() > 0)
            &&& answer.result is CredentialList ==> !reports_a_change(response)
        },
{
}

} // verus!
