//! Serving `server.lookup_place`.

use crate::places::{Place, MAX_PLACES};
use crate::schema::{
    error_response, is_error, success, Method, PlaceInfo, Request, Response, ResponseResult,
    ServerLookupPlaceParams,
};
use crate::text::{
    is_blank, is_white_space, law_what_is_around_is_trimmed, texts, to_chars, to_text, trim,
    trimmed,
};
use vstd::prelude::*;

verus! {

/// How long a whole lookup may take before it answers with nothing.
pub const LOOKUP_DEADLINE_MILLIS: u64 = 5_000;

/// Lookups that may run at once.
pub const CONCURRENT_LOOKUPS: usize = 2;

/// How long the app gets to hand back its live pane directories.
pub const LIVE_DIRS_TIMEOUT_MILLIS: u64 = 5_000;

pub const QUERY_EMPTY: &'static str = "query must not be empty";

pub const LIMIT_ZERO: &'static str = "limit must be at least 1";

/// The id of the request that the app is asked its pane directories with.
pub const PANES_REQUEST_ID: &'static str = "internal:place_lookup:panes";

/// A lookup's query and limit, or why they are no request at all. The limit
/// is capped, not refused.
pub open spec fn lookup_params(query: Seq<char>, limit: Option<u32>) -> Result<
    (Seq<char>, nat),
    Seq<char>,
> {
    if trimmed(query).len() == 0 {
        Err(QUERY_EMPTY@)
    } else {
        match limit {
            None => Ok((trimmed(query), MAX_PLACES as nat)),
            Some(limit) => if limit == 0 {
                Err(LIMIT_ZERO@)
            } else if limit > MAX_PLACES {
                Ok((trimmed(query), MAX_PLACES as nat))
            } else {
                Ok((trimmed(query), limit as nat))
            },
        }
    }
}

/// Read a lookup's query and limit.
pub fn read_params(params: &ServerLookupPlaceParams) -> (read: Result<
    (String, usize),
    &'static str,
>)
    ensures
        match read {
            Ok((query, limit)) => lookup_params(params.query@, params.limit) == Ok::<
                (Seq<char>, nat),
                Seq<char>,
            >((query@, limit as nat)),
            Err(message) => lookup_params(params.query@, params.limit) == Err::<
                (Seq<char>, nat),
                Seq<char>,
            >(message@),
        },
{
    let chars = to_chars(&params.query);
    let query = trim(&chars);
    if query.len() == 0 {
        return Err(QUERY_EMPTY);
    }
    let limit: usize = match params.limit {
        None => MAX_PLACES,
        Some(limit) => {
            if limit == 0 {
                return Err(LIMIT_ZERO);
            }
            if limit as usize > MAX_PLACES {
                MAX_PLACES
            } else {
                limit as usize
            }
        },
    };
    Ok((to_text(query), limit))
}

/// The limit of an accepted lookup is at least one, within the cap, and never
/// more than was asked for.
pub proof fn law_a_limit_is_at_least_one_and_within_the_cap(query: Seq<char>, limit: Option<u32>)
    requires
        lookup_params(query, limit) is Ok,
    ensures
        1 <= lookup_params(query, limit)->Ok_0.1 <= MAX_PLACES,
        limit matches Some(asked) ==> lookup_params(query, limit)->Ok_0.1 <= asked,
{
}

/// What a lookup does with its parameters.
#[derive(Clone, Debug, PartialEq, Eq)]
pub enum LookupStep {
    /// Write this answer; the app is not asked for anything.
    Refuse(Response),
    /// Search for this text, and answer so many places.
    Search(String, usize),
}

/// What a lookup does with its parameters.
pub fn handle_lookup(request_id: &str, params: &ServerLookupPlaceParams) -> (step: LookupStep)
    ensures
        match lookup_params(params.query@, params.limit) {
            Ok((query, limit)) => step matches LookupStep::Search(text, count) && text@ == query
                && count == limit,
            Err(message) => step matches LookupStep::Refuse(response) && is_error(
                response,
                request_id@,
                "invalid_params"@,
                message,
            ),
        },
{
    match read_params(params) {
        Ok((query, limit)) => LookupStep::Search(query, limit),
        Err(message) => LookupStep::Refuse(
            error_response(request_id, "invalid_params", message.to_string()),
        ),
    }
}

/// The request that asks the app where its live panes stand: the only one
/// that a lookup makes of it.
pub fn panes_request() -> (request: Request)
    ensures
        request.id@ == PANES_REQUEST_ID@,
        request.method is PaneList,
{
    Request { id: PANES_REQUEST_ID.to_string(), method: Method::PaneList }
}

/// The directories of one live pane.
#[derive(Clone, Debug, PartialEq, Eq)]
pub struct PaneDirs {
    pub cwd: Option<String>,
    pub foreground_cwd: Option<String>,
}

pub open spec fn pane_dirs(pane: PaneDirs) -> Seq<Seq<char>> {
    (match pane.cwd {
        Some(dir) => seq![dir@],
        None => Seq::empty(),
    }) + (match pane.foreground_cwd {
        Some(dir) => seq![dir@],
        None => Seq::empty(),
    })
}

/// The directories of live panes, each pane's own before its foreground's.
pub open spec fn panes_dirs(panes: Seq<PaneDirs>) -> Seq<Seq<char>>
    decreases panes.len(),
{
    if panes.len() == 0 {
        Seq::empty()
    } else {
        panes_dirs(panes.drop_last()) + pane_dirs(panes.last())
    }
}

/// The directories of live panes.
pub fn live_pane_dirs(panes: &Vec<PaneDirs>) -> (dirs: Vec<String>)
    ensures
        texts(dirs@) == panes_dirs(panes@),
{
    let mut dirs: Vec<String> = Vec::new();
    let mut i: usize = 0;
    assert(panes@.take(0) =~= Seq::<PaneDirs>::empty());
    assert(texts(dirs@) =~= Seq::<Seq<char>>::empty());
    while i < panes.len()
        invariant
            i <= panes@.len(),
            texts(dirs@) == panes_dirs(panes@.take(i as int)),
        decreases panes@.len() - i,
    {
        let ghost before = texts(dirs@);
        if let Some(dir) = &panes[i].cwd {
            dirs.push(dir.as_str().to_owned());
        }
        if let Some(dir) = &panes[i].foreground_cwd {
            dirs.push(dir.as_str().to_owned());
        }
        assert(texts(dirs@) =~= before + pane_dirs(panes@[i as int]));
        assert(panes@.take(i + 1).drop_last() =~= panes@.take(i as int));
        i += 1;
    }
    assert(panes@.take(i as int) =~= panes@);
    dirs
}

/// The directories that the server's own workspaces stand in: the live ones
/// first, so that a workspace that is open right now outranks one that was
/// only ever saved.
pub fn workspace_dirs(live: Vec<String>, persisted: Vec<String>) -> (dirs: Vec<String>)
    ensures
        dirs@ == live@ + persisted@,
{
    let mut dirs = live;
    let mut rest = persisted;
    dirs.append(&mut rest);
    dirs
}

/// The answer to a lookup.
pub fn encode(request_id: String, places: Vec<Place>) -> (response: Response)
    ensures
        response matches Response::Success(answer) && answer.id == request_id && (
        answer.result matches ResponseResult::ServerLookupPlace { places: listed } && listed@.len()
            == places@.len() && forall|i: int|
            0 <= i < places@.len() ==> (#[trigger] listed@[i]).path@ == places@[i].path@
                && listed@[i].source == places@[i].source),
{
    let mut listed: Vec<PlaceInfo> = Vec::new();
    let mut i: usize = 0;
    while i < places.len()
        invariant
            i <= places@.len(),
            listed@.len() == i,
            forall|j: int|
                0 <= j < i ==> (#[trigger] listed@[j]).path@ == places@[j].path@
                    && listed@[j].source == places@[j].source,
        decreases places@.len() - i,
    {
        listed.push(
            PlaceInfo { path: places[i].path.as_str().to_owned(), source: places[i].source },
        );
        i += 1;
    }
    success(request_id, ResponseResult::ServerLookupPlace { places: listed })
}

/// A query is searched for without the white space around it, for eight places
/// unless fewer are asked for; a blank query and a limit of zero are refused.
pub proof fn law_what_a_lookup_asks_for(
    lead: Seq<char>,
    inner: Seq<char>,
    tail: Seq<char>,
    limit: u32,
)
    requires
        is_blank(lead),
        is_blank(tail),
        inner.len() > 0 ==> !is_white_space(inner[0]) && !is_white_space(inner.last()),
    ensures
        ({
            let query = lead + inner + tail;
            &&& inner.len() == 0 ==> lookup_params(query, None) is Err && lookup_params(
                query,
                Some(limit),
            ) is Err
            &&& inner.len() > 0 ==> lookup_params(query, None) == Ok::<(Seq<char>, nat), Seq<char>>(
                (inner, 8),
            )
            &&& inner.len() > 0 && limit == 0 ==> lookup_params(query, Some(limit)) is Err
            &&& inner.len() > 0 && 1 <= limit <= 8 ==> lookup_params(query, Some(limit)) == Ok::<
                (Seq<char>, nat),
                Seq<char>,
            >((inner, limit as nat))
            &&& inner.len() > 0 && limit > 8 ==> lookup_params(query, Some(limit)) == Ok::<
                (Seq<char>, nat),
                Seq<char>,
            >((inner, 8))
        }),
{
    law_what_is_around_is_trimmed(lead, inner, tail);
}

/// A lookup hears of each pane's own directory before its foreground's, and of
/// the panes in their order.
pub proof fn law_the_directories_of_panes_in_their_order(
    panes: Seq<PaneDirs>,
    own: String,
    front: String,
)
    ensures
        panes_dirs(Seq::empty()) == Seq::<Seq<char>>::empty(),
        panes_dirs(
            panes.push(PaneDirs { cwd: Some(own), foreground_cwd: Some(front) }),
        ) == panes_dirs(panes).push(own@).push(front@),
        panes_dirs(panes.push(PaneDirs { cwd: Some(own), foreground_cwd: None })) == panes_dirs(
            panes,
        ).push(own@),
        panes_dirs(panes.push(PaneDirs { cwd: None, foreground_cwd: Some(front) })) == panes_dirs(
            panes,
        ).push(front@),
        panes_dirs(panes.push(PaneDirs { cwd: None, foreground_cwd: None })) == panes_dirs(panes),
{
    let both = PaneDirs { cwd: Some(own), foreground_cwd: Some(front) };
    let one = PaneDirs { cwd: Some(own), foreground_cwd: None };
    let other = PaneDirs { cwd: None, foreground_cwd: Some(front) };
    let none = PaneDirs { cwd: None, foreground_cwd: None };
    assert(panes.push(both).drop_last() =~= panes);
    assert(panes.push(one).drop_last() =~= panes);
    assert(panes.push(other).drop_last() =~= panes);
    assert(panes.push(none).drop_last() =~= panes);
    assert(panes_dirs(panes.push(both)) =~= panes_dirs(panes).push(own@).push(front@));
    assert(panes_dirs(panes.push(one)) =~= panes_dirs(panes).push(own@));
    assert(panes_dirs(panes.push(other)) =~= panes_dirs(panes).push(front@));
    assert(panes_dirs(panes.push(none)) =~= panes_dirs(panes));
}

/// A lookup is given five seconds, as the app is for its panes, and two of them
/// run at once.
pub proof fn law_the_bounds_of_a_lookup()
    ensures
        LOOKUP_DEADLINE_MILLIS == 5 * 1_000,
        LIVE_DIRS_TIMEOUT_MILLIS == 5 * 1_000,
        CONCURRENT_LOOKUPS == 2,
        crate::places::MAX_PLACES == 8,
{
}

/// A lookup that asks for nothing, or for no answers, is refused as a wrong
/// parameter, and any other one is searched for.
pub proof fn law_which_lookups_are_refused(
    request_id: &str,
    params: ServerLookupPlaceParams,
    step: LookupStep,
)
    requires
        call_ensures(handle_lookup, (request_id, &params), step),
    ensures
        step is Refuse <==> trimmed(params.query@).len() == 0 || params.limit == Some(0u32),
        step matches LookupStep::Refuse(response) ==> (response matches Response::Error(failed)
            && failed.id@ == request_id@ && failed.error.code@ == "invalid_params"@),
        step matches LookupStep::Search(query, count) ==> query@ == trimmed(params.query@) && 1
            <= count <= 8,
{
}

/// Live directories go before saved ones, and places are answered in their
/// order, each with its source.
pub proof fn law_what_a_lookup_is_answered_with(
    live: Vec<String>,
    persisted: Vec<String>,
    dirs: Vec<String>,
    request_id: String,
    places: Vec<Place>,
    response: Response,
    i: int,
)
    requires
        call_ensures(workspace_dirs, (live, persisted), dirs),
        call_ensures(encode, (request_id, places), response),
    ensures
        dirs@.len() == live@.len() + persisted@.len(),
        0 <= i < live@.len() ==> dirs@[i] == live@[i],
        0 <= i < persisted@.len() ==> dirs@[live@.len() + i] == persisted@[i],
        response matches Response::Success(answer) && answer.id == request_id && (
        answer.result matches ResponseResult::ServerLookupPlace { places: listed } && listed@.len()
            == places@.len() && (0 <= i < places@.len() ==> listed@[i].path@ == places@[i].path@
            && listed@[i].source == places@[i].source)),
{
}

} // verus!
