//! The `pair` command: what its arguments ask for, the plan it derives from
//! the config, and the text it prints.

use crate::activation::{activation_report, exit_code_of, report_text, TokenActivation};
use crate::config::{with_setting, WebSocketApiConfig};
use crate::net::{socket_text, SocketAddress, SocketView};
use crate::pairing::{
    advertised_endpoint, bind_verdict, explanation_text, is_minted, local_listener,
    local_listener_address, mint_token, pairing_endpoint, pairing_url, qr_code_text, qr_outcome,
    qr_rendering, refuses_bind, rotate_token_in_config, BindVerdict, PairingPayload,
    PairingUnavailable,
};
use crate::server_name::{resolve_server_name, resolved_name};
use crate::text::{
    borrowed, declared, find_text, law_the_first_occurrence_is_found, quoted, same_text, view_of,
};
use vstd::prelude::*;

verus! {

/// What the arguments of the command ask for.
#[derive(Clone, Debug, PartialEq, Eq)]
pub enum PairRequest {
    /// Pair.
    Run,
    /// Print the help text and exit with this code, after naming an unknown
    /// option where there is one.
    Help { unknown: Option<String>, exit_code: i32 },
}

pub open spec fn asks_for_help(option: Seq<char>) -> bool {
    option == "help"@ || option == "--help"@ || option == "-h"@
}

/// Read the arguments: none pairs, a help option explains, and anything else
/// is an unknown option.
pub fn run_pair_command(args: &Vec<String>) -> (request: PairRequest)
    ensures
        if args@.len() == 0 {
            request is Run
        } else if asks_for_help(args@[0]@) {
            request matches PairRequest::Help { unknown, exit_code } && unknown is None
                && exit_code == 0
        } else {
            request matches PairRequest::Help { unknown, exit_code } && view_of(unknown) == Some(
                args@[0]@,
            ) && exit_code == 2
        },
{
    if args.len() == 0 {
        return PairRequest::Run;
    }
    let option = &args[0];
    if same_text(option, "help") || same_text(option, "--help") || same_text(option, "-h") {
        PairRequest::Help { unknown: None, exit_code: 0 }
    } else {
        PairRequest::Help { unknown: Some(option.clone()), exit_code: 2 }
    }
}

pub const PAIR_HELP: &'static str = "usage: herdr pair\n\nMint the websocket api bearer token and print the pairing payload\n(endpoint + token) as a QR code and as plaintext. Requires\n[websocket_api].bind to be configured. Re-running rotates the token\nand invalidates the previous one.\n\nWhen something else fronts the listener (a TLS terminating proxy,\nfor instance), set [websocket_api].advertised_endpoint to the url\nclients should dial, e.g. \"wss://a-host.example.net\", or with a\npath when one proxy fronts several servers, e.g.\n\"wss://a-host.example.net/herdr-ws\"; the payload names that instead\nof the bind address. Unset pairs against bind.\n\nThe scannable URL also carries the server's display name so clients\ncan label the server before first connect: [websocket_api].name,\nor the machine's hostname when unset. Display only, never identity.\n";

/// The help text of the command.
pub fn pair_help() -> (text: &'static str)
    ensures
        text@ == PAIR_HELP@,
{
    PAIR_HELP
}

/// What pairing works with, resolved from the config before anything is
/// minted or written.
#[derive(Clone, Debug, PartialEq, Eq)]
pub struct PairingPlan {
    /// The url that the payload names.
    pub endpoint: String,
    /// Where the listener is dialled to prove the token.
    pub local_listener: SocketAddress,
    /// The display name that the payload carries.
    pub name: String,
    /// The token that was stored before, where there was one.
    pub previous_token: Option<String>,
}

/// The endpoint of a payload: the advertised one where one is declared, else
/// the bind address itself.
pub open spec fn payload_endpoint(
    advertised: Option<Seq<char>>,
    bind: SocketView,
) -> Option<Seq<char>> {
    match advertised {
        None => Some("ws://"@ + socket_text(bind)),
        Some(declaration) => match crate::endpoint::normalized(declaration) {
            Ok(endpoint) => Some(endpoint),
            Err(_) => None,
        },
    }
}

/// A stored token counts as a previous one unless it is empty.
pub open spec fn previous_token(stored: Option<Seq<char>>) -> Option<Seq<char>> {
    match stored {
        Some(token) => if token.len() == 0 {
            None
        } else {
            Some(token)
        },
        None => None,
    }
}

/// Why there is nothing to plan, where that is so: the advertised endpoint is
/// judged first, because it decides how much the bind address has to carry.
pub open spec fn plan_refused(config: WebSocketApiConfig) -> bool {
    let advertised = declared(view_of(config.advertised_endpoint));
    (advertised is Some && crate::endpoint::normalized(advertised->0) is Err) || !(bind_verdict(
        view_of(config.bind),
        advertised is Some,
    ) is Usable)
}

/// What planning comes to: a plan, or the reason that there is none.
pub open spec fn plans(
    config: WebSocketApiConfig,
    hostname: Option<Seq<char>>,
    plan: Result<PairingPlan, PairingUnavailable>,
) -> bool {
    let advertised = declared(view_of(config.advertised_endpoint));
    match plan {
        Err(unavailable) => plan_refused(config) && if advertised is Some
            && crate::endpoint::normalized(advertised->0) is Err {
            unavailable matches PairingUnavailable::InvalidAdvertisedEndpoint {
                advertised: value,
                reason,
            } && Some(value@) == advertised && Err::<Seq<char>, Seq<char>>(reason@)
                == crate::endpoint::normalized(value@)
        } else {
            refuses_bind(view_of(config.bind), advertised is Some, unavailable)
        },
        Ok(plan) => {
            &&& !plan_refused(config)
            &&& bind_verdict(view_of(config.bind), advertised is Some) matches BindVerdict::Usable(
                bind,
            )
            &&& payload_endpoint(advertised, bind) == Some(plan.endpoint@)
            &&& plan.local_listener@ == local_listener(bind)
            &&& plan.name@ == resolved_name(view_of(config.name), hostname)
            &&& view_of(plan.previous_token) == previous_token(view_of(config.token))
        },
    }
}

/// Resolve what pairing works with. No plan comes out of a config whose
/// payload could not work.
pub fn plan_pairing(config: &WebSocketApiConfig, hostname: &Option<String>) -> (plan: Result<
    PairingPlan,
    PairingUnavailable,
>)
    ensures
        plans(*config, view_of(*hostname), plan),
{
    let advertised = match advertised_endpoint(borrowed(&config.advertised_endpoint)) {
        Ok(advertised) => advertised,
        Err(unavailable) => {
            return Err(unavailable);
        },
    };
    let address = match pairing_endpoint(borrowed(&config.bind), advertised.is_some()) {
        Ok(address) => address,
        Err(unavailable) => {
            return Err(unavailable);
        },
    };
    let endpoint = match advertised {
        Some(endpoint) => endpoint,
        None => {
            let mut endpoint = "ws://".to_string();
            endpoint.push_str(&address.to_text());
            endpoint
        },
    };
    let previous_token = match &config.token {
        Some(token) => if token.as_str().is_empty() {
            None
        } else {
            Some(token.clone())
        },
        None => None,
    };
    Ok(
        PairingPlan {
            endpoint,
            local_listener: local_listener_address(address),
            name: resolve_server_name(config, hostname),
            previous_token,
        },
    )
}

// ---- The config file ----------------------------------------------------------------------

/// What is told of a config file that does not read as one. The server falls
/// back to its defaults on such a file, so a payload printed from it would be
/// dead.
pub open spec fn unreadable_config_text(config: Seq<char>, error: Seq<char>) -> Seq<char> {
    "config file at "@ + config + " could not be parsed as herdr config: "@ + error
        + UNREADABLE_CONFIG_TAIL@
}

pub const UNREADABLE_CONFIG_TAIL: &'static str = "\nFix it before pairing; the server ignores an unparseable config and starts without the websocket listener.\n";

pub fn unreadable_config(config_path: &str, error: &str) -> (text: String)
    ensures
        text@ == unreadable_config_text(config_path@, error@),
{
    let mut text = "config file at ".to_string();
    text.push_str(config_path);
    text.push_str(" could not be parsed as herdr config: ");
    text.push_str(error);
    text.push_str(UNREADABLE_CONFIG_TAIL);
    text
}

/// Why a text is no TOML document, where it is none.
pub uninterp spec fn toml_fault(document: Seq<char>) -> Option<Seq<char>>;

/// `toml`'s `Table::from_str`, of which only the text of the error is kept.
/// Which texts it faults, and in which words, is named, not described.
#[verifier::external_body]
fn fault_in_toml(document: &str) -> (fault: Option<String>)
    ensures
        view_of(fault) == toml_fault(document@),
{
    document.parse::<toml::Table>().err().map(|error| error.to_string())
}

/// What is told of a config file that would not survive the token.
pub open spec fn unstorable_text(config: Seq<char>, error: Seq<char>) -> Seq<char> {
    "storing the token would make "@ + config + " invalid TOML: "@ + error
        + "; leaving config unchanged\n"@
}

/// The content to write, or why nothing is written, given what parsing the
/// content was faulted for.
pub fn storable(updated: String, fault: Option<String>, config_path: &str) -> (stored: Result<
    String,
    String,
>)
    ensures
        match fault {
            None => stored == Ok::<String, String>(updated),
            Some(error) => stored matches Err(text) && text@ == unstorable_text(
                config_path@,
                error@,
            ),
        },
{
    match fault {
        None => Ok(updated),
        Some(error) => {
            let mut text = "storing the token would make ".to_string();
            text.push_str(config_path);
            text.push_str(" invalid TOML: ");
            text.push_str(&error);
            text.push_str("; leaving config unchanged\n");
            Err(text)
        },
    }
}

/// The config file with the token stored in it. A file that would stop being
/// TOML is left as it is.
pub fn store_token(content: &str, token: &str, config_path: &str) -> (stored: Result<
    String,
    String,
>)
    ensures
        ({
            let updated = with_token(content@, token@);
            match toml_fault(updated) {
                None => stored matches Ok(text) && text@ == updated,
                Some(error) => stored matches Err(text) && text@ == unstorable_text(
                    config_path@,
                    error,
                ),
            }
        }),
{
    let updated = rotate_token_in_config(content, token);
    let fault = fault_in_toml(&updated);
    storable(updated, fault, config_path)
}

/// What pairing prints of a payload.
#[derive(Clone, Debug, PartialEq, Eq)]
pub struct PairingOutput {
    pub stdout: String,
    pub stderr: String,
}

/// A payload in plain text: its three fields and the url.
pub open spec fn plain_text(endpoint: Seq<char>, name: Seq<char>, token: Seq<char>) -> Seq<char> {
    "  endpoint  "@ + endpoint + "\n  name      "@ + name + "\n  token     "@ + token + "\n\n  "@
        + pairing_url(endpoint, token, name) + "\n\n"@
}

pub open spec fn plain_payload(payload: PairingPayload) -> Seq<char> {
    plain_text(payload.endpoint@, payload.name@, payload.token@)
}

/// A code under the line that asks to scan it.
pub open spec fn scan_text(code: Seq<char>) -> Seq<char> {
    "Scan with the herdr mobile client:\n\n"@ + code + "\n"@
}

/// Print a payload: as a qr code where there is one, with a warning in its
/// place where there is none, and as plain text in any case.
pub fn pairing_output(payload: &PairingPayload, qr: &Result<String, String>) -> (output:
    PairingOutput)
    ensures
        match *qr {
            Ok(code) => output.stdout@ == scan_text(code@) + plain_payload(*payload)
                && output.stderr@ == Seq::<char>::empty(),
            Err(error) => output.stdout@ == plain_payload(*payload) && output.stderr@
                == "warning: "@ + error@ + "; use the plaintext payload below\n"@,
        },
{
    let mut stdout = String::new();
    let mut stderr = String::new();
    match qr {
        Ok(code) => {
            stdout.push_str("Scan with the herdr mobile client:\n\n");
            stdout.push_str(code);
            stdout.push_str("\n");
        },
        Err(error) => {
            stderr.push_str("warning: ");
            stderr.push_str(error);
            stderr.push_str("; use the plaintext payload below\n");
        },
    }
    let ghost head = stdout@;
    stdout.push_str("  endpoint  ");
    stdout.push_str(&payload.endpoint);
    stdout.push_str("\n  name      ");
    stdout.push_str(&payload.name);
    stdout.push_str("\n  token     ");
    stdout.push_str(&payload.token);
    stdout.push_str("\n\n  ");
    stdout.push_str(&payload.url());
    stdout.push_str("\n\n");
    assert(stdout@ =~= head + plain_payload(*payload));
    proof {
        match qr {
            Ok(code) => {
                assert(head =~= "Scan with the herdr mobile client:\n\n"@ + code@ + "\n"@);
            },
            Err(error) => {
                assert(head =~= Seq::<char>::empty());
                assert(stdout@ =~= plain_payload(*payload));
                assert(stderr@ =~= "warning: "@ + error@ + "; use the plaintext payload below\n"@);
            },
        }
    }
    PairingOutput { stdout, stderr }
}

// ---- The whole command ----------------------------------------------------------------------

/// Pairing that is ready to be written down.
#[derive(Clone, Debug, PartialEq, Eq)]
pub struct PreparedPairing {
    pub plan: PairingPlan,
    /// The fresh token.
    pub token: String,
    /// The content to write to the config file.
    pub updated: String,
}

/// Why nothing is written and no payload is printed.
#[derive(Clone, Debug, PartialEq, Eq)]
pub enum PairingRefusal {
    /// Explain this, and exit with a failure.
    Explained(String),
    /// Fail with this error.
    Broken(String),
}

/// What follows a mint: without a token the command fails; a config file that
/// would not survive the token is explained; and otherwise pairing is ready,
/// with that token stored.
pub open spec fn prepares_with(
    content: Seq<char>,
    plan: PairingPlan,
    minted: Result<String, String>,
    config_path: Seq<char>,
    prepared: Result<PreparedPairing, PairingRefusal>,
) -> bool {
    match minted {
        Err(error) => prepared == Err::<PreparedPairing, PairingRefusal>(
            PairingRefusal::Broken(error),
        ),
        Ok(token) => match toml_fault(with_token(content, token@)) {
            None => {
                &&& prepared matches Ok(ready)
                &&& ready.plan == plan
                &&& ready.token == token
                &&& ready.updated@ == with_token(content, token@)
            },
            Some(error) => prepared matches Err(PairingRefusal::Explained(text)) && text@
                == unstorable_text(config_path, error),
        },
    }
}

/// What comes of a config that reads: where it cannot be planned for, that is
/// explained, and nothing is minted; otherwise it is what follows a mint.
pub open spec fn prepares(
    content: Seq<char>,
    config: WebSocketApiConfig,
    hostname: Option<Seq<char>>,
    config_path: Seq<char>,
    plan: Result<PairingPlan, PairingUnavailable>,
    minted: Result<String, String>,
    prepared: Result<PreparedPairing, PairingRefusal>,
) -> bool {
    &&& plans(config, hostname, plan)
    &&& match plan {
        Err(unavailable) => prepared matches Err(PairingRefusal::Explained(text)) && text@
            == explanation_text(unavailable, config_path),
        Ok(plan) => is_minted(minted) && prepares_with(
            content,
            plan,
            minted,
            config_path,
            prepared,
        ),
    }
}

/// A config file with a token stored in it.
pub open spec fn with_token(content: Seq<char>, token: Seq<char>) -> Seq<char> {
    with_setting(content, "websocket_api"@, "token"@, quoted(token))
}

/// Go on with what a mint came to: store the token in the content.
pub fn prepared_with(
    content: &str,
    plan: PairingPlan,
    minted: Result<String, String>,
    config_path: &str,
) -> (prepared: Result<PreparedPairing, PairingRefusal>)
    ensures
        prepares_with(content@, plan, minted, config_path@, prepared),
{
    match minted {
        Err(error) => Err(PairingRefusal::Broken(error)),
        Ok(token) => match store_token(content, &token, config_path) {
            Err(text) => Err(PairingRefusal::Explained(text)),
            Ok(updated) => Ok(PreparedPairing { plan, token, updated }),
        },
    }
}

/// Everything that pairing does before it writes: read the config, plan, mint
/// a token, and store it in the content. Whatever is amiss, nothing is
/// written and there is no payload.
pub fn prepare_pairing(
    content: &str,
    config: Result<WebSocketApiConfig, String>,
    hostname: &Option<String>,
    config_path: &str,
) -> (prepared: Result<PreparedPairing, PairingRefusal>)
    ensures
        match config {
            Err(error) => prepared matches Err(PairingRefusal::Explained(text)) && text@
                == unreadable_config_text(config_path@, error@),
            Ok(config) => exists|
                plan: Result<PairingPlan, PairingUnavailable>,
                minted: Result<String, String>,
            | #[trigger]
                prepares(
                    content@,
                    config,
                    view_of(*hostname),
                    config_path@,
                    plan,
                    minted,
                    prepared,
                ),
        },
{
    let config = match config {
        Err(error) => {
            return Err(PairingRefusal::Explained(unreadable_config(config_path, &error)));
        },
        Ok(config) => config,
    };
    let ghost section = config;
    let plan = match plan_pairing(&config, hostname) {
        Err(unavailable) => {
            let prepared = Err(PairingRefusal::Explained(unavailable.explanation(config_path)));
            assert(prepares(
                content@,
                section,
                view_of(*hostname),
                config_path@,
                Err(unavailable),
                arbitrary(),
                prepared,
            ));
            return prepared;
        },
        Ok(plan) => plan,
    };
    let ghost planned = Ok::<PairingPlan, PairingUnavailable>(plan);
    let minted = mint_token();
    let ghost came = minted;
    let prepared = prepared_with(content, plan, minted, config_path);
    assert(prepares(
        content@,
        section,
        view_of(*hostname),
        config_path@,
        planned,
        came,
        prepared,
    ));
    prepared
}

/// What the command prints, and its exit code.
#[derive(Clone, Debug, PartialEq, Eq)]
pub struct PairingReport {
    pub stdout: String,
    pub stderr: String,
    pub exit_code: i32,
}

/// The report on a pairing that was written down: its payload, with the code
/// where there is one, and what became of its token.
pub fn report_pairing(
    prepared: PreparedPairing,
    activation: &TokenActivation,
    config_path: &str,
) -> (report: PairingReport)
    ensures
        ({
            let url = pairing_url(
                prepared.plan.endpoint@,
                prepared.token@,
                prepared.plan.name@,
            );
            let plain = plain_text(prepared.plan.endpoint@, prepared.plan.name@, prepared.token@);
            let told = report_text(
                *activation,
                prepared.plan.previous_token is Some,
                socket_text(prepared.plan.local_listener@),
                config_path@,
            ) + "\n"@;
            match qr_outcome(qr_rendering(url)) {
                Ok(code) => report.stdout@ == scan_text(code) + plain + told && report.stderr@
                    == Seq::<char>::empty(),
                Err(error) => report.stdout@ == plain + told && report.stderr@ == "warning: "@
                    + error + "; use the plaintext payload below\n"@,
            }
        }),
        report.exit_code == exit_code_of(*activation),
{
    let PreparedPairing { plan, token, updated: _ } = prepared;
    let payload = PairingPayload { endpoint: plan.endpoint, token, name: plan.name };
    let code = qr_code_text(&payload.url());
    let PairingOutput { mut stdout, stderr } = pairing_output(&payload, &code);
    let (told, exit_code) = activation_report(
        activation,
        plan.previous_token.is_some(),
        &plan.local_listener,
        config_path,
    );
    let ghost head = stdout@;
    stdout.push_str(&told);
    stdout.push_str("\n");
    assert(stdout@ =~= head + (told@ + "\n"@));
    PairingReport { stdout, stderr, exit_code }
}

/// Without arguments the command pairs; the three spellings of help explain and
/// succeed; anything else is named, explained and fails with code two.
pub proof fn law_what_the_arguments_ask_for(args: Vec<String>, request: PairRequest)
    requires
        call_ensures(run_pair_command, (&args,), request),
    ensures
        args@.len() == 0 <==> request is Run,
        args@.len() > 0 && (args@[0]@ == "help"@ || args@[0]@ == "--help"@ || args@[0]@ == "-h"@)
            ==> request == (PairRequest::Help { unknown: None, exit_code: 0 }),
        args@.len() > 0 && args@[0]@ != "help"@ && args@[0]@ != "--help"@ && args@[0]@ != "-h"@ ==> (
        request matches PairRequest::Help { unknown: Some(option), exit_code } && option@
            == args@[0]@ && exit_code == 2),
{
}

/// A payload names the declared endpoint in its canonical form, and without one
/// the address of the listener itself.
pub proof fn law_which_endpoint_a_payload_names(
    declaration: Seq<char>,
    endpoint: Seq<char>,
    bind: SocketView,
)
    ensures
        payload_endpoint(None, bind) == Some("ws://"@ + socket_text(bind)),
        crate::endpoint::normalized(declaration) == Ok::<Seq<char>, Seq<char>>(endpoint)
            ==> payload_endpoint(Some(declaration), bind) == Some(endpoint),
        crate::endpoint::normalized(declaration) is Err ==> payload_endpoint(
            Some(declaration),
            bind,
        ) is None,
{
}

/// An empty stored token is no previous one, and any other is.
pub proof fn law_which_stored_token_is_a_previous_one(token: Seq<char>)
    ensures
        previous_token(None) is None,
        token.len() == 0 ==> previous_token(Some(token)) is None,
        token.len() > 0 ==> previous_token(Some(token)) == Some(token),
{
}

/// Pairing is planned for every usable listener whose advertised endpoint, where
/// it declares one, is a url; a plan dials the listener locally, whatever it
/// advertises.
pub proof fn law_what_pairing_is_planned_for(
    config: WebSocketApiConfig,
    hostname: Option<Seq<char>>,
    plan: Result<PairingPlan, PairingUnavailable>,
    bind: SocketView,
)
    requires
        plans(config, hostname, plan),
        declared(view_of(config.advertised_endpoint)) is None,
    ensures
        bind_verdict(view_of(config.bind), false) == BindVerdict::Usable(bind) ==> (plan matches Ok(
            plan,
        ) && plan.endpoint@ == "ws://"@ + socket_text(bind) && plan.local_listener@
            == local_listener(bind)),
        plan is Ok <==> bind_verdict(view_of(config.bind), false) is Usable,
        bind_verdict(view_of(config.bind), false) is NotConfigured ==> plan == Err::<
            PairingPlan,
            PairingUnavailable,
        >(PairingUnavailable::NotConfigured),
{
}

/// A declared endpoint that is no url refuses a plan before the listener is
/// looked at, and one that is a url lets a listener on every address be used.
pub proof fn law_how_an_advertised_endpoint_is_planned_for(
    config: WebSocketApiConfig,
    hostname: Option<Seq<char>>,
    plan: Result<PairingPlan, PairingUnavailable>,
    declaration: Seq<char>,
    bind: SocketView,
)
    requires
        plans(config, hostname, plan),
        declared(view_of(config.advertised_endpoint)) == Some(declaration),
    ensures
        crate::endpoint::normalized(declaration) is Err ==> (plan matches Err(unavailable)
            && unavailable is InvalidAdvertisedEndpoint),
        crate::endpoint::normalized(declaration) is Ok && bind_verdict(view_of(config.bind), true)
            == BindVerdict::Usable(bind) ==> (plan matches Ok(plan) && Ok::<Seq<char>, Seq<char>>(
            plan.endpoint@,
        ) == crate::endpoint::normalized(declaration) && plan.local_listener@ == local_listener(
            bind,
        )),
{
}

/// Without a token nothing is prepared; a config that would stop being TOML is
/// left as it is; and what is prepared carries the token it stores.
pub proof fn law_what_is_prepared_carries_its_token(
    content: Seq<char>,
    plan: PairingPlan,
    minted: Result<String, String>,
    config_path: Seq<char>,
    prepared: Result<PreparedPairing, PairingRefusal>,
)
    requires
        prepares_with(content, plan, minted, config_path, prepared),
    ensures
        minted matches Err(error) ==> prepared == Err::<PreparedPairing, PairingRefusal>(
            PairingRefusal::Broken(error),
        ),
        prepared matches Ok(ready) ==> minted == Ok::<String, String>(ready.token) && ready.plan
            == plan && toml_fault(ready.updated@) is None && ready.updated@ == with_token(
            content,
            ready.token@,
        ),
        minted matches Ok(token) ==> (toml_fault(with_token(content, token@)) is None
            ==> prepared is Ok),
        minted matches Ok(token) ==> (toml_fault(with_token(content, token@)) is Some
            ==> (prepared matches Err(refusal) && refusal is Explained)),
{
}

/// A payload in plain text holds the endpoint, the name and the token as they
/// are, and the url that a client scans.
pub proof fn law_what_a_plain_payload_holds(
    endpoint: Seq<char>,
    name: Seq<char>,
    token: Seq<char>,
)
    ensures
        find_text(plain_text(endpoint, name, token), "  endpoint  "@ + endpoint + "\n"@) is Some,
        find_text(plain_text(endpoint, name, token), "  name      "@ + name + "\n"@) is Some,
        find_text(plain_text(endpoint, name, token), "  token     "@ + token + "\n"@) is Some,
        find_text(
            plain_text(endpoint, name, token),
            "  "@ + pairing_url(endpoint, token, name) + "\n"@,
        ) is Some,
{
    reveal_strlit("  endpoint  ");
    reveal_strlit("\n  name      ");
    reveal_strlit("  name      ");
    reveal_strlit("\n  token     ");
    reveal_strlit("  token     ");
    reveal_strlit("\n\n  ");
    reveal_strlit("  ");
    reveal_strlit("\n\n");
    reveal_strlit("\n");
    let url = pairing_url(endpoint, token, name);
    let text = plain_text(endpoint, name, token);
    let one = "  endpoint  "@ + endpoint + "\n"@;
    let two = "  name      "@ + name + "\n"@;
    let three = "  token     "@ + token + "\n"@;
    let four = "  "@ + url + "\n"@;
    assert("\n  name      "@ =~= "\n"@ + "  name      "@);
    assert("\n  token     "@ =~= "\n"@ + "  token     "@);
    assert("\n\n  "@ =~= "\n"@ + "\n"@ + "  "@);
    assert("\n\n"@ =~= "\n"@ + "\n"@);
    let at_two = one.len() as int;
    let at_three = at_two + two.len();
    let at_four = at_three + three.len() + 1;
    assert(text =~= one + two + three + "\n"@ + four + "\n"@);
    assert(text.subrange(0, one.len() as int) =~= one);
    law_the_first_occurrence_is_found(text, one, 0);
    assert(text.subrange(at_two, at_two + two.len()) =~= two);
    law_the_first_occurrence_is_found(text, two, at_two);
    assert(text.subrange(at_three, at_three + three.len()) =~= three);
    law_the_first_occurrence_is_found(text, three, at_three);
    assert(text.subrange(at_four, at_four + four.len()) =~= four);
    law_the_first_occurrence_is_found(text, four, at_four);
}

} // verus!
