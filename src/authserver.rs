use vstd::prelude::*;
use vstd::string::StringExecFns;
use crate::appconfig::AppConfig;
use crate::router::Router;

verus! {

/// Query of the master server's request to admit a player.
pub struct ConnectRequest {
    /// Player ID
    pub id: u64,
    /// Token that the player will present in its connect handshake
    pub auth_token: String,
    /// Token that proves the request comes from the master server
    pub server_auth_token: String,
    pub username: String,
    pub password: Option<String>,
}

/// Query that registers this relay with the master server.
pub struct AddRequest {
    pub port: u16,
    pub auth_port: u16,
    pub name: String,
    pub description: String,
    pub map: String,
    pub playlist: String,
    pub max_players: u64,
    pub password: String,
}

/// Error that the master server reports.
pub struct RequestError {
    pub error_id: String,
    pub msg: String,
}

/// The master server's answer to a registration.
pub struct AddResponse {
    pub success: bool,
    pub id: Option<String>,
    pub server_auth_token: Option<String>,
    pub error: Option<RequestError>,
}

/// Periodic report of the player count to the master server.
pub struct Heartbeat {
    pub player_count: u64,
    pub id: String,
}

/// An HTTP reply of the auth surface. Every reply also carries the header
/// named by `forwarded_by_header` with the value `forwarded_by_value`.
pub struct HttpReply {
    pub status: u16,
    /// Whether the body is JSON
    pub json: bool,
    pub body: String,
}

/// Body of a reply to the master server's probe.
pub open spec fn verify_body() -> Seq<char> {
    "I am a northstar server!"@
}

pub open spec fn success_body() -> Seq<char> {
    "{\"success\":true}"@
}

pub open spec fn failure_body() -> Seq<char> {
    "{\"success\":false}"@
}

pub fn forwarded_by_header() -> (r: String)
    ensures
        r@ == "X-Forwarded-By"@,
{
    String::from_str("X-Forwarded-By")
}

pub fn forwarded_by_value() -> (r: String)
    ensures
        r@ == "Titanfront"@,
{
    String::from_str("Titanfront")
}

/// Reply to `GET /verify`.
pub fn verify() -> (r: HttpReply)
    ensures
        r.status == 200,
        !r.json,
        r.body@ == verify_body(),
{
    HttpReply { status: 200, json: false, body: String::from_str("I am a northstar server!") }
}

/// Whether the body that `GET /verify` returned is this relay's own: anything
/// else means that another program holds the auth port.
pub fn is_own_verify_body(body: &str) -> (r: bool)
    ensures
        r == (body@ == verify_body()),
{
    let own = String::from_str("I am a northstar server!");
    let got = String::from_str(body);
    got == own
}

fn json_reply(status: u16, ok: bool) -> (r: HttpReply)
    ensures
        r.status == status,
        r.json,
        r.body@ == if ok { success_body() } else { failure_body() },
{
    let body = if ok {
        String::from_str("{\"success\":true}")
    } else {
        String::from_str("{\"success\":false}")
    };
    HttpReply { status, json: true, body }
}

/// Reply to `POST /authenticate_incoming_player`: 403 when the request does
/// not carry the server-auth token that registration established; else the
/// player's token is recorded, with 200, or refused for want of a free
/// non-admin socket, with 503.
pub fn auth_incoming_player(router: &mut Router, server_auth: &String, req: ConnectRequest, conf: &AppConfig) -> (r: HttpReply)
    requires
        old(router).wf(),
    ensures
        final(router).wf(),
        r.json,
        server_auth@ != req.server_auth_token@ ==> r.status == 403 && r.body@ == failure_body()
            && final(router).token_map() == old(router).token_map(),
        server_auth@ == req.server_auth_token@ && old(router).free_sockets().len() > conf.admins@.len()
            ==> r.status == 200 && r.body@ == success_body() && final(router).token_map()
            == old(router).token_map().insert(vstd::utf8::encode_utf8(req.auth_token@), req.id),
        server_auth@ == req.server_auth_token@ && old(router).free_sockets().len() <= conf.admins@.len()
            ==> r.status == 503 && r.body@ == failure_body() && final(router).token_map() == old(router).token_map(),
        final(router).tables() == old(router).tables(),
        final(router).player_set() == old(router).player_set(),
        final(router).slot_count() == old(router).slot_count(),
        final(router).target_index() == old(router).target_index(),
{
    if *server_auth != req.server_auth_token {
        return json_reply(403, false);
    }
    match router.add_token(req.auth_token, req.id, conf) {
        Ok(()) => json_reply(200, true),
        Err(()) => json_reply(503, false),
    }
}

/// The registration query that announces this relay to the master server.
pub fn add_request(conf: &AppConfig) -> (r: AddRequest)
    ensures
        r.port == conf.udp_address.port,
        r.auth_port == conf.auth_address.port,
        r.name@ == conf.name@,
        r.description@ == conf.description@,
        r.map@ == "????"@,
        r.playlist@ == "????"@,
        r.max_players == conf.player_count,
        r.password@ == conf.password@,
{
    AddRequest {
        port: conf.udp_address.port,
        auth_port: conf.auth_address.port,
        name: conf.name.clone(),
        description: conf.description.clone(),
        map: String::from_str("????"),
        playlist: String::from_str("????"),
        max_players: conf.player_count as u64,
        password: conf.password.clone(),
    }
}

/// The heartbeat that reports the router's player count under `server_id`.
pub fn heartbeat(router: &Router, server_id: &String) -> (r: Heartbeat)
    requires
        router.wf(),
    ensures
        r.player_count == router.ip_map().len(),
        r.id@ == server_id@,
{
    Heartbeat { player_count: router.get_player_count(), id: server_id.clone() }
}

/// URL of the master server's registration endpoint.
pub fn add_server_url(conf: &AppConfig) -> (r: String)
    ensures
        r@ == conf.auth_server@ + "/server/add_server"@,
{
    let mut u = conf.auth_server.clone();
    u.append("/server/add_server");
    u
}

/// URL of the master server's heartbeat endpoint.
pub fn heartbeat_url(conf: &AppConfig) -> (r: String)
    ensures
        r@ == conf.auth_server@ + "/server/heartbeat"@,
{
    let mut u = conf.auth_server.clone();
    u.append("/server/heartbeat");
    u
}

/// User agent under which this relay talks to the master server.
pub fn user_agent(conf: &AppConfig) -> (r: String)
    ensures
        r@ == "R2Northstar/"@ + conf.version@,
{
    let mut u = String::from_str("R2Northstar/");
    u.append(conf.version.as_str());
    u
}

/// The identity that registration established with the master server.
pub struct Registration {
    pub server_auth: String,
    pub server_id: String,
}

/// Why a registration did not establish an identity.
#[derive(Clone, Copy, Debug, PartialEq, Eq, Structural)]
pub enum RegistrationError {
    /// The master server refused the registration.
    Refused,
    /// The answer carried no server-auth token.
    NoAuthToken,
    /// The answer carried no server ID.
    NoServerId,
}

/// Reads the master server's answer to a registration.
pub fn registration_outcome(resp: AddResponse) -> (r: Result<Registration, RegistrationError>)
    ensures
        !resp.success ==> r.is_err() && r->Err_0 == RegistrationError::Refused,
        resp.success && resp.server_auth_token.is_none() ==> r.is_err() && r->Err_0 == RegistrationError::NoAuthToken,
        resp.success && resp.server_auth_token.is_some() && resp.id.is_none() ==> r.is_err() && r->Err_0
            == RegistrationError::NoServerId,
        resp.success && resp.server_auth_token.is_some() && resp.id.is_some() ==> r.is_ok()
            && r->Ok_0.server_auth@ == resp.server_auth_token->0@ && r->Ok_0.server_id@ == resp.id->0@,
{
    if !resp.success {
        return Err(RegistrationError::Refused);
    }
    match resp.server_auth_token {
        None => Err(RegistrationError::NoAuthToken),
        Some(server_auth) => match resp.id {
            None => Err(RegistrationError::NoServerId),
            Some(server_id) => Ok(Registration { server_auth, server_id }),
        },
    }
}

} // verus!
