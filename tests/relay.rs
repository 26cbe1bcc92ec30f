use titanfront::appconfig::AppConfig;
use titanfront::authserver::{auth_incoming_player, verify, ConnectRequest};
use titanfront::codec::{decrypt, encrypt};
use titanfront::endpoint::Endpoint;
use titanfront::handler::handle_external;
use titanfront::router::{Binding, ConnStat, RelayAction, Router};

const KEY: [u8; 16] = [7, 1, 4, 9, 2, 8, 5, 3, 6, 0, 11, 13, 12, 15, 14, 10];
const MAGIC: [u8; 13] = [0xFF, 0xFF, 0xFF, 0xFF, 0x48, 0x63, 0x6F, 0x6E, 0x6E, 0x65, 0x63, 0x74, 0x00];
const TOKEN: &str = "abcdef0123456789abcdef012345678";

fn config(player_count: usize, admins: Vec<u64>, auth_enabled: bool) -> AppConfig {
    AppConfig {
        key: KEY.to_vec(),
        udp_address: Endpoint::v4(0, 0, 0, 0, 37015),
        auth_address: Endpoint::v4(0, 0, 0, 0, 8081),
        relay_address: "0.0.0.0:0".to_string(),
        player_count,
        receive_buf_size: 2048,
        admins,
        target_servers: vec![backend()],
        join_target: 0,
        auth_enabled,
        auth_server: "https://northstar.tf".to_string(),
        name: "Titanfront server".to_string(),
        description: "Titanfront server".to_string(),
        password: String::new(),
        version: String::new(),
        modinfo: String::new(),
    }
}

fn backend() -> Endpoint {
    Endpoint::v4(10, 0, 0, 2, 37015)
}

fn client() -> Endpoint {
    Endpoint::v4(203, 0, 113, 9, 5000)
}

fn handshake(id: u64, token: &str) -> Vec<u8> {
    let mut p = MAGIC.to_vec();
    p.extend_from_slice(&id.to_le_bytes());
    p.extend_from_slice(&[0u8; 8]);
    p.extend_from_slice(b"alice\0");
    p.extend_from_slice(token.as_bytes());
    encrypt(&p, &KEY)
}

fn connect_request(id: u64, token: &str, server_auth: &str) -> ConnectRequest {
    ConnectRequest {
        id,
        auth_token: token.to_string(),
        server_auth_token: server_auth.to_string(),
        username: "alice".to_string(),
        password: None,
    }
}

/// A router with one relay socket and admin 42, after the admin's first
/// handshake.
fn after_admin_join(now: u64) -> (Router, AppConfig, Vec<u8>) {
    let conf = config(0, vec![42], true);
    let mut router = Router::new(&[0], 0);
    let packet = handshake(42, "");
    let act = router.relay_external(&packet, client(), &conf, now);
    assert_eq!(act, RelayAction::Forward { sock: 0, target: backend() });
    (router, conf, packet)
}

#[test]
fn admin_fast_path() {
    let (router, _, _) = after_admin_join(1000);
    assert_eq!(
        router.binding_of(&client()),
        Some(Binding { status: ConnStat::Connecting, sock: 0, target: backend() })
    );
    assert_eq!(router.available_count(), 0);
    assert_eq!(router.get_player_count(), 1);
    assert_eq!(router.relay_internal(0), Some(client()));
}

#[test]
fn token_handshake() {
    let (mut router, conf, _) = after_admin_join(1000);
    let reply = auth_incoming_player(&mut router, &String::new(), connect_request(42, TOKEN, ""), &conf);
    // the admin holds the only socket, so no token is accepted for the moment
    assert_eq!(reply.status, 503);
    let mut router = Router::new(&[0, 1], 0);
    let conf = config(1, vec![42], true);
    let reply = auth_incoming_player(&mut router, &String::new(), connect_request(42, TOKEN, ""), &conf);
    assert_eq!(reply.status, 200);
    assert_eq!(reply.body, "{\"success\":true}");
    assert_eq!(router.token_user(TOKEN), Some(42));
    let first = handshake(42, "");
    assert_eq!(router.relay_external(&first, client(), &conf, 1000), RelayAction::Forward { sock: 1, target: backend() });
    let second = handshake(42, TOKEN);
    assert_eq!(router.relay_external(&second, client(), &conf, 1100), RelayAction::Forward { sock: 1, target: backend() });
    assert_eq!(router.binding_of(&client()).unwrap().status, ConnStat::Authenticated);
    // authenticated traffic is forwarded as it is
    let data = vec![1u8, 2, 3];
    assert_eq!(router.relay_external(&data, client(), &conf, 1200), RelayAction::Forward { sock: 1, target: backend() });
}

fn authenticated_router() -> (Router, AppConfig) {
    let mut router = Router::new(&[0, 1], 0);
    let conf = config(1, vec![42], true);
    assert!(router.add_token(TOKEN.to_string(), 42, &conf).is_ok());
    router.relay_external(&handshake(42, ""), client(), &conf, 1000);
    router.relay_external(&handshake(42, TOKEN), client(), &conf, 1100);
    assert_eq!(router.binding_of(&client()).unwrap().status, ConnStat::Authenticated);
    (router, conf)
}

#[test]
fn spoof_rejection() {
    let mut router = Router::new(&[0, 1], 0);
    let conf = config(1, vec![42], true);
    assert!(router.add_token(TOKEN.to_string(), 42, &conf).is_ok());
    router.relay_external(&handshake(42, ""), client(), &conf, 1000);
    let spoofed = handshake(99, TOKEN);
    assert_eq!(router.relay_external(&spoofed, client(), &conf, 1100), RelayAction::Drop);
    assert_eq!(router.binding_of(&client()).unwrap().status, ConnStat::Connecting);
    assert_eq!(router.token_user(TOKEN), Some(42));
    // a later correct handshake still succeeds
    let good = handshake(42, TOKEN);
    assert_ne!(router.relay_external(&good, client(), &conf, 1200), RelayAction::Drop);
    assert_eq!(router.binding_of(&client()).unwrap().status, ConnStat::Authenticated);
}

#[test]
fn capacity_gating() {
    let conf = config(2, vec![], true);
    let mut router = Router::new(&[0, 1], 0);
    let a = auth_incoming_player(&mut router, &String::new(), connect_request(1, "aa", ""), &conf);
    let b = auth_incoming_player(&mut router, &String::new(), connect_request(2, "bb", ""), &conf);
    assert_eq!((a.status, b.status), (200, 200));
    // tokens reserve nothing: a third one is accepted while sockets are free
    let c = auth_incoming_player(&mut router, &String::new(), connect_request(3, "cc", ""), &conf);
    assert_eq!(c.status, 200);
    // with every free socket reserved for admins, tokens are refused
    let reserved = config(0, vec![5, 6], true);
    let d = auth_incoming_player(&mut router, &String::new(), connect_request(4, "dd", ""), &reserved);
    assert_eq!(d.status, 503);
    assert_eq!(d.body, "{\"success\":false}");
    assert_eq!(router.token_user("dd"), None);
}

#[test]
fn idle_reclamation() {
    let (mut router, _) = authenticated_router();
    router.cleanup_dead_connections(5000);
    assert_eq!(router.get_player_count(), 1);
    router.cleanup_dead_connections(6101);
    assert_eq!(router.get_player_count(), 0);
    assert_eq!(router.binding_of(&client()), None);
    assert_eq!(router.available_count(), 2);
    assert_eq!(router.relay_internal(1), None);
}

#[test]
fn reverse_path() {
    let (router, _) = authenticated_router();
    assert_eq!(router.relay_internal(1), Some(client()));
    assert_eq!(router.relay_internal(0), None);
}

#[test]
fn unknown_token_tears_down() {
    let mut router = Router::new(&[0, 1], 0);
    let conf = config(1, vec![42], true);
    router.relay_external(&handshake(42, ""), client(), &conf, 1000);
    assert_eq!(router.available_count(), 1);
    assert_eq!(router.relay_external(&handshake(42, TOKEN), client(), &conf, 1100), RelayAction::Drop);
    assert_eq!(router.binding_of(&client()), None);
    assert_eq!(router.available_count(), 2);
    assert_eq!(router.relay_internal(1), None);
}

#[test]
fn auth_disabled_promotes() {
    let mut router = Router::new(&[0], 0);
    let conf = config(0, vec![42], false);
    router.relay_external(&handshake(42, ""), client(), &conf, 1000);
    assert_eq!(router.relay_external(&handshake(42, ""), client(), &conf, 1100), RelayAction::Forward { sock: 0, target: backend() });
    assert_eq!(router.binding_of(&client()).unwrap().status, ConnStat::Authenticated);
}

#[test]
fn stranger_cannot_admit() {
    let mut router = Router::new(&[0, 1, 2], 0);
    let conf = config(2, vec![42], true);
    assert_eq!(router.relay_external(&handshake(7, ""), client(), &conf, 1000), RelayAction::Drop);
    assert_eq!(router.binding_of(&client()), None);
    assert_eq!(router.available_count(), 3);
}

#[test]
fn admin_needs_a_free_socket() {
    let (mut router, conf, _) = after_admin_join(1000);
    let other = Endpoint::v4(198, 51, 100, 1, 6000);
    assert_eq!(router.relay_external(&handshake(42, ""), other, &conf, 1100), RelayAction::Drop);
    assert_eq!(router.binding_of(&other), None);
}

#[test]
fn bad_packets_are_dropped() {
    let mut router = Router::new(&[0], 0);
    let conf = config(0, vec![42], true);
    let mut tampered = handshake(42, "");
    tampered[30] ^= 1;
    assert_eq!(router.relay_external(&tampered, client(), &conf, 1000), RelayAction::Drop);
    assert_eq!(router.relay_external(&[1, 2, 3], client(), &conf, 1000), RelayAction::Drop);
    let not_connect = encrypt(&[0u8; 40], &KEY);
    assert_eq!(router.relay_external(&not_connect, client(), &conf, 1000), RelayAction::Drop);
    assert_eq!(router.available_count(), 1);
}

#[test]
fn bound_sockets_stay_out_of_the_pool() {
    let mut router = Router::new(&[0, 1, 2], 0);
    let conf = config(1, vec![42, 43], true);
    let c1 = Endpoint::v4(198, 51, 100, 1, 6000);
    let c2 = Endpoint::v4(198, 51, 100, 2, 6000);
    router.relay_external(&handshake(42, ""), c1, &conf, 1000);
    router.relay_external(&handshake(43, ""), c2, &conf, 1000);
    let s1 = router.binding_of(&c1).unwrap().sock;
    let s2 = router.binding_of(&c2).unwrap().sock;
    assert_eq!((s1, s2), (2, 1));
    assert_eq!(router.relay_internal(s1), Some(c1));
    assert_eq!(router.relay_internal(s2), Some(c2));
    assert_eq!(router.available_count() + router.get_player_count() as usize, 3);
}

#[test]
fn external_datagram_from_master_gets_challenge_reply() {
    let mut router = Router::new(&[0], 0);
    let conf = config(0, vec![42], true);
    let probe = handshake(42, "");
    let (act, reply) = handle_external(&mut router, &probe, client(), true, &conf, 1000);
    assert_eq!(act, RelayAction::Forward { sock: 0, target: backend() });
    let plain = decrypt(&reply.unwrap(), &KEY).unwrap();
    let mut expected = vec![0xFF, 0xFF, 0xFF, 0xFF, 0x49, 0x54, 0x74, 0x46, 0x72];
    expected.extend_from_slice(&42u64.to_le_bytes());
    assert_eq!(plain, expected);
    let (_, none) = handle_external(&mut router, &probe, client(), false, &conf, 1000);
    assert!(none.is_none());
}

#[test]
fn verify_reply_body() {
    let r = verify();
    assert_eq!(r.status, 200);
    assert_eq!(r.body, "I am a northstar server!");
}

#[test]
fn wrong_server_auth_is_forbidden() {
    let conf = config(2, vec![], true);
    let mut router = Router::new(&[0, 1], 0);
    let r = auth_incoming_player(&mut router, &"secret".to_string(), connect_request(1, "aa", "guess"), &conf);
    assert_eq!(r.status, 403);
    assert_eq!(r.body, "{\"success\":false}");
    assert!(r.json);
    assert_eq!(router.token_user("aa"), None);
    let ok = auth_incoming_player(&mut router, &"secret".to_string(), connect_request(1, "aa", "secret"), &conf);
    assert_eq!(ok.status, 200);
    assert_eq!(router.token_user("aa"), Some(1));
}

#[test]
fn endpoint_from_octets() {
    let e = Endpoint::v4(203, 0, 113, 9, 5000);
    assert_eq!(e.ip, 0xCB00_7109);
    assert_eq!(e.port, 5000);
    assert!(!e.v6);
}

#[test]
fn unknown_user_refused_with_free_sockets() {
    // the player directory starts empty, so a client that is neither an
    // admin nor a known player is refused even with every socket free
    let mut router = Router::new(&[0, 1, 2, 3], 0);
    let conf = config(3, vec![42], true);
    assert_eq!(router.relay_external(&handshake(77, ""), client(), &conf, 0), RelayAction::Drop);
    assert_eq!(router.available_count(), 4);
}

fn sealed_without_magic(id: u64, token: &str) -> Vec<u8> {
    let mut p = vec![0u8; 13];
    p.extend_from_slice(&id.to_le_bytes());
    p.extend_from_slice(&[0u8; 8]);
    p.extend_from_slice(b"alice\0");
    p.extend_from_slice(token.as_bytes());
    encrypt(&p, &KEY)
}

#[test]
fn auth_disabled_promotes_any_readable_packet() {
    let mut router = Router::new(&[0], 0);
    let conf = config(0, vec![42], false);
    router.relay_external(&handshake(42, ""), client(), &conf, 1000);
    let plain_data = encrypt(&[0x11u8; 64], &KEY);
    assert_eq!(router.relay_external(&plain_data, client(), &conf, 1100), RelayAction::Forward { sock: 0, target: backend() });
    assert_eq!(router.binding_of(&client()).unwrap().status, ConnStat::Authenticated);
}

#[test]
fn connecting_packet_without_magic_and_unknown_token_tears_down() {
    let mut router = Router::new(&[0, 1], 0);
    let conf = config(1, vec![42], true);
    router.relay_external(&handshake(42, ""), client(), &conf, 1000);
    assert_eq!(router.relay_external(&sealed_without_magic(42, TOKEN), client(), &conf, 1100), RelayAction::Drop);
    assert_eq!(router.binding_of(&client()), None);
    assert_eq!(router.available_count(), 2);
}

#[test]
fn connecting_packet_without_magic_and_granted_token_promotes() {
    let mut router = Router::new(&[0, 1], 0);
    let conf = config(1, vec![42], true);
    assert!(router.add_token(TOKEN.to_string(), 42, &conf).is_ok());
    router.relay_external(&handshake(42, ""), client(), &conf, 1000);
    assert_ne!(router.relay_external(&sealed_without_magic(42, TOKEN), client(), &conf, 1100), RelayAction::Drop);
    assert_eq!(router.binding_of(&client()).unwrap().status, ConnStat::Authenticated);
}

#[test]
fn connecting_packet_too_short_is_dropped() {
    let mut router = Router::new(&[0], 0);
    let conf = config(0, vec![42], false);
    router.relay_external(&handshake(42, ""), client(), &conf, 1000);
    assert_eq!(router.relay_external(&encrypt(&[0u8; 20], &KEY), client(), &conf, 1100), RelayAction::Drop);
    assert_eq!(router.binding_of(&client()).unwrap().status, ConnStat::Connecting);
}

#[test]
fn sweep_pushes_sockets_and_a_second_sweep_changes_nothing() {
    let mut router = Router::new(&[0, 1, 2], 0);
    let conf = config(1, vec![42, 43], true);
    let c1 = Endpoint::v4(198, 51, 100, 1, 6000);
    let c2 = Endpoint::v4(198, 51, 100, 2, 6000);
    router.relay_external(&handshake(42, ""), c1, &conf, 1000);
    router.relay_external(&handshake(43, ""), c2, &conf, 9000);
    assert_eq!(router.available_count(), 1);
    router.cleanup_dead_connections(10000);
    assert_eq!(router.binding_of(&c1), None);
    assert_eq!(router.binding_of(&c2).unwrap().sock, 1);
    assert_eq!(router.available_count(), 2);
    assert_eq!(router.relay_internal(2), None);
    assert_eq!(router.relay_internal(1), Some(c2));
    router.cleanup_dead_connections(10000);
    assert_eq!(router.available_count(), 2);
    assert_eq!(router.binding_of(&c2).unwrap().sock, 1);
    // the swept socket is the next one handed out
    let c3 = Endpoint::v4(198, 51, 100, 3, 6000);
    router.relay_external(&handshake(42, ""), c3, &conf, 10000);
    assert_eq!(router.binding_of(&c3).unwrap().sock, 2);
}
