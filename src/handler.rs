use vstd::prelude::*;
use vstd::string::{StrSliceExecFns, StringExecFns};
use crate::appconfig::AppConfig;
use crate::codec::{challenge_reply_of, challenge_response, is_sealed_packet, open_packet};
use crate::endpoint::Endpoint;
use crate::router::{relay_spec, RelayAction, Router};

verus! {

pub open spec fn https_prefix() -> Seq<char> {
    seq!['h', 't', 't', 'p', 's', ':', '/', '/']
}

pub open spec fn http_prefix() -> Seq<char> {
    seq!['h', 't', 't', 'p', ':', '/', '/']
}

pub open spec fn localhost_name() -> Seq<char> {
    seq!['l', 'o', 'c', 'a', 'l', 'h', 'o', 's', 't']
}

pub open spec fn loopback_ip() -> Seq<char> {
    seq!['1', '2', '7', '.', '0', '.', '0', '.', '1']
}

/// The URL without its `https://` or `http://` scheme.
pub open spec fn strip_scheme(u: Seq<char>) -> Seq<char> {
    if u.len() >= 8 && u.subrange(0, 8) == https_prefix() {
        u.subrange(8, u.len() as int)
    } else if u.len() >= 7 && u.subrange(0, 7) == http_prefix() {
        u.subrange(7, u.len() as int)
    } else {
        u
    }
}

/// Index of the first `:` in `s`, or its length.
pub open spec fn first_colon(s: Seq<char>, from: int) -> int
    decreases s.len() - from,
{
    if from >= s.len() {
        s.len() as int
    } else if s[from] == ':' {
        from
    } else {
        first_colon(s, from + 1)
    }
}

/// The host of the master server's URL, with `localhost` written as the
/// loopback address so that it needs no lookup.
pub open spec fn auth_host_of(u: Seq<char>) -> Seq<char> {
    let rest = strip_scheme(u);
    let host = rest.subrange(0, first_colon(rest, 0));
    if host == localhost_name() {
        loopback_ip()
    } else {
        host
    }
}

fn starts_with(s: &str, p: &Vec<char>) -> (r: bool)
    ensures
        r == (s@.len() >= p@.len() && s@.subrange(0, p@.len() as int) == p@),
{
    let n = s.unicode_len();
    if n < p.len() {
        return false;
    }
    let mut i: usize = 0;
    while i < p.len()
        invariant
            n == s@.len(),
            p@.len() <= n,
            i <= p@.len(),
            forall|j: int| 0 <= j < i ==> s@[j] == p@[j],
        decreases p@.len() - i,
    {
        if s.get_char(i) != p[i] {
            assert(s@.subrange(0, p@.len() as int)[i as int] != p@[i as int]);
            return false;
        }
        i = i + 1;
    }
    assert(s@.subrange(0, p@.len() as int) =~= p@);
    true
}

proof fn lemma_first_colon_bounds(s: Seq<char>, from: int)
    requires
        0 <= from <= s.len(),
    ensures
        from <= first_colon(s, from) <= s.len(),
    decreases s.len() - from,
{
    if from < s.len() && s[from] != ':' {
        lemma_first_colon_bounds(s, from + 1);
    }
}

/// Host part of the master server's URL, whose addresses get the
/// challenge reply.
pub fn auth_host(url: &str) -> (r: String)
    ensures
        r@ == auth_host_of(url@),
{
    let https = vec!['h', 't', 't', 'p', 's', ':', '/', '/'];
    let http = vec!['h', 't', 't', 'p', ':', '/', '/'];
    assert(https@ =~= https_prefix());
    assert(http@ =~= http_prefix());
    let n = url.unicode_len();
    let start: usize = if starts_with(url, &https) {
        8
    } else if starts_with(url, &http) {
        7
    } else {
        0
    };
    let ghost rest = strip_scheme(url@);
    assert(rest =~= url@.subrange(start as int, n as int));
    let mut end = start;
    while end < n && url.get_char(end) != ':'
        invariant
            start <= end <= n,
            n == url@.len(),
            rest =~= url@.subrange(start as int, n as int),
            first_colon(rest, 0) == first_colon(rest, end - start),
        decreases n - end,
    {
        end = end + 1;
    }
    proof {
        if end == n {
            assert(first_colon(rest, end - start) == rest.len());
        } else {
            assert(rest[end - start] == ':');
        }
        lemma_first_colon_bounds(rest, 0);
    }
    let host = url.substring_char(start, end);
    assert(host@ =~= rest.subrange(0, first_colon(rest, 0)));
    let local = vec!['l', 'o', 'c', 'a', 'l', 'h', 'o', 's', 't'];
    assert(local@ =~= localhost_name());
    if host.unicode_len() == local.len() && starts_with(host, &local) {
        assert(host@ =~= localhost_name());
        let r = String::from_str("127.0.0.1");
        proof {
            reveal_strlit("127.0.0.1");
            assert(r@ =~= loopback_ip());
        }
        r
    } else {
        proof {
            if host@ == localhost_name() {
                assert(host@.subrange(0, local@.len() as int) =~= host@);
            }
        }
        String::from_str(host)
    }
}

/// Handles one datagram that reached the public endpoint: the router decides
/// what to forward, and a datagram from the master server also gets a
/// challenge reply, sent back to its sender.
pub fn handle_external(
    router: &mut Router,
    payload: &[u8],
    from: Endpoint,
    from_auth_server: bool,
    config: &AppConfig,
    now: u64,
) -> (r: (RelayAction, Option<Vec<u8>>))
    requires
        old(router).wf(),
        config.key@.len() == 16,
        old(router).target_index() < config.target_servers@.len(),
    ensures
        final(router).wf(),
        (final(router).tables(), r.0) == relay_spec(
            old(router).tables(),
            old(router).token_map(),
            old(router).player_set(),
            payload@,
            from,
            config.key@,
            config.auth_enabled,
            config.admins@,
            config.target_servers@[old(router).target_index() as int],
            now,
        ),
        final(router).token_map() == old(router).token_map(),
        final(router).player_set() == old(router).player_set(),
        final(router).slot_count() == old(router).slot_count(),
        final(router).target_index() == old(router).target_index(),
        !from_auth_server ==> r.1.is_none(),
        from_auth_server ==> (r.1.is_some() <==> (open_packet(config.key@, payload@).is_some()
            && challenge_reply_of(open_packet(config.key@, payload@)->0).is_some())),
        r.1.is_some() ==> exists|nonce: Seq<u8>|
            is_sealed_packet(
                config.key@,
                nonce,
                challenge_reply_of(open_packet(config.key@, payload@)->0)->0,
                r.1->0@,
            ),
{
    let action = router.relay_external(payload, from, config, now);
    let reply = if from_auth_server {
        challenge_response(payload, config.key.as_slice())
    } else {
        None
    };
    (action, reply)
}

} // verus!
