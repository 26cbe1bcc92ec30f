use vstd::prelude::*;
use dashmap::DashMap;
use crate::appconfig::AppConfig;
use crate::codec::{
    decrypt, handshake_token, handshake_user_id, has_connect_magic, is_connect, open_packet,
    read_token, read_u64_le, USER_ID_END, USER_ID_OFFSET,
};
use crate::endpoint::Endpoint;
use crate::tables::{
    counter_entries, counters_entries, counters_insert, counters_new, counters_remove, ip_entries,
    ips_get, ips_insert, ips_len, ips_new, ips_remove, player_ids, players_contains, players_new,
    socket_entries, sockets_get, sockets_insert, sockets_new, sockets_remove, token_entries,
    tokens_get, tokens_insert, tokens_new,
};

verus! {

/// Where a client's binding stands in its lifecycle.
#[derive(Clone, Copy, Debug, PartialEq, Eq, Structural)]
pub enum ConnStat {
    /// A relay socket is reserved; the connect handshake is not yet accepted.
    Connecting,
    /// Traffic is forwarded.
    Authenticated,
    /// Marked for teardown; its socket is already back in the pool.
    Blocked,
}

/// A client's binding: its state, its relay socket and its backend.
#[derive(Clone, Copy, Debug, PartialEq, Eq, Structural)]
pub struct Binding {
    pub status: ConnStat,
    pub sock: usize,
    pub target: Endpoint,
}

/// What the router keeps on a known player.
#[derive(Clone, Copy, Debug, PartialEq, Eq, Structural)]
pub struct PlayerInfo {}

/// What to do with a datagram once the router has seen it.
#[derive(Clone, Copy, Debug, PartialEq, Eq, Structural)]
pub enum RelayAction {
    /// Send nothing.
    Drop,
    /// Send the datagram, as received, from relay socket `sock` to `target`.
    Forward { sock: usize, target: Endpoint },
}

/// The tables that datagrams change: bindings, reverse lookup, last
/// activity, and the pool of free relay sockets.
pub type Tables = (Map<Endpoint, Binding>, Map<usize, Endpoint>, Map<Endpoint, u64>, Seq<usize>);

/// Inactivity, in milliseconds, after which a binding is reclaimed.
pub const IDLE_LIMIT_MS: u64 = 5000;

/// Admission policy: admins need one free socket; known players need more
/// free sockets than there are admins.
pub open spec fn admits(id: u64, admins: Seq<u64>, players: Set<u64>, free: nat) -> bool {
    (admins.contains(id) && free > 0) || (players.contains(id) && free > admins.len())
}

/// The token is in the table and maps to `id`.
pub open spec fn token_grants(tokens: Map<Seq<u8>, u64>, token: Option<Seq<u8>>, id: u64) -> bool {
    token.is_some() && tokens.contains_key(token->0) && tokens[token->0] == id
}

/// The token is in the table.
pub open spec fn token_known(tokens: Map<Seq<u8>, u64>, token: Option<Seq<u8>>) -> bool {
    token.is_some() && tokens.contains_key(token->0)
}

/// A binding has been idle for longer than the limit at `now`.
pub open spec fn is_stale(last: u64, now: u64) -> bool {
    now - last > IDLE_LIMIT_MS
}

/// How a datagram from `from` changes the tables, and what is sent.
pub open spec fn relay_spec(
    t: Tables,
    tokens: Map<Seq<u8>, u64>,
    players: Set<u64>,
    payload: Seq<u8>,
    from: Endpoint,
    key: Seq<u8>,
    auth_enabled: bool,
    admins: Seq<u64>,
    target: Endpoint,
    now: u64,
) -> (Tables, RelayAction) {
    let (ips, socks, cnt, avail) = t;
    let opened = open_packet(key, payload);
    let connect = opened.is_some() && is_connect(opened->0);
    let readable = opened.is_some() && opened->0.len() >= USER_ID_END;
    if ips.contains_key(from) {
        let b = ips[from];
        let fwd = RelayAction::Forward { sock: b.sock, target: b.target };
        match b.status {
            ConnStat::Authenticated => ((ips, socks, cnt.insert(from, now), avail), fwd),
            ConnStat::Blocked => (t, RelayAction::Drop),
            ConnStat::Connecting => {
                if !readable {
                    (t, RelayAction::Drop)
                } else if !auth_enabled || token_grants(
                    tokens,
                    handshake_token(opened->0),
                    handshake_user_id(opened->0),
                ) {
                    let promoted = Binding { status: ConnStat::Authenticated, sock: b.sock, target: b.target };
                    ((ips.insert(from, promoted), socks, cnt.insert(from, now), avail), fwd)
                } else if token_known(tokens, handshake_token(opened->0)) {
                    (t, RelayAction::Drop)
                } else {
                    ((ips.remove(from), socks.remove(b.sock), cnt.remove(from), avail.push(b.sock)), RelayAction::Drop)
                }
            },
        }
    } else if avail.len() > 0 && connect && admits(handshake_user_id(opened->0), admins, players, avail.len()) {
        let s = avail.last();
        let fresh = Binding { status: ConnStat::Connecting, sock: s, target: target };
        (
            (ips.insert(from, fresh), socks.insert(s, from), cnt.insert(from, now), avail.drop_last()),
            RelayAction::Forward { sock: s, target: target },
        )
    } else {
        (t, RelayAction::Drop)
    }
}

/// The relay's routing state: issued tokens, client bindings, the reverse
/// lookup from relay socket to client, last activity, the free relay sockets
/// (a stack: the last one freed is reused first), and the player directory.
pub struct Router {
    tokens: DashMap<Vec<u8>, u64>,
    ips: DashMap<Endpoint, Binding>,
    sockets: DashMap<usize, Endpoint>,
    counters: DashMap<Endpoint, u64>,
    available: Vec<usize>,
    players: DashMap<u64, PlayerInfo>,
    join_target: usize,
    slots: Ghost<nat>,
}

impl Router {
    pub closed spec fn token_map(&self) -> Map<Seq<u8>, u64> {
        token_entries(self.tokens)
    }

    pub closed spec fn ip_map(&self) -> Map<Endpoint, Binding> {
        ip_entries(self.ips)
    }

    pub closed spec fn socket_map(&self) -> Map<usize, Endpoint> {
        socket_entries(self.sockets)
    }

    pub closed spec fn counter_map(&self) -> Map<Endpoint, u64> {
        counter_entries(self.counters)
    }

    pub closed spec fn player_set(&self) -> Set<u64> {
        player_ids(self.players)
    }

    pub closed spec fn free_sockets(&self) -> Seq<usize> {
        self.available@
    }

    /// Number of relay sockets that the router was given.
    pub closed spec fn slot_count(&self) -> nat {
        self.slots@
    }

    pub closed spec fn target_index(&self) -> usize {
        self.join_target
    }

    pub open spec fn tables(&self) -> Tables {
        (self.ip_map(), self.socket_map(), self.counter_map(), self.free_sockets())
    }

    /// Every binding is live and owns its socket; the reverse table is its
    /// inverse; free sockets are distinct and owned by no binding; free
    /// sockets and bindings together account for every slot.
    pub open spec fn wf(&self) -> bool {
        let ips = self.ip_map();
        let socks = self.socket_map();
        let avail = self.free_sockets();
        &&& ips.dom().finite()
        &&& avail.no_duplicates()
        &&& avail.len() + ips.len() == self.slot_count()
        &&& forall|a: Endpoint| #[trigger] ips.contains_key(a) ==> {
            &&& ips[a].status != ConnStat::Blocked
            &&& !avail.contains(ips[a].sock)
            &&& socks.contains_key(ips[a].sock)
            &&& socks[ips[a].sock] == a
            &&& self.counter_map().contains_key(a)
        }
        &&& forall|s: usize| #[trigger] socks.contains_key(s) ==> ips.contains_key(socks[s]) && ips[socks[s]].sock == s
    }

    /// A router whose free pool holds the given relay sockets, in order, and
    /// whose other tables are empty.
    pub fn new(internal_sockets: &[usize], join_target: usize) -> (r: Router)
        requires
            internal_sockets@.no_duplicates(),
        ensures
            r.wf(),
            r.free_sockets() == internal_sockets@,
            r.slot_count() == internal_sockets@.len(),
            r.ip_map().dom() == Set::<Endpoint>::empty(),
            r.socket_map().dom() == Set::<usize>::empty(),
            r.counter_map().dom() == Set::<Endpoint>::empty(),
            r.token_map().dom() == Set::<Seq<u8>>::empty(),
            r.player_set() == Set::<u64>::empty(),
            r.target_index() == join_target,
    {
        let r = Router {
            tokens: tokens_new(),
            ips: ips_new(),
            sockets: sockets_new(),
            counters: counters_new(),
            available: vstd::slice::slice_to_vec(internal_sockets),
            players: players_new(),
            join_target,
            slots: Ghost(internal_sockets@.len()),
        };
        assert(r.ip_map().dom().len() == 0);
        r
    }

    /// Records a token that the master server issued for user `id`. It is
    /// accepted only while more sockets are free than are reserved for admins.
    pub fn add_token(&mut self, token: String, id: u64, conf: &AppConfig) -> (r: Result<(), ()>)
        requires
            old(self).wf(),
        ensures
            final(self).wf(),
            r.is_ok() <==> old(self).free_sockets().len() > conf.admins@.len(),
            r.is_ok() ==> final(self).token_map() == old(self).token_map().insert(
                vstd::utf8::encode_utf8(token@),
                id,
            ),
            r.is_err() ==> final(self).token_map() == old(self).token_map(),
            final(self).tables() == old(self).tables(),
            final(self).player_set() == old(self).player_set(),
            final(self).slot_count() == old(self).slot_count(),
            final(self).target_index() == old(self).target_index(),
    {
        if self.available.len() > conf.admins.len() {
            let key = vstd::slice::slice_to_vec(token.as_str().as_bytes());
            tokens_insert(&mut self.tokens, key, id);
            Ok(())
        } else {
            Err(())
        }
    }

    /// The binding of client `a`, if any.
    pub fn binding_of(&self, a: &Endpoint) -> (r: Option<Binding>)
        ensures
            r == self.ip_map().get(*a),
    {
        ips_get(&self.ips, a)
    }

    /// Number of free relay sockets.
    pub fn available_count(&self) -> (r: usize)
        ensures
            r == self.free_sockets().len(),
    {
        self.available.len()
    }

    /// The user that a token was issued for, if any.
    pub fn token_user(&self, token: &str) -> (r: Option<u64>)
        ensures
            r == self.token_map().get(vstd::utf8::encode_utf8(token@)),
    {
        tokens_get(&self.tokens, token.as_bytes())
    }

    /// Releases the binding of `from`: its row, its reverse entry and its
    /// activity record go, and its socket returns to the pool.
    fn tear_down(&mut self, from: Endpoint, b: Binding)
        requires
            old(self).wf(),
            old(self).ip_map().contains_key(from),
            old(self).ip_map()[from] == b,
        ensures
            final(self).wf(),
            final(self).ip_map() == old(self).ip_map().remove(from),
            final(self).socket_map() == old(self).socket_map().remove(b.sock),
            final(self).counter_map() == old(self).counter_map().remove(from),
            final(self).free_sockets() == old(self).free_sockets().push(b.sock),
            final(self).token_map() == old(self).token_map(),
            final(self).player_set() == old(self).player_set(),
            final(self).slot_count() == old(self).slot_count(),
            final(self).target_index() == old(self).target_index(),
    {
        let ghost pre = *self;
        ips_remove(&mut self.ips, &from);
        sockets_remove(&mut self.sockets, b.sock);
        counters_remove(&mut self.counters, &from);
        self.available.push(b.sock);
        proof {
            let ips = pre.ip_map();
            let socks = pre.socket_map();
            let avail = pre.free_sockets();
            assert(ips.remove(from).dom() =~= ips.dom().remove(from));
            assert forall|a: Endpoint| #[trigger] self.ip_map().contains_key(a) implies {
                &&& self.ip_map()[a].status != ConnStat::Blocked
                &&& !self.free_sockets().contains(self.ip_map()[a].sock)
                &&& self.socket_map().contains_key(self.ip_map()[a].sock)
                &&& self.socket_map()[self.ip_map()[a].sock] == a
                &&& self.counter_map().contains_key(a)
            } by {
                assert(ips.contains_key(a));
                assert(ips[a].sock != b.sock);
                if self.free_sockets().contains(ips[a].sock) {
                    let k = choose|k: int| 0 <= k < self.free_sockets().len() && self.free_sockets()[k] == ips[a].sock;
                    assert(avail[k] == ips[a].sock);
                }
            }
            assert forall|i: int, j: int| 0 <= i < j < self.free_sockets().len() implies
                self.free_sockets()[i] != self.free_sockets()[j] by {
                if j == avail.len() as int {
                    assert(avail[i] == self.free_sockets()[i]);
                }
            }
        }
    }

    /// Handles a datagram from a client. Authenticated clients have it
    /// forwarded. For a connecting client, a datagram that does not open or
    /// is too short to hold a user ID is dropped without a change; otherwise
    /// the client is promoted when authentication is off or the datagram
    /// carries a token issued for its user ID, keeps waiting when the token
    /// belongs to another user, and is torn down when the token is unknown.
    /// An unknown client is admitted on a connect handshake that the
    /// admission policy allows, taking the last free socket. Everything else
    /// is dropped without a change.
    pub fn relay_external(&mut self, payload: &[u8], from: Endpoint, config: &AppConfig, now: u64) -> (r: RelayAction)
        requires
            old(self).wf(),
            config.key@.len() == 16,
            old(self).target_index() < config.target_servers@.len(),
        ensures
            final(self).wf(),
            (final(self).tables(), r) == relay_spec(
                old(self).tables(),
                old(self).token_map(),
                old(self).player_set(),
                payload@,
                from,
                config.key@,
                config.auth_enabled,
                config.admins@,
                config.target_servers@[old(self).target_index() as int],
                now,
            ),
            final(self).token_map() == old(self).token_map(),
            final(self).player_set() == old(self).player_set(),
            final(self).slot_count() == old(self).slot_count(),
            final(self).target_index() == old(self).target_index(),
    {
        match ips_get(&self.ips, &from) {
            Some(b) => {
                match b.status {
                    ConnStat::Authenticated => {
                        counters_insert(&mut self.counters, from, now);
                        RelayAction::Forward { sock: b.sock, target: b.target }
                    },
                    ConnStat::Blocked => RelayAction::Drop,
                    ConnStat::Connecting => {
                        let plain = match decrypt(payload, config.key.as_slice()) {
                            Some(p) => p,
                            None => return RelayAction::Drop,
                        };
                        if plain.len() < USER_ID_END {
                            return RelayAction::Drop;
                        }
                        let user_id = read_u64_le(plain.as_slice(), USER_ID_OFFSET);
                        let granted = if !config.auth_enabled {
                            true
                        } else {
                            match read_token(plain.as_slice()) {
                                Some(token) => match tokens_get(&self.tokens, token.as_slice()) {
                                    Some(owner) => {
                                        if owner != user_id {
                                            return RelayAction::Drop;
                                        }
                                        true
                                    },
                                    None => false,
                                },
                                None => false,
                            }
                        };
                        if granted {
                            let promoted = Binding { status: ConnStat::Authenticated, sock: b.sock, target: b.target };
                            let ghost pre = *self;
                            ips_insert(&mut self.ips, from, promoted);
                            counters_insert(&mut self.counters, from, now);
                            proof {
                                assert(pre.ip_map().insert(from, promoted).dom() =~= pre.ip_map().dom());
                            }
                            RelayAction::Forward { sock: b.sock, target: b.target }
                        } else {
                            self.tear_down(from, b);
                            RelayAction::Drop
                        }
                    },
                }
            },
            None => {
                if self.available.len() == 0 {
                    return RelayAction::Drop;
                }
                let plain = match decrypt(payload, config.key.as_slice()) {
                    Some(p) => p,
                    None => return RelayAction::Drop,
                };
                if !has_connect_magic(plain.as_slice()) {
                    return RelayAction::Drop;
                }
                let user_id = read_u64_le(plain.as_slice(), USER_ID_OFFSET);
                let free = self.available.len();
                let admitted = (contains_id(config.admins.as_slice(), user_id) && free > 0)
                    || (players_contains(&self.players, user_id) && free > config.admins.len());
                if !admitted {
                    return RelayAction::Drop;
                }
                let ghost pre = *self;
                let sock = match self.available.pop() {
                    Some(s) => s,
                    None => return RelayAction::Drop,
                };
                let target = config.target_servers[self.join_target];
                let fresh = Binding { status: ConnStat::Connecting, sock, target };
                ips_insert(&mut self.ips, from, fresh);
                sockets_insert(&mut self.sockets, sock, from);
                counters_insert(&mut self.counters, from, now);
                proof {
                    let ips = pre.ip_map();
                    let socks = pre.socket_map();
                    let avail = pre.free_sockets();
                    assert(ips.insert(from, fresh).dom() =~= ips.dom().insert(from));
                    assert(!socks.contains_key(sock)) by {
                        if socks.contains_key(sock) {
                            assert(avail.contains(ips[socks[sock]].sock));
                        }
                    }
                    assert forall|a: Endpoint| #[trigger] self.ip_map().contains_key(a) implies {
                        &&& self.ip_map()[a].status != ConnStat::Blocked
                        &&& !self.free_sockets().contains(self.ip_map()[a].sock)
                        &&& self.socket_map().contains_key(self.ip_map()[a].sock)
                        &&& self.socket_map()[self.ip_map()[a].sock] == a
                        &&& self.counter_map().contains_key(a)
                    } by {
                        if self.free_sockets().contains(self.ip_map()[a].sock) {
                            let k = choose|k: int| 0 <= k < self.free_sockets().len() && self.free_sockets()[k] == self.ip_map()[a].sock;
                            assert(avail[k] == self.free_sockets()[k]);
                            if a == from {
                                assert(avail[avail.len() - 1] == sock);
                            } else {
                                assert(avail.contains(ips[a].sock));
                            }
                        }
                    }
                    assert forall|s: usize| #[trigger] self.socket_map().contains_key(s) implies
                        self.ip_map().contains_key(self.socket_map()[s]) && self.ip_map()[self.socket_map()[s]].sock == s by {
                        if s != sock {
                            assert(socks.contains_key(s));
                            if socks[s] == from {
                                assert(ips.contains_key(from));
                            }
                        }
                    }
                    assert forall|i: int, j: int| 0 <= i < j < self.free_sockets().len() implies
                        self.free_sockets()[i] != self.free_sockets()[j] by {
                        assert(avail[i] == self.free_sockets()[i]);
                        assert(avail[j] == self.free_sockets()[j]);
                    }
                }
                RelayAction::Forward { sock, target }
            },
        }
    }

    /// The client that relay socket `sender` serves, if any: where a datagram
    /// from the backend on that socket goes.
    pub fn relay_internal(&self, sender: usize) -> (r: Option<Endpoint>)
        ensures
            r == self.socket_map().get(sender),
    {
        sockets_get(&self.sockets, sender)
    }

    /// Number of bindings, connecting ones included.
    pub fn get_player_count(&self) -> (r: u64)
        requires
            self.wf(),
        ensures
            r == self.ip_map().len(),
    {
        ips_len(&self.ips) as u64
    }

    /// Reclaims every binding idle for longer than the limit at `now`: its
    /// row, its reverse entry and its activity record go, and its socket is
    /// pushed onto the pool after the sockets already free. Activity records
    /// idle that long without a binding go too. Other bindings, their reverse
    /// entries and their activity records stay as they are, so a second sweep
    /// at the same time changes nothing.
    pub fn cleanup_dead_connections(&mut self, now: u64)
        requires
            old(self).wf(),
        ensures
            final(self).wf(),
            forall|a: Endpoint| #[trigger] final(self).ip_map().contains_key(a) <==> (old(self).ip_map().contains_key(a)
                && !is_stale(old(self).counter_map()[a], now)),
            forall|a: Endpoint| #[trigger] final(self).ip_map().contains_key(a) ==> final(self).ip_map()[a] == old(self).ip_map()[a],
            forall|a: Endpoint| #[trigger] old(self).ip_map().contains_key(a) && is_stale(old(self).counter_map()[a], now)
                ==> final(self).free_sockets().contains(old(self).ip_map()[a].sock),
            final(self).free_sockets().len() >= old(self).free_sockets().len(),
            final(self).free_sockets().subrange(0, old(self).free_sockets().len() as int) == old(self).free_sockets(),
            forall|i: int| #![trigger final(self).free_sockets()[i]] old(self).free_sockets().len() <= i < final(self).free_sockets().len() ==> exists|a: Endpoint|
                #[trigger] old(self).ip_map().contains_key(a) && is_stale(old(self).counter_map()[a], now)
                    && old(self).ip_map()[a].sock == final(self).free_sockets()[i],
            forall|s: usize| #[trigger] final(self).socket_map().contains_key(s) <==> (old(self).socket_map().contains_key(s)
                && !is_stale(old(self).counter_map()[old(self).socket_map()[s]], now)),
            forall|s: usize| #[trigger] final(self).socket_map().contains_key(s) ==> final(self).socket_map()[s]
                == old(self).socket_map()[s],
            forall|a: Endpoint| #[trigger] final(self).counter_map().contains_key(a) <==> (old(self).counter_map().contains_key(a)
                && !is_stale(old(self).counter_map()[a], now)),
            forall|a: Endpoint| #[trigger] final(self).counter_map().contains_key(a) ==> final(self).counter_map()[a]
                == old(self).counter_map()[a],
            (forall|a: Endpoint| #[trigger] old(self).counter_map().contains_key(a) ==> !is_stale(old(self).counter_map()[a], now))
                ==> final(self).tables() == old(self).tables(),
            final(self).token_map() == old(self).token_map(),
            final(self).player_set() == old(self).player_set(),
            final(self).slot_count() == old(self).slot_count(),
            final(self).target_index() == old(self).target_index(),
    {
        let ghost ips0 = self.ip_map();
        let ghost c0 = self.counter_map();
        let ghost s0 = self.socket_map();
        let ghost avail0 = self.free_sockets();
        let ghost pre = *self;
        let ghost mut swept: Seq<Endpoint> = Seq::empty();
        let entries = counters_entries(&self.counters);
        let ghost mut done: Set<Endpoint> = Set::empty();
        proof {
            assert forall|k: int| 0 <= k < entries@.len() implies #[trigger] c0.contains_key(entries@[k].0)
                && c0[entries@[k].0] == entries@[k].1 by {
                assert(counter_entries(self.counters).contains_key(entries@[k].0));
            }
        }
        let mut i: usize = 0;
        while i < entries.len()
            invariant
                self.wf(),
                i <= entries@.len(),
                self.token_map() == pre.token_map(),
                self.player_set() == pre.player_set(),
                self.slot_count() == pre.slot_count(),
                self.target_index() == pre.target_index(),
                forall|k: int| 0 <= k < entries@.len() ==> #[trigger] c0.contains_key(entries@[k].0)
                    && c0[entries@[k].0] == entries@[k].1,
                forall|a: Endpoint| #[trigger] c0.contains_key(a) ==> exists|k: int| 0 <= k < entries@.len() && entries@[k].0 == a,
                forall|k: int, j: int| 0 <= k < j < entries@.len() ==> entries@[k].0 != entries@[j].0,
                forall|k: int| 0 <= k < i ==> #[trigger] done.contains(entries@[k].0),
                forall|k: int| i <= k < entries@.len() ==> !(#[trigger] done.contains(entries@[k].0)),
                forall|a: Endpoint| #[trigger] self.ip_map().contains_key(a) <==> (ips0.contains_key(a)
                    && !(done.contains(a) && is_stale(c0[a], now))),
                forall|a: Endpoint| #[trigger] self.ip_map().contains_key(a) ==> self.ip_map()[a] == ips0[a],
                forall|a: Endpoint| #[trigger] ips0.contains_key(a) && done.contains(a) && is_stale(c0[a], now)
                    ==> self.free_sockets().contains(ips0[a].sock),
                pre.wf(),
                ips0 == pre.ip_map(),
                c0 == pre.counter_map(),
                s0 == pre.socket_map(),
                avail0 == pre.free_sockets(),
                forall|a: Endpoint| #[trigger] self.counter_map().contains_key(a) <==> (c0.contains_key(a)
                    && !(done.contains(a) && is_stale(c0[a], now))),
                forall|a: Endpoint| #[trigger] self.counter_map().contains_key(a) ==> self.counter_map()[a] == c0[a],
                forall|x: usize| #[trigger] self.socket_map().contains_key(x) <==> (s0.contains_key(x)
                    && !(done.contains(s0[x]) && is_stale(c0[s0[x]], now))),
                forall|x: usize| #[trigger] self.socket_map().contains_key(x) ==> self.socket_map()[x] == s0[x],
                self.free_sockets().len() == avail0.len() + swept.len(),
                forall|k: int| 0 <= k < avail0.len() ==> #[trigger] self.free_sockets()[k] == avail0[k],
                forall|k: int| 0 <= k < swept.len() ==> ips0.contains_key(#[trigger] swept[k]) && done.contains(swept[k])
                    && is_stale(c0[swept[k]], now) && self.free_sockets()[avail0.len() + k] == ips0[swept[k]].sock,
            decreases entries@.len() - i,
        {
            let (a, last) = entries[i];
            let ghost start = *self;
            proof {
                assert(c0.contains_key(entries@[i as int].0));
                assert(c0[a] == last);
            }
            if now > last && now - last > IDLE_LIMIT_MS {
                match ips_get(&self.ips, &a) {
                    Some(b) => {
                        let ghost before = *self;
                        self.tear_down(a, b);
                        proof {
                            assert(ips0.contains_key(a));
                            assert(s0[b.sock] == a);
                            assert forall|x: usize| #[trigger] self.socket_map().contains_key(x) <==> (s0.contains_key(x)
                                && !(done.insert(a).contains(s0[x]) && is_stale(c0[s0[x]], now))) by {
                                if s0.contains_key(x) && s0[x] == a {
                                    assert(ips0[s0[x]].sock == x);
                                }
                            }
                            assert forall|k: int| 0 <= k < swept.push(a).len() implies ips0.contains_key(#[trigger] swept.push(a)[k])
                                && done.insert(a).contains(swept.push(a)[k]) && is_stale(c0[swept.push(a)[k]], now)
                                && self.free_sockets()[avail0.len() + k] == ips0[swept.push(a)[k]].sock by {
                                if k < swept.len() {
                                    assert(swept.push(a)[k] == swept[k]);
                                    assert(self.free_sockets()[avail0.len() + k] == before.free_sockets()[avail0.len() + k]);
                                }
                            }
                            assert forall|k: int| 0 <= k < avail0.len() implies #[trigger] self.free_sockets()[k] == avail0[k] by {
                                assert(self.free_sockets()[k] == before.free_sockets()[k]);
                            }
                            swept = swept.push(a);
                            assert forall|x: Endpoint| #[trigger] ips0.contains_key(x) && done.insert(a).contains(x)
                                && is_stale(c0[x], now) implies self.free_sockets().contains(ips0[x].sock) by {
                                if x != a {
                                    let k = choose|k: int| 0 <= k < before.free_sockets().len()
                                        && before.free_sockets()[k] == ips0[x].sock;
                                    assert(self.free_sockets()[k] == ips0[x].sock);
                                } else {
                                    assert(self.free_sockets()[before.free_sockets().len() as int] == b.sock);
                                }
                            }
                        }
                    },
                    None => {
                        counters_remove(&mut self.counters, &a);
                        proof {
                            assert(!ips0.contains_key(a));
                            assert forall|x: usize| #[trigger] self.socket_map().contains_key(x) <==> (s0.contains_key(x)
                                && !(done.insert(a).contains(s0[x]) && is_stale(c0[s0[x]], now))) by {
                                if s0.contains_key(x) {
                                    assert(ips0.contains_key(s0[x]));
                                }
                            }
                        }
                    },
                }
            }
            proof {
                assert(c0.contains_key(a));
                if is_stale(c0[a], now) {
                    assert(!self.counter_map().contains_key(a));
                } else {
                    assert(self.counter_map().contains_key(a));
                }
                assert forall|x: Endpoint| #[trigger] self.counter_map().contains_key(x) <==> (c0.contains_key(x)
                    && !(done.insert(a).contains(x) && is_stale(c0[x], now))) by {
                    if x != a {
                        assert(done.insert(a).contains(x) == done.contains(x));
                        assert(self.counter_map().contains_key(x) == start.counter_map().contains_key(x));
                    }
                }
                assert forall|x: Endpoint| #[trigger] self.counter_map().contains_key(x) implies self.counter_map()[x] == c0[x] by {
                    assert(start.counter_map().contains_key(x));
                    assert(self.counter_map()[x] == start.counter_map()[x]);
                }
                done = done.insert(a);
            }
            i = i + 1;
        }
        proof {
            assert forall|a: Endpoint| ips0.contains_key(a) implies #[trigger] done.contains(a) by {
                assert(c0.contains_key(a));
                let k = choose|k: int| 0 <= k < entries@.len() && entries@[k].0 == a;
                assert(done.contains(entries@[k].0));
            }
            assert forall|a: Endpoint| c0.contains_key(a) implies #[trigger] done.contains(a) by {
                let k = choose|k: int| 0 <= k < entries@.len() && entries@[k].0 == a;
                assert(done.contains(entries@[k].0));
            }
            assert(self.free_sockets().subrange(0, avail0.len() as int) =~= avail0);
            assert forall|i: int| #![trigger self.free_sockets()[i]] avail0.len() <= i < self.free_sockets().len() implies exists|a: Endpoint|
                #[trigger] ips0.contains_key(a) && is_stale(c0[a], now) && ips0[a].sock == self.free_sockets()[i] by {
                let k = i - avail0.len();
                let a = swept[k];
                assert(ips0.contains_key(swept[k]) && is_stale(c0[swept[k]], now)
                    && self.free_sockets()[avail0.len() + k] == ips0[swept[k]].sock);
                assert(ips0.contains_key(a) && is_stale(c0[a], now) && ips0[a].sock == self.free_sockets()[i]);
            }
            assert forall|x: usize| #[trigger] self.socket_map().contains_key(x) <==> (s0.contains_key(x)
                && !is_stale(c0[s0[x]], now)) by {
                if s0.contains_key(x) {
                    assert(ips0.contains_key(s0[x]));
                    assert(done.contains(s0[x]));
                }
            }
            if forall|a: Endpoint| #[trigger] c0.contains_key(a) ==> !is_stale(c0[a], now) {
                assert(self.ip_map() =~= ips0);
                assert(self.counter_map() =~= c0);
                assert forall|x: usize| s0.contains_key(x) implies #[trigger] self.socket_map().contains_key(x) by {
                    assert(ips0.contains_key(s0[x]));
                    assert(c0.contains_key(s0[x]));
                }
                assert(self.socket_map() =~= s0);
                if swept.len() > 0 {
                    assert(ips0.contains_key(swept[0]));
                    assert(c0.contains_key(swept[0]));
                }
                assert(self.free_sockets() =~= avail0);
            }
        }
    }
}

/// A live binding's socket is never in the free pool, and the reverse table
/// leads from that socket back to the binding's client.
pub proof fn lemma_bound_socket_reserved(r: &Router, a: Endpoint)
    requires
        r.wf(),
        r.ip_map().contains_key(a),
        r.ip_map()[a].status == ConnStat::Connecting || r.ip_map()[a].status == ConnStat::Authenticated,
    ensures
        !r.free_sockets().contains(r.ip_map()[a].sock),
        r.socket_map()[r.ip_map()[a].sock] == a,
{
}

/// Free sockets and bindings that are not blocked together account for every
/// relay socket the router was given.
pub proof fn lemma_slots_conserved(r: &Router)
    requires
        r.wf(),
    ensures
        r.free_sockets().len() + r.ip_map().dom().filter(|a: Endpoint| r.ip_map()[a].status != ConnStat::Blocked).len()
            == r.slot_count(),
{
    let live = r.ip_map().dom().filter(|a: Endpoint| r.ip_map()[a].status != ConnStat::Blocked);
    assert(live =~= r.ip_map().dom());
}

/// An unknown client whose connect handshake names an admin is admitted
/// whenever a socket is free: it takes the last free socket, its binding is
/// Connecting, and the handshake is forwarded to the join target.
pub proof fn lemma_admin_admitted(
    t: Tables,
    tokens: Map<Seq<u8>, u64>,
    players: Set<u64>,
    payload: Seq<u8>,
    from: Endpoint,
    key: Seq<u8>,
    auth_enabled: bool,
    admins: Seq<u64>,
    target: Endpoint,
    now: u64,
)
    requires
        !t.0.contains_key(from),
        t.3.len() > 0,
        open_packet(key, payload).is_some(),
        is_connect(open_packet(key, payload)->0),
        admins.contains(handshake_user_id(open_packet(key, payload)->0)),
    ensures
        ({
            let (t2, act) = relay_spec(t, tokens, players, payload, from, key, auth_enabled, admins, target, now);
            &&& act == RelayAction::Forward { sock: t.3.last(), target: target }
            &&& t2.0.contains_key(from)
            &&& t2.0[from] == Binding { status: ConnStat::Connecting, sock: t.3.last(), target: target }
            &&& t2.3 == t.3.drop_last()
        }),
{
}

/// An unknown client whose user ID is neither an admin's nor a known
/// player's is never admitted: nothing changes and nothing is sent.
pub proof fn lemma_stranger_refused(
    t: Tables,
    tokens: Map<Seq<u8>, u64>,
    players: Set<u64>,
    payload: Seq<u8>,
    from: Endpoint,
    key: Seq<u8>,
    auth_enabled: bool,
    admins: Seq<u64>,
    target: Endpoint,
    now: u64,
)
    requires
        !t.0.contains_key(from),
        open_packet(key, payload).is_some() ==> !admins.contains(handshake_user_id(open_packet(key, payload)->0))
            && !players.contains(handshake_user_id(open_packet(key, payload)->0)),
    ensures
        relay_spec(t, tokens, players, payload, from, key, auth_enabled, admins, target, now) == (t, RelayAction::Drop),
{
}

/// An unknown client whose connect handshake names a known player who is not
/// an admin is admitted exactly when more sockets are free than there are
/// admins.
pub proof fn lemma_player_admitted_iff(
    t: Tables,
    tokens: Map<Seq<u8>, u64>,
    players: Set<u64>,
    payload: Seq<u8>,
    from: Endpoint,
    key: Seq<u8>,
    auth_enabled: bool,
    admins: Seq<u64>,
    target: Endpoint,
    now: u64,
)
    requires
        !t.0.contains_key(from),
        open_packet(key, payload).is_some(),
        is_connect(open_packet(key, payload)->0),
        !admins.contains(handshake_user_id(open_packet(key, payload)->0)),
        players.contains(handshake_user_id(open_packet(key, payload)->0)),
    ensures
        ({
            let (t2, act) = relay_spec(t, tokens, players, payload, from, key, auth_enabled, admins, target, now);
            &&& (t2.0.contains_key(from) <==> t.3.len() > admins.len())
            &&& (act != RelayAction::Drop <==> t.3.len() > admins.len())
        }),
{
}

/// A connecting binding becomes authenticated exactly when the datagram
/// opens to a plaintext that holds a user ID and, with authentication on,
/// carries a token issued for that user ID.
pub proof fn lemma_promotion_iff(
    t: Tables,
    tokens: Map<Seq<u8>, u64>,
    players: Set<u64>,
    payload: Seq<u8>,
    from: Endpoint,
    key: Seq<u8>,
    auth_enabled: bool,
    admins: Seq<u64>,
    target: Endpoint,
    now: u64,
)
    requires
        t.0.contains_key(from),
        t.0[from].status == ConnStat::Connecting,
    ensures
        ({
            let (t2, act) = relay_spec(t, tokens, players, payload, from, key, auth_enabled, admins, target, now);
            let opened = open_packet(key, payload);
            (t2.0.contains_key(from) && t2.0[from].status == ConnStat::Authenticated) <==> (opened.is_some()
                && opened->0.len() >= USER_ID_END && (!auth_enabled || token_grants(
                tokens,
                handshake_token(opened->0),
                handshake_user_id(opened->0),
            )))
        }),
{
}

/// Whether `id` is among `ids`.
pub fn contains_id(ids: &[u64], id: u64) -> (r: bool)
    ensures
        r == ids@.contains(id),
{
    let mut i: usize = 0;
    while i < ids.len()
        invariant
            i <= ids@.len(),
            forall|j: int| 0 <= j < i ==> ids@[j] != id,
        decreases ids@.len() - i,
    {
        if ids[i] == id {
            return true;
        }
        i = i + 1;
    }
    false
}

} // verus!
