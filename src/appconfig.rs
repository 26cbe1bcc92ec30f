use vstd::prelude::*;
use crate::codec::opt_bytes;
use crate::endpoint::Endpoint;

verus! {

/// The relay's configuration, fixed once loaded.
pub struct AppConfig {
    /// Server encryption key
    pub key: Vec<u8>,
    /// UDP address and port that clients reach
    pub udp_address: Endpoint,
    /// HTTP address and port of the auth surface
    pub auth_address: Endpoint,
    /// Address for binding relay sockets; its port should be 0
    pub relay_address: String,
    /// Number of permitted players, admins excluded
    pub player_count: usize,
    /// Size of the receive buffer
    pub receive_buf_size: usize,
    /// User IDs of the admins
    pub admins: Vec<u64>,
    /// Backend servers to relay to
    pub target_servers: Vec<Endpoint>,
    /// Which backend new players join
    pub join_target: usize,
    /// Whether clients must present a token from the master server
    pub auth_enabled: bool,
    /// URL of the master server
    pub auth_server: String,
    pub name: String,
    pub description: String,
    pub password: String,
    pub version: String,
    pub modinfo: String,
}


/// Every admin ID is decimal text of a `u64`.
pub open spec fn admins_valid(admins: Seq<String>) -> bool {
    forall|i: int| 0 <= i < admins.len() ==> (#[trigger] decimal_u64(admins[i]@)).is_some()
}

/// The first thing wrong with raw configuration values, if any.
pub open spec fn config_error(raw: RawConfig) -> Option<ConfigError> {
    if raw.key.is_none() {
        Some(ConfigError::MissingKey)
    } else if base64_decoded(raw.key->0@).is_none() || base64_decoded(raw.key->0@)->0.len() != 16 {
        Some(ConfigError::BadKey)
    } else if !admins_valid(raw.admins@) {
        Some(ConfigError::BadAdminId)
    } else if raw.target_servers@.len() == 0 {
        Some(ConfigError::NoTargetServers)
    } else if raw.player_count < 0 || raw.player_count > usize::MAX {
        Some(ConfigError::BadPlayerCount)
    } else if raw.receive_buf_size < 0 || raw.receive_buf_size > usize::MAX {
        Some(ConfigError::BadBufferSize)
    } else if raw.join_target < 0 || raw.join_target >= raw.target_servers@.len() {
        Some(ConfigError::BadJoinTarget)
    } else {
        None
    }
}

impl AppConfig {
    /// Builds the configuration from raw values: the key is decoded from
    /// base64 and must be 16 bytes, admin IDs are parsed, at least one
    /// backend is required, counts must fit, and the join target must name a
    /// backend.
    pub fn new(raw: RawConfig) -> (r: Result<AppConfig, ConfigError>)
        ensures
            r.is_err() <==> config_error(raw).is_some(),
            r.is_err() ==> config_error(raw) == Some(r->Err_0),
            r.is_ok() ==> r->Ok_0.wf(),
            r.is_ok() ==> r->Ok_0.key@ == base64_decoded(raw.key->0@)->0,
            r.is_ok() ==> r->Ok_0.admins@.len() == raw.admins@.len() && forall|i: int|
                0 <= i < raw.admins@.len() ==> r->Ok_0.admins@[i] == (#[trigger] decimal_u64(raw.admins@[i]@))->0,
            r.is_ok() ==> r->Ok_0.target_servers@ == raw.target_servers@ && r->Ok_0.join_target == raw.join_target
                && r->Ok_0.player_count == raw.player_count && r->Ok_0.receive_buf_size == raw.receive_buf_size,
            r.is_ok() ==> r->Ok_0.udp_address == raw.udp_address && r->Ok_0.auth_address == raw.auth_address
                && r->Ok_0.auth_enabled == raw.auth_enabled,
            r.is_ok() ==> r->Ok_0.relay_address@ == raw.relay_address@ && r->Ok_0.auth_server@ == raw.auth_server@
                && r->Ok_0.name@ == raw.name@ && r->Ok_0.description@ == raw.description@,
            r.is_ok() ==> r->Ok_0.password@ == raw.password@ && r->Ok_0.version@ == raw.version@
                && r->Ok_0.modinfo@ == raw.modinfo@,
    {
        let ghost raw0 = raw;
        let key = match &raw.key {
            None => return Err(ConfigError::MissingKey),
            Some(k) => match decode_base64(k.as_str()) {
                None => return Err(ConfigError::BadKey),
                Some(bytes) => bytes,
            },
        };
        if key.len() != 16 {
            return Err(ConfigError::BadKey);
        }
        let mut admins: Vec<u64> = Vec::new();
        let mut i: usize = 0;
        while i < raw.admins.len()
            invariant
                raw == raw0,
                raw.key.is_some(),
                base64_decoded(raw.key->0@) == Some(key@),
                key@.len() == 16,
                i <= raw.admins@.len(),
                admins@.len() == i,
                forall|j: int| 0 <= j < i ==> (#[trigger] decimal_u64(raw.admins@[j]@)).is_some()
                    && admins@[j] == decimal_u64(raw.admins@[j]@)->0,
            decreases raw.admins@.len() - i,
        {
            match parse_u64(raw.admins[i].as_str()) {
                None => {
                    assert(decimal_u64(raw.admins@[i as int]@).is_none());
                    assert(!admins_valid(raw.admins@));
                    return Err(ConfigError::BadAdminId);
                },
                Some(id) => admins.push(id),
            }
            i = i + 1;
        }
        if raw.target_servers.len() == 0 {
            return Err(ConfigError::NoTargetServers);
        }
        if raw.player_count < 0 || raw.player_count as u64 > usize::MAX as u64 {
            return Err(ConfigError::BadPlayerCount);
        }
        if raw.receive_buf_size < 0 || raw.receive_buf_size as u64 > usize::MAX as u64 {
            return Err(ConfigError::BadBufferSize);
        }
        if raw.join_target < 0 || raw.join_target as u64 >= raw.target_servers.len() as u64 {
            return Err(ConfigError::BadJoinTarget);
        }
        Ok(AppConfig {
            key,
            udp_address: raw.udp_address,
            auth_address: raw.auth_address,
            relay_address: raw.relay_address,
            player_count: raw.player_count as usize,
            receive_buf_size: raw.receive_buf_size as usize,
            admins,
            target_servers: raw.target_servers,
            join_target: raw.join_target as usize,
            auth_enabled: raw.auth_enabled,
            auth_server: raw.auth_server,
            name: raw.name,
            description: raw.description,
            password: raw.password,
            version: raw.version,
            modinfo: raw.modinfo,
        })
    }

    /// The configuration can drive the router: a 16-byte key and a join
    /// target among a non-empty list of backends.
    pub open spec fn wf(&self) -> bool {
        &&& self.key@.len() == 16
        &&& self.target_servers@.len() > 0
        &&& self.join_target < self.target_servers@.len()
    }
}

/// Configuration values as the configuration sources give them, with the
/// addresses already resolved.
pub struct RawConfig {
    /// Base64 text of the key, if one was given
    pub key: Option<String>,
    pub udp_address: Endpoint,
    pub auth_address: Endpoint,
    pub relay_address: String,
    pub player_count: i64,
    pub receive_buf_size: i64,
    /// Admin user IDs, as decimal text
    pub admins: Vec<String>,
    pub target_servers: Vec<Endpoint>,
    pub join_target: i64,
    pub auth_enabled: bool,
    pub auth_server: String,
    pub name: String,
    pub description: String,
    pub password: String,
    pub version: String,
    pub modinfo: String,
}

/// Why a configuration was rejected.
#[derive(Clone, Copy, Debug, PartialEq, Eq, Structural)]
pub enum ConfigError {
    /// No key was given.
    MissingKey,
    /// The key is not base64 of 16 bytes.
    BadKey,
    /// An admin ID is not a decimal `u64`.
    BadAdminId,
    /// No backend server was given.
    NoTargetServers,
    /// The player count is negative or too large.
    BadPlayerCount,
    /// The receive buffer size is negative or too large.
    BadBufferSize,
    /// The join target is not an index into the backend list.
    BadJoinTarget,
}

/// Base64 decoding (standard alphabet) of the text, or `None` where it is
/// not valid base64.
pub uninterp spec fn base64_decoded(s: Seq<char>) -> Option<Seq<u8>>;

/// Relies on base64's `decode`: the standard alphabet, and a result that
/// depends on the text alone.
#[verifier::external_body]
fn decode_base64(s: &str) -> (r: Option<Vec<u8>>)
    ensures
        opt_bytes(r) == base64_decoded(s@),
{
    base64::decode(s).ok()
}

/// Value of a string of decimal digits.
pub open spec fn digits_value(s: Seq<char>) -> int
    decreases s.len(),
{
    if s.len() == 0 {
        0
    } else {
        digits_value(s.drop_last()) * 10 + (s.last() as int - '0' as int)
    }
}

pub open spec fn all_digits(s: Seq<char>) -> bool {
    forall|i: int| 0 <= i < s.len() ==> '0' <= #[trigger] s[i] <= '9'
}

/// Decimal text without its optional leading `+`.
pub open spec fn unsigned_part(s: Seq<char>) -> Seq<char> {
    if s.len() > 0 && s[0] == '+' {
        s.drop_first()
    } else {
        s
    }
}

/// The `u64` that decimal text denotes: digits, after an optional `+`.
pub open spec fn decimal_u64(s: Seq<char>) -> Option<u64> {
    let d = unsigned_part(s);
    if d.len() > 0 && all_digits(d) && digits_value(d) <= u64::MAX {
        Some(digits_value(d) as u64)
    } else {
        None
    }
}

proof fn lemma_digits_value_nonneg(s: Seq<char>)
    requires
        all_digits(s),
    ensures
        digits_value(s) >= 0,
    decreases s.len(),
{
    if s.len() > 0 {
        assert(all_digits(s.drop_last())) by {
            assert forall|i: int| 0 <= i < s.drop_last().len() implies '0' <= #[trigger] s.drop_last()[i] <= '9' by {
                assert(s.drop_last()[i] == s[i]);
            }
        }
        lemma_digits_value_nonneg(s.drop_last());
    }
}

/// Parses decimal text into a `u64`.
pub fn parse_u64(s: &str) -> (r: Option<u64>)
    ensures
        r == decimal_u64(s@),
{
    let n = s.unicode_len();
    let start: usize = if n > 0 && s.get_char(0) == '+' { 1 } else { 0 };
    let ghost d = unsigned_part(s@);
    assert(d =~= s@.subrange(start as int, n as int));
    if start >= n {
        return None;
    }
    let mut acc: u64 = 0;
    let mut i: usize = start;
    while i < n
        invariant
            start <= i <= n,
            n == s@.len(),
            d =~= s@.subrange(start as int, n as int),
            d == unsigned_part(s@),
            all_digits(s@.subrange(start as int, i as int)),
            acc == digits_value(s@.subrange(start as int, i as int)),
        decreases n - i,
    {
        let c = s.get_char(i);
        let ghost pre = s@.subrange(start as int, i as int);
        let ghost next = s@.subrange(start as int, i + 1);
        assert(next.drop_last() =~= pre);
        if c < '0' || c > '9' {
            assert(d[i - start] == c);
            assert(!all_digits(d));
            return None;
        }
        let digit = (c as u32 - '0' as u32) as u64;
        assert(all_digits(next)) by {
            assert forall|k: int| 0 <= k < next.len() implies '0' <= #[trigger] next[k] <= '9' by {
                if k < pre.len() {
                    assert(next[k] == pre[k]);
                }
            }
        }
        if acc > (u64::MAX - digit) / 10 {
            proof {
                assert(acc * 10 + digit > u64::MAX) by (nonlinear_arith)
                    requires
                        acc > (u64::MAX - digit) / 10,
                        digit <= 9,
                ;
                assert(digits_value(next) == acc * 10 + digit);
                if all_digits(d) {
                    lemma_prefix_value_bound(d, (i + 1 - start) as int);
                    assert(d.subrange(0, (i + 1 - start) as int) =~= next);
                }
            }
            return None;
        }
        acc = acc * 10 + digit;
        i = i + 1;
    }
    assert(s@.subrange(start as int, n as int) =~= d);
    Some(acc)
}

/// The value of a digit string is at least the value of each of its prefixes.
proof fn lemma_prefix_value_bound(s: Seq<char>, k: int)
    requires
        all_digits(s),
        0 <= k <= s.len(),
    ensures
        digits_value(s) >= digits_value(s.subrange(0, k)),
    decreases s.len(),
{
    if k < s.len() {
        let t = s.drop_last();
        assert(all_digits(t)) by {
            assert forall|i: int| 0 <= i < t.len() implies '0' <= #[trigger] t[i] <= '9' by {
                assert(t[i] == s[i]);
            }
        }
        lemma_prefix_value_bound(t, k);
        assert(t.subrange(0, k) =~= s.subrange(0, k));
        lemma_digits_value_nonneg(t);
    } else {
        assert(s.subrange(0, k) =~= s);
    }
}

} // verus!
