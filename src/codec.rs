use vstd::prelude::*;
use aes_gcm::{AeadInPlace, Aes128Gcm, KeyInit, Nonce};
use generic_array::GenericArray;
use rand::Rng;

verus! {

/// Largest plaintext that AES-GCM seals, in bytes.
pub const MAX_SEALED_LEN: u64 = 0x10_0000_0000;

/// Length of the nonce that leads every sealed packet.
pub const NONCE_LEN: usize = 12;

/// Length of the GCM tag that follows the nonce.
pub const TAG_LEN: usize = 16;

/// Nonce and tag together: the shortest packet that can be opened.
pub const HEADER_LEN: usize = 28;

/// Offset in a connect packet where the username starts.
pub const USERNAME_OFFSET: usize = 29;

/// Number of bytes of an auth token in a connect packet.
pub const TOKEN_LEN: usize = 31;

/// Associated data that authenticates every packet.
pub open spec fn aad_bytes() -> Seq<u8> {
    seq![1u8, 2u8, 3u8, 4u8, 5u8, 6u8, 7u8, 8u8, 9u8, 10u8, 11u8, 12u8, 13u8, 14u8, 15u8, 16u8]
}

/// Prefix of a decrypted connect handshake: `FF FF FF FF "Hconnect" 00`.
pub open spec fn connect_magic() -> Seq<u8> {
    seq![0xFFu8, 0xFFu8, 0xFFu8, 0xFFu8, 0x48u8, 0x63u8, 0x6Fu8, 0x6Eu8, 0x6Eu8, 0x65u8, 0x63u8, 0x74u8, 0x00u8]
}

/// Prefix of the reply to the master server's challenge: `FF FF FF FF "ITtFr"`.
pub open spec fn challenge_magic() -> Seq<u8> {
    seq![0xFFu8, 0xFFu8, 0xFFu8, 0xFFu8, 0x49u8, 0x54u8, 0x74u8, 0x46u8, 0x72u8]
}

pub fn aad() -> (r: Vec<u8>)
    ensures
        r@ == aad_bytes(),
{
    let r = vec![1u8, 2u8, 3u8, 4u8, 5u8, 6u8, 7u8, 8u8, 9u8, 10u8, 11u8, 12u8, 13u8, 14u8, 15u8, 16u8];
    assert(r@ =~= aad_bytes());
    r
}


pub fn connect_magic_bytes() -> (r: Vec<u8>)
    ensures
        r@ == connect_magic(),
{
    let r = vec![0xFFu8, 0xFFu8, 0xFFu8, 0xFFu8, 0x48u8, 0x63u8, 0x6Fu8, 0x6Eu8, 0x6Eu8, 0x65u8, 0x63u8, 0x74u8, 0x00u8];
    assert(r@ =~= connect_magic());
    r
}

pub fn challenge_magic_bytes() -> (r: Vec<u8>)
    ensures
        r@ == challenge_magic(),
{
    let r = vec![0xFFu8, 0xFFu8, 0xFFu8, 0xFFu8, 0x49u8, 0x54u8, 0x74u8, 0x46u8, 0x72u8];
    assert(r@ =~= challenge_magic());
    r
}

/// AES-128-GCM opening of `body` under `key`, `nonce` and `aad`, checked against
/// `tag`: the plaintext, or `None` where the tag does not match.
pub uninterp spec fn gcm_open(key: Seq<u8>, nonce: Seq<u8>, aad: Seq<u8>, body: Seq<u8>, tag: Seq<u8>) -> Option<Seq<u8>>;

/// AES-128-GCM sealing of `plain` under `key`, `nonce` and `aad`: the
/// ciphertext and the 16-byte tag.
pub uninterp spec fn gcm_seal(key: Seq<u8>, nonce: Seq<u8>, aad: Seq<u8>, plain: Seq<u8>) -> (Seq<u8>, Seq<u8>);

/// The bytes held by an optional buffer.
pub open spec fn opt_bytes(r: Option<Vec<u8>>) -> Option<Seq<u8>> {
    match r {
        Some(v) => Some(v@),
        None => None,
    }
}

/// Relies on aes_gcm's `AeadInPlace::decrypt_in_place_detached` for
/// `Aes128Gcm`: the tag is checked before the buffer is touched, decryption
/// keeps the length, and what was sealed with the same key, nonce and
/// associated data opens to the sealed plaintext.
#[verifier::external_body]
fn aes_open(key: &[u8], nonce: &[u8], aad: &[u8], body: &[u8], tag: &[u8]) -> (r: Option<Vec<u8>>)
    requires
        key@.len() == 16,
        nonce@.len() == NONCE_LEN,
        tag@.len() == TAG_LEN,
    ensures
        opt_bytes(r) == gcm_open(key@, nonce@, aad@, body@, tag@),
        r.is_some() ==> r->0@.len() == body@.len(),
        forall|p: Seq<u8>|
            p.len() <= MAX_SEALED_LEN && aad@.len() <= MAX_SEALED_LEN && #[trigger] gcm_seal(key@, nonce@, aad@, p) == (body@, tag@)
                ==> opt_bytes(r) == Some(p),
{
    let cipher = Aes128Gcm::new(GenericArray::from_slice(key));
    let mut buf = body.to_vec();
    match cipher.decrypt_in_place_detached(Nonce::from_slice(nonce), aad, &mut buf, GenericArray::from_slice(tag)) {
        Ok(()) => Some(buf),
        Err(_) => None,
    }
}

/// Relies on aes_gcm's `AeadInPlace::encrypt_in_place_detached` for
/// `Aes128Gcm`: the ciphertext has the plaintext's length and the tag has 16
/// bytes; it fails only on inputs longer than 2^36 bytes.
#[verifier::external_body]
fn aes_seal(key: &[u8], nonce: &[u8], aad: &[u8], plain: &[u8]) -> (r: (Vec<u8>, Vec<u8>))
    requires
        key@.len() == 16,
        nonce@.len() == NONCE_LEN,
        plain@.len() <= MAX_SEALED_LEN,
        aad@.len() <= MAX_SEALED_LEN,
    ensures
        (r.0@, r.1@) == gcm_seal(key@, nonce@, aad@, plain@),
        r.0@.len() == plain@.len(),
        r.1@.len() == TAG_LEN,
{
    let cipher = Aes128Gcm::new(GenericArray::from_slice(key));
    let mut buf = plain.to_vec();
    let tag = cipher.encrypt_in_place_detached(Nonce::from_slice(nonce), aad, &mut buf)
        .expect("input within the AES-GCM length limits");
    (buf, tag.to_vec())
}

/// Relies on rand's `thread_rng`: twelve bytes drawn at random.
#[verifier::external_body]
fn random_nonce() -> (r: Vec<u8>)
    ensures
        r@.len() == NONCE_LEN,
{
    rand::thread_rng().gen::<[u8; 12]>().to_vec()
}

/// What a packet opens to under `key`: packets shorter than nonce and tag
/// never open.
pub open spec fn open_packet(key: Seq<u8>, packet: Seq<u8>) -> Option<Seq<u8>> {
    if packet.len() < HEADER_LEN {
        None
    } else {
        gcm_open(
            key,
            packet.subrange(0, NONCE_LEN as int),
            aad_bytes(),
            packet.subrange(HEADER_LEN as int, packet.len() as int),
            packet.subrange(NONCE_LEN as int, HEADER_LEN as int),
        )
    }
}

/// `packet` carries `plain` sealed under `key` and `nonce`: nonce, then a
/// 16-byte tag, then ciphertext.
pub open spec fn is_sealed_packet(key: Seq<u8>, nonce: Seq<u8>, plain: Seq<u8>, packet: Seq<u8>) -> bool {
    let s = gcm_seal(key, nonce, aad_bytes(), plain);
    &&& nonce.len() == NONCE_LEN
    &&& s.1.len() == TAG_LEN
    &&& packet == nonce + s.1 + s.0
}

/// Opens a packet laid out as nonce, tag, ciphertext. Any packet that
/// `encrypt` made under the same key opens to what was encrypted.
pub fn decrypt(packet: &[u8], key: &[u8]) -> (r: Option<Vec<u8>>)
    requires
        key@.len() == 16,
    ensures
        opt_bytes(r) == open_packet(key@, packet@),
        r.is_some() ==> r->0@.len() == packet@.len() - HEADER_LEN,
        forall|nonce: Seq<u8>, x: Seq<u8>|
            x.len() <= MAX_SEALED_LEN && #[trigger] is_sealed_packet(key@, nonce, x, packet@)
                ==> opt_bytes(r) == Some(x),
{
    if packet.len() < HEADER_LEN {
        return None;
    }
    let a = aad();
    let nonce = vstd::slice::slice_subrange(packet, 0, NONCE_LEN);
    let tag = vstd::slice::slice_subrange(packet, NONCE_LEN, HEADER_LEN);
    let body = vstd::slice::slice_subrange(packet, HEADER_LEN, packet.len());
    let r = aes_open(key, nonce, a.as_slice(), body, tag);
    proof {
        assert forall|n: Seq<u8>, x: Seq<u8>|
            x.len() <= MAX_SEALED_LEN && #[trigger] is_sealed_packet(key@, n, x, packet@)
            implies opt_bytes(r) == Some(x) by {
            let s = gcm_seal(key@, n, aad_bytes(), x);
            assert(packet@.subrange(0, NONCE_LEN as int) =~= n);
            assert(packet@.subrange(NONCE_LEN as int, HEADER_LEN as int) =~= s.1);
            assert(packet@.subrange(HEADER_LEN as int, packet@.len() as int) =~= s.0);
            assert(gcm_seal(key@, nonce@, a@, x) == (body@, tag@));
        }
    }
    r
}


/// Seals `plain` under `key` with the given nonce: nonce, tag, ciphertext.
pub fn encrypt_with_nonce(plain: &[u8], key: &[u8], nonce: &[u8]) -> (r: Vec<u8>)
    requires
        key@.len() == 16,
        nonce@.len() == NONCE_LEN,
        plain@.len() <= MAX_SEALED_LEN,
    ensures
        is_sealed_packet(key@, nonce@, plain@, r@),
        r@.len() == plain@.len() + HEADER_LEN,
{
    let a = aad();
    let (mut body, mut tag) = aes_seal(key, nonce, a.as_slice(), plain);
    let mut out = vstd::slice::slice_to_vec(nonce);
    out.append(&mut tag);
    out.append(&mut body);
    out
}

/// Seals `plain` under `key` with a fresh random nonce.
pub fn encrypt(plain: &[u8], key: &[u8]) -> (r: Vec<u8>)
    requires
        key@.len() == 16,
        plain@.len() <= MAX_SEALED_LEN,
    ensures
        exists|nonce: Seq<u8>| is_sealed_packet(key@, nonce, plain@, r@),
        r@.len() == plain@.len() + HEADER_LEN,
{
    let nonce = random_nonce();
    encrypt_with_nonce(plain, key, nonce.as_slice())
}

/// The unsigned integer that eight bytes encode, least significant first.
pub open spec fn le_u64(b: Seq<u8>) -> int {
    b[0] + b[1] * 0x100 + b[2] * 0x1_0000 + b[3] * 0x100_0000 + b[4] * 0x1_0000_0000
        + b[5] * 0x100_0000_0000 + b[6] * 0x1_0000_0000_0000 + b[7] * 0x100_0000_0000_0000
}

/// Offset of the user ID in a decrypted connect handshake.
pub const USER_ID_OFFSET: usize = 13;

/// End of the user ID in a decrypted connect handshake.
pub const USER_ID_END: usize = 21;

/// The user ID that a decrypted handshake carries after its magic.
pub open spec fn handshake_user_id(plain: Seq<u8>) -> u64 {
    le_u64(plain.subrange(USER_ID_OFFSET as int, USER_ID_END as int)) as u64
}

/// A decrypted packet is a connect handshake: it starts with the connect
/// magic and holds a user ID.
pub open spec fn is_connect(plain: Seq<u8>) -> bool {
    plain.len() >= USER_ID_END && plain.subrange(0, USER_ID_OFFSET as int) == connect_magic()
}

/// Reads the little-endian `u64` at `at`.
pub fn read_u64_le(b: &[u8], at: usize) -> (r: u64)
    requires
        at + 8 <= b@.len(),
    ensures
        r == le_u64(b@.subrange(at as int, at + 8)),
{
    let ghost s = b@.subrange(at as int, at + 8);
    assert(s[0] == b@[at as int] && s[1] == b@[at + 1] && s[2] == b@[at + 2] && s[3] == b@[at + 3]);
    assert(s[4] == b@[at + 4] && s[5] == b@[at + 5] && s[6] == b@[at + 6] && s[7] == b@[at + 7]);
    b[at] as u64 + b[at + 1] as u64 * 0x100 + b[at + 2] as u64 * 0x1_0000 + b[at + 3] as u64 * 0x100_0000
        + b[at + 4] as u64 * 0x1_0000_0000 + b[at + 5] as u64 * 0x100_0000_0000
        + b[at + 6] as u64 * 0x1_0000_0000_0000 + b[at + 7] as u64 * 0x100_0000_0000_0000
}

/// Whether a decrypted packet is a connect handshake.
pub fn has_connect_magic(plain: &[u8]) -> (r: bool)
    ensures
        r == is_connect(plain@),
{
    if plain.len() < USER_ID_END {
        return false;
    }
    let magic = connect_magic_bytes();
    let mut i: usize = 0;
    while i < USER_ID_OFFSET
        invariant
            i <= USER_ID_OFFSET,
            plain@.len() >= USER_ID_END,
            magic@ == connect_magic(),
            forall|j: int| 0 <= j < i ==> plain@[j] == connect_magic()[j],
        decreases USER_ID_OFFSET - i,
    {
        if plain[i] != magic[i] {
            assert(plain@.subrange(0, USER_ID_OFFSET as int)[i as int] != connect_magic()[i as int]);
            return false;
        }
        i = i + 1;
    }
    assert(plain@.subrange(0, USER_ID_OFFSET as int) =~= connect_magic());
    true
}

/// Index of the first zero byte of `p` at or after `from`, or `p.len()`.
pub open spec fn first_zero(p: Seq<u8>, from: int) -> int
    decreases p.len() - from,
{
    if from >= p.len() {
        p.len() as int
    } else if p[from] == 0 {
        from
    } else {
        first_zero(p, from + 1)
    }
}

/// The auth token of a decrypted connect handshake: the 31 bytes after the
/// zero byte that ends the username, which starts at offset 29.
pub open spec fn handshake_token(p: Seq<u8>) -> Option<Seq<u8>> {
    let z = first_zero(p, USERNAME_OFFSET as int);
    if z + 1 + TOKEN_LEN <= p.len() {
        Some(p.subrange(z + 1, z + 1 + TOKEN_LEN))
    } else {
        None
    }
}

proof fn lemma_first_zero_bounds(p: Seq<u8>, from: int)
    requires
        0 <= from,
    ensures
        from <= p.len() ==> from <= first_zero(p, from) <= p.len(),
        from > p.len() ==> first_zero(p, from) == p.len(),
    decreases p.len() - from,
{
    if from < p.len() && p[from] != 0 {
        lemma_first_zero_bounds(p, from + 1);
    }
}

/// Finds the zero byte that ends the username.
fn find_zero(p: &[u8], from: usize) -> (r: usize)
    ensures
        r == first_zero(p@, from as int),
{
    let mut i = from;
    while i < p.len()
        invariant
            from <= i,
            first_zero(p@, from as int) == first_zero(p@, i as int),
        decreases p@.len() - i,
    {
        if p[i] == 0 {
            return i;
        }
        i = i + 1;
    }
    p.len()
}

/// Reads the auth token out of a decrypted connect handshake.
pub fn read_token(p: &[u8]) -> (r: Option<Vec<u8>>)
    ensures
        opt_bytes(r) == handshake_token(p@),
{
    let z = find_zero(p, USERNAME_OFFSET);
    proof {
        lemma_first_zero_bounds(p@, USERNAME_OFFSET as int);
    }
    if z < p.len() && TOKEN_LEN < p.len() - z {
        let t = vstd::slice::slice_subrange(p, z + 1, z + 1 + TOKEN_LEN);
        Some(vstd::slice::slice_to_vec(t))
    } else {
        None
    }
}

/// The plaintext that answers the master server's challenge: the challenge
/// magic and the user ID field of the challenge.
pub open spec fn challenge_reply_of(plain: Seq<u8>) -> Option<Seq<u8>> {
    if plain.len() >= USER_ID_END {
        Some(challenge_magic() + plain.subrange(USER_ID_OFFSET as int, USER_ID_END as int))
    } else {
        None
    }
}

/// Answers a challenge packet with the given nonce: `None` where the packet
/// does not open or is too short to hold a user ID.
pub fn challenge_reply(packet: &[u8], key: &[u8], nonce: &[u8]) -> (r: Option<Vec<u8>>)
    requires
        key@.len() == 16,
        nonce@.len() == NONCE_LEN,
    ensures
        r.is_some() <==> (open_packet(key@, packet@).is_some()
            && challenge_reply_of(open_packet(key@, packet@)->0).is_some()),
        r.is_some() ==> is_sealed_packet(
            key@,
            nonce@,
            challenge_reply_of(open_packet(key@, packet@)->0)->0,
            r->0@,
        ),
{
    match decrypt(packet, key) {
        None => None,
        Some(plain) => {
            if plain.len() < USER_ID_END {
                return None;
            }
            let mut reply = challenge_magic_bytes();
            let id = vstd::slice::slice_subrange(plain.as_slice(), USER_ID_OFFSET, USER_ID_END);
            let mut idv = vstd::slice::slice_to_vec(id);
            reply.append(&mut idv);
            assert(reply@ =~= challenge_reply_of(plain@)->0);
            Some(encrypt_with_nonce(reply.as_slice(), key, nonce))
        },
    }
}

/// Answers a challenge packet from the master server, sealed with a fresh
/// random nonce.
pub fn challenge_response(packet: &[u8], key: &[u8]) -> (r: Option<Vec<u8>>)
    requires
        key@.len() == 16,
    ensures
        r.is_some() <==> (open_packet(key@, packet@).is_some()
            && challenge_reply_of(open_packet(key@, packet@)->0).is_some()),
        r.is_some() ==> exists|nonce: Seq<u8>|
            is_sealed_packet(key@, nonce, challenge_reply_of(open_packet(key@, packet@)->0)->0, r->0@),
{
    let nonce = random_nonce();
    challenge_reply(packet, key, nonce.as_slice())
}

} // verus!
