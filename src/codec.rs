//! The authenticated packet codec.
use chacha20::cipher::{KeyIvInit, StreamCipher, StreamCipherSeek};
use chacha20::ChaCha20;
use poly1305::universal_hash::KeyInit;
use poly1305::Poly1305;
use crate::random::random_bytes;
use vstd::prelude::*;

verus! {

/// `n` rounded up to a multiple of `l`.
pub open spec fn round_up(n: nat, l: nat) -> nat
    recommends
        l > 0,
{
    if n % l == 0 {
        n
    } else {
        n + (l - n % l) as nat
    }
}

/// `n` zero bytes.
pub open spec fn zeros(n: nat) -> Seq<u8> {
    Seq::new(n, |i: int| 0u8)
}

/// `s` followed by zero bytes up to a multiple of `l` in length.
pub open spec fn padded(s: Seq<u8>, l: nat) -> Seq<u8>
    recommends
        l > 0,
{
    s + zeros((round_up(s.len(), l) - s.len()) as nat)
}

/// Appends the bytes of `s` to `out`.
pub fn append_bytes(out: &mut Vec<u8>, s: &[u8])
    requires
        old(out)@.len() + s@.len() <= usize::MAX,
    ensures
        final(out)@ == old(out)@ + s@,
{
    let mut i: usize = 0;
    while i < s.len()
        invariant
            i <= s@.len(),
            out@ == old(out)@ + s@.subrange(0, i as int),
        decreases s@.len() - i,
    {
        out.push(s[i]);
        i += 1;
        assert(out@ =~= old(out)@ + s@.subrange(0, i as int));
    }
    assert(s@.subrange(0, i as int) =~= s@);
}

/// A copy of `s`.
pub fn copy_bytes(s: &[u8]) -> (r: Vec<u8>)
    ensures
        r@ == s@,
{
    let len = s.len();
    let mut out: Vec<u8> = Vec::new();
    let mut i: usize = 0;
    while i < len
        invariant
            i <= len,
            len == s@.len(),
            out@ == s@.subrange(0, i as int),
        decreases len - i,
    {
        out.push(s[i]);
        i += 1;
        assert(out@ =~= s@.subrange(0, i as int));
    }
    assert(s@.subrange(0, len as int) =~= s@);
    out
}

/// Returns a copy of `d` padded with zero bytes to a multiple of `l` in length.
pub fn pad_copy(d: &[u8], l: usize) -> (r: Vec<u8>)
    requires
        l > 0,
        d@.len() + l <= usize::MAX,
    ensures
        r@ == padded(d@, l as nat),
{
    let mut out = copy_bytes(d);
    pad(&mut out, l);
    out
}

/// Pads `d` in place with zero bytes to a multiple of `l` in length.
pub fn pad(d: &mut Vec<u8>, l: usize)
    requires
        l > 0,
        old(d)@.len() + l <= usize::MAX,
    ensures
        final(d)@ == padded(old(d)@, l as nat),
{
    let diff = d.len() % l;
    if diff != 0 {
        let target = d.len() + (l - diff);
        while d.len() < target
            invariant
                old(d)@.len() <= d@.len() <= target,
                target == round_up(old(d)@.len() as nat, l as nat),
                d@ == old(d)@ + zeros((d@.len() - old(d)@.len()) as nat),
            decreases target - d@.len(),
        {
            d.push(0u8);
            assert(d@ =~= old(d)@ + zeros((d@.len() - old(d)@.len()) as nat));
        }
    }
    assert(d@ =~= padded(old(d)@, l as nat));
}

/// The eight little-endian bytes of `n`.
pub open spec fn le64(n: u64) -> Seq<u8> {
    seq![
        n as u8,
        (n >> 8u64) as u8,
        (n >> 16u64) as u8,
        (n >> 24u64) as u8,
        (n >> 32u64) as u8,
        (n >> 40u64) as u8,
        (n >> 48u64) as u8,
        (n >> 56u64) as u8,
    ]
}

/// The number whose little-endian bytes are the first eight of `b`.
pub open spec fn le64_value(b: Seq<u8>) -> u64
    recommends
        b.len() >= 8,
{
    (b[0] as u64) | ((b[1] as u64) << 8u64) | ((b[2] as u64) << 16u64) | ((b[3] as u64) << 24u64)
        | ((b[4] as u64) << 32u64) | ((b[5] as u64) << 40u64) | ((b[6] as u64) << 48u64) | ((
    b[7] as u64) << 56u64)
}

pub proof fn lemma_le64_round_trip(n: u64)
    ensures
        le64_value(le64(n)) == n,
{
    let b = le64(n);
    assert(b[0] == n as u8 && b[1] == (n >> 8u64) as u8 && b[2] == (n >> 16u64) as u8 && b[3] == (n
        >> 24u64) as u8 && b[4] == (n >> 32u64) as u8 && b[5] == (n >> 40u64) as u8 && b[6] == (n
        >> 48u64) as u8 && b[7] == (n >> 56u64) as u8);
    assert(((n as u8) as u64) | ((((n >> 8u64) as u8) as u64) << 8u64) | ((((n >> 16u64) as u8)
        as u64) << 16u64) | ((((n >> 24u64) as u8) as u64) << 24u64) | ((((n >> 32u64) as u8)
        as u64) << 32u64) | ((((n >> 40u64) as u8) as u64) << 40u64) | ((((n >> 48u64) as u8)
        as u64) << 48u64) | ((((n >> 56u64) as u8) as u64) << 56u64) == n) by (bit_vector);
}

proof fn lemma_le64_bytes(b: Seq<u8>)
    requires
        b.len() == 8,
    ensures
        le64(le64_value(b)) == b,
{
    let (b0, b1, b2, b3, b4, b5, b6, b7) = (b[0], b[1], b[2], b[3], b[4], b[5], b[6], b[7]);
    let n = le64_value(b);
    assert(n == (b0 as u64) | ((b1 as u64) << 8u64) | ((b2 as u64) << 16u64) | ((b3 as u64)
        << 24u64) | ((b4 as u64) << 32u64) | ((b5 as u64) << 40u64) | ((b6 as u64) << 48u64) | ((
    b7 as u64) << 56u64));
    assert({
        let m = (b0 as u64) | ((b1 as u64) << 8u64) | ((b2 as u64) << 16u64) | ((b3 as u64)
            << 24u64) | ((b4 as u64) << 32u64) | ((b5 as u64) << 40u64) | ((b6 as u64) << 48u64)
            | ((b7 as u64) << 56u64);
        &&& m as u8 == b0
        &&& (m >> 8u64) as u8 == b1
        &&& (m >> 16u64) as u8 == b2
        &&& (m >> 24u64) as u8 == b3
        &&& (m >> 32u64) as u8 == b4
        &&& (m >> 40u64) as u8 == b5
        &&& (m >> 48u64) as u8 == b6
        &&& (m >> 56u64) as u8 == b7
    }) by (bit_vector);
    assert(le64(n) =~= b);
}

/// Appends the eight little-endian bytes of `n` to `out`.
fn push_le64(out: &mut Vec<u8>, n: u64)
    requires
        old(out)@.len() + 8 <= usize::MAX,
    ensures
        final(out)@ == old(out)@ + le64(n),
{
    out.push(n as u8);
    out.push((n >> 8u64) as u8);
    out.push((n >> 16u64) as u8);
    out.push((n >> 24u64) as u8);
    out.push((n >> 32u64) as u8);
    out.push((n >> 40u64) as u8);
    out.push((n >> 48u64) as u8);
    out.push((n >> 56u64) as u8);
    assert(out@ =~= old(out)@ + le64(n));
}

/// Reads the little-endian number held by `b[at..at + 8]`.
fn read_le64(b: &[u8], at: usize) -> (r: u64)
    requires
        at + 8 <= b@.len(),
    ensures
        r == le64_value(b@.subrange(at as int, at + 8)),
{
    (b[at] as u64) | ((b[at + 1] as u64) << 8u64) | ((b[at + 2] as u64) << 16u64) | ((b[at
        + 3] as u64) << 24u64) | ((b[at + 4] as u64) << 32u64) | ((b[at + 5] as u64) << 40u64)
        | ((b[at + 6] as u64) << 48u64) | ((b[at + 7] as u64) << 56u64)
}

/// The key shared by both ends of the protocol.
pub open spec fn shared_key() -> Seq<u8> {
    Seq::new(32, |i: int| (2 * i + 2) as u8)
}

pub fn shared_key_bytes() -> (r: Vec<u8>)
    ensures
        r@ == shared_key(),
{
    let r: Vec<u8> = vec![
        0x02, 0x04, 0x06, 0x08, 0x0a, 0x0c, 0x0e, 0x10, 0x12, 0x14, 0x16, 0x18, 0x1a, 0x1c, 0x1e,
        0x20, 0x22, 0x24, 0x26, 0x28, 0x2a, 0x2c, 0x2e, 0x30, 0x32, 0x34, 0x36, 0x38, 0x3a, 0x3c,
        0x3e, 0x40,
    ];
    assert(r@ =~= shared_key());
    r
}

/// Length of the nonce that the stream cipher takes.
pub const NONCE_LEN: usize = 12;

/// Keystream offset at which payload encryption starts: the one-time key
/// takes the first 32 bytes and the next 32 are skipped, so payloads start
/// at the second 64-byte block.
pub const PAYLOAD_OFFSET: u64 = 64;

/// The longest payload that the keystream covers (the cipher has a 32-bit
/// block counter of 64-byte blocks).
pub const MAX_PAYLOAD_LEN: u64 = 274877906816;

/// The ChaCha20 keystream for `key` and `nonce`, `len` bytes from byte
/// `offset` on.
pub uninterp spec fn chacha20_keystream(key: Seq<u8>, nonce: Seq<u8>, offset: nat, len: nat) -> Seq<u8>;

/// The Poly1305 tag of `msg` under the one-time key `key`.
pub uninterp spec fn poly1305_tag(key: Seq<u8>, msg: Seq<u8>) -> [u8; 16];

/// `a` XORed byte by byte with `k`.
pub open spec fn xor_bytes(a: Seq<u8>, k: Seq<u8>) -> Seq<u8> {
    Seq::new(a.len(), |i: int| a[i] ^ k[i])
}

/// Relies on chacha20's `ChaCha20::new`, `seek` and `apply_keystream`: `data`
/// is XORed with the keystream for `key` and `nonce`, from byte `offset` on.
/// The counter must not run past its end, on which `apply_keystream` panics.
#[verifier::external_body]
fn chacha20_apply(key: &[u8], nonce: &[u8], offset: u64, data: &mut Vec<u8>)
    requires
        key@.len() == 32,
        nonce@.len() == NONCE_LEN,
        offset % 64 == 0,
        offset + old(data)@.len() <= 64 * 0xffff_ffffu64,
    ensures
        final(data)@ == xor_bytes(
            old(data)@,
            chacha20_keystream(key@, nonce@, offset as nat, old(data)@.len()),
        ),
{
    let mut cipher = ChaCha20::new(chacha20::Key::from_slice(key), chacha20::Nonce::from_slice(nonce));
    cipher.seek(offset);
    cipher.apply_keystream(data.as_mut_slice());
}

/// Relies on poly1305's `Poly1305::new` and `compute_unpadded`: the 16-byte
/// tag of `msg` under `key`.
#[verifier::external_body]
fn poly1305_unpadded(key: &[u8], msg: &[u8]) -> (r: Vec<u8>)
    requires
        key@.len() == 32,
    ensures
        r@ == poly1305_tag(key@, msg@)@,
{
    Poly1305::new(poly1305::Key::from_slice(key)).compute_unpadded(msg).to_vec()
}

/// Whether a payload of `n` bytes can be encrypted and framed.
pub open spec fn payload_fits(n: nat) -> bool {
    n <= MAX_PAYLOAD_LEN && n + 64 <= usize::MAX
}

/// The one-time authentication key for `nonce`: the keystream from byte 0 on,
/// applied to the shared key.
pub open spec fn one_time_key(nonce: Seq<u8>) -> Seq<u8> {
    xor_bytes(shared_key(), chacha20_keystream(shared_key(), nonce, 0, 32))
}

/// `s` encrypted (or decrypted) under `nonce`: XORed with the keystream from
/// byte `PAYLOAD_OFFSET` on.
pub open spec fn cipher_stream(nonce: Seq<u8>, s: Seq<u8>) -> Seq<u8> {
    xor_bytes(s, chacha20_keystream(shared_key(), nonce, PAYLOAD_OFFSET as nat, s.len()))
}

/// The bytes that the tag covers, which are also the frame without its tag:
/// `pad16(nonce) || pad16(data) || len(nonce) || len(data)`.
pub open spec fn authenticated(nonce: Seq<u8>, data: Seq<u8>) -> Seq<u8> {
    padded(nonce, 16) + padded(data, 16) + le64(nonce.len() as u64) + le64(data.len() as u64)
}

/// The 16-byte tag of a packet.
pub open spec fn tag_of(nonce: Seq<u8>, data: Seq<u8>) -> Seq<u8> {
    poly1305_tag(one_time_key(nonce), authenticated(nonce, data))@
}

/// The wire frame of a packet whose (encrypted) data is `data`.
pub open spec fn frame(nonce: Seq<u8>, data: Seq<u8>) -> Seq<u8> {
    authenticated(nonce, data) + tag_of(nonce, data)
}

/// The wire frame that carries `payload` under `nonce`.
pub open spec fn sealed(nonce: Seq<u8>, payload: Seq<u8>) -> Seq<u8> {
    frame(nonce, cipher_stream(nonce, payload))
}

/// Why a wire frame was refused.
#[derive(Debug, Clone, Copy, PartialEq, Eq, Structural)]
pub enum CodecError {
    /// Too short for its trailer, or the declared lengths do not fit it.
    Malformed,
    /// The tag does not match the frame.
    Unauthenticated,
}

/// Whether bytes `[a, b)` of `w` are all zero.
pub open spec fn zero_run(w: Seq<u8>, a: int, b: int) -> bool {
    forall|i: int| a <= i < b ==> w[i] == 0
}

/// The nonce, encrypted data and tag that wire frame `w` holds, or
/// `Malformed` where its trailer does not fit it: the frame must be exactly
/// as long as its declared lengths ask, with zero padding.
pub open spec fn split_spec(w: Seq<u8>) -> Result<(Seq<u8>, Seq<u8>, Seq<u8>), CodecError> {
    if w.len() < 48 {
        Err(CodecError::Malformed)
    } else {
        let nonce_len = le64_value(w.subrange(w.len() - 32, w.len() - 24));
        let data_len = le64_value(w.subrange(w.len() - 24, w.len() - 16));
        if nonce_len != NONCE_LEN || data_len > w.len() - 48 || !payload_fits(data_len as nat)
            || w.len() != 48 + round_up(data_len as nat, 16) || !zero_run(w, NONCE_LEN as int, 16)
            || !zero_run(w, 16 + data_len, w.len() - 32) {
            Err(CodecError::Malformed)
        } else {
            Ok(
                (
                    w.subrange(0, NONCE_LEN as int),
                    w.subrange(16, 16 + data_len),
                    w.subrange(w.len() - 16, w.len() as int),
                ),
            )
        }
    }
}

/// The nonce and encrypted data that wire frame `w` carries, or why it is
/// refused.
pub open spec fn decode_spec(w: Seq<u8>) -> Result<(Seq<u8>, Seq<u8>), CodecError> {
    match split_spec(w) {
        Ok((nonce, data, tag)) => if tag != tag_of(nonce, data) {
            Err(CodecError::Unauthenticated)
        } else {
            Ok((nonce, data))
        },
        Err(e) => Err(e),
    }
}

/// The payload that wire frame `w` carries, or why it is refused.
pub open spec fn decrypt_spec(w: Seq<u8>) -> Result<Seq<u8>, CodecError> {
    match decode_spec(w) {
        Ok((nonce, data)) => Ok(cipher_stream(nonce, data)),
        Err(e) => Err(e),
    }
}

/// Whether `a` and `b` hold the same bytes.
pub(crate) fn same_bytes(a: &[u8], b: &[u8]) -> (r: bool)
    ensures
        r == (a@ == b@),
{
    if a.len() != b.len() {
        return false;
    }
    let mut i: usize = 0;
    while i < a.len()
        invariant
            a@.len() == b@.len(),
            i <= a@.len(),
            forall|j: int| 0 <= j < i ==> a@[j] == b@[j],
        decreases a@.len() - i,
    {
        if a[i] != b[i] {
            return false;
        }
        i += 1;
    }
    assert(a@ =~= b@);
    true
}

/// Whether bytes `[a, b)` of `w` are all zero.
fn all_zero(w: &[u8], a: usize, b: usize) -> (r: bool)
    requires
        a <= b <= w@.len(),
    ensures
        r == zero_run(w@, a as int, b as int),
{
    let mut i: usize = a;
    while i < b
        invariant
            a <= i <= b <= w@.len(),
            forall|j: int| a <= j < i ==> w@[j] == 0,
        decreases b - i,
    {
        if w[i] != 0 {
            return false;
        }
        i += 1;
    }
    true
}

proof fn lemma_round_up16(n: nat)
    ensures
        n <= round_up(n, 16) <= n + 15,
        round_up(n, 16) % 16 == 0,
{
}

/// The encrypted form of a message: its nonce and its encrypted data.
pub struct Packet {
    pub nonce: Vec<u8>,
    pub data: Vec<u8>,
}

impl Packet {
    /// Whether the cipher can take this packet: a nonce of `NONCE_LEN` bytes
    /// and data within the keystream.
    pub open spec fn fits(&self) -> bool {
        self.nonce@.len() == NONCE_LEN && self.data@.len() <= MAX_PAYLOAD_LEN
    }

    /// Whether the bytes that the tag covers fit in memory.
    pub open spec fn tag_fits(&self) -> bool {
        self.fits() && self.data@.len() + 48 <= usize::MAX
    }

    /// Whether the wire frame fits in memory.
    pub open spec fn frame_fits(&self) -> bool {
        self.fits() && self.data@.len() + 64 <= usize::MAX
    }

    /// Encrypts `data` under the given nonce.
    pub fn seal(nonce: &[u8], data: &[u8]) -> (r: Packet)
        requires
            nonce@.len() == NONCE_LEN,
            data@.len() <= MAX_PAYLOAD_LEN,
        ensures
            r.nonce@ == nonce@,
            r.data@ == cipher_stream(nonce@, data@),
    {
        let key = shared_key_bytes();
        let mut out = copy_bytes(data);
        chacha20_apply(&key, nonce, PAYLOAD_OFFSET, &mut out);
        Packet { nonce: copy_bytes(nonce), data: out }
    }

    /// Encrypts `data` under a fresh random nonce.
    pub fn encrypt(data: &[u8]) -> (r: Packet)
        requires
            data@.len() <= MAX_PAYLOAD_LEN,
        ensures
            r.nonce@.len() == NONCE_LEN,
            r.data@ == cipher_stream(r.nonce@, data@),
    {
        let nonce = random_bytes(NONCE_LEN);
        Packet::seal(&nonce, data)
    }

    /// The bytes that the tag covers: the frame without its tag.
    pub fn authenticated_bytes(&self) -> (r: Vec<u8>)
        requires
            self.tag_fits(),
        ensures
            r@ == authenticated(self.nonce@, self.data@),
    {
        proof {
            lemma_round_up16(self.nonce@.len());
            lemma_round_up16(self.data@.len());
        }
        let mut out = pad_copy(&self.nonce, 16);
        let d = pad_copy(&self.data, 16);
        append_bytes(&mut out, &d);
        push_le64(&mut out, self.nonce.len() as u64);
        push_le64(&mut out, self.data.len() as u64);
        out
    }

    /// The tag that authenticates this packet.
    pub fn get_tag(&self) -> (r: Vec<u8>)
        requires
            self.tag_fits(),
        ensures
            r@ == tag_of(self.nonce@, self.data@),
            r@.len() == 16,
    {
        let msg = self.authenticated_bytes();
        let mut key = shared_key_bytes();
        chacha20_apply(&shared_key_bytes(), &self.nonce, 0, &mut key);
        poly1305_unpadded(&key, &msg)
    }

    /// The wire frame of this packet.
    pub fn bytes(&self) -> (r: Vec<u8>)
        requires
            self.frame_fits(),
        ensures
            r@ == frame(self.nonce@, self.data@),
    {
        let mut out = self.authenticated_bytes();
        let tag = self.get_tag();
        proof {
            lemma_round_up16(self.nonce@.len());
            lemma_round_up16(self.data@.len());
        }
        append_bytes(&mut out, &tag);
        out
    }

    /// The plaintext of this packet; `Malformed` where the cipher cannot
    /// take it.
    pub fn decrypt(&self) -> (r: Result<Vec<u8>, CodecError>)
        ensures
            self.fits() ==> r is Ok && r->Ok_0@ == cipher_stream(self.nonce@, self.data@),
            !self.fits() ==> r == Err::<Vec<u8>, CodecError>(CodecError::Malformed),
    {
        if self.nonce.len() != NONCE_LEN || self.data.len() as u64 > MAX_PAYLOAD_LEN {
            return Err(CodecError::Malformed);
        }
        let mut out = copy_bytes(&self.data);
        chacha20_apply(&shared_key_bytes(), &self.nonce, PAYLOAD_OFFSET, &mut out);
        Ok(out)
    }

    /// Splits a wire frame into its packet and its tag: reads the declared
    /// lengths from the trailer and checks that they fit the frame.
    pub fn split_frame(wire: &[u8]) -> (r: Result<(Packet, Vec<u8>), CodecError>)
        ensures
            match split_spec(wire@) {
                Ok((nonce, data, tag)) => r is Ok && r->Ok_0.0.nonce@ == nonce && r->Ok_0.0.data@
                    == data && r->Ok_0.1@ == tag,
                Err(e) => r is Err && r->Err_0 == e,
            },
    {
        let len = wire.len();
        if len < 48 {
            return Err(CodecError::Malformed);
        }
        let nonce_len = read_le64(wire, len - 32);
        let data_len = read_le64(wire, len - 24);
        assert(wire@.subrange(len - 32, len - 32 + 8) == wire@.subrange(
            wire@.len() - 32,
            wire@.len() - 24,
        ));
        assert(wire@.subrange(len - 24, len - 24 + 8) == wire@.subrange(
            wire@.len() - 24,
            wire@.len() - 16,
        ));
        if nonce_len != NONCE_LEN as u64 || data_len > (len - 48) as u64 || data_len
            > MAX_PAYLOAD_LEN {
            return Err(CodecError::Malformed);
        }
        let data_len = data_len as usize;
        if data_len > usize::MAX - 64 {
            return Err(CodecError::Malformed);
        }
        proof {
            lemma_round_up16(data_len as nat);
        }
        let rounded = if data_len % 16 == 0 {
            data_len
        } else {
            data_len + (16 - data_len % 16)
        };
        if len != 48 + rounded || !all_zero(wire, NONCE_LEN, 16) || !all_zero(
            wire,
            16 + data_len,
            len - 32,
        ) {
            return Err(CodecError::Malformed);
        }
        let nonce = copy_bytes(&wire[0..NONCE_LEN]);
        let data = copy_bytes(&wire[16..16 + data_len]);
        let tag = copy_bytes(&wire[len - 16..len]);
        Ok((Packet { nonce, data }, tag))
    }

    /// Reads a wire frame: splits off the trailer, checks the declared
    /// lengths and the tag.
    pub fn try_from(wire: &[u8]) -> (r: Result<Packet, CodecError>)
        ensures
            match decode_spec(wire@) {
                Ok((nonce, data)) => r is Ok && r->Ok_0.nonce@ == nonce && r->Ok_0.data@ == data,
                Err(e) => r is Err && r->Err_0 == e,
            },
    {
        let (pkt, tag) = Packet::split_frame(wire)?;
        if !same_bytes(&pkt.get_tag(), &tag) {
            return Err(CodecError::Unauthenticated);
        }
        Ok(pkt)
    }
}

/// Encrypts `data` under a fresh random nonce and returns its wire frame.
pub fn encrypt(data: &[u8]) -> (r: Vec<u8>)
    requires
        payload_fits(data@.len()),
    ensures
        exists|nonce: Seq<u8>| nonce.len() == NONCE_LEN && r@ == sealed(nonce, data@),
        decrypt_spec(r@) == Ok::<Seq<u8>, CodecError>(data@),
{
    let pkt = Packet::encrypt(data);
    let r = pkt.bytes();
    assert(r@ == sealed(pkt.nonce@, data@));
    proof {
        lemma_decrypt_sealed(pkt.nonce@, data@);
    }
    r
}

/// Encrypts `data` under the given nonce and returns its wire frame.
pub fn encrypt_with_nonce(nonce: &[u8], data: &[u8]) -> (r: Vec<u8>)
    requires
        nonce@.len() == NONCE_LEN,
        payload_fits(data@.len()),
    ensures
        r@ == sealed(nonce@, data@),
{
    Packet::seal(nonce, data).bytes()
}

/// Reads a wire frame and returns the payload that it carries.
pub fn decrypt(data: &[u8]) -> (r: Result<Vec<u8>, CodecError>)
    ensures
        match decrypt_spec(data@) {
            Ok(p) => r is Ok && r->Ok_0@ == p,
            Err(e) => r is Err && r->Err_0 == e,
        },
{
    let pkt = Packet::try_from(data)?;
    pkt.decrypt()
}

proof fn lemma_xor_twice(a: Seq<u8>, k: Seq<u8>)
    ensures
        xor_bytes(xor_bytes(a, k), k) == a,
{
    assert forall|i: int| 0 <= i < a.len() implies xor_bytes(xor_bytes(a, k), k)[i] == a[i] by {
        let x = a[i];
        let y = k[i];
        assert((x ^ y) ^ y == x) by (bit_vector);
    }
    assert(xor_bytes(xor_bytes(a, k), k) =~= a);
}

/// The length of a wire frame: both padded regions, the two 8-byte lengths
/// and the 16-byte tag.
pub proof fn lemma_wire_length(nonce: Seq<u8>, payload: Seq<u8>)
    ensures
        sealed(nonce, payload).len() == round_up(nonce.len(), 16) + round_up(payload.len(), 16)
            + 8 + 8 + 16,
{
    let c = cipher_stream(nonce, payload);
    assert(c.len() == payload.len());
    assert(tag_of(nonce, c).len() == 16);
}

/// A frame sealed under a nonce of `NONCE_LEN` bytes decrypts to its payload.
pub proof fn lemma_decrypt_sealed(nonce: Seq<u8>, payload: Seq<u8>)
    requires
        nonce.len() == NONCE_LEN,
        payload_fits(payload.len()),
    ensures
        decode_spec(sealed(nonce, payload)) == Ok::<(Seq<u8>, Seq<u8>), CodecError>(
            (nonce, cipher_stream(nonce, payload)),
        ),
        decrypt_spec(sealed(nonce, payload)) == Ok::<Seq<u8>, CodecError>(payload),
{
    let c = cipher_stream(nonce, payload);
    let w = sealed(nonce, payload);
    let pn = padded(nonce, 16);
    let pc = padded(c, 16);
    let tag = tag_of(nonce, c);
    lemma_round_up16(nonce.len());
    lemma_round_up16(c.len());
    lemma_wire_length(nonce, payload);
    assert(pn.len() == 16);
    let len = w.len();
    assert(len == 16 + pc.len() + 32);
    assert(w.subrange(len - 32, len - 24) =~= le64(nonce.len() as u64));
    assert(w.subrange(len - 24, len - 16) =~= le64(c.len() as u64));
    lemma_le64_round_trip(nonce.len() as u64);
    lemma_le64_round_trip(c.len() as u64);
    assert(w.subrange(0, NONCE_LEN as int) =~= nonce);
    assert(w.subrange(16, 16 + c.len() as int) =~= c);
    assert(w.subrange(len - 16, len as int) =~= tag);
    lemma_xor_twice(payload, chacha20_keystream(shared_key(), nonce, PAYLOAD_OFFSET as nat, payload.len()));
    assert(cipher_stream(nonce, c) =~= payload);
}

/// Flipping one bit of a well-formed frame's tag makes the frame fail
/// authentication.
pub proof fn lemma_tag_bit_flip(w: Seq<u8>, i: int, bit: u8)
    requires
        decode_spec(w) is Ok,
        w.len() - 16 <= i < w.len(),
        bit < 8,
    ensures
        decode_spec(w.update(i, w[i] ^ (1u8 << bit))) == Err::<(Seq<u8>, Seq<u8>), CodecError>(
            CodecError::Unauthenticated,
        ),
{
    let x = w[i];
    assert(x ^ (1u8 << bit) != x) by (bit_vector)
        requires
            bit < 8,
    ;
    let v = w.update(i, x ^ (1u8 << bit));
    let len = w.len();
    assert(v.subrange(len - 32, len - 24) =~= w.subrange(len - 32, len - 24));
    assert(v.subrange(len - 24, len - 16) =~= w.subrange(len - 24, len - 16));
    let data_len = le64_value(w.subrange(len - 24, len - 16));
    assert(v.subrange(0, NONCE_LEN as int) =~= w.subrange(0, NONCE_LEN as int));
    assert(v.subrange(16, 16 + data_len) =~= w.subrange(16, 16 + data_len));
    assert(v.subrange(len - 16, len as int)[i - (len - 16)] != w.subrange(len - 16, len as int)[i
        - (len - 16)]);
}

/// Flipping one bit of a well-formed frame's nonce-length field makes the
/// frame malformed.
pub proof fn lemma_nonce_len_bit_flip(w: Seq<u8>, i: int, bit: u8)
    requires
        decode_spec(w) is Ok,
        w.len() - 32 <= i < w.len() - 24,
        bit < 8,
    ensures
        decode_spec(w.update(i, w[i] ^ (1u8 << bit))) == Err::<(Seq<u8>, Seq<u8>), CodecError>(
            CodecError::Malformed,
        ),
{
    let x = w[i];
    assert(x ^ (1u8 << bit) != x) by (bit_vector)
        requires
            bit < 8,
    ;
    let v = w.update(i, x ^ (1u8 << bit));
    let len = w.len();
    let old_field = w.subrange(len - 32, len - 24);
    let new_field = v.subrange(len - 32, len - 24);
    assert(new_field[i - (len - 32)] != old_field[i - (len - 32)]);
    if le64_value(new_field) == NONCE_LEN {
        lemma_le64_bytes(old_field);
        lemma_le64_bytes(new_field);
        assert(new_field == old_field);
    }
}

/// Flipping one bit of the zero padding of a well-formed frame (after the
/// nonce, or after the encrypted data) makes the frame malformed.
pub proof fn lemma_padding_bit_flip(w: Seq<u8>, i: int, bit: u8)
    requires
        decode_spec(w) is Ok,
        (NONCE_LEN <= i < 16) || (16 + le64_value(w.subrange(w.len() - 24, w.len() - 16)) <= i
            < w.len() - 32),
        bit < 8,
    ensures
        decode_spec(w.update(i, w[i] ^ (1u8 << bit))) == Err::<(Seq<u8>, Seq<u8>), CodecError>(
            CodecError::Malformed,
        ),
{
    let x = w[i];
    assert(x == 0);
    assert(x ^ (1u8 << bit) != x) by (bit_vector)
        requires
            bit < 8,
    ;
    let v = w.update(i, x ^ (1u8 << bit));
    let len = w.len();
    assert(v.subrange(len - 32, len - 24) =~= w.subrange(len - 32, len - 24));
    assert(v.subrange(len - 24, len - 16) =~= w.subrange(len - 24, len - 16));
    assert(v[i] != 0);
}

/// Frames that carry one payload under two different nonces differ.
pub proof fn lemma_distinct_nonces(n1: Seq<u8>, n2: Seq<u8>, payload: Seq<u8>)
    requires
        n1.len() == NONCE_LEN,
        n2.len() == NONCE_LEN,
        n1 != n2,
    ensures
        sealed(n1, payload) != sealed(n2, payload),
{
    if sealed(n1, payload) == sealed(n2, payload) {
        assert forall|j: int| 0 <= j < NONCE_LEN implies n1[j] == n2[j] by {
            assert(sealed(n1, payload)[j] == n1[j]);
            assert(sealed(n2, payload)[j] == n2[j]);
        }
        assert(n1 =~= n2);
    }
}

} // verus!
