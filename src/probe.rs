//! The server-info query: its request and the reply that describes a server.
use vstd::prelude::*;

verus! {

/// The decrypted server-info request: `7F 01 00 00 07`.
pub open spec fn info_request_spec() -> Seq<u8> {
    seq![0x7fu8, 0x01, 0x00, 0x00, 0x07]
}

/// The decrypted server-info request.
pub fn info_request() -> (r: Vec<u8>)
    ensures
        r@ == info_request_spec(),
{
    let r: Vec<u8> = vec![0x7fu8, 0x01, 0x00, 0x00, 0x07];
    assert(r@ =~= info_request_spec());
    r
}

/// The status byte of a server: bit 0 marks a dedicated server, bit 1 forced
/// vehicles; the other six bits are kept as they are.
#[derive(Debug, Clone, Copy, PartialEq, Eq, Structural)]
pub struct ServerFlags {
    pub dedicated: bool,
    pub force_vehicle: bool,
    pub rest: u8,
}

/// The flags held by status byte `v`.
pub open spec fn flags_of(v: u8) -> ServerFlags {
    ServerFlags { dedicated: v & 1 != 0, force_vehicle: v & 2 != 0, rest: (v & 0xfc) >> 2u8 }
}

impl From<u8> for ServerFlags {
    fn from(v: u8) -> Self {
        ServerFlags { dedicated: v & 1 != 0, force_vehicle: v & 2 != 0, rest: (v & 0xfc) >> 2u8 }
    }
}

impl vstd::std_specs::convert::FromSpecImpl<u8> for ServerFlags {
    open spec fn obeys_from_spec() -> bool {
        true
    }

    open spec fn from_spec(v: u8) -> ServerFlags {
        flags_of(v)
    }
}

/// What a server reports of itself.
#[derive(Debug, Clone)]
pub struct Server {
    /// Protocol version, `<major>.<minor>`.
    pub version_major: u8,
    pub version_minor: u8,
    pub port: u16,
    pub max_players: u16,
    pub cur_players: u16,
    pub flags: ServerFlags,
    pub name: String,
    pub mode: String,
    pub map: String,
}

/// Why a server-info reply was refused.
#[derive(Debug, Clone, Copy, PartialEq, Eq, Structural)]
pub enum ProbeError {
    /// The reply does not start with `BA CE`.
    BadMagic,
    /// The reply ends before its last field.
    Truncated,
    /// Bytes are left over after the last field.
    Leftover,
}

/// Length of a server-info reply: magic, version, port, two player counts,
/// flags, three padded texts of 0x20, 0x10 and 0x20 bytes, one pad byte.
pub const INFO_LEN: usize = 92;

/// Offset of the server name (0x20 bytes) in a server-info reply.
pub const NAME_AT: usize = 11;

/// Offset of the game mode (0x10 bytes) in a server-info reply.
pub const MODE_AT: usize = 43;

/// Offset of the map name (0x20 bytes) in a server-info reply.
pub const MAP_AT: usize = 59;

/// The little-endian 16-bit number at `b[at..at + 2]`.
pub open spec fn le16(b: Seq<u8>, at: int) -> u16 {
    (b[at] as u16) | ((b[at + 1] as u16) << 8u16)
}

/// The bytes of `s` before its first zero byte (all of `s` if it has none).
pub open spec fn until_nul(s: Seq<u8>) -> Seq<u8>
    decreases s.len(),
{
    if s.len() == 0 || s[0] == 0 {
        Seq::empty()
    } else {
        seq![s[0]] + until_nul(s.drop_first())
    }
}

/// The text held by the zero-padded field `b[at..at + width]`.
pub open spec fn text_field(b: Seq<u8>, at: int, width: int) -> Seq<u8> {
    until_nul(b.subrange(at, at + width))
}

/// `b` read as UTF-8, each invalid sequence replaced by U+FFFD.
pub uninterp spec fn utf8_lossy(b: Seq<u8>) -> Seq<char>;

/// Relies on `String::from_utf8_lossy`: `b` read as UTF-8, each invalid
/// sequence replaced by the replacement character.
#[verifier::external_body]
fn lossy_string(b: &[u8]) -> (r: String)
    ensures
        r@ == utf8_lossy(b@),
{
    String::from_utf8_lossy(b).into_owned()
}

/// Whether `data` starts with the server-info magic `BA CE`.
pub open spec fn has_info_magic(data: Seq<u8>) -> bool {
    data.len() >= 2 && data[0] == 0xba && data[1] == 0xce
}

/// Why reply `data` is refused, if it is.
pub open spec fn probe_error(data: Seq<u8>) -> Option<ProbeError> {
    if !has_info_magic(data) {
        Some(ProbeError::BadMagic)
    } else if data.len() < INFO_LEN {
        Some(ProbeError::Truncated)
    } else if data.len() > INFO_LEN {
        Some(ProbeError::Leftover)
    } else {
        None
    }
}

/// Whether `s` is what the well-formed reply `data` says.
pub open spec fn describes(s: Server, data: Seq<u8>) -> bool {
    &&& s.version_major == data[2]
    &&& s.version_minor == data[3]
    &&& s.port == le16(data, 4)
    &&& s.max_players == le16(data, 6)
    &&& s.cur_players == le16(data, 8)
    &&& s.flags == flags_of(data[10])
    &&& s.name@ == utf8_lossy(text_field(data, NAME_AT as int, 0x20))
    &&& s.mode@ == utf8_lossy(text_field(data, MODE_AT as int, 0x10))
    &&& s.map@ == utf8_lossy(text_field(data, MAP_AT as int, 0x20))
}

/// Reads the text of the zero-padded field `data[at..at + width]`.
fn read_text(data: &[u8], at: usize, width: usize) -> (r: String)
    requires
        at + width <= data@.len(),
    ensures
        r@ == utf8_lossy(text_field(data@, at as int, width as int)),
{
    let ghost field = data@.subrange(at as int, at + width);
    let len = data.len();
    assert(field.subrange(0, width as int) =~= field);
    assert(field.subrange(0, 0) + field =~= field);
    let mut i: usize = 0;
    while i < width && data[at + i] != 0
        invariant
            i <= width,
            len == data@.len(),
            at + width <= data@.len(),
            field == data@.subrange(at as int, at + width),
            until_nul(field) == field.subrange(0, i as int) + until_nul(
                field.subrange(i as int, width as int),
            ),
        decreases width - i,
    {
        let ghost rest = field.subrange(i as int, width as int);
        assert(rest.drop_first() =~= field.subrange(i + 1, width as int));
        assert(field.subrange(0, i + 1) =~= field.subrange(0, i as int) + seq![rest[0]]);
        i += 1;
    }
    assert(until_nul(field.subrange(i as int, width as int)) == Seq::<u8>::empty());
    assert(field.subrange(0, i as int) =~= data@.subrange(at as int, at + i));
    assert(until_nul(field) =~= data@.subrange(at as int, at + i));
    lossy_string(&data[at..at + i])
}

/// Reads a decrypted server-info reply.
pub fn parse_server_info(data: &[u8]) -> (r: Result<Server, ProbeError>)
    ensures
        match probe_error(data@) {
            Some(e) => r is Err && r->Err_0 == e,
            None => r is Ok && describes(r->Ok_0, data@),
        },
{
    let len = data.len();
    if len < 2 || data[0] != 0xba || data[1] != 0xce {
        return Err(ProbeError::BadMagic);
    }
    if len < INFO_LEN {
        return Err(ProbeError::Truncated);
    }
    if len > INFO_LEN {
        return Err(ProbeError::Leftover);
    }
    let flags = ServerFlags::from(data[10]);
    Ok(
        Server {
            version_major: data[2],
            version_minor: data[3],
            port: (data[4] as u16) | ((data[5] as u16) << 8u16),
            max_players: (data[6] as u16) | ((data[7] as u16) << 8u16),
            cur_players: (data[8] as u16) | ((data[9] as u16) << 8u16),
            flags,
            name: read_text(data, NAME_AT, 0x20),
            mode: read_text(data, MODE_AT, 0x10),
            map: read_text(data, MAP_AT, 0x20),
        },
    )
}

} // verus!
