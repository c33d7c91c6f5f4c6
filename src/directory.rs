//! The master directory: browse requests and the replies that list servers.
use vstd::prelude::*;

verus! {

/// An IPv4 address and port.
#[derive(Debug, Clone, Copy, PartialEq, Eq)]
pub struct PeerAddr {
    pub ip: [u8; 4],
    pub port: u16,
}

/// Number of browse requests that cover the directory.
pub const BROWSE_WINDOWS: u32 = 8;

/// Width of the index window of one browse request.
pub const BROWSE_WIDTH: u32 = 32;

/// Length of one server record in a directory reply.
pub const RECORD_LEN: usize = 6;

/// The decimal digits of `n`, in ASCII.
pub open spec fn decimal(n: nat) -> Seq<u8>
    decreases n,
{
    if n < 10 {
        seq![(48 + n) as u8]
    } else {
        decimal(n / 10) + seq![(48 + n % 10) as u8]
    }
}

/// The browse request for the index window `[start, end)`:
/// `Brw=<start>,<end>` followed by a zero byte.
pub open spec fn browse_text(start: nat, end: nat) -> Seq<u8> {
    seq![0x42u8, 0x72, 0x77, 0x3d] + decimal(start) + seq![0x2cu8] + decimal(end) + seq![0u8]
}

/// Appends the decimal digits of `n` to `out`.
fn push_decimal(out: &mut Vec<u8>, n: u32)
    requires
        old(out)@.len() + 3 <= usize::MAX,
        n < 1000,
    ensures
        final(out)@ == old(out)@ + decimal(n as nat),
        n < 10 ==> decimal(n as nat).len() == 1,
        n < 100 ==> decimal(n as nat).len() <= 2,
        decimal(n as nat).len() <= 3,
    decreases n,
{
    if n < 10 {
        out.push((48 + n) as u8);
        assert(out@ =~= old(out)@ + decimal(n as nat));
    } else {
        push_decimal(out, n / 10);
        out.push((48 + n % 10) as u8);
        assert(decimal(n as nat) =~= decimal((n / 10) as nat) + seq![(48 + n % 10) as u8]);
        assert(out@ =~= old(out)@ + decimal(n as nat));
    }
}

/// The browse request for window `window` of the directory: the windows are
/// `[0, 32)`, `[32, 64)`, ..., `[224, 256)`.
pub fn browse_request(window: u32) -> (r: Vec<u8>)
    requires
        window < BROWSE_WINDOWS,
    ensures
        r@ == browse_text((BROWSE_WIDTH * window) as nat, (BROWSE_WIDTH * (window + 1)) as nat),
{
    let start = BROWSE_WIDTH * window;
    let end = start + BROWSE_WIDTH;
    let mut out: Vec<u8> = vec![0x42u8, 0x72, 0x77, 0x3d];
    push_decimal(&mut out, start);
    out.push(0x2cu8);
    push_decimal(&mut out, end);
    out.push(0u8);
    assert(out@ =~= browse_text(start as nat, end as nat));
    out
}

/// The address held by a 6-byte record: four address bytes, then the port in
/// little-endian order.
pub open spec fn record_addr(r: Seq<u8>) -> PeerAddr {
    PeerAddr { ip: [r[0], r[1], r[2], r[3]], port: (r[4] as u16) | ((r[5] as u16) << 8u16) }
}

/// Whether a record is all zero bytes, which ends the list.
pub open spec fn is_end_record(r: Seq<u8>) -> bool {
    forall|j: int| 0 <= j < RECORD_LEN ==> r[j] == 0
}

/// The addresses listed by consecutive 6-byte records of `s`, up to the first
/// all-zero record or the end of the whole records.
pub open spec fn records(s: Seq<u8>) -> Seq<PeerAddr>
    decreases s.len(),
{
    if s.len() < RECORD_LEN || is_end_record(s) {
        Seq::empty()
    } else {
        seq![record_addr(s)] + records(s.subrange(RECORD_LEN as int, s.len() as int))
    }
}

/// The marker that starts a directory reply: `00 00 00 00 7D`.
pub open spec fn directory_marker() -> Seq<u8> {
    seq![0u8, 0, 0, 0, 0x7d]
}

/// The servers that a decrypted directory reply lists, or `None` where the
/// reply does not start with the marker.
pub open spec fn directory_spec(reply: Seq<u8>) -> Option<Seq<PeerAddr>> {
    if reply.len() >= 5 && reply.subrange(0, 5) == directory_marker() {
        Some(records(reply.subrange(5, reply.len() as int)))
    } else {
        None
    }
}

/// Reads the servers listed by a decrypted directory reply; `None` where the
/// reply does not start with the marker.
pub fn parse_directory(reply: &[u8]) -> (r: Option<Vec<PeerAddr>>)
    ensures
        match directory_spec(reply@) {
            Some(list) => r is Some && r->0@ == list,
            None => r is None,
        },
{
    let len = reply.len();
    if len < 5 || reply[0] != 0 || reply[1] != 0 || reply[2] != 0 || reply[3] != 0 || reply[4]
        != 0x7d {
        proof {
            if reply@.len() >= 5 {
                assert(reply@.subrange(0, 5)[4] == reply@[4]);
                assert(reply@.subrange(0, 5) != directory_marker() || reply@[0] == 0);
            }
        }
        return None;
    }
    assert(reply@.subrange(0, 5) =~= directory_marker());
    let ghost body = reply@.subrange(5, len as int);
    let mut out: Vec<PeerAddr> = Vec::new();
    let mut pos: usize = 5;
    while len - pos >= RECORD_LEN
        invariant
            5 <= pos <= len,
            len == reply@.len(),
            body == reply@.subrange(5, len as int),
            directory_spec(reply@) == Some(records(body)),
            records(body) == out@ + records(reply@.subrange(pos as int, len as int)),
        decreases len - pos,
    {
        let ghost rest = reply@.subrange(pos as int, len as int);
        if reply[pos] == 0 && reply[pos + 1] == 0 && reply[pos + 2] == 0 && reply[pos + 3] == 0
            && reply[pos + 4] == 0 && reply[pos + 5] == 0 {
            assert(is_end_record(rest));
            assert(records(rest) == Seq::<PeerAddr>::empty());
            assert(out@ + Seq::<PeerAddr>::empty() =~= out@);
            return Some(out);
        }
        let addr = PeerAddr {
            ip: [reply[pos], reply[pos + 1], reply[pos + 2], reply[pos + 3]],
            port: (reply[pos + 4] as u16) | ((reply[pos + 5] as u16) << 8u16),
        };
        assert(!is_end_record(rest)) by {
            if reply[pos as int] != 0 {
                assert(rest[0] != 0);
            } else if reply[pos + 1] != 0 {
                assert(rest[1] != 0);
            } else if reply[pos + 2] != 0 {
                assert(rest[2] != 0);
            } else if reply[pos + 3] != 0 {
                assert(rest[3] != 0);
            } else if reply[pos + 4] != 0 {
                assert(rest[4] != 0);
            } else {
                assert(rest[5] != 0);
            }
        }
        assert(rest.subrange(RECORD_LEN as int, rest.len() as int) =~= reply@.subrange(
            pos + RECORD_LEN,
            len as int,
        ));
        assert(addr == record_addr(rest));
        out.push(addr);
        pos = pos + RECORD_LEN;
        assert(records(body) == out@ + records(reply@.subrange(pos as int, len as int)));
    }
    assert(records(reply@.subrange(pos as int, len as int)) == Seq::<PeerAddr>::empty());
    assert(out@ + Seq::<PeerAddr>::empty() =~= out@);
    Some(out)
}

} // verus!
