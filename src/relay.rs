//! The relay session: traffic histograms and the decisions taken on each
//! event.
use crate::codec::{decrypt, decrypt_spec, encrypt, payload_fits, sealed, CodecError, NONCE_LEN};
use crate::command::{Command, CommandSpec, Endpoint};
use crate::fuzz::{draw_allowed, fuzz_packet, fuzzed, Direction, FuzzRule};
use std::collections::BTreeMap;
use vstd::prelude::*;

verus! {

broadcast use {vstd::std_specs::btree::group_btree_axioms, vstd::laws_cmp::group_laws_cmp};

/// For each byte offset within a packet, how often each byte value was seen
/// there.
pub type Histogram = BTreeMap<usize, BTreeMap<u8, usize>>;

/// How often byte `b` was seen at offset `pos`.
pub open spec fn count(h: Map<usize, BTreeMap<u8, usize>>, pos: usize, b: u8) -> nat {
    if h.contains_key(pos) && h[pos]@.contains_key(b) {
        h[pos]@[b] as nat
    } else {
        0
    }
}

/// `c` after one more sighting (counts stop at the largest `usize`).
pub open spec fn plus_one(c: nat) -> nat {
    if c < usize::MAX {
        c + 1
    } else {
        c
    }
}

/// The count of `b` at `pos` after packet `data` was recorded over `before`.
pub open spec fn recorded(before: nat, pos: usize, b: u8, data: Seq<u8>) -> nat {
    if pos < data.len() && data[pos as int] == b {
        plus_one(before)
    } else {
        before
    }
}

/// Whether the histogram holds an entry for byte `b` at offset `pos`.
pub open spec fn stored(h: Map<usize, BTreeMap<u8, usize>>, pos: usize, b: u8) -> bool {
    h.contains_key(pos) && h[pos]@.contains_key(b)
}

/// Every entry of the histogram holds a count of at least 1.
pub open spec fn counts_positive(h: Map<usize, BTreeMap<u8, usize>>) -> bool {
    forall|pos: usize, b: u8| #[trigger] stored(h, pos, b) ==> h[pos]@[b] >= 1
}

/// Each entry of `after` holds a count of at least 1 or is an entry of
/// `before`, unchanged.
pub open spec fn adds_positive(
    before: Map<usize, BTreeMap<u8, usize>>,
    after: Map<usize, BTreeMap<u8, usize>>,
) -> bool {
    forall|pos: usize, b: u8|
        #[trigger] stored(after, pos, b) ==> after[pos]@[b] >= 1 || (stored(before, pos, b)
            && before[pos]@[b] == after[pos]@[b])
}

/// Records one packet in a histogram.
fn record(h: &mut Histogram, data: &[u8])
    ensures
        forall|pos: usize, b: u8|
            #[trigger] count(final(h)@, pos, b) == recorded(count(old(h)@, pos, b), pos, b, data@),
        adds_positive(old(h)@, final(h)@),
{
    let len = data.len();
    let mut i: usize = 0;
    while i < len
        invariant
            i <= len,
            len == data@.len(),
            forall|pos: usize, b: u8|
                #[trigger] count(h@, pos, b) == if pos < i {
                    recorded(count(old(h)@, pos, b), pos, b, data@)
                } else {
                    count(old(h)@, pos, b)
                },
            adds_positive(old(h)@, h@),
        decreases len - i,
    {
        let b = data[i];
        let ghost prev = h@;
        let mut inner = match h.remove(&i) {
            Some(m) => m,
            None => BTreeMap::new(),
        };
        let c: usize = match inner.get(&b) {
            Some(c) => *c,
            None => 0,
        };
        let next = if c < usize::MAX {
            c + 1
        } else {
            c
        };
        inner.insert(b, next);
        h.insert(i, inner);
        assert forall|pos: usize, x: u8| #[trigger]
            count(h@, pos, x) == (if pos == i && x == b {
                plus_one(count(prev, pos, x))
            } else {
                count(prev, pos, x)
            }) by {
            if pos == i && x != b {
                assert(count(prev, pos, x) == count(h@, pos, x));
            }
        }
        assert forall|pos: usize, x: u8| #[trigger] stored(h@, pos, x) implies h@[pos]@[x] >= 1 || (
        stored(old(h)@, pos, x) && old(h)@[pos]@[x] == h@[pos]@[x]) by {
            if pos == i {
                if x != b {
                    assert(stored(prev, pos, x));
                }
            } else {
                assert(stored(prev, pos, x));
            }
        }
        i += 1;
    }
}

/// Entries `(b, n)` of the histogram at offset `pos`: each byte value seen
/// there, in increasing order, with its count.
pub open spec fn lists_counts(r: Seq<(u8, usize)>, h: Map<usize, BTreeMap<u8, usize>>, pos: usize) -> bool {
    &&& forall|k: int| 0 <= k < r.len() ==> #[trigger] r[k].1 as nat == count(h, pos, r[k].0) && r[k].1 > 0
    &&& forall|k: int, l: int| 0 <= k < l < r.len() ==> #[trigger] r[k].0 < #[trigger] r[l].0
    &&& forall|b: u8| count(h, pos, b) > 0 ==> exists|k: int| 0 <= k < r.len() && #[trigger] r[k].0 == b
}

/// Lists the byte values seen at offset `pos` with their counts.
fn counts_at(h: &Histogram, pos: usize) -> (r: Vec<(u8, usize)>)
    ensures
        lists_counts(r@, h@, pos),
{
    let mut out: Vec<(u8, usize)> = Vec::new();
    let inner = match h.get(&pos) {
        Some(m) => m,
        None => {
            return out;
        },
    };
    let mut v: u32 = 0;
    while v < 256
        invariant
            v <= 256,
            h@.contains_key(pos) && h@[pos] == *inner,
            forall|k: int| 0 <= k < out@.len() ==> #[trigger] out@[k].1 as nat == count(h@, pos, out@[k].0) && out@[k].1 > 0,
            forall|k: int, l: int| 0 <= k < l < out@.len() ==> #[trigger] out@[k].0 < #[trigger] out@[l].0,
            forall|k: int| 0 <= k < out@.len() ==> (#[trigger] out@[k].0) < v,
            forall|b: u8| (b as u32) < v && count(h@, pos, b) > 0 ==> exists|k: int| 0 <= k < out@.len() && #[trigger] out@[k].0 == b,
        decreases 256 - v,
    {
        let b = v as u8;
        let ghost prev = out@;
        match inner.get(&b) {
            Some(c) => {
                if *c > 0 {
                    out.push((b, *c));
                    assert(out@[out@.len() - 1].0 == b);
                }
            },
            None => {},
        }
        assert forall|x: u8|
            (x as u32) < v + 1 && count(h@, pos, x) > 0 implies exists|k: int|
                0 <= k < out@.len() && #[trigger] out@[k].0 == x by {
            if x == b {
                assert(out@[out@.len() - 1].0 == b);
            } else {
                let k = choose|k: int| 0 <= k < prev.len() && #[trigger] prev[k].0 == x;
                assert(out@[k] == prev[k]);
            }
        }
        v += 1;
    }
    out
}

/// Byte-value histograms of the traffic seen in each direction.
pub struct State {
    pub client: Histogram,
    pub server: Histogram,
}

impl State {
    /// Every count that the histograms hold is at least 1.
    pub open spec fn wf(&self) -> bool {
        counts_positive(self.client@) && counts_positive(self.server@)
    }

    /// Empty histograms.
    pub fn new() -> (r: State)
        ensures
            r.client@ == Map::<usize, BTreeMap<u8, usize>>::empty(),
            r.server@ == Map::<usize, BTreeMap<u8, usize>>::empty(),
            r.wf(),
    {
        State { client: BTreeMap::new(), server: BTreeMap::new() }
    }

    /// Records a packet that came from the client.
    pub fn update_client(&mut self, data: &[u8])
        ensures
            forall|pos: usize, b: u8|
                #[trigger] count(final(self).client@, pos, b) == recorded(
                    count(old(self).client@, pos, b),
                    pos,
                    b,
                    data@,
                ),
            final(self).server@ == old(self).server@,
            adds_positive(old(self).client@, final(self).client@),
            old(self).wf() ==> final(self).wf(),
    {
        record(&mut self.client, data);
    }

    /// Records a packet that came from the server.
    pub fn update_server(&mut self, data: &[u8])
        ensures
            forall|pos: usize, b: u8|
                #[trigger] count(final(self).server@, pos, b) == recorded(
                    count(old(self).server@, pos, b),
                    pos,
                    b,
                    data@,
                ),
            final(self).client@ == old(self).client@,
            adds_positive(old(self).server@, final(self).server@),
            old(self).wf() ==> final(self).wf(),
    {
        record(&mut self.server, data);
    }

    /// The byte values seen at offset `pos` of packets from the client, with
    /// their counts.
    pub fn client_counts(&self, pos: usize) -> (r: Vec<(u8, usize)>)
        ensures
            lists_counts(r@, self.client@, pos),
    {
        counts_at(&self.client, pos)
    }

    /// The byte values seen at offset `pos` of packets from the server, with
    /// their counts.
    pub fn server_counts(&self, pos: usize) -> (r: Vec<(u8, usize)>)
        ensures
            lists_counts(r@, self.server@, pos),
    {
        counts_at(&self.server, pos)
    }
}

/// Whether `w` is a wire frame that carries packet `p` relayed toward
/// `toward` under `rule`: `p` after some allowed outcome of the fuzz draws,
/// encrypted under some nonce.
pub open spec fn forwards(w: Seq<u8>, rule: Option<FuzzRule>, toward: Direction, p: Seq<u8>) -> bool {
    exists|hit: bool, noise: Seq<u8>, nonce: Seq<u8>|
        #![trigger sealed(nonce, fuzzed(rule, toward, hit, noise, p))]
        draw_allowed(rule, hit, noise, p.len()) && nonce.len() == NONCE_LEN && w == sealed(
            nonce,
            fuzzed(rule, toward, hit, noise, p),
        )
}

/// What came of a relayed packet: its plaintext, for display and logging,
/// and the frame to forward, if any.
pub struct Relayed {
    pub plaintext: Vec<u8>,
    pub forward: Option<Vec<u8>>,
}

/// The answer to a console command.
#[derive(Debug)]
pub enum Reply {
    /// Nothing to show or send.
    Nothing,
    /// The session ends.
    Exit,
    /// Send this frame to the endpoint.
    Send { toward: Endpoint, wire: Vec<u8> },
    /// A packet for the client was asked for before any client was seen.
    NoClient,
    /// The byte values seen at the inspected offset, in each direction.
    Counts { client: Vec<(u8, usize)>, server: Vec<(u8, usize)> },
    /// The command cannot be carried out: a packet too long to encrypt, or a
    /// fuzz rule with a reversed range or a probability above one.
    Rejected,
}

/// The state of one relay session between a client and a server, with
/// client addresses of type `A`.
pub struct Session<A> {
    pub state: State,
    pub fuzz: Option<FuzzRule>,
    pub logging: bool,
    /// The client's address, learned from its first packet.
    pub client: Option<A>,
}

impl<A> Session<A> {
    /// The histograms hold positive counts and the fuzz rule, if any, is
    /// well formed.
    pub open spec fn wf(&self) -> bool {
        &&& self.state.wf()
        &&& match self.fuzz {
            Some(f) => f.wf(),
            None => true,
        }
    }

    /// A session before any event.
    pub fn new() -> (r: Session<A>)
        ensures
            r.wf(),
            r.state.client@ == Map::<usize, BTreeMap<u8, usize>>::empty(),
            r.state.server@ == Map::<usize, BTreeMap<u8, usize>>::empty(),
            r.fuzz is None,
            !r.logging,
            r.client is None,
    {
        Session { state: State::new(), fuzz: None, logging: false, client: None }
    }

    /// A frame from the client: decrypt it, record it, apply the fuzz rule
    /// toward the server and re-encrypt it under a fresh nonce for the
    /// server. A frame that does not decrypt ends the session.
    /// The sender's address `from` becomes the client's address unless one
    /// was learned before.
    pub fn on_client_packet(&mut self, wire: &[u8], from: A) -> (r: Result<Relayed, CodecError>)
        requires
            old(self).wf(),
        ensures
            final(self).wf(),
            final(self).client == (if old(self).client is Some {
                old(self).client
            } else {
                Some(from)
            }),
            final(self).fuzz == old(self).fuzz,
            final(self).logging == old(self).logging,
            final(self).state.server@ == old(self).state.server@,
            match decrypt_spec(wire@) {
                Ok(p) => {
                    &&& r is Ok
                    &&& r->Ok_0.plaintext@ == p
                    &&& forall|pos: usize, b: u8|
                        #[trigger] count(final(self).state.client@, pos, b) == recorded(
                            count(old(self).state.client@, pos, b),
                            pos,
                            b,
                            p,
                        )
                    &&& r->Ok_0.forward is Some
                    &&& forwards(r->Ok_0.forward->0@, old(self).fuzz, Direction::Server, p)
                },
                Err(e) => {
                    &&& r is Err
                    &&& r->Err_0 == e
                    &&& final(self).state.client@ == old(self).state.client@
                },
            },
    {
        if self.client.is_none() {
            self.client = Some(from);
        }
        let plain = decrypt(wire)?;
        self.state.update_client(&plain);
        let mut data = crate::codec::copy_bytes(&plain);
        fuzz_packet(&self.fuzz, Direction::Server, &mut data);
        let out = encrypt(&data);
        Ok(Relayed { plaintext: plain, forward: Some(out) })
    }

    /// A frame from the server: decrypt it and record it; once the client's
    /// address is known, apply the fuzz rule toward the client and re-encrypt it under a
    /// fresh nonce for the client. A frame that does not decrypt ends the
    /// session.
    pub fn on_server_packet(&mut self, wire: &[u8]) -> (r: Result<Relayed, CodecError>)
        requires
            old(self).wf(),
        ensures
            final(self).wf(),
            final(self).client == old(self).client,
            final(self).fuzz == old(self).fuzz,
            final(self).logging == old(self).logging,
            final(self).state.client@ == old(self).state.client@,
            match decrypt_spec(wire@) {
                Ok(p) => {
                    &&& r is Ok
                    &&& r->Ok_0.plaintext@ == p
                    &&& forall|pos: usize, b: u8|
                        #[trigger] count(final(self).state.server@, pos, b) == recorded(
                            count(old(self).state.server@, pos, b),
                            pos,
                            b,
                            p,
                        )
                    &&& (r->Ok_0.forward is Some <==> old(self).client is Some)
                    &&& (r->Ok_0.forward is Some ==> forwards(
                        r->Ok_0.forward->0@,
                        old(self).fuzz,
                        Direction::Client,
                        p,
                    ))
                },
                Err(e) => {
                    &&& r is Err
                    &&& r->Err_0 == e
                    &&& final(self).state.server@ == old(self).state.server@
                },
            },
    {
        let plain = decrypt(wire)?;
        self.state.update_server(&plain);
        if self.client.is_none() {
            return Ok(Relayed { plaintext: plain, forward: None });
        }
        let mut data = crate::codec::copy_bytes(&plain);
        fuzz_packet(&self.fuzz, Direction::Client, &mut data);
        let out = encrypt(&data);
        Ok(Relayed { plaintext: plain, forward: Some(out) })
    }

    /// Carries out a console command.
    pub fn handle_command(&mut self, cmd: Command) -> (r: Reply)
        requires
            old(self).wf(),
        ensures
            final(self).wf(),
            final(self).state == old(self).state,
            final(self).client == old(self).client,
            match cmd@ {
                CommandSpec::Log(on) => r is Nothing && final(self).logging == on && final(self).fuzz
                    == old(self).fuzz,
                CommandSpec::Fuzz(f) => final(self).logging == old(self).logging && if f.wf() {
                    r is Nothing && final(self).fuzz == Some(f)
                } else {
                    r is Rejected && final(self).fuzz == old(self).fuzz
                },
                CommandSpec::NoFuzz => r is Nothing && final(self).fuzz is None && final(self).logging
                    == old(self).logging,
                _ => final(self).fuzz == old(self).fuzz && final(self).logging == old(self).logging,
            },
            match cmd@ {
                CommandSpec::Nothing => r is Nothing,
                CommandSpec::Exit => r is Exit,
                CommandSpec::Inspect(pos) => match r {
                    Reply::Counts { client, server } => lists_counts(
                        client@,
                        old(self).state.client@,
                        pos,
                    ) && lists_counts(server@, old(self).state.server@, pos),
                    _ => false,
                },
                CommandSpec::Inject { toward, data } => if !payload_fits(data.len()) {
                    r is Rejected
                } else if toward == Endpoint::Client && old(self).client is None {
                    r is NoClient
                } else {
                    match r {
                        Reply::Send { toward: t, wire } => t == toward && exists|nonce: Seq<u8>|
                            nonce.len() == NONCE_LEN && wire@ == sealed(nonce, data),
                        _ => false,
                    }
                },
                _ => true,
            },
    {
        match cmd {
            Command::Nothing => Reply::Nothing,
            Command::Exit => Reply::Exit,
            Command::Log(on) => {
                self.logging = on;
                Reply::Nothing
            },
            Command::Inspect(pos) => Reply::Counts {
                client: self.state.client_counts(pos),
                server: self.state.server_counts(pos),
            },
            Command::Inject { toward, data } => {
                let len = data.len();
                if len as u64 > crate::codec::MAX_PAYLOAD_LEN || len > usize::MAX - 64 {
                    return Reply::Rejected;
                }
                match toward {
                    Endpoint::Client => {
                        if self.client.is_none() {
                            return Reply::NoClient;
                        }
                    },
                    Endpoint::Server => {},
                }
                Reply::Send { toward, wire: encrypt(&data) }
            },
            Command::Fuzz(f) => {
                if f.start <= f.end && 0 < f.denominator && f.numerator <= f.denominator {
                    self.fuzz = Some(f);
                    Reply::Nothing
                } else {
                    Reply::Rejected
                }
            },
            Command::NoFuzz => {
                self.fuzz = None;
                Reply::Nothing
            },
        }
    }
}

} // verus!
