//! The fuzz policy: whether and where a relayed packet is corrupted.
use crate::random::{random_bytes, random_ratio};
use vstd::prelude::*;

verus! {

/// The endpoint that relayed traffic flows toward.
#[derive(Debug, Clone, Copy, PartialEq, Eq, Structural)]
pub enum Direction {
    Client,
    Server,
    Both,
}

/// Corrupt bytes `[start, end)` of packets relayed toward `direction`, each
/// packet with probability `numerator / denominator`.
#[derive(Debug, Clone, Copy, PartialEq, Eq, Structural)]
pub struct FuzzRule {
    pub direction: Direction,
    pub start: usize,
    pub end: usize,
    pub numerator: u32,
    pub denominator: u32,
}

impl FuzzRule {
    /// A range that is not reversed and a probability within `[0, 1]`.
    pub open spec fn wf(&self) -> bool {
        &&& self.start <= self.end
        &&& 0 < self.denominator
        &&& self.numerator <= self.denominator
    }

    /// Whether the rule covers traffic toward `toward`.
    pub open spec fn covers(&self, toward: Direction) -> bool {
        self.direction == Direction::Both || self.direction == toward
    }

    /// Whether the rule covers traffic toward `toward`.
    pub fn applies(&self, toward: Direction) -> (r: bool)
        ensures
            r == self.covers(toward),
    {
        match self.direction {
            Direction::Both => true,
            Direction::Client => match toward {
                Direction::Client => true,
                _ => false,
            },
            Direction::Server => match toward {
                Direction::Server => true,
                _ => false,
            },
        }
    }
}

/// The part of `[start, end)` that lies within a packet of `len` bytes.
pub open spec fn clip(len: nat, start: nat, end: nat) -> (nat, nat) {
    let lo = if start < len { start } else { len };
    let hi = if end < len { end } else { len };
    (lo, if hi < lo { lo } else { hi })
}

/// `data` with bytes `[lo, hi)` replaced by `noise`.
pub open spec fn overwritten(data: Seq<u8>, lo: nat, hi: nat, noise: Seq<u8>) -> Seq<u8> {
    Seq::new(data.len(), |i: int| if lo <= i < hi { noise[i - lo] } else { data[i] })
}

/// What becomes of packet `data` relayed toward `toward`, given the rule, the
/// outcome `hit` of the draw and the random bytes `noise` for the clipped
/// range.
pub open spec fn fuzzed(
    rule: Option<FuzzRule>,
    toward: Direction,
    hit: bool,
    noise: Seq<u8>,
    data: Seq<u8>,
) -> Seq<u8> {
    match rule {
        Some(f) => if f.covers(toward) && hit {
            let (lo, hi) = clip(data.len(), f.start as nat, f.end as nat);
            overwritten(data, lo, hi, noise)
        } else {
            data
        },
        None => data,
    }
}

/// Whether `hit` and `noise` can come out of the draws for a packet of `len`
/// bytes: no hit with a zero numerator, a hit when numerator and denominator
/// are equal, and random bytes for the clipped range.
pub open spec fn draw_allowed(rule: Option<FuzzRule>, hit: bool, noise: Seq<u8>, len: nat) -> bool {
    match rule {
        Some(f) => {
            &&& (f.numerator == 0 ==> !hit)
            &&& (f.numerator == f.denominator ==> hit)
            &&& noise.len() == clip(len, f.start as nat, f.end as nat).1 - clip(
                len,
                f.start as nat,
                f.end as nat,
            ).0
        },
        None => true,
    }
}

/// Applies the rule to `data` given the outcome of the draw and the random
/// bytes for the clipped range.
pub fn fuzz_with(
    rule: &Option<FuzzRule>,
    toward: Direction,
    hit: bool,
    noise: &[u8],
    data: &mut Vec<u8>,
)
    requires
        match *rule {
            Some(f) => {
                let (lo, hi) = clip(old(data)@.len(), f.start as nat, f.end as nat);
                noise@.len() == hi - lo
            },
            None => true,
        },
    ensures
        final(data)@ == fuzzed(*rule, toward, hit, noise@, old(data)@),
{
    match rule {
        Some(f) => {
            if f.applies(toward) && hit {
                let len = data.len();
                let lo = if f.start < len {
                    f.start
                } else {
                    len
                };
                let hi = if f.end < len {
                    f.end
                } else {
                    len
                };
                let hi = if hi < lo {
                    lo
                } else {
                    hi
                };
                let mut i: usize = lo;
                while i < hi
                    invariant
                        lo <= i <= hi <= len,
                        len == data@.len(),
                        (lo as nat, hi as nat) == clip(
                            old(data)@.len(),
                            f.start as nat,
                            f.end as nat,
                        ),
                        len == old(data)@.len(),
                        noise@.len() == hi - lo,
                        forall|j: int|
                            0 <= j < len ==> #[trigger] data@[j] == if lo <= j < i {
                                noise@[j - lo]
                            } else {
                                old(data)@[j]
                            },
                    decreases hi - i,
                {
                    data.set(i, noise[i - lo]);
                    i += 1;
                }
                assert(data@ =~= overwritten(old(data)@, lo as nat, hi as nat, noise@));
            }
        },
        None => {},
    }
}

/// Applies the rule to a packet relayed toward `toward`: one draw with the
/// rule's probability and, on a hit, random bytes over the part of its range
/// that lies within the packet.
pub fn fuzz_packet(rule: &Option<FuzzRule>, toward: Direction, data: &mut Vec<u8>)
    requires
        match *rule {
            Some(f) => f.wf(),
            None => true,
        },
    ensures
        exists|hit: bool, noise: Seq<u8>|
            draw_allowed(*rule, hit, noise, old(data)@.len()) && final(data)@ == fuzzed(
                *rule,
                toward,
                hit,
                noise,
                old(data)@,
            ),
{
    let ghost before = data@;
    match rule {
        Some(f) => {
            if f.applies(toward) {
                let hit = random_ratio(f.numerator, f.denominator);
                let len = data.len();
                let lo = if f.start < len {
                    f.start
                } else {
                    len
                };
                let hi = if f.end < len {
                    f.end
                } else {
                    len
                };
                let hi = if hi < lo {
                    lo
                } else {
                    hi
                };
                let noise = random_bytes(hi - lo);
                fuzz_with(rule, toward, hit, &noise, data);
                assert(data@ == fuzzed(*rule, toward, hit, noise@, before));
            } else {
                let ghost noise = Seq::new(
                    (clip(data@.len(), f.start as nat, f.end as nat).1 - clip(
                        data@.len(),
                        f.start as nat,
                        f.end as nat,
                    ).0) as nat,
                    |i: int| 0u8,
                );
                assert(fuzzed(*rule, toward, f.numerator == f.denominator, noise, data@) == data@);
            }
        },
        None => {
            assert(fuzzed(*rule, toward, false, Seq::empty(), data@) == data@);
        },
    }
}

/// With a zero numerator, no allowed outcome of the draws changes a packet.
/// With the numerator equal to the denominator, every allowed outcome
/// overwrites the covered bytes of a packet relayed in a covered direction.
pub proof fn lemma_fuzz_extremes(
    f: FuzzRule,
    toward: Direction,
    hit: bool,
    noise: Seq<u8>,
    data: Seq<u8>,
)
    requires
        f.wf(),
        draw_allowed(Some(f), hit, noise, data.len()),
    ensures
        f.numerator == 0 ==> fuzzed(Some(f), toward, hit, noise, data) == data,
        f.numerator == f.denominator && f.covers(toward) ==> fuzzed(
            Some(f),
            toward,
            hit,
            noise,
            data,
        ) == overwritten(
            data,
            clip(data.len(), f.start as nat, f.end as nat).0,
            clip(data.len(), f.start as nat, f.end as nat).1,
            noise,
        ),
{
}

} // verus!
