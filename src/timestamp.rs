use vstd::prelude::*;

use crate::bytes::{bytes_equal, copy_bytes};

verus! {

/// Width in bytes of the anti-replay timestamp carried by the first handshake message.
pub const TIMESTAMP_SIZE: usize = 8;

/// The value of eight bytes read as a little-endian unsigned integer.
pub open spec fn le_value(b: Seq<u8>) -> nat {
    b[0] as nat + 0x100 * b[1] as nat + 0x1_0000 * b[2] as nat + 0x100_0000 * b[3] as nat
        + 0x1_0000_0000 * b[4] as nat + 0x100_0000_0000 * b[5] as nat
        + 0x1_0000_0000_0000 * b[6] as nat + 0x100_0000_0000_0000 * b[7] as nat
}

/// Reads an anti-replay timestamp from its little-endian wire form.
pub fn decode_timestamp(b: &[u8]) -> (r: u64)
    requires
        b@.len() == TIMESTAMP_SIZE,
    ensures
        r as nat == le_value(b@),
{
    b[0] as u64 + 0x100 * (b[1] as u64) + 0x1_0000 * (b[2] as u64) + 0x100_0000 * (b[3] as u64)
        + 0x1_0000_0000 * (b[4] as u64) + 0x100_0000_0000 * (b[5] as u64)
        + 0x1_0000_0000_0000 * (b[6] as u64) + 0x100_0000_0000_0000 * (b[7] as u64)
}

/// A timestamp that is the same on every call, which keeps fuzzing runs
/// reproducible and fast.
pub fn fake_timestamp() -> (r: [u8; TIMESTAMP_SIZE])
    ensures
        forall|i: int| 0 <= i < TIMESTAMP_SIZE ==> r@[i] == 0u8,
        le_value(r@) == 0,
{
    [0u8; TIMESTAMP_SIZE]
}

/// Issues strictly increasing timestamps to outgoing handshakes, even when the
/// wall clock goes backwards.
pub struct AntiReplayTimestamps {
    pub last_emitted: Option<u64>,
}

/// The timestamp that follows `last` when the clock reads `now`.
pub open spec fn next_timestamp(last: Option<u64>, now: u64) -> Option<u64> {
    match last {
        None => Some(now),
        Some(l) => if l == u64::MAX {
            None
        } else if now > l {
            Some(now)
        } else {
            Some((l + 1) as u64)
        },
    }
}

impl AntiReplayTimestamps {
    pub fn new() -> (r: Self)
        ensures
            r.last_emitted is None,
    {
        AntiReplayTimestamps { last_emitted: None }
    }

    /// Returns `max(last + 1, now)`, or `None` once the counter is exhausted;
    /// a returned value becomes the new last one.
    pub fn generate(&mut self, now: u64) -> (r: Option<u64>)
        ensures
            r == next_timestamp(old(self).last_emitted, now),
            r is Some ==> final(self).last_emitted == r,
            r is None ==> *final(self) == *old(self),
            r matches Some(t) ==> t >= now,
            r matches Some(t) ==> (old(self).last_emitted matches Some(l) ==> t > l),
    {
        let r = match self.last_emitted {
            None => Some(now),
            Some(l) => if l == u64::MAX {
                None
            } else if now > l {
                Some(now)
            } else {
                Some(l + 1)
            },
        };
        if r.is_some() {
            self.last_emitted = r;
        }
        r
    }
}

/// A candidate timestamp is fresh when it is strictly above the last one accepted.
pub open spec fn is_fresh(candidate: u64, last_seen: Option<u64>) -> bool {
    match last_seen {
        None => true,
        Some(l) => candidate > l,
    }
}

pub fn validate(candidate: u64, last_seen_for_peer: Option<u64>) -> (r: bool)
    ensures
        r == is_fresh(candidate, last_seen_for_peer),
{
    match last_seen_for_peer {
        None => true,
        Some(l) => candidate > l,
    }
}

/// The last timestamp accepted from each peer, keyed by the peer's identity bytes.
pub struct ReplayWindow {
    entries: Vec<(Vec<u8>, u64)>,
}

impl ReplayWindow {
    pub closed spec fn view(&self) -> Map<Seq<u8>, u64> {
        Map::new(
            |k: Seq<u8>| exists|i: int| 0 <= i < self.entries@.len() && self.entries@[i].0@ == k,
            |k: Seq<u8>|
                self.entries@[choose|i: int| 0 <= i < self.entries@.len() && self.entries@[i].0@ == k].1,
        )
    }

    /// No identity appears twice.
    pub closed spec fn well_formed(&self) -> bool {
        forall|i: int, j: int|
            0 <= i < self.entries@.len() && 0 <= j < self.entries@.len() && i != j
                ==> self.entries@[i].0@ != self.entries@[j].0@
    }

    proof fn lemma_value_at(&self, i: int)
        requires
            self.well_formed(),
            0 <= i < self.entries@.len(),
        ensures
            self@.contains_key(self.entries@[i].0@),
            self@[self.entries@[i].0@] == self.entries@[i].1,
    {
        let k = self.entries@[i].0@;
        assert(exists|j: int| 0 <= j < self.entries@.len() && self.entries@[j].0@ == k);
        let c = choose|j: int| 0 <= j < self.entries@.len() && self.entries@[j].0@ == k;
        assert(c == i);
    }

    pub fn new() -> (r: Self)
        ensures
            r.well_formed(),
            r@ == Map::<Seq<u8>, u64>::empty(),
    {
        let r = ReplayWindow { entries: Vec::new() };
        assert(r@ =~= Map::<Seq<u8>, u64>::empty());
        r
    }

    fn find(&self, peer: &[u8]) -> (r: Option<usize>)
        requires
            self.well_formed(),
        ensures
            r matches Some(i) ==> i < self.entries@.len() && self.entries@[i as int].0@ == peer@,
            r is None ==> !self@.contains_key(peer@),
    {
        let mut i: usize = 0;
        while i < self.entries.len()
            invariant
                i <= self.entries@.len(),
                forall|j: int| 0 <= j < i ==> self.entries@[j].0@ != peer@,
            decreases self.entries@.len() - i,
        {
            if bytes_equal(self.entries[i].0.as_slice(), peer) {
                return Some(i);
            }
            i = i + 1;
        }
        None
    }

    /// The last timestamp accepted from `peer`, if any.
    pub fn last_seen(&self, peer: &[u8]) -> (r: Option<u64>)
        requires
            self.well_formed(),
        ensures
            r == (if self@.contains_key(peer@) { Some(self@[peer@]) } else { None }),
    {
        match self.find(peer) {
            Some(i) => {
                proof {
                    self.lemma_value_at(i as int);
                }
                Some(self.entries[i].1)
            },
            None => None,
        }
    }

    /// Records `timestamp` as the last one accepted from `peer`.
    pub fn record(&mut self, peer: &[u8], timestamp: u64)
        requires
            old(self).well_formed(),
        ensures
            final(self).well_formed(),
            final(self)@ == old(self)@.insert(peer@, timestamp),
    {
        let ghost before = *self;
        match self.find(peer) {
            Some(i) => {
                let key = copy_bytes(peer);
                self.entries.set(i, (key, timestamp));
                proof {
                    assert forall|a: int, b: int|
                        0 <= a < self.entries@.len() && 0 <= b < self.entries@.len() && a != b
                            implies self.entries@[a].0@ != self.entries@[b].0@ by {
                        assert(before.entries@[a].0@ != before.entries@[b].0@);
                    }
                    self.lemma_value_at(i as int);
                    assert forall|k: Seq<u8>| #[trigger] self@.contains_key(k) == before@.insert(peer@, timestamp).contains_key(k) by {
                        if self@.contains_key(k) {
                            let j = choose|j: int| 0 <= j < self.entries@.len() && self.entries@[j].0@ == k;
                            if j != i {
                                assert(before.entries@[j].0@ == k);
                            }
                        }
                        if before@.contains_key(k) {
                            let j = choose|j: int| 0 <= j < before.entries@.len() && before.entries@[j].0@ == k;
                            if j != i {
                                assert(self.entries@[j].0@ == k);
                            }
                        }
                    }
                    assert forall|k: Seq<u8>| #[trigger] self@.contains_key(k) implies self@[k] == before@.insert(peer@, timestamp)[k] by {
                        let j = choose|j: int| 0 <= j < self.entries@.len() && self.entries@[j].0@ == k;
                        self.lemma_value_at(j);
                        if j != i {
                            before.lemma_value_at(j);
                        }
                    }
                    assert(self@ =~= before@.insert(peer@, timestamp));
                }
            },
            None => {
                let key = copy_bytes(peer);
                self.entries.push((key, timestamp));
                proof {
                    let n = before.entries@.len() as int;
                    assert forall|a: int, b: int|
                        0 <= a < self.entries@.len() && 0 <= b < self.entries@.len() && a != b
                            implies self.entries@[a].0@ != self.entries@[b].0@ by {
                        if a < n && b < n {
                            assert(before.entries@[a].0@ != before.entries@[b].0@);
                        } else if a < n {
                            before.lemma_value_at(a);
                        } else {
                            before.lemma_value_at(b);
                        }
                    }
                    assert forall|k: Seq<u8>| #[trigger] self@.contains_key(k) == before@.insert(peer@, timestamp).contains_key(k) by {
                        if self@.contains_key(k) {
                            let j = choose|j: int| 0 <= j < self.entries@.len() && self.entries@[j].0@ == k;
                            if j < n {
                                assert(before.entries@[j].0@ == k);
                            }
                        }
                        if before@.contains_key(k) {
                            let j = choose|j: int| 0 <= j < before.entries@.len() && before.entries@[j].0@ == k;
                            assert(self.entries@[j].0@ == k);
                        }
                        if k == peer@ {
                            assert(self.entries@[n].0@ == k);
                        }
                    }
                    assert forall|k: Seq<u8>| #[trigger] self@.contains_key(k) implies self@[k] == before@.insert(peer@, timestamp)[k] by {
                        let j = choose|j: int| 0 <= j < self.entries@.len() && self.entries@[j].0@ == k;
                        self.lemma_value_at(j);
                        if j < n {
                            before.lemma_value_at(j);
                        }
                    }
                    assert(self@ =~= before@.insert(peer@, timestamp));
                }
            },
        }
    }
}

} // verus!
