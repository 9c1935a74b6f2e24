use vstd::prelude::*;

use crate::crypto::{constant_time_eq, sha256, sha256_of};
use crate::error::PQFSRError;
use crate::kem::{kem_decap_of, kem_decapsulate, kem_encapsulate, kem_keypair, kem_pub_of,
    KEM_CIPHERTEXT_LEN, KEM_PUBLIC_LEN, KEM_SECRET_LEN};
use crate::ratchet::{chain_seed_spec, label_a2b_spec, label_b2a_spec, mix_root_spec, zeros32,
    ForwardRatchet, Packet};
use crate::ratchet::{decrypt_cached_ok, decrypt_chain_ok, decrypt_err_spec, encrypt_flow_ok,
    encrypt_pulse_ok, semantic_tag_spec};
use crate::signatures::{generate_key_pair, sig_ok_of, sign_message, verify_signature,
    SIG_PUBLIC_LEN};
use crate::state::{opt_view, RatchetState};
use crate::strategy::{current_timestamp, sat_add64, sat_add64_exec, sat_sub64, RatchetMode};

verus! {

/// A handshake request: version range, replay-protected identifier, the
/// initiator's one-shot KEM key and first ratchet key, its semantic
/// digest, and an optional signature over those fields.
#[derive(Debug)]
pub struct HandshakeRequest {
    pub version: Vec<u8>,
    pub min_version: u8,
    pub max_version: u8,
    pub handshake_id: Vec<u8>,
    pub kem_public: Vec<u8>,
    pub ratchet_public: Vec<u8>,
    pub semantic_digest: Vec<u8>,
    pub signature: Option<Vec<u8>>,
    pub signature_public_key: Option<Vec<u8>>,
}

/// A handshake response: negotiated version, the request's identifier,
/// the KEM ciphertext against the request's one-shot key, the
/// responder's ratchet key and semantic digest, and an optional
/// signature over those fields.
#[derive(Debug)]
pub struct HandshakeResponse {
    pub version: Vec<u8>,
    pub handshake_id: Vec<u8>,
    pub kem_ciphertext: Vec<u8>,
    pub ratchet_public: Vec<u8>,
    pub semantic_digest: Vec<u8>,
    pub signature: Option<Vec<u8>>,
    pub signature_public_key: Option<Vec<u8>>,
}

/// What an initiator keeps between issuing a request and finalizing:
/// the one-shot KEM secret, the first ratchet keypair and the
/// handshake identifier.
pub struct PendingHandshake {
    pub kem_private: Vec<u8>,
    pub ratchet_private: Vec<u8>,
    pub ratchet_public: Vec<u8>,
    pub handshake_id: Vec<u8>,
}

/// Replay-cache bookkeeping for one handshake identifier.
#[derive(Clone, Copy, Debug)]
pub struct HandshakeCacheEntry {
    /// Unix seconds when the identifier was first seen.
    pub first_seen: u64,
    /// How many times it was presented.
    pub seen_count: u32,
    /// Unix seconds of the latest presentation, for LRU eviction.
    pub last_accessed: u64,
}

/// Big-endian 32-bit value of four bytes.
pub open spec fn be32_val(b: Seq<u8>) -> u32
    recommends
        b.len() == 4,
{
    ((b[0] as int) * 0x1000000 + (b[1] as int) * 0x10000 + (b[2] as int) * 0x100 + (
    b[3] as int)) as u32
}

/// Big-endian encoding of a 32-bit value.
pub open spec fn be32_spec(n: u32) -> Seq<u8> {
    seq![(n >> 24) as u8, (n >> 16) as u8, (n >> 8) as u8, n as u8]
}

/// The timestamp a 16-byte handshake identifier carries in its last
/// four bytes.
pub open spec fn handshake_id_ts(id: Seq<u8>) -> u32 {
    be32_val(id.subrange(12, 16))
}

/// Saturating 32-bit addition.
pub open spec fn sat_add32(a: u32, b: u32) -> u32 {
    if a + b <= u32::MAX {
        (a + b) as u32
    } else {
        u32::MAX
    }
}

/// Saturating 32-bit subtraction.
pub open spec fn sat_sub32(a: u32, b: u32) -> u32 {
    if a >= b {
        (a - b) as u32
    } else {
        0
    }
}

/// The low 32 bits of a 64-bit value.
pub open spec fn low32(x: u64) -> u32 {
    (x % 0x100000000) as u32
}

/// Whether an identifier's timestamp is acceptable at `now`: the
/// identifier is 16 bytes, its timestamp no older than the window and
/// no further ahead than the allowed clock skew (in 32-bit seconds).
pub open spec fn ts_valid(id: Seq<u8>, now: u64, window: u64, skew: u64) -> bool {
    &&& id.len() == 16
    &&& handshake_id_ts(id) >= sat_sub32(low32(now), low32(window))
    &&& handshake_id_ts(id) <= sat_add32(low32(now), low32(skew))
}

/// Whether a cache entry is still within its time to live at `now`.
pub open spec fn entry_live(e: HandshakeCacheEntry, now: u64, ttl: u64) -> bool {
    sat_sub64(now, e.first_seen) <= ttl
}

/// Whether an identifier is present among the cache pairs.
pub open spec fn replay_has(s: Seq<(Vec<u8>, HandshakeCacheEntry)>, id: Seq<u8>) -> bool {
    exists|i: int| 0 <= i < s.len() && s[i].0@ == id
}

/// Cache keys are pairwise distinct.
pub open spec fn replay_unique(s: Seq<(Vec<u8>, HandshakeCacheEntry)>) -> bool {
    forall|i: int, j: int| 0 <= i < s.len() && 0 <= j < s.len() && i != j ==> s[i].0@ != s[j].0@
}

/// Whether some pair of `olds` carries exactly this key and
/// bookkeeping.
pub open spec fn entry_pair_in(
    olds: Seq<(Vec<u8>, HandshakeCacheEntry)>,
    key: Seq<u8>,
    e: HandshakeCacheEntry,
) -> bool {
    exists|j: int| 0 <= j < olds.len() && olds[j].0@ == key && olds[j].1 == e
}

/// Every pair of `news` carries a key and bookkeeping that some pair of
/// `olds` already carried.
pub open spec fn entries_from(
    olds: Seq<(Vec<u8>, HandshakeCacheEntry)>,
    news: Seq<(Vec<u8>, HandshakeCacheEntry)>,
) -> bool {
    forall|i: int|
        0 <= i < news.len() ==> entry_pair_in(olds, (#[trigger] news[i]).0@, news[i].1)
}

/// A position map from `news` into `olds` witnesses `entries_from`.
proof fn lemma_entries_from(
    olds: Seq<(Vec<u8>, HandshakeCacheEntry)>,
    news: Seq<(Vec<u8>, HandshakeCacheEntry)>,
    srcs: Seq<int>,
)
    requires
        srcs.len() == news.len(),
        forall|a: int|
            0 <= a < news.len() ==> 0 <= #[trigger] srcs[a] < olds.len() && olds[srcs[a]].0@
                == news[a].0@ && olds[srcs[a]].1 == news[a].1,
    ensures
        entries_from(olds, news),
{
    assert forall|i: int| 0 <= i < news.len() implies entry_pair_in(
        olds,
        (#[trigger] news[i]).0@,
        news[i].1,
    ) by {
        let j = srcs[i];
        assert(0 <= j < olds.len() && olds[j].0@ == news[i].0@ && olds[j].1 == news[i].1);
    }
}

/// Replay defense for handshake identifiers: a TTL-bounded, LRU-evicted
/// record of every identifier accepted, with timestamp validation.
pub struct HandshakeReplayCache {
    /// Accepted identifiers with their bookkeeping; keys are distinct.
    pub entries: Vec<(Vec<u8>, HandshakeCacheEntry)>,
    /// Time to live of an entry, in seconds.
    pub ttl_seconds: u64,
    /// Entry count that triggers eviction on insert.
    pub max_size: usize,
    /// How far in the past an identifier's timestamp may lie.
    pub timestamp_window_seconds: u64,
    /// How far in the future an identifier's timestamp may lie.
    pub max_clock_skew_seconds: u64,
    /// Total calls to the replay check.
    pub total_checks: u64,
    /// How many checks found a replay.
    pub replay_detections: u64,
    /// How many expired entries cleanup removed.
    pub expired_entries_cleaned: u64,
}

/// Whether a check at this cache state will run the periodic cleanup.
pub open spec fn will_cleanup(c: HandshakeReplayCache) -> bool {
    sat_add64(c.total_checks, 1) % 100 == 0 || c.entries@.len() >= c.max_size
}

/// Whether an identifier counts as already seen by a check at `now`:
/// it is cached and, should this check run the cleanup, its entry is
/// still within the TTL.
pub open spec fn seen_at(c: HandshakeReplayCache, id: Seq<u8>, now: u64) -> bool {
    exists|i: int|
        0 <= i < c.entries@.len() && c.entries@[i].0@ == id && (will_cleanup(c) ==> entry_live(
            c.entries@[i].1,
            now,
            c.ttl_seconds,
        ))
}

impl HandshakeReplayCache {
    /// Keys distinct and the entry count within the capacity bound
    /// (capacity, but at least one, since an insert follows eviction).
    pub open spec fn wf(&self) -> bool {
        &&& replay_unique(self.entries@)
        &&& self.entries@.len() <= (if self.max_size == 0 {
            1int
        } else {
            self.max_size as int
        })
    }

    /// A cache with the standard settings: 24-hour TTL, 10 000 entries,
    /// 1-hour timestamp window, 5-minute clock skew.
    pub fn new() -> (r: HandshakeReplayCache)
        ensures
            r.wf(),
            r.entries@.len() == 0,
            r.ttl_seconds == 86400,
            r.max_size == 10000,
            r.timestamp_window_seconds == 3600,
            r.max_clock_skew_seconds == 300,
            r.total_checks == 0,
            r.replay_detections == 0,
            r.expired_entries_cleaned == 0,
    {
        Self::with_config(86400, 10000, 3600, 300)
    }

    /// A cache with custom TTL, capacity, timestamp window and clock
    /// skew.
    pub fn with_config(
        ttl_seconds: u64,
        max_size: usize,
        timestamp_window_seconds: u64,
        max_clock_skew_seconds: u64,
    ) -> (r: HandshakeReplayCache)
        ensures
            r.wf(),
            r.entries@.len() == 0,
            r.ttl_seconds == ttl_seconds,
            r.max_size == max_size,
            r.timestamp_window_seconds == timestamp_window_seconds,
            r.max_clock_skew_seconds == max_clock_skew_seconds,
            r.total_checks == 0,
            r.replay_detections == 0,
            r.expired_entries_cleaned == 0,
    {
        HandshakeReplayCache {
            entries: Vec::new(),
            ttl_seconds,
            max_size,
            timestamp_window_seconds,
            max_clock_skew_seconds,
            total_checks: 0,
            replay_detections: 0,
            expired_entries_cleaned: 0,
        }
    }

    /// Extract the timestamp of a handshake identifier: its last four
    /// bytes, big-endian; present exactly when the identifier is 16
    /// bytes.
    pub fn extract_timestamp(handshake_id: &[u8]) -> (r: Option<u32>)
        ensures
            match r {
                Some(t) => handshake_id@.len() == 16 && t == handshake_id_ts(handshake_id@),
                None => handshake_id@.len() != 16,
            },
    {
        if handshake_id.len() != 16 {
            return None;
        }
        let t: u32 = (handshake_id[12] as u32) * 0x1000000 + (handshake_id[13] as u32) * 0x10000 + (
        handshake_id[14] as u32) * 0x100 + (handshake_id[15] as u32);
        proof {
            assert(handshake_id@.subrange(12, 16) =~= seq![
                handshake_id@[12],
                handshake_id@[13],
                handshake_id@[14],
                handshake_id@[15],
            ]);
        }
        Some(t)
    }

    /// Validate an identifier's timestamp against the window and skew
    /// at an explicit time; fails with `InvalidHandshakeRequest`
    /// exactly when the identifier is malformed or out of window.
    pub fn validate_timestamp_at(&self, handshake_id: &[u8], now: u64) -> (r: Result<
        (),
        PQFSRError,
    >)
        ensures
            match r {
                Ok(()) => ts_valid(
                    handshake_id@,
                    now,
                    self.timestamp_window_seconds,
                    self.max_clock_skew_seconds,
                ),
                Err(e) => !ts_valid(
                    handshake_id@,
                    now,
                    self.timestamp_window_seconds,
                    self.max_clock_skew_seconds,
                ) && e == PQFSRError::InvalidHandshakeRequest,
            },
    {
        let timestamp = match Self::extract_timestamp(handshake_id) {
            Some(t) => t,
            None => {
                return Err(PQFSRError::InvalidHandshakeRequest);
            },
        };
        let now32: u32 = (now % 0x100000000) as u32;
        let window32: u32 = (self.timestamp_window_seconds % 0x100000000) as u32;
        let skew32: u32 = (self.max_clock_skew_seconds % 0x100000000) as u32;
        let floor: u32 = if now32 >= window32 {
            now32 - window32
        } else {
            0
        };
        if timestamp < floor {
            return Err(PQFSRError::InvalidHandshakeRequest);
        }
        let ceiling: u32 = if now32 <= u32::MAX - skew32 {
            now32 + skew32
        } else {
            u32::MAX
        };
        if timestamp > ceiling {
            return Err(PQFSRError::InvalidHandshakeRequest);
        }
        Ok(())
    }

    /// Remove every entry whose TTL has lapsed at `now`; live entries
    /// survive with their bookkeeping intact.
    fn cleanup_expired(&mut self, now: u64)
        requires
            old(self).wf(),
        ensures
            final(self).wf(),
            entries_from(old(self).entries@, final(self).entries@),
            forall|j: int|
                0 <= j < old(self).entries@.len() && entry_live(
                    #[trigger] old(self).entries@[j].1,
                    now,
                    old(self).ttl_seconds,
                ) ==> replay_has(final(self).entries@, old(self).entries@[j].0@),
            forall|i: int|
                0 <= i < final(self).entries@.len() ==> entry_live(
                    #[trigger] final(self).entries@[i].1,
                    now,
                    old(self).ttl_seconds,
                ),
            final(self).entries@.len() <= old(self).entries@.len(),
            final(self).ttl_seconds == old(self).ttl_seconds,
            final(self).max_size == old(self).max_size,
            final(self).timestamp_window_seconds == old(self).timestamp_window_seconds,
            final(self).max_clock_skew_seconds == old(self).max_clock_skew_seconds,
            final(self).total_checks == old(self).total_checks,
            final(self).replay_detections == old(self).replay_detections,
    {
        let ghost orig = self.entries@;
        let ghost mut srcs: Seq<int> = Seq::empty();
        let mut kept: Vec<(Vec<u8>, HandshakeCacheEntry)> = Vec::new();
        let mut i: usize = 0;
        while i < self.entries.len()
            invariant
                i <= self.entries@.len(),
                self.entries@ == orig,
                replay_unique(orig),
                srcs.len() == kept@.len(),
                forall|a: int|
                    0 <= a < kept@.len() ==> 0 <= #[trigger] srcs[a] < i && orig[srcs[a]].0@
                        == kept@[a].0@ && orig[srcs[a]].1 == kept@[a].1,
                forall|b: int|
                    0 <= b < i && entry_live(#[trigger] orig[b].1, now, self.ttl_seconds)
                        ==> replay_has(kept@, orig[b].0@),
                forall|a: int|
                    0 <= a < kept@.len() ==> entry_live(
                        #[trigger] kept@[a].1,
                        now,
                        self.ttl_seconds,
                    ),
                replay_unique(kept@),
                kept@.len() <= i,
                self.ttl_seconds == old(self).ttl_seconds,
                self.max_size == old(self).max_size,
                self.timestamp_window_seconds == old(self).timestamp_window_seconds,
                self.max_clock_skew_seconds == old(self).max_clock_skew_seconds,
                self.total_checks == old(self).total_checks,
                self.replay_detections == old(self).replay_detections,
            decreases self.entries@.len() - i,
        {
            let expired = crate::strategy::sat_sub64_exec(now, self.entries[i].1.first_seen)
                > self.ttl_seconds;
            if !expired {
                let key = crate::state::clone_bytes(&self.entries[i].0);
                let entry = self.entries[i].1;
                let ghost kept_pre = kept@;
                kept.push((key, entry));
                proof {
                    srcs = srcs.push(i as int);
                    assert(kept@[kept@.len() - 1].0@ == orig[i as int].0@);
                    assert(kept@[kept@.len() - 1].1 == orig[i as int].1);
                    assert forall|b: int|
                        0 <= b < i + 1 && entry_live(
                            #[trigger] orig[b].1,
                            now,
                            self.ttl_seconds,
                        ) implies replay_has(kept@, orig[b].0@) by {
                        if b < i as int {
                            assert(replay_has(kept_pre, orig[b].0@));
                            let w = choose|w: int|
                                0 <= w < kept_pre.len() && kept_pre[w].0@ == orig[b].0@;
                            assert(kept@[w] == kept_pre[w]);
                        } else {
                            assert(kept@[kept@.len() - 1].0@ == orig[b].0@);
                        }
                    }
                    assert forall|a: int, b: int|
                        0 <= a < kept@.len() && 0 <= b < kept@.len() && a != b implies kept@[a].0@
                        != kept@[b].0@ by {
                        if a < kept@.len() - 1 && b < kept@.len() - 1 {
                            assert(kept@[a] == kept_pre[a]);
                            assert(kept@[b] == kept_pre[b]);
                        } else {
                            let inner: int = if a < kept@.len() - 1 {
                                a
                            } else {
                                b
                            };
                            let x = srcs[inner];
                            assert(kept@[inner] == kept_pre[inner]);
                            assert(0 <= x < i && orig[x].0@ == kept@[inner].0@);
                            assert(orig[x].0@ != orig[i as int].0@);
                        }
                    }
                }
            } else {
                self.expired_entries_cleaned = sat_add64_exec(self.expired_entries_cleaned, 1);
            }
            i = i + 1;
        }
        let ghost keptv = kept@;
        self.entries = kept;
        proof {
            assert forall|a: int|
                0 <= a < self.entries@.len() implies 0 <= #[trigger] srcs[a] < old(self).entries@.len() && old(self).entries@[srcs[a]].0@ == self.entries@[a].0@ && old(self).entries@[srcs[a]].1 == self.entries@[a].1 by {
                assert(orig == old(self).entries@);
                assert(self.entries@ == keptv);
            }
            lemma_entries_from(old(self).entries@, self.entries@, srcs);
        }
    }

    /// Remove the least recently accessed entry, if any.
    fn evict_oldest(&mut self)
        requires
            old(self).wf(),
        ensures
            final(self).wf(),
            old(self).entries@.len() > 0 ==> final(self).entries@.len() == old(self).entries@.len() - 1,
            old(self).entries@.len() == 0 ==> final(self).entries@ == old(self).entries@,
            entries_from(old(self).entries@, final(self).entries@),
            old(self).entries@.len() > 0 ==> exists|p: int|
                0 <= p < old(self).entries@.len() && (forall|j: int|
                    0 <= j < old(self).entries@.len() ==> old(self).entries@[p].1.last_accessed
                        <= (#[trigger] old(self).entries@[j]).1.last_accessed) && final(self).entries@ == old(self).entries@.remove(p),
            final(self).ttl_seconds == old(self).ttl_seconds,
            final(self).max_size == old(self).max_size,
            final(self).timestamp_window_seconds == old(self).timestamp_window_seconds,
            final(self).max_clock_skew_seconds == old(self).max_clock_skew_seconds,
            final(self).total_checks == old(self).total_checks,
            final(self).replay_detections == old(self).replay_detections,
            final(self).expired_entries_cleaned == old(self).expired_entries_cleaned,
    {
        if self.entries.len() == 0 {
            return ;
        }
        let mut best: usize = 0;
        let mut i: usize = 1;
        while i < self.entries.len()
            invariant
                best < i <= self.entries@.len(),
                self.entries@ == old(self).entries@,
                forall|j: int|
                    0 <= j < i ==> self.entries@[best as int].1.last_accessed
                        <= (#[trigger] self.entries@[j]).1.last_accessed,
            decreases self.entries@.len() - i,
        {
            if self.entries[i].1.last_accessed < self.entries[best].1.last_accessed {
                best = i;
            }
            i = i + 1;
        }
        let ghost orig = self.entries@;
        self.entries.remove(best);
        proof {
            let t = self.entries@;
            assert forall|a: int, b: int|
                0 <= a < t.len() && 0 <= b < t.len() && a != b implies t[a].0@ != t[b].0@ by {
                let ao: int = if a < best as int {
                    a
                } else {
                    a + 1
                };
                let bo: int = if b < best as int {
                    b
                } else {
                    b + 1
                };
                assert(t[a] == orig[ao]);
                assert(t[b] == orig[bo]);
            }
            let srcs = Seq::new(
                t.len(),
                |a: int|
                    if a < best as int {
                        a
                    } else {
                        a + 1
                    },
            );
            assert forall|a: int|
                0 <= a < t.len() implies 0 <= #[trigger] srcs[a] < old(self).entries@.len() && old(self).entries@[srcs[a]].0@ == t[a].0@ && old(self).entries@[srcs[a]].1 == t[a].1 by {
                assert(t[a] == orig[srcs[a]]);
                assert(orig == old(self).entries@);
            }
            lemma_entries_from(old(self).entries@, t, srcs);
            assert(t == self.entries@);
            assert(0 <= best as int && (best as int) < old(self).entries@.len());
            assert forall|j: int|
                0 <= j < old(self).entries@.len() implies old(self).entries@[
                best as int
            ].1.last_accessed <= (#[trigger] old(self).entries@[j]).1.last_accessed by {
                assert(orig[j] == old(self).entries@[j]);
            }
            assert(self.entries@ == old(self).entries@.remove(best as int));
        }
    }

    /// Check an identifier and record it. Fails with
    /// `InvalidHandshakeRequest` when its timestamp is out of window;
    /// fails with `HandshakeReplay` when it counts as already seen; and
    /// otherwise records it as first seen at `now` and succeeds.
    pub fn check_and_record_at(&mut self, handshake_id: &[u8], now: u64) -> (r: Result<
        (),
        PQFSRError,
    >)
        requires
            old(self).wf(),
        ensures
            final(self).wf(),
            final(self).ttl_seconds == old(self).ttl_seconds,
            final(self).max_size == old(self).max_size,
            final(self).timestamp_window_seconds == old(self).timestamp_window_seconds,
            final(self).max_clock_skew_seconds == old(self).max_clock_skew_seconds,
            match r {
                Ok(()) => {
                    &&& ts_valid(
                        handshake_id@,
                        now,
                        old(self).timestamp_window_seconds,
                        old(self).max_clock_skew_seconds,
                    )
                    &&& !seen_at(*old(self), handshake_id@, now)
                    &&& exists|i: int|
                        0 <= i < final(self).entries@.len() && final(self).entries@[i].0@
                            == handshake_id@ && final(self).entries@[i].1.first_seen == now && final(self).entries@[i].1.last_accessed == now
                },
                Err(e) => {
                    ||| (e == PQFSRError::InvalidHandshakeRequest && !ts_valid(
                        handshake_id@,
                        now,
                        old(self).timestamp_window_seconds,
                        old(self).max_clock_skew_seconds,
                    ) && final(self).entries@ == old(self).entries@)
                    ||| (e == PQFSRError::HandshakeReplay && ts_valid(
                        handshake_id@,
                        now,
                        old(self).timestamp_window_seconds,
                        old(self).max_clock_skew_seconds,
                    ) && seen_at(*old(self), handshake_id@, now) && replay_has(
                        final(self).entries@,
                        handshake_id@,
                    ) && (exists|i: int, j: int|
                        0 <= i < final(self).entries@.len() && 0 <= j < old(self).entries@.len()
                            && (#[trigger] final(self).entries@[i]).0@ == handshake_id@ && (
                        #[trigger] old(self).entries@[j]).0@ == handshake_id@ && final(self).entries@[i].1.first_seen == old(self).entries@[j].1.first_seen && final(self).entries@[i].1.seen_count == sat_add32(
                            old(self).entries@[j].1.seen_count,
                            1,
                        ) && final(self).entries@[i].1.last_accessed == now))
                },
            },
            r is Ok && !will_cleanup(*old(self)) && old(self).entries@.len() < old(self).max_size
                ==> final(self).entries@.len() == old(self).entries@.len() + 1 && (forall|j: int|
                0 <= j < old(self).entries@.len() ==> #[trigger] final(self).entries@[j] == old(self).entries@[j]) && final(self).entries@[old(self).entries@.len() as int].0@
                == handshake_id@ && final(self).entries@[old(self).entries@.len() as int].1
                == (HandshakeCacheEntry { first_seen: now, seen_count: 1, last_accessed: now }),
    {
        self.total_checks = sat_add64_exec(self.total_checks, 1);

        match self.validate_timestamp_at(handshake_id, now) {
            Ok(()) => {},
            Err(e) => {
                return Err(e);
            },
        }

        let do_cleanup = self.total_checks % 100 == 0 || self.entries.len() >= self.max_size;
        if do_cleanup {
            self.cleanup_expired(now);
        }
        let ghost cleaned = self.entries@;

        match self.find_key(handshake_id) {
            Some(p) => {
                proof {
                    if do_cleanup {
                        let j = choose|j: int|
                            0 <= j < old(self).entries@.len() && old(self).entries@[j].0@
                                == cleaned[p as int].0@ && old(self).entries@[j].1 == cleaned[
                                p as int
                            ].1;
                        assert(0 <= j < old(self).entries@.len() && old(self).entries@[j].0@
                            == handshake_id@ && entry_live(
                            old(self).entries@[j].1,
                            now,
                            old(self).ttl_seconds,
                        ));
                        assert(seen_at(*old(self), handshake_id@, now));
                    } else {
                        assert(seen_at(*old(self), handshake_id@, now));
                    }
                }
                let entry = self.entries[p].1;
                let updated = HandshakeCacheEntry {
                    first_seen: entry.first_seen,
                    seen_count: sat_add32_exec(entry.seen_count, 1),
                    last_accessed: now,
                };
                let ghost before = self.entries@;
                let pair = self.entries.remove(p);
                let key = pair.0;
                self.entries.push((key, updated));
                proof {
                    let t = self.entries@;
                    assert forall|a: int, b: int|
                        0 <= a < t.len() && 0 <= b < t.len() && a != b implies t[a].0@
                        != t[b].0@ by {
                        let last: int = t.len() - 1;
                        if a < last && b < last {
                            let ao: int = if a < p as int {
                                a
                            } else {
                                a + 1
                            };
                            let bo: int = if b < p as int {
                                b
                            } else {
                                b + 1
                            };
                            assert(t[a] == before[ao]);
                            assert(t[b] == before[bo]);
                        } else {
                            let other: int = if a < last {
                                a
                            } else {
                                b
                            };
                            let oo: int = if other < p as int {
                                other
                            } else {
                                other + 1
                            };
                            assert(t[other] == before[oo]);
                            assert(before[oo].0@ != before[p as int].0@);
                        }
                    }
                    assert(t[t.len() - 1].0@ == handshake_id@);
                    assert(replay_has(t, handshake_id@));
                    assert(before == cleaned);
                    assert(t[t.len() - 1].1 == updated);
                    assert(entry == cleaned[p as int].1);
                    let fi: int = t.len() - 1;
                    if do_cleanup {
                        assert(entry_pair_in(
                            old(self).entries@,
                            cleaned[p as int].0@,
                            cleaned[p as int].1,
                        ));
                        let j = choose|j: int|
                            0 <= j < old(self).entries@.len() && old(self).entries@[j].0@
                                == cleaned[p as int].0@ && old(self).entries@[j].1 == cleaned[
                                p as int
                            ].1;
                        assert(0 <= fi < t.len() && 0 <= j < old(self).entries@.len() && t[fi].0@
                            == handshake_id@ && old(self).entries@[j].0@ == handshake_id@
                            && t[fi].1.first_seen == old(self).entries@[j].1.first_seen
                            && t[fi].1.seen_count == sat_add32(
                            old(self).entries@[j].1.seen_count,
                            1,
                        ) && t[fi].1.last_accessed == now);
                    } else {
                        assert(cleaned == old(self).entries@);
                        let j: int = p as int;
                        assert(0 <= fi < t.len() && 0 <= j < old(self).entries@.len() && t[fi].0@
                            == handshake_id@ && old(self).entries@[j].0@ == handshake_id@
                            && t[fi].1.first_seen == old(self).entries@[j].1.first_seen
                            && t[fi].1.seen_count == sat_add32(
                            old(self).entries@[j].1.seen_count,
                            1,
                        ) && t[fi].1.last_accessed == now);
                    }
                }
                self.replay_detections = sat_add64_exec(self.replay_detections, 1);
                Err(PQFSRError::HandshakeReplay)
            },
            None => {
                proof {
                    if seen_at(*old(self), handshake_id@, now) {
                        let j = choose|j: int|
                            0 <= j < old(self).entries@.len() && old(self).entries@[j].0@
                                == handshake_id@ && (will_cleanup(*old(self)) ==> entry_live(
                                old(self).entries@[j].1,
                                now,
                                old(self).ttl_seconds,
                            ));
                        if do_cleanup {
                            assert(entry_live(old(self).entries@[j].1, now, old(self).ttl_seconds));
                            assert(replay_has(cleaned, old(self).entries@[j].0@));
                        } else {
                            assert(replay_has(cleaned, handshake_id@));
                        }
                        assert(false);
                    }
                }
                if self.entries.len() >= self.max_size {
                    self.evict_oldest();
                    proof {
                        assert forall|a: int|
                            0 <= a < self.entries@.len() implies #[trigger] self.entries@[a].0@
                            != handshake_id@ by {
                            let j = choose|j: int|
                                0 <= j < cleaned.len() && cleaned[j].0@ == self.entries@[a].0@
                                    && cleaned[j].1 == self.entries@[a].1;
                        }
                    }
                }
                let mut key: Vec<u8> = Vec::new();
                key.extend_from_slice(handshake_id);
                proof {
                    assert(key@ =~= handshake_id@);
                }
                let ghost before = self.entries@;
                self.entries.push(
                    (key, HandshakeCacheEntry { first_seen: now, seen_count: 1, last_accessed: now }),
                );
                proof {
                    let t = self.entries@;
                    assert forall|a: int, b: int|
                        0 <= a < t.len() && 0 <= b < t.len() && a != b implies t[a].0@
                        != t[b].0@ by {
                        if a < t.len() - 1 && b < t.len() - 1 {
                            assert(t[a] == before[a]);
                            assert(t[b] == before[b]);
                        }
                    }
                    assert(t[t.len() - 1].0@ == handshake_id@ && t[t.len() - 1].1.first_seen == now
                        && t[t.len() - 1].1.last_accessed == now);
                    assert(do_cleanup == will_cleanup(*old(self)));
                    if !do_cleanup && old(self).entries@.len() < old(self).max_size {
                        assert(cleaned == old(self).entries@);
                        assert(before == old(self).entries@);
                        assert(t.len() == old(self).entries@.len() + 1);
                        assert forall|j: int|
                            0 <= j < old(self).entries@.len() implies #[trigger] t[j] == old(self).entries@[j] by {
                            assert(t[j] == before[j]);
                        }
                        assert(t[old(self).entries@.len() as int].1
                            == (HandshakeCacheEntry { first_seen: now, seen_count: 1, last_accessed: now }));
                    }
                }
                Ok(())
            },
        }
    }

    /// Position of the entry for an identifier, if present.
    fn find_key(&self, handshake_id: &[u8]) -> (r: Option<usize>)
        ensures
            match r {
                Some(p) => p < self.entries@.len() && self.entries@[p as int].0@ == handshake_id@,
                None => !replay_has(self.entries@, handshake_id@),
            },
    {
        let mut i: usize = 0;
        while i < self.entries.len()
            invariant
                i <= self.entries@.len(),
                forall|j: int| 0 <= j < i ==> #[trigger] self.entries@[j].0@ != handshake_id@,
            decreases self.entries@.len() - i,
        {
            if constant_time_eq(self.entries[i].0.as_slice(), handshake_id) {
                return Some(i);
            }
            i = i + 1;
        }
        None
    }

    /// Counters: total checks, replays detected, expired entries
    /// cleaned, and the current entry count.
    pub fn stats(&self) -> (r: (u64, u64, u64, usize))
        ensures
            r.0 == self.total_checks,
            r.1 == self.replay_detections,
            r.2 == self.expired_entries_cleaned,
            r.3 == self.entries@.len(),
    {
        (self.total_checks, self.replay_detections, self.expired_entries_cleaned, self.entries.len())
    }

    /// Forget every entry and zero the counters.
    pub fn clear(&mut self)
        ensures
            final(self).wf(),
            final(self).entries@.len() == 0,
            final(self).total_checks == 0,
            final(self).replay_detections == 0,
            final(self).expired_entries_cleaned == 0,
            final(self).ttl_seconds == old(self).ttl_seconds,
            final(self).max_size == old(self).max_size,
            final(self).timestamp_window_seconds == old(self).timestamp_window_seconds,
            final(self).max_clock_skew_seconds == old(self).max_clock_skew_seconds,
    {
        self.entries.clear();
        self.total_checks = 0;
        self.replay_detections = 0;
        self.expired_entries_cleaned = 0;
    }

    /// Check an identifier against the wall clock and record it; the
    /// outcome is [`HandshakeReplayCache::check_and_record_at`]'s at
    /// the current time.
    pub fn check_and_record(&mut self, handshake_id: &[u8]) -> (r: Result<(), PQFSRError>)
        requires
            old(self).wf(),
        ensures
            final(self).wf(),
            final(self).ttl_seconds == old(self).ttl_seconds,
            final(self).max_size == old(self).max_size,
            final(self).timestamp_window_seconds == old(self).timestamp_window_seconds,
            final(self).max_clock_skew_seconds == old(self).max_clock_skew_seconds,
            r matches Err(e) ==> (e == PQFSRError::InvalidHandshakeRequest || (e
                == PQFSRError::HandshakeReplay && replay_has(final(self).entries@, handshake_id@))),
            r is Ok ==> replay_has(final(self).entries@, handshake_id@),
    {
        let now = current_timestamp();
        let r = self.check_and_record_at(handshake_id, now);
        proof {
            if r is Ok {
                let i = choose|i: int|
                    0 <= i < self.entries@.len() && self.entries@[i].0@ == handshake_id@
                        && self.entries@[i].1.first_seen == now && self.entries@[i].1.last_accessed
                        == now;
                assert(replay_has(self.entries@, handshake_id@));
            }
        }
        r
    }
}

/// Saturating 32-bit addition, executable form of [`sat_add32`].
pub fn sat_add32_exec(a: u32, b: u32) -> (r: u32)
    ensures
        r == sat_add32(a, b),
{
    if a <= u32::MAX - b {
        a + b
    } else {
        u32::MAX
    }
}

/// The digest prefix `"PQ-FSR-sem"` that a semantic hint is hashed
/// under.
pub open spec fn sem_prefix_spec() -> Seq<u8> {
    seq![80u8, 81u8, 45u8, 70u8, 83u8, 82u8, 45u8, 115u8, 101u8, 109u8]
}

/// A party's local semantic digest: `SHA-256("PQ-FSR-sem" ‖ hint)`.
pub open spec fn local_digest_spec(hint: Seq<u8>) -> Seq<u8> {
    sha256_of(sem_prefix_spec() + hint)
}

/// Lexicographic byte-string order.
pub open spec fn bytes_le(a: Seq<u8>, b: Seq<u8>) -> bool
    decreases a.len(),
{
    if a.len() == 0 {
        true
    } else if b.len() == 0 {
        false
    } else if a[0] < b[0] {
        true
    } else if a[0] > b[0] {
        false
    } else {
        bytes_le(a.skip(1), b.skip(1))
    }
}

/// The combined semantic digest of two parties: the SHA-256 of the two
/// local digests concatenated in lexicographic order, the same on both
/// sides.
pub open spec fn combined_digest_spec(a: Seq<u8>, b: Seq<u8>) -> Seq<u8> {
    if bytes_le(a, b) {
        sha256_of(a + b)
    } else {
        sha256_of(b + a)
    }
}

/// The lexicographic order is total.
pub proof fn lemma_bytes_le_total(a: Seq<u8>, b: Seq<u8>)
    ensures
        bytes_le(a, b) || bytes_le(b, a),
    decreases a.len(),
{
    if a.len() == 0 {
    } else if b.len() == 0 {
    } else if a[0] < b[0] {
    } else if a[0] > b[0] {
    } else {
        lemma_bytes_le_total(a.skip(1), b.skip(1));
    }
}

/// The lexicographic order is antisymmetric.
pub proof fn lemma_bytes_le_antisym(a: Seq<u8>, b: Seq<u8>)
    requires
        bytes_le(a, b),
        bytes_le(b, a),
    ensures
        a == b,
    decreases a.len(),
{
    if a.len() == 0 {
        assert(b.len() == 0);
        assert(a =~= b);
    } else {
        assert(b.len() > 0);
        assert(a[0] == b[0]);
        lemma_bytes_le_antisym(a.skip(1), b.skip(1));
        assert(a.len() == b.len());
        assert forall|i: int| 0 <= i < a.len() implies a[i] == b[i] by {
            if i > 0 {
                assert(a.skip(1)[i - 1] == b.skip(1)[i - 1]);
                assert(a.skip(1)[i - 1] == a[i]);
                assert(b.skip(1)[i - 1] == b[i]);
            }
        }
        assert(a =~= b);
    }
}

/// Both parties compute the same combined digest: the combination is
/// symmetric in the two local digests.
pub proof fn lemma_combined_digest_comm(a: Seq<u8>, b: Seq<u8>)
    ensures
        combined_digest_spec(a, b) == combined_digest_spec(b, a),
{
    lemma_bytes_le_total(a, b);
    if bytes_le(a, b) && bytes_le(b, a) {
        lemma_bytes_le_antisym(a, b);
    }
}

/// Compare two byte strings in lexicographic order.
pub fn bytes_le_exec(a: &[u8], b: &[u8]) -> (r: bool)
    ensures
        r == bytes_le(a@, b@),
{
    let n: usize = if a.len() <= b.len() {
        a.len()
    } else {
        b.len()
    };
    let mut i: usize = 0;
    proof {
        assert(a@.skip(0) =~= a@);
        assert(b@.skip(0) =~= b@);
    }
    while i < n
        invariant
            i <= n,
            n <= a@.len() && n <= b@.len(),
            (n == a@.len() || n == b@.len()),
            bytes_le(a@, b@) == bytes_le(a@.skip(i as int), b@.skip(i as int)),
        decreases n - i,
    {
        proof {
            assert(a@.skip(i as int)[0] == a@[i as int]);
            assert(b@.skip(i as int)[0] == b@[i as int]);
            assert(a@.skip(i as int).skip(1) =~= a@.skip(i as int + 1));
            assert(b@.skip(i as int).skip(1) =~= b@.skip(i as int + 1));
        }
        if a[i] < b[i] {
            return true;
        }
        if a[i] > b[i] {
            return false;
        }
        i = i + 1;
    }
    proof {
        if a@.len() <= b@.len() {
            assert(a@.skip(i as int).len() == 0);
        } else {
            assert(b@.skip(i as int).len() == 0);
            assert(a@.skip(i as int).len() > 0);
        }
    }
    a.len() <= b.len()
}

/// Encode a 32-bit value in big-endian byte order.
pub fn be32(n: u32) -> (r: Vec<u8>)
    ensures
        r@ == be32_spec(n),
{
    let mut v: Vec<u8> = Vec::new();
    v.push((n >> 24) as u8);
    v.push((n >> 16) as u8);
    v.push((n >> 8) as u8);
    v.push(n as u8);
    proof {
        assert(v@ =~= be32_spec(n));
    }
    v
}

/// Relies on rand::random for byte arrays: returns 12 bytes drawn from
/// the thread's cryptographically secure generator. Nothing is promised
/// of the values.
#[verifier::external_body]
fn random_bytes_12() -> (r: Vec<u8>)
    ensures
        r@.len() == 12,
{
    let bytes: [u8; 12] = rand::random();
    bytes.to_vec()
}

/// The bytes a handshake request's signature covers.
pub open spec fn request_sig_msg(req: HandshakeRequest) -> Seq<u8> {
    req.handshake_id@ + req.kem_public@ + req.ratchet_public@ + req.semantic_digest@
}

/// The bytes a handshake response's signature covers.
pub open spec fn response_sig_msg(resp: HandshakeResponse) -> Seq<u8> {
    resp.handshake_id@ + resp.kem_ciphertext@ + resp.ratchet_public@ + resp.semantic_digest@
}

/// Whether a request's version interval overlaps the supported
/// interval, which is exactly version 1.
pub open spec fn version_ok(min_version: u8, max_version: u8) -> bool {
    min_version <= max_version && max_version >= 1 && min_version <= 1
}

/// Whether a message's optional signature passes: absent (in any part)
/// it is ignored; present, the public key must be well-formed and the
/// signature must verify.
pub open spec fn sig_check(msg: Seq<u8>, sig: Option<Vec<u8>>, pk: Option<Vec<u8>>) -> bool {
    match (sig, pk) {
        (Some(s), Some(p)) => p@.len() == SIG_PUBLIC_LEN && sig_ok_of(msg, s@, p@),
        _ => true,
    }
}

/// What holds of a bootstrapped handshake root against the one-shot KEM
/// exchange: decapsulating the response's KEM ciphertext with any
/// secret key whose public counterpart is the request's KEM key, and
/// mixing it as the first root, yields this root.
pub open spec fn handshake_root_ok(
    kem_ct: Seq<u8>,
    kem_pub: Seq<u8>,
    cd: Seq<u8>,
    root: Seq<u8>,
) -> bool {
    forall|sk: Seq<u8>|
        kem_pub_of(sk) == kem_pub ==> root == mix_root_spec(
            zeros32(),
            #[trigger] kem_decap_of(kem_ct, sk),
            cd,
        )
}

/// The error a rejected handshake acceptance carries, by the order the
/// responder runs its checks: role, state, identifier timestamp, replay,
/// version overlap, signature key form, signature validity, KEM key
/// form. A request failing none of these cannot be rejected.
pub open spec fn accept_err_spec(
    s: RatchetSession,
    request: HandshakeRequest,
    now: u64,
    e: PQFSRError,
) -> bool {
    if s.is_initiator {
        e == PQFSRError::ResponderOnly
    } else if s.ready {
        e == PQFSRError::InvalidSessionState
    } else if !ts_valid(
        request.handshake_id@,
        now,
        s.replay_cache.timestamp_window_seconds,
        s.replay_cache.max_clock_skew_seconds,
    ) {
        e == PQFSRError::InvalidHandshakeRequest
    } else if seen_at(s.replay_cache, request.handshake_id@, now) {
        e == PQFSRError::HandshakeReplay
    } else if !version_ok(request.min_version, request.max_version) {
        e == PQFSRError::VersionNegotiationFailed
    } else if (request.signature matches Some(sg) && (request.signature_public_key matches Some(pk)
        && pk@.len() != SIG_PUBLIC_LEN)) {
        e == PQFSRError::InvalidKeyFormat
    } else if (request.signature matches Some(sg) && (request.signature_public_key matches Some(pk)
        && !sig_ok_of(request_sig_msg(request), sg@, pk@))) {
        e == PQFSRError::SignatureVerificationFailed
    } else if request.kem_public@.len() != KEM_PUBLIC_LEN {
        e == PQFSRError::InvalidKeyFormat
    } else {
        false
    }
}

/// The error a rejected handshake finalization carries, by the order
/// the initiator runs its checks: role, state, pending presence,
/// identifier match, version form and value, signature key form,
/// signature validity, KEM material form. A response failing none of
/// these cannot be rejected.
pub open spec fn finalize_err_spec(
    s: RatchetSession,
    response: HandshakeResponse,
    e: PQFSRError,
) -> bool {
    if !s.is_initiator {
        e == PQFSRError::InitiatorOnly
    } else if s.ready {
        e == PQFSRError::InvalidSessionState
    } else if s.pending_handshake is None {
        e == PQFSRError::InvalidSessionState
    } else if s.pending_handshake.unwrap().handshake_id@ != response.handshake_id@ {
        e == PQFSRError::InvalidHandshakeResponse
    } else if response.version@.len() != 4 {
        e == PQFSRError::InvalidHandshakeResponse
    } else if response.version@ != be32_spec(1) {
        e == PQFSRError::VersionNegotiationFailed
    } else if (response.signature matches Some(sg) && (response.signature_public_key matches Some(
        pk,
    ) && pk@.len() != SIG_PUBLIC_LEN)) {
        e == PQFSRError::InvalidKeyFormat
    } else if (response.signature matches Some(sg) && (response.signature_public_key matches Some(
        pk,
    ) && !sig_ok_of(response_sig_msg(response), sg@, pk@))) {
        e == PQFSRError::SignatureVerificationFailed
    } else if response.kem_ciphertext@.len() != KEM_CIPHERTEXT_LEN
        || s.pending_handshake.unwrap().kem_private@.len() != KEM_SECRET_LEN {
        e == PQFSRError::InvalidKeyFormat
    } else {
        false
    }
}

/// A freshly bootstrapped session state on the combined digest `cd`:
/// chains seeded from the root under the role's labels, counters zero,
/// an empty cache.
pub open spec fn session_state_ok(
    st: RatchetState,
    cd: Seq<u8>,
    local_digest: Seq<u8>,
    remote_digest: Seq<u8>,
    is_initiator: bool,
    max_skip: usize,
) -> bool {
    &&& st.send_label@ == (if is_initiator {
        label_a2b_spec()
    } else {
        label_b2a_spec()
    })
    &&& st.recv_label@ == (if is_initiator {
        label_b2a_spec()
    } else {
        label_a2b_spec()
    })
    &&& st.send_chain_key@ == chain_seed_spec(st.root_key@, cd, st.send_label@)
    &&& st.recv_chain_key@ == chain_seed_spec(st.root_key@, cd, st.recv_label@)
    &&& st.send_count == 0
    &&& st.recv_count == 0
    &&& st.previous_send_count == 0
    &&& st.combined_digest@ == cd
    &&& st.local_digest@ == local_digest
    &&& opt_view(st.remote_digest) == Some(remote_digest)
    &&& st.skipped_message_keys@.len() == 0
    &&& st.max_skip == max_skip
    &&& st.wf_cache()
    &&& st.root_key@.len() == 32
}

/// A two-party session: role, semantic hint and digest, the ratchet
/// engine and its state, the handshake state machine and the local
/// replay cache.
pub struct RatchetSession {
    /// Whether this side initiates the handshake.
    pub is_initiator: bool,
    /// The caller-chosen semantic context hint.
    pub semantic_hint: Vec<u8>,
    /// The ratchet engine (strategy and cache capacity).
    pub ratchet: ForwardRatchet,
    /// The ratchet state, present once the handshake completed.
    pub state: Option<RatchetState>,
    /// Whether the handshake completed.
    pub ready: bool,
    /// The initiator's material between request and finalize.
    pub pending_handshake: Option<PendingHandshake>,
    /// The peer's semantic digest, once known.
    pub remote_digest: Option<Vec<u8>>,
    /// The identifier of the accepted handshake, once known.
    pub handshake_id: Option<Vec<u8>>,
    /// This side's semantic digest, `SHA-256("PQ-FSR-sem" ‖ hint)`.
    pub local_digest: Vec<u8>,
    /// Replay defense for handshake identifiers seen by this session.
    pub replay_cache: HandshakeReplayCache,
}

impl RatchetSession {
    /// Create a session in the Fresh state for the given role, hint and
    /// skipped-key bound.
    pub fn new(is_initiator: bool, semantic_hint: Vec<u8>, max_skip: usize) -> (r: RatchetSession)
        ensures
            r.is_initiator == is_initiator,
            r.semantic_hint@ == semantic_hint@,
            r.local_digest@ == local_digest_spec(semantic_hint@),
            r.ratchet.max_skip == max_skip,
            r.ratchet.strategy.mode == RatchetMode::BalancedFlow,
            r.ratchet.strategy.metrics.consecutive_sends == 0,
            r.state is None,
            !r.ready,
            r.pending_handshake is None,
            r.remote_digest is None,
            r.handshake_id is None,
            r.replay_cache.wf(),
            r.replay_cache.entries@.len() == 0,
    {
        let mut hashed: Vec<u8> = Vec::new();
        let prefix: Vec<u8> = vec![80u8, 81u8, 45u8, 70u8, 83u8, 82u8, 45u8, 115u8, 101u8, 109u8];
        proof {
            assert(prefix@ =~= sem_prefix_spec());
        }
        hashed.extend_from_slice(prefix.as_slice());
        hashed.extend_from_slice(semantic_hint.as_slice());
        proof {
            assert(hashed@ =~= sem_prefix_spec() + semantic_hint@);
        }
        let local_digest = sha256(hashed.as_slice());
        RatchetSession {
            is_initiator,
            semantic_hint,
            ratchet: ForwardRatchet::new(max_skip),
            state: None,
            ready: false,
            pending_handshake: None,
            remote_digest: None,
            handshake_id: None,
            local_digest,
            replay_cache: HandshakeReplayCache::new(),
        }
    }

    /// Create an initiator session.
    pub fn create_initiator(semantic_hint: Vec<u8>, max_skip: usize) -> (r: RatchetSession)
        ensures
            r.is_initiator,
            r.semantic_hint@ == semantic_hint@,
            r.local_digest@ == local_digest_spec(semantic_hint@),
            r.ratchet.max_skip == max_skip,
            r.state is None,
            !r.ready,
            r.pending_handshake is None,
            r.replay_cache.wf(),
            r.replay_cache.entries@.len() == 0,
    {
        Self::new(true, semantic_hint, max_skip)
    }

    /// Create a responder session.
    pub fn create_responder(semantic_hint: Vec<u8>, max_skip: usize) -> (r: RatchetSession)
        ensures
            !r.is_initiator,
            r.semantic_hint@ == semantic_hint@,
            r.local_digest@ == local_digest_spec(semantic_hint@),
            r.ratchet.max_skip == max_skip,
            r.state is None,
            !r.ready,
            r.pending_handshake is None,
            r.replay_cache.wf(),
            r.replay_cache.entries@.len() == 0,
    {
        Self::new(false, semantic_hint, max_skip)
    }

    /// The session's semantic hint.
    pub fn semantic_hint(&self) -> (r: &Vec<u8>)
        ensures
            r@ == self.semantic_hint@,
    {
        &self.semantic_hint
    }

    /// Whether this side initiates handshakes.
    pub fn is_initiator(&self) -> (r: bool)
        ensures
            r == self.is_initiator,
    {
        self.is_initiator
    }

    /// The local replay cache's counters: total checks, replays
    /// detected, expired entries cleaned, current size.
    pub fn replay_cache_stats(&self) -> (r: (u64, u64, u64, usize))
        ensures
            r.0 == self.replay_cache.total_checks,
            r.1 == self.replay_cache.replay_detections,
            r.2 == self.replay_cache.expired_entries_cleaned,
            r.3 == self.replay_cache.entries@.len(),
    {
        self.replay_cache.stats()
    }

    /// Replace the replay cache with one of the given TTL, capacity,
    /// timestamp window and clock skew; recorded identifiers are
    /// forgotten.
    pub fn configure_replay_protection(
        &mut self,
        ttl_seconds: u64,
        max_size: usize,
        timestamp_window_seconds: u64,
        max_clock_skew_seconds: u64,
    )
        ensures
            final(self).replay_cache.wf(),
            final(self).replay_cache.entries@.len() == 0,
            final(self).replay_cache.ttl_seconds == ttl_seconds,
            final(self).replay_cache.max_size == max_size,
            final(self).replay_cache.timestamp_window_seconds == timestamp_window_seconds,
            final(self).replay_cache.max_clock_skew_seconds == max_clock_skew_seconds,
            final(self).is_initiator == old(self).is_initiator,
            final(self).semantic_hint == old(self).semantic_hint,
            final(self).ratchet == old(self).ratchet,
            final(self).state == old(self).state,
            final(self).ready == old(self).ready,
            final(self).pending_handshake == old(self).pending_handshake,
            final(self).local_digest == old(self).local_digest,
    {
        self.replay_cache = HandshakeReplayCache::with_config(
            ttl_seconds,
            max_size,
            timestamp_window_seconds,
            max_clock_skew_seconds,
        );
    }

    /// Combine this side's digest with the peer's: hash the two in
    /// lexicographic order, so that both sides agree on the result.
    pub fn combine_digest(&self, remote_digest: &[u8]) -> (r: Vec<u8>)
        ensures
            r@ == combined_digest_spec(self.local_digest@, remote_digest@),
            r@.len() == 32,
    {
        let mut combined: Vec<u8> = Vec::new();
        if bytes_le_exec(self.local_digest.as_slice(), remote_digest) {
            combined.extend_from_slice(self.local_digest.as_slice());
            combined.extend_from_slice(remote_digest);
            proof {
                assert(combined@ =~= self.local_digest@ + remote_digest@);
            }
        } else {
            combined.extend_from_slice(remote_digest);
            combined.extend_from_slice(self.local_digest.as_slice());
            proof {
                assert(combined@ =~= remote_digest@ + self.local_digest@);
            }
        }
        sha256(combined.as_slice())
    }

    /// Negotiate the protocol version: the highest mutually supported
    /// one, where this implementation supports exactly version 1.
    /// Fails with `VersionNegotiationFailed` exactly when the offered
    /// interval is empty or disjoint from the supported one.
    pub fn negotiate_version(&self, min_version: u8, max_version: u8) -> (r: Result<
        u32,
        PQFSRError,
    >)
        ensures
            match r {
                Ok(v) => version_ok(min_version, max_version) && v == 1,
                Err(e) => !version_ok(min_version, max_version) && e
                    == PQFSRError::VersionNegotiationFailed,
            },
    {
        if min_version > max_version {
            return Err(PQFSRError::VersionNegotiationFailed);
        }
        if max_version < 1 || min_version > 1 {
            return Err(PQFSRError::VersionNegotiationFailed);
        }
        let negotiated: u8 = if max_version < 1 {
            max_version
        } else {
            1
        };
        Ok(negotiated as u32)
    }

    /// Whether the handshake has completed and state is present.
    pub fn is_ready(&self) -> (r: bool)
        ensures
            r == (self.ready && self.state is Some),
    {
        self.ready && self.state.is_some()
    }

    /// The ratchet state, mutably.
    pub fn get_state_mut(&mut self) -> (r: Option<&mut RatchetState>)
        ensures
            old(self).state is Some <==> r is Some,
    {
        self.state.as_mut()
    }

    /// The ratchet state, for serialization.
    pub fn get_state(&self) -> (r: Option<&RatchetState>)
        ensures
            match r {
                Some(st) => self.state matches Some(s) && *st == s,
                None => self.state is None,
            },
    {
        self.state.as_ref()
    }
}

impl RatchetSession {
    /// Create a handshake request (initiator only, Fresh state). A
    /// one-shot KEM keypair and the first ratchet keypair are drawn and
    /// kept pending; the 16-byte identifier carries 12 random bytes and
    /// the clock; the request is signed with a fresh signature keypair.
    /// Fails with `InitiatorOnly` on a responder and
    /// `InvalidSessionState` when a handshake is done or pending.
    pub fn create_handshake_request(&mut self) -> (r: Result<HandshakeRequest, PQFSRError>)
        ensures
            match r {
                Ok(req) => {
                    &&& old(self).is_initiator && !old(self).ready && old(self).pending_handshake
                        is None
                    &&& req.version@ == be32_spec(1)
                    &&& req.min_version == 1 && req.max_version == 1
                    &&& req.handshake_id@.len() == 16
                    &&& final(self).pending_handshake matches Some(p) && {
                        &&& req.kem_public@ == kem_pub_of(p.kem_private@)
                        &&& p.kem_private@.len() == KEM_SECRET_LEN
                        &&& req.ratchet_public@ == p.ratchet_public@
                        &&& p.ratchet_public@ == kem_pub_of(p.ratchet_private@)
                        &&& p.ratchet_private@.len() == KEM_SECRET_LEN
                        &&& p.handshake_id@ == req.handshake_id@
                    }
                    &&& req.kem_public@.len() == KEM_PUBLIC_LEN
                    &&& req.ratchet_public@.len() == KEM_PUBLIC_LEN
                    &&& req.semantic_digest@ == old(self).local_digest@
                    &&& req.signature matches Some(s) && req.signature_public_key matches Some(pk)
                        && pk@.len() == SIG_PUBLIC_LEN && sig_ok_of(request_sig_msg(req), s@, pk@)
                    &&& !final(self).ready
                },
                Err(e) => {
                    &&& *final(self) == *old(self)
                    &&& (e == PQFSRError::InitiatorOnly && !old(self).is_initiator || e
                        == PQFSRError::InvalidSessionState && old(self).is_initiator && (old(self).ready || old(self).pending_handshake is Some))
                },
            },
            final(self).is_initiator == old(self).is_initiator,
            final(self).ready == old(self).ready,
            final(self).state == old(self).state,
            final(self).local_digest == old(self).local_digest,
            final(self).semantic_hint == old(self).semantic_hint,
            final(self).replay_cache == old(self).replay_cache,
    {
        if !self.is_initiator {
            return Err(PQFSRError::InitiatorOnly);
        }
        if self.ready {
            return Err(PQFSRError::InvalidSessionState);
        }
        if self.pending_handshake.is_some() {
            return Err(PQFSRError::InvalidSessionState);
        }

        let (kem_pub, kem_priv) = kem_keypair();
        let (r_pub, r_priv) = kem_keypair();

        let mut handshake_id = random_bytes_12();
        let timestamp: u32 = (current_timestamp() % 0x100000000) as u32;
        let ts_bytes = be32(timestamp);
        handshake_id.extend_from_slice(ts_bytes.as_slice());

        let r_pub_copy = crate::state::clone_bytes(&r_pub);
        let id_copy = crate::state::clone_bytes(&handshake_id);
        self.pending_handshake = Some(
            PendingHandshake {
                kem_private: kem_priv,
                ratchet_private: r_priv,
                ratchet_public: r_pub_copy,
                handshake_id: id_copy,
            },
        );

        let (sig_pk, sig_sk) = generate_key_pair();
        let mut message_to_sign: Vec<u8> = Vec::new();
        message_to_sign.extend_from_slice(handshake_id.as_slice());
        message_to_sign.extend_from_slice(kem_pub.as_slice());
        message_to_sign.extend_from_slice(r_pub.as_slice());
        message_to_sign.extend_from_slice(self.local_digest.as_slice());
        proof {
            assert(message_to_sign@ =~= handshake_id@ + kem_pub@ + r_pub@ + self.local_digest@);
        }
        let signature = match sign_message(message_to_sign.as_slice(), sig_sk.as_slice()) {
            Ok(s) => s,
            Err(_) => {
                proof {
                    assert(false);
                }
                return Err(PQFSRError::SignatureGenerationFailed);
            },
        };

        let version_bytes = be32(1);
        let semantic_digest = crate::state::clone_bytes(&self.local_digest);

        Ok(
            HandshakeRequest {
                version: version_bytes,
                min_version: 1,
                max_version: 1,
                handshake_id,
                kem_public: kem_pub,
                ratchet_public: r_pub,
                semantic_digest,
                signature: Some(signature),
                signature_public_key: Some(sig_pk),
            },
        )
    }

    /// Accept a handshake request at an explicit time (responder only,
    /// Fresh state). The identifier must pass timestamp validation and
    /// the replay check; the version intervals must overlap; a present
    /// signature must verify; the request's KEM key must be
    /// well-formed. Then the shared secret is encapsulated, the state
    /// bootstrapped on the combined digest, and a signed response
    /// issued. On success the session is Ready and the identifier
    /// recorded; on failure the session stays Fresh.
    pub fn accept_handshake_at(&mut self, request: &HandshakeRequest, now: u64) -> (r: Result<
        HandshakeResponse,
        PQFSRError,
    >)
        requires
            old(self).replay_cache.wf(),
        ensures
            final(self).replay_cache.wf(),
            final(self).is_initiator == old(self).is_initiator,
            final(self).local_digest == old(self).local_digest,
            final(self).semantic_hint == old(self).semantic_hint,
            final(self).pending_handshake == old(self).pending_handshake,
            match r {
                Ok(resp) => {
                    &&& !old(self).is_initiator && !old(self).ready
                    &&& ts_valid(
                        request.handshake_id@,
                        now,
                        old(self).replay_cache.timestamp_window_seconds,
                        old(self).replay_cache.max_clock_skew_seconds,
                    )
                    &&& !seen_at(old(self).replay_cache, request.handshake_id@, now)
                    &&& version_ok(request.min_version, request.max_version)
                    &&& sig_check(
                        request_sig_msg(*request),
                        request.signature,
                        request.signature_public_key,
                    )
                    &&& request.kem_public@.len() == KEM_PUBLIC_LEN
                    &&& final(self).ready
                    &&& replay_has(final(self).replay_cache.entries@, request.handshake_id@)
                    &&& final(self).state matches Some(st) && {
                        &&& session_state_ok(
                            st,
                            combined_digest_spec(
                                old(self).local_digest@,
                                request.semantic_digest@,
                            ),
                            old(self).local_digest@,
                            request.semantic_digest@,
                            false,
                            old(self).ratchet.max_skip,
                        )
                        &&& handshake_root_ok(
                            resp.kem_ciphertext@,
                            request.kem_public@,
                            combined_digest_spec(
                                old(self).local_digest@,
                                request.semantic_digest@,
                            ),
                            st.root_key@,
                        )
                        &&& opt_view(st.remote_ratchet_public) == Some(request.ratchet_public@)
                        &&& st.local_ratchet_public@ == kem_pub_of(st.local_ratchet_private@)
                        &&& st.local_ratchet_private@.len() == KEM_SECRET_LEN
                        &&& resp.ratchet_public@ == st.local_ratchet_public@
                    }
                    &&& resp.version@ == be32_spec(1)
                    &&& resp.handshake_id@ == request.handshake_id@
                    &&& resp.kem_ciphertext@.len() == KEM_CIPHERTEXT_LEN
                    &&& resp.semantic_digest@ == old(self).local_digest@
                    &&& resp.signature matches Some(s) && resp.signature_public_key matches Some(
                        pk,
                    ) && pk@.len() == SIG_PUBLIC_LEN && sig_ok_of(response_sig_msg(resp), s@, pk@)
                },
                Err(e) => {
                    &&& final(self).ready == old(self).ready
                    &&& final(self).state == old(self).state
                    &&& accept_err_spec(*old(self), *request, now, e)
                },
            },
    {
        if self.is_initiator {
            return Err(PQFSRError::ResponderOnly);
        }
        if self.ready {
            return Err(PQFSRError::InvalidSessionState);
        }

        match self.replay_cache.check_and_record_at(request.handshake_id.as_slice(), now) {
            Ok(()) => {},
            Err(e) => {
                return Err(e);
            },
        }

        let _negotiated = match self.negotiate_version(request.min_version, request.max_version) {
            Ok(v) => v,
            Err(e) => {
                return Err(e);
            },
        };

        match (&request.signature, &request.signature_public_key) {
            (Some(sig), Some(sig_pk)) => {
                let mut message_to_verify: Vec<u8> = Vec::new();
                message_to_verify.extend_from_slice(request.handshake_id.as_slice());
                message_to_verify.extend_from_slice(request.kem_public.as_slice());
                message_to_verify.extend_from_slice(request.ratchet_public.as_slice());
                message_to_verify.extend_from_slice(request.semantic_digest.as_slice());
                proof {
                    assert(message_to_verify@ =~= request_sig_msg(*request));
                }
                let valid = match verify_signature(
                    message_to_verify.as_slice(),
                    sig.as_slice(),
                    sig_pk.as_slice(),
                ) {
                    Ok(v) => v,
                    Err(e) => {
                        return Err(e);
                    },
                };
                if !valid {
                    return Err(PQFSRError::SignatureVerificationFailed);
                }
            },
            _ => {},
        }

        if request.kem_public.len() != KEM_PUBLIC_LEN {
            return Err(PQFSRError::InvalidKeyFormat);
        }

        let combined = self.combine_digest(request.semantic_digest.as_slice());

        let (kem_ct, shared_secret) = kem_encapsulate(request.kem_public.as_slice());

        let (l_pub, l_priv) = kem_keypair();
        let l_pub_copy = crate::state::clone_bytes(&l_pub);

        let mut state = self.ratchet.bootstrap(
            shared_secret.as_slice(),
            combined.as_slice(),
            self.local_digest.as_slice(),
            Some(&request.semantic_digest),
            false,
            Some((l_pub, l_priv)),
        );
        state.remote_ratchet_public = Some(crate::state::clone_bytes(&request.ratchet_public));

        self.state = Some(state);
        self.remote_digest = Some(crate::state::clone_bytes(&request.semantic_digest));
        self.handshake_id = Some(crate::state::clone_bytes(&request.handshake_id));
        self.ready = true;

        let (sig_pk, sig_sk) = generate_key_pair();
        let mut message_to_sign: Vec<u8> = Vec::new();
        message_to_sign.extend_from_slice(request.handshake_id.as_slice());
        message_to_sign.extend_from_slice(kem_ct.as_slice());
        message_to_sign.extend_from_slice(l_pub_copy.as_slice());
        message_to_sign.extend_from_slice(self.local_digest.as_slice());
        proof {
            assert(message_to_sign@ =~= request.handshake_id@ + kem_ct@ + l_pub_copy@
                + self.local_digest@);
        }
        let signature = match sign_message(message_to_sign.as_slice(), sig_sk.as_slice()) {
            Ok(s) => s,
            Err(_) => {
                proof {
                    assert(false);
                }
                return Err(PQFSRError::SignatureGenerationFailed);
            },
        };

        let version_bytes = be32(1);
        Ok(
            HandshakeResponse {
                version: version_bytes,
                handshake_id: crate::state::clone_bytes(&request.handshake_id),
                kem_ciphertext: kem_ct,
                ratchet_public: l_pub_copy,
                semantic_digest: crate::state::clone_bytes(&self.local_digest),
                signature: Some(signature),
                signature_public_key: Some(sig_pk),
            },
        )
    }

    /// Accept a handshake request (responder only), judging its
    /// timestamp and replay status at the current time.
    pub fn accept_handshake(&mut self, request: &HandshakeRequest) -> (r: Result<
        HandshakeResponse,
        PQFSRError,
    >)
        requires
            old(self).replay_cache.wf(),
        ensures
            final(self).replay_cache.wf(),
            final(self).is_initiator == old(self).is_initiator,
            final(self).local_digest == old(self).local_digest,
            match r {
                Ok(resp) => {
                    &&& !old(self).is_initiator && !old(self).ready
                    &&& version_ok(request.min_version, request.max_version)
                    &&& sig_check(
                        request_sig_msg(*request),
                        request.signature,
                        request.signature_public_key,
                    )
                    &&& request.kem_public@.len() == KEM_PUBLIC_LEN
                    &&& final(self).ready
                    &&& replay_has(final(self).replay_cache.entries@, request.handshake_id@)
                    &&& final(self).state matches Some(st) && {
                        &&& session_state_ok(
                            st,
                            combined_digest_spec(
                                old(self).local_digest@,
                                request.semantic_digest@,
                            ),
                            old(self).local_digest@,
                            request.semantic_digest@,
                            false,
                            old(self).ratchet.max_skip,
                        )
                        &&& handshake_root_ok(
                            resp.kem_ciphertext@,
                            request.kem_public@,
                            combined_digest_spec(
                                old(self).local_digest@,
                                request.semantic_digest@,
                            ),
                            st.root_key@,
                        )
                        &&& opt_view(st.remote_ratchet_public) == Some(request.ratchet_public@)
                        &&& st.local_ratchet_public@ == kem_pub_of(st.local_ratchet_private@)
                        &&& st.local_ratchet_private@.len() == KEM_SECRET_LEN
                        &&& resp.ratchet_public@ == st.local_ratchet_public@
                    }
                    &&& resp.version@ == be32_spec(1)
                    &&& resp.handshake_id@ == request.handshake_id@
                    &&& resp.kem_ciphertext@.len() == KEM_CIPHERTEXT_LEN
                    &&& resp.semantic_digest@ == old(self).local_digest@
                    &&& resp.signature matches Some(s) && resp.signature_public_key matches Some(
                        pk,
                    ) && pk@.len() == SIG_PUBLIC_LEN && sig_ok_of(response_sig_msg(resp), s@, pk@)
                },
                Err(e) => {
                    &&& final(self).state == old(self).state
                    &&& final(self).ready == old(self).ready
                    &&& exists|t: u64| accept_err_spec(*old(self), *request, t, e)
                },
            },
    {
        let now = current_timestamp();
        self.accept_handshake_at(request, now)
    }

    /// Finalize the handshake (initiator only, PendingOut state). The
    /// response must carry the pending identifier, negotiated version
    /// 1, a verifying signature when present, and well-formed KEM
    /// material; the shared secret is then decapsulated with the
    /// pending one-shot key and the state bootstrapped on the combined
    /// digest. On success the session is Ready.
    pub fn finalize_handshake(&mut self, response: &HandshakeResponse) -> (r: Result<
        (),
        PQFSRError,
    >)
        ensures
            final(self).is_initiator == old(self).is_initiator,
            final(self).local_digest == old(self).local_digest,
            final(self).semantic_hint == old(self).semantic_hint,
            final(self).replay_cache == old(self).replay_cache,
            match r {
                Ok(()) => {
                    &&& old(self).is_initiator && !old(self).ready
                    &&& old(self).pending_handshake matches Some(p) && {
                        &&& p.handshake_id@ == response.handshake_id@
                        &&& final(self).state matches Some(st) && {
                            &&& session_state_ok(
                                st,
                                combined_digest_spec(
                                    old(self).local_digest@,
                                    response.semantic_digest@,
                                ),
                                old(self).local_digest@,
                                response.semantic_digest@,
                                true,
                                old(self).ratchet.max_skip,
                            )
                            &&& st.root_key@ == mix_root_spec(
                                zeros32(),
                                kem_decap_of(response.kem_ciphertext@, p.kem_private@),
                                combined_digest_spec(
                                    old(self).local_digest@,
                                    response.semantic_digest@,
                                ),
                            )
                            &&& st.local_ratchet_public@ == p.ratchet_public@
                            &&& st.local_ratchet_private@ == p.ratchet_private@
                            &&& opt_view(st.remote_ratchet_public) == Some(
                                response.ratchet_public@,
                            )
                        }
                    }
                    &&& response.version@ == be32_spec(1)
                    &&& sig_check(
                        response_sig_msg(*response),
                        response.signature,
                        response.signature_public_key,
                    )
                    &&& response.kem_ciphertext@.len() == KEM_CIPHERTEXT_LEN
                    &&& final(self).ready
                    &&& final(self).pending_handshake is None
                },
                Err(e) => {
                    &&& final(self).ready == old(self).ready
                    &&& final(self).state == old(self).state
                    &&& final(self).pending_handshake == old(self).pending_handshake
                    &&& finalize_err_spec(*old(self), *response, e)
                },
            },
    {
        if !self.is_initiator {
            return Err(PQFSRError::InitiatorOnly);
        }
        if self.ready {
            return Err(PQFSRError::InvalidSessionState);
        }
        if self.pending_handshake.is_none() {
            return Err(PQFSRError::InvalidSessionState);
        }

        let id_matches = match &self.pending_handshake {
            Some(p) => {
                p.handshake_id.len() == response.handshake_id.len() && constant_time_eq(
                    p.handshake_id.as_slice(),
                    response.handshake_id.as_slice(),
                )
            },
            None => false,
        };
        if !id_matches {
            return Err(PQFSRError::InvalidHandshakeResponse);
        }

        if response.version.len() != 4 {
            return Err(PQFSRError::InvalidHandshakeResponse);
        }
        let negotiated: u32 = (response.version[0] as u32) * 0x1000000 + (
        response.version[1] as u32) * 0x10000 + (response.version[2] as u32) * 0x100 + (
        response.version[3] as u32);
        proof {
            assert(response.version@ =~= seq![
                response.version@[0],
                response.version@[1],
                response.version@[2],
                response.version@[3],
            ]);
            assert((1u32 >> 24) as u8 == 0 && (1u32 >> 16) as u8 == 0 && (1u32 >> 8) as u8 == 0
                && 1u32 as u8 == 1) by (bit_vector);
        }
        if negotiated != 1 {
            proof {
                if response.version@ == be32_spec(1) {
                    assert(response.version@[0] == 0 && response.version@[1] == 0
                        && response.version@[2] == 0 && response.version@[3] == 1);
                    assert(negotiated == 1);
                }
            }
            return Err(PQFSRError::VersionNegotiationFailed);
        }
        proof {
            assert(response.version@[0] == 0 && response.version@[1] == 0 && response.version@[2]
                == 0 && response.version@[3] == 1);
            assert(response.version@ == be32_spec(1));
        }

        match (&response.signature, &response.signature_public_key) {
            (Some(sig), Some(sig_pk)) => {
                let mut message_to_verify: Vec<u8> = Vec::new();
                message_to_verify.extend_from_slice(response.handshake_id.as_slice());
                message_to_verify.extend_from_slice(response.kem_ciphertext.as_slice());
                message_to_verify.extend_from_slice(response.ratchet_public.as_slice());
                message_to_verify.extend_from_slice(response.semantic_digest.as_slice());
                proof {
                    assert(message_to_verify@ =~= response_sig_msg(*response));
                }
                let valid = match verify_signature(
                    message_to_verify.as_slice(),
                    sig.as_slice(),
                    sig_pk.as_slice(),
                ) {
                    Ok(v) => v,
                    Err(e) => {
                        return Err(e);
                    },
                };
                if !valid {
                    return Err(PQFSRError::SignatureVerificationFailed);
                }
            },
            _ => {},
        }

        if response.kem_ciphertext.len() != KEM_CIPHERTEXT_LEN {
            return Err(PQFSRError::InvalidKeyFormat);
        }
        let kem_priv_ok = match &self.pending_handshake {
            Some(p) => p.kem_private.len() == KEM_SECRET_LEN,
            None => false,
        };
        if !kem_priv_ok {
            return Err(PQFSRError::InvalidKeyFormat);
        }

        let pending = match self.pending_handshake.take() {
            Some(p) => p,
            None => {
                return Err(PQFSRError::InvalidSessionState);
            },
        };

        let shared_secret = kem_decapsulate(
            response.kem_ciphertext.as_slice(),
            pending.kem_private.as_slice(),
        );

        let combined = self.combine_digest(response.semantic_digest.as_slice());

        let mut state = self.ratchet.bootstrap(
            shared_secret.as_slice(),
            combined.as_slice(),
            self.local_digest.as_slice(),
            Some(&response.semantic_digest),
            true,
            Some((pending.ratchet_public, pending.ratchet_private)),
        );
        state.remote_ratchet_public = Some(crate::state::clone_bytes(&response.ratchet_public));

        self.state = Some(state);
        self.remote_digest = Some(crate::state::clone_bytes(&response.semantic_digest));
        self.handshake_id = Some(crate::state::clone_bytes(&response.handshake_id));
        self.ready = true;

        Ok(())
    }

    /// Encrypt a message through the engine; fails with
    /// `SessionNotReady` before the handshake has completed. The engine
    /// outcome is exactly [`ForwardRatchet::encrypt`]'s.
    pub fn encrypt(&mut self, plaintext: &[u8], associated_data: &[u8]) -> (r: Result<
        Packet,
        PQFSRError,
    >)
        requires
            old(self).state matches Some(st) ==> st.wf_cache() && st.send_count < u64::MAX,
            plaintext@.len() <= 0xFFFF_FFFF,
            associated_data@.len() <= 0xFFFF_FF00,
        ensures
            final(self).is_initiator == old(self).is_initiator,
            final(self).ready == old(self).ready,
            final(self).local_digest == old(self).local_digest,
            match r {
                Ok(p) => {
                    &&& old(self).ready
                    &&& old(self).state matches Some(ost)
                    &&& final(self).state matches Some(st)
                    &&& (p.kem_ciphertext@.len() == 0 ==> encrypt_flow_ok(
                        old(self).state.unwrap(),
                        final(self).state.unwrap(),
                        p,
                        plaintext@,
                        associated_data@,
                    ))
                    &&& (p.kem_ciphertext@.len() != 0 ==> encrypt_pulse_ok(
                        old(self).state.unwrap(),
                        final(self).state.unwrap(),
                        p,
                        plaintext@,
                        associated_data@,
                    ))
                    &&& (old(self).ratchet.strategy.metrics.consecutive_sends > 0
                        ==> p.kem_ciphertext@.len() == 0)
                    &&& (old(self).ratchet.strategy.metrics.consecutive_sends == 0 && (old(self).ratchet.strategy.mode == RatchetMode::MaximumSecurity || plaintext@.len()
                        > 1024) ==> p.kem_ciphertext@.len() != 0)
                },
                Err(e) => {
                    &&& (e != PQFSRError::SessionNotReady ==> *final(self) == *old(self))
                    &&& (if !(old(self).ready && old(self).state is Some) {
                        e == PQFSRError::SessionNotReady
                    } else if old(self).state.unwrap().remote_ratchet_public is None {
                        e == PQFSRError::InvalidSessionState
                    } else if old(self).state.unwrap().remote_ratchet_public.unwrap()@.len()
                        != KEM_PUBLIC_LEN {
                        e == PQFSRError::InvalidKeyFormat
                    } else {
                        false
                    })
                },
            },
            old(self).ready && (old(self).state matches Some(st) && (st.remote_ratchet_public
                matches Some(rp) && rp@.len() == KEM_PUBLIC_LEN)) ==> r is Ok,
            final(self).ratchet.strategy.mode == old(self).ratchet.strategy.mode,
            r is Ok ==> final(self).ratchet.strategy.metrics.consecutive_sends == sat_add64(
                old(self).ratchet.strategy.metrics.consecutive_sends,
                1,
            ),
    {
        if !self.is_ready() {
            return Err(PQFSRError::SessionNotReady);
        }
        match &mut self.state {
            Some(state) => self.ratchet.encrypt(state, plaintext, associated_data),
            None => Err(PQFSRError::SessionNotReady),
        }
    }

    /// Decrypt a packet through the engine; fails with
    /// `SessionNotReady` before the handshake has completed. The engine
    /// outcome is exactly [`ForwardRatchet::decrypt`]'s.
    pub fn decrypt(&mut self, packet: &Packet, associated_data: &[u8]) -> (r: Result<
        Vec<u8>,
        PQFSRError,
    >)
        requires
            old(self).state matches Some(st) ==> st.wf_cache(),
            packet.count < u64::MAX,
            associated_data@.len() <= 0xFFFF_FF00,
        ensures
            final(self).is_initiator == old(self).is_initiator,
            final(self).ready == old(self).ready,
            final(self).local_digest == old(self).local_digest,
            match r {
                Ok(pt) => {
                    &&& old(self).ready
                    &&& old(self).state matches Some(ost)
                    &&& final(self).state matches Some(st)
                    &&& packet.semantic_tag@ == semantic_tag_spec(
                        old(self).state.unwrap().combined_digest@,
                        packet.count,
                    )
                    &&& (decrypt_cached_ok(
                        old(self).state.unwrap(),
                        final(self).state.unwrap(),
                        *packet,
                        associated_data@,
                        pt@,
                    ) || decrypt_chain_ok(
                        old(self).state.unwrap(),
                        final(self).state.unwrap(),
                        *packet,
                        associated_data@,
                        pt@,
                    ))
                },
                Err(e) => {
                    &&& (e == PQFSRError::SessionNotReady <==> !(old(self).ready && old(self).state
                        is Some))
                    &&& (e != PQFSRError::SessionNotReady ==> (old(self).state matches Some(ost)
                        && (final(self).state matches Some(st) && st.views_eq(ost)
                        && decrypt_err_spec(ost, *packet, associated_data@, e))))
                },
            },
    {
        if !self.is_ready() {
            return Err(PQFSRError::SessionNotReady);
        }
        match &mut self.state {
            Some(state) => self.ratchet.decrypt(state, packet, associated_data),
            None => Err(PQFSRError::SessionNotReady),
        }
    }
}

} // verus!
