use vstd::prelude::*;

use crate::zeroutil::wipe_vec;

verus! {

/// Copy a byte buffer.
pub fn clone_bytes(v: &Vec<u8>) -> (r: Vec<u8>)
    ensures
        r@ == v@,
{
    let mut out: Vec<u8> = Vec::new();
    out.extend_from_slice(v.as_slice());
    proof {
        assert(out@ =~= v@);
    }
    out
}

/// Copy an optional byte buffer.
pub fn clone_opt_bytes(v: &Option<Vec<u8>>) -> (r: Option<Vec<u8>>)
    ensures
        match v {
            Some(b) => r matches Some(c) && c@ == b@,
            None => r is None,
        },
{
    match v {
        Some(b) => Some(clone_bytes(b)),
        None => None,
    }
}

/// Maximum number of skipped message keys to cache by default.
pub const MAX_SKIP_DEFAULT: usize = 50;

/// One cached skipped message key: the message index within the receive
/// chain it was derived at, the message key and the nonce.
pub struct SkippedKey {
    pub index: u64,
    pub key: Vec<u8>,
    pub nonce: Vec<u8>,
}

/// Whether an entry for `idx` is in the cache sequence.
pub open spec fn skipped_has(s: Seq<SkippedKey>, idx: u64) -> bool {
    exists|i: int| 0 <= i < s.len() && s[i].index == idx
}

/// The position of the entry for `idx` (meaningful under unique indices).
pub open spec fn skipped_index_of(s: Seq<SkippedKey>, idx: u64) -> int {
    choose|i: int| 0 <= i < s.len() && s[i].index == idx
}

/// The (key, nonce) cached for `idx` (meaningful under unique indices).
pub open spec fn skipped_lookup(s: Seq<SkippedKey>, idx: u64) -> (Seq<u8>, Seq<u8>) {
    (s[skipped_index_of(s, idx)].key@, s[skipped_index_of(s, idx)].nonce@)
}

/// Whether the cache sequence holds an entry with this entry's index,
/// key and nonce.
pub open spec fn skipped_entry_in(s: Seq<SkippedKey>, e: SkippedKey) -> bool {
    exists|j: int|
        0 <= j < s.len() && s[j].index == e.index && s[j].key@ == e.key@ && s[j].nonce@ == e.nonce@
}

/// Cache indices are pairwise distinct.
pub open spec fn skipped_unique(s: Seq<SkippedKey>) -> bool {
    forall|i: int, j: int|
        0 <= i < s.len() && 0 <= j < s.len() && i != j ==> s[i].index != s[j].index
}

/// Every cached key is 32 bytes and every cached nonce 12 bytes.
pub open spec fn skipped_sized(s: Seq<SkippedKey>) -> bool {
    forall|i: int|
        0 <= i < s.len() ==> ((#[trigger] s[i]).key@.len() == 32 && s[i].nonce@.len() == 12)
}

/// The cache as plain values: (index, key bytes, nonce bytes) per entry.
pub open spec fn cache_view(s: Seq<SkippedKey>) -> Seq<(u64, Seq<u8>, Seq<u8>)> {
    s.map_values(|e: SkippedKey| (e.index, e.key@, e.nonce@))
}

/// An optional byte buffer as an optional byte sequence.
pub open spec fn opt_view(o: Option<Vec<u8>>) -> Option<Seq<u8>> {
    match o {
        Some(v) => Some(v@),
        None => None,
    }
}

/// Removing one position keeps indices distinct, and every remaining
/// entry was present before.
proof fn lemma_skipped_remove(s: Seq<SkippedKey>, p: int)
    requires
        0 <= p < s.len(),
        skipped_unique(s),
    ensures
        skipped_unique(s.remove(p)),
        forall|i: int| 0 <= i < s.remove(p).len() ==> skipped_entry_in(s, #[trigger] s.remove(p)[i]),
        forall|idx: u64| skipped_has(s.remove(p), idx) ==> skipped_has(s, idx),
        skipped_sized(s) ==> skipped_sized(s.remove(p)),
{
    let t = s.remove(p);
    if skipped_sized(s) {
        assert forall|i: int| 0 <= i < t.len() implies (#[trigger] t[i].key@).len() == 32
            && t[i].nonce@.len() == 12 by {
            let io: int = if i < p {
                i
            } else {
                i + 1
            };
            assert(t[i] == s[io]);
            assert(s[io].key@.len() == 32 && s[io].nonce@.len() == 12);
        }
    }
    assert forall|i: int, j: int|
        0 <= i < t.len() && 0 <= j < t.len() && i != j implies t[i].index != t[j].index by {
        let io: int = if i < p {
            i
        } else {
            i + 1
        };
        let jo: int = if j < p {
            j
        } else {
            j + 1
        };
        assert(t[i] == s[io]);
        assert(t[j] == s[jo]);
    }
    assert forall|i: int| 0 <= i < t.len() implies skipped_entry_in(s, #[trigger] t[i]) by {
        let io: int = if i < p {
            i
        } else {
            i + 1
        };
        assert(t[i] == s[io]);
    }
    assert forall|idx: u64| skipped_has(t, idx) implies skipped_has(s, idx) by {
        let i = choose|i: int| 0 <= i < t.len() && t[i].index == idx;
        let io: int = if i < p {
            i
        } else {
            i + 1
        };
        assert(t[i] == s[io]);
    }
}

/// An entry present in `s1` whose entries all come from `s0` is present
/// in `s0`.
proof fn lemma_entry_in_trans(s0: Seq<SkippedKey>, s1: Seq<SkippedKey>, e: SkippedKey)
    requires
        skipped_entry_in(s1, e),
        forall|i: int| 0 <= i < s1.len() ==> skipped_entry_in(s0, #[trigger] s1[i]),
    ensures
        skipped_entry_in(s0, e),
{
    let j = choose|j: int|
        0 <= j < s1.len() && s1[j].index == e.index && s1[j].key@ == e.key@ && s1[j].nonce@
            == e.nonce@;
    assert(skipped_entry_in(s0, s1[j]));
    let k = choose|k: int|
        0 <= k < s0.len() && s0[k].index == s1[j].index && s0[k].key@ == s1[j].key@ && s0[k].nonce@
            == s1[j].nonce@;
    assert(0 <= k < s0.len() && s0[k].index == e.index && s0[k].key@ == e.key@ && s0[k].nonce@
        == e.nonce@);
}

/// How many entries the cache may hold: `max_skip`, but at least one,
/// since an insertion right after an eviction always fits one entry.
pub open spec fn cache_bound(max_skip: usize) -> int {
    if max_skip == 0 {
        1
    } else {
        max_skip as int
    }
}

/// Core ratchet state: key material, counters, semantic digests and the
/// skipped-message-key cache. See the well-formedness predicate
/// [`RatchetState::wf`] for the invariants the engine maintains.
pub struct RatchetState {
    /// Root key, mixed with each KEM shared secret.
    pub root_key: Vec<u8>,
    /// Send chain key, advanced at each outgoing message.
    pub send_chain_key: Vec<u8>,
    /// Receive chain key, advanced at each incoming message.
    pub recv_chain_key: Vec<u8>,
    /// Direction label of the send chain.
    pub send_label: Vec<u8>,
    /// Direction label of the receive chain.
    pub recv_label: Vec<u8>,
    /// Index of the next outgoing message within the current epoch.
    pub send_count: u64,
    /// Index of the next expected incoming message within the current epoch.
    pub recv_count: u64,
    /// Send count of the previous epoch (PN).
    pub previous_send_count: u64,
    /// Local KEM secret key awaiting the next incoming pulse.
    pub local_ratchet_private: Vec<u8>,
    /// Local KEM public key advertised in outgoing packets.
    pub local_ratchet_public: Vec<u8>,
    /// Most recently observed peer KEM public key.
    pub remote_ratchet_public: Option<Vec<u8>>,
    /// Semantic context hash both parties agree on.
    pub combined_digest: Vec<u8>,
    /// This party's semantic digest.
    pub local_digest: Vec<u8>,
    /// The peer's semantic digest, once known.
    pub remote_digest: Option<Vec<u8>>,
    /// Cache of derived-but-unused message keys, for out-of-order receipt.
    pub skipped_message_keys: Vec<SkippedKey>,
    /// Capacity of the skipped-key cache.
    pub max_skip: usize,
}

impl RatchetState {
    /// The skipped-key cache holds pairwise-distinct indices, respects
    /// its capacity bound, and every entry carries a 32-byte key and a
    /// 12-byte nonce.
    pub open spec fn wf_cache(&self) -> bool {
        &&& skipped_unique(self.skipped_message_keys@)
        &&& self.skipped_message_keys@.len() <= cache_bound(self.max_skip)
        &&& skipped_sized(self.skipped_message_keys@)
    }

    /// Two states hold the same values in every field.
    pub open spec fn views_eq(self, other: RatchetState) -> bool {
        &&& self.root_key@ == other.root_key@
        &&& self.send_chain_key@ == other.send_chain_key@
        &&& self.recv_chain_key@ == other.recv_chain_key@
        &&& self.send_label@ == other.send_label@
        &&& self.recv_label@ == other.recv_label@
        &&& self.send_count == other.send_count
        &&& self.recv_count == other.recv_count
        &&& self.previous_send_count == other.previous_send_count
        &&& self.local_ratchet_private@ == other.local_ratchet_private@
        &&& self.local_ratchet_public@ == other.local_ratchet_public@
        &&& opt_view(self.remote_ratchet_public) == opt_view(other.remote_ratchet_public)
        &&& self.combined_digest@ == other.combined_digest@
        &&& self.local_digest@ == other.local_digest@
        &&& opt_view(self.remote_digest) == opt_view(other.remote_digest)
        &&& cache_view(self.skipped_message_keys@) == cache_view(other.skipped_message_keys@)
        &&& self.max_skip == other.max_skip
    }

    /// A field-by-field copy of this state.
    #[verifier::rlimit(50)]
    pub fn snapshot(&self) -> (r: RatchetState)
        ensures
            r.views_eq(*self),
            self.wf_cache() ==> r.wf_cache(),
    {
        let mut skipped: Vec<SkippedKey> = Vec::new();
        let mut i: usize = 0;
        while i < self.skipped_message_keys.len()
            invariant
                i <= self.skipped_message_keys@.len(),
                skipped@.len() == i,
                forall|j: int|
                    0 <= j < i ==> #[trigger] skipped@[j].index
                        == self.skipped_message_keys@[j].index && skipped@[j].key@
                        == self.skipped_message_keys@[j].key@ && skipped@[j].nonce@
                        == self.skipped_message_keys@[j].nonce@,
            decreases self.skipped_message_keys@.len() - i,
        {
            let e = &self.skipped_message_keys[i];
            let mut k: Vec<u8> = Vec::new();
            k.extend_from_slice(e.key.as_slice());
            let mut n: Vec<u8> = Vec::new();
            n.extend_from_slice(e.nonce.as_slice());
            proof {
                assert(k@ =~= e.key@);
                assert(n@ =~= e.nonce@);
            }
            skipped.push(SkippedKey { index: e.index, key: k, nonce: n });
            i = i + 1;
        }
        proof {
            let a = skipped@;
            let b = self.skipped_message_keys@;
            assert forall|j: int| 0 <= j < a.len() implies cache_view(a)[j] == cache_view(
                b,
            )[j] by {
                assert(cache_view(a)[j] == (a[j].index, a[j].key@, a[j].nonce@));
                assert(cache_view(b)[j] == (b[j].index, b[j].key@, b[j].nonce@));
            }
            assert(cache_view(a) =~= cache_view(b));
            if self.wf_cache() {
                assert(skipped_unique(self.skipped_message_keys@));
                assert(skipped_sized(self.skipped_message_keys@));
                assert(a.len() == self.skipped_message_keys@.len());
                assert forall|x: int, y: int|
                    0 <= x < a.len() && 0 <= y < a.len() && x != y implies a[x].index
                    != a[y].index by {
                    assert(cache_view(a)[x] == (a[x].index, a[x].key@, a[x].nonce@));
                    assert(cache_view(b)[x] == (b[x].index, b[x].key@, b[x].nonce@));
                    assert(cache_view(a)[y] == (a[y].index, a[y].key@, a[y].nonce@));
                    assert(cache_view(b)[y] == (b[y].index, b[y].key@, b[y].nonce@));
                    assert(self.skipped_message_keys@[x].index
                        != self.skipped_message_keys@[y].index);
                }
                assert forall|x: int| 0 <= x < a.len() implies ((#[trigger] a[x]).key@.len() == 32
                    && a[x].nonce@.len() == 12) by {
                    assert(cache_view(a)[x] == (a[x].index, a[x].key@, a[x].nonce@));
                    assert(cache_view(b)[x] == (b[x].index, b[x].key@, b[x].nonce@));
                    assert(self.skipped_message_keys@[x] == b[x]);
                    assert(self.skipped_message_keys@[x].key@.len() == 32
                        && self.skipped_message_keys@[x].nonce@.len() == 12);
                    assert(a[x].key@ == b[x].key@ && a[x].nonce@ == b[x].nonce@);
                }
            }
        }
        RatchetState {
            root_key: clone_bytes(&self.root_key),
            send_chain_key: clone_bytes(&self.send_chain_key),
            recv_chain_key: clone_bytes(&self.recv_chain_key),
            send_label: clone_bytes(&self.send_label),
            recv_label: clone_bytes(&self.recv_label),
            send_count: self.send_count,
            recv_count: self.recv_count,
            previous_send_count: self.previous_send_count,
            local_ratchet_private: clone_bytes(&self.local_ratchet_private),
            local_ratchet_public: clone_bytes(&self.local_ratchet_public),
            remote_ratchet_public: clone_opt_bytes(&self.remote_ratchet_public),
            combined_digest: clone_bytes(&self.combined_digest),
            local_digest: clone_bytes(&self.local_digest),
            remote_digest: clone_opt_bytes(&self.remote_digest),
            skipped_message_keys: skipped,
            max_skip: self.max_skip,
        }
    }

    /// Create an empty state with the default cache capacity.
    pub fn new() -> (r: RatchetState)
        ensures
            r.root_key@.len() == 0,
            r.send_chain_key@.len() == 0,
            r.recv_chain_key@.len() == 0,
            r.send_label@.len() == 0,
            r.recv_label@.len() == 0,
            r.send_count == 0,
            r.recv_count == 0,
            r.previous_send_count == 0,
            r.local_ratchet_private@.len() == 0,
            r.local_ratchet_public@.len() == 0,
            r.remote_ratchet_public is None,
            r.combined_digest@.len() == 0,
            r.local_digest@.len() == 0,
            r.remote_digest is None,
            r.skipped_message_keys@.len() == 0,
            r.max_skip == MAX_SKIP_DEFAULT,
            r.wf_cache(),
    {
        RatchetState {
            root_key: Vec::new(),
            send_chain_key: Vec::new(),
            recv_chain_key: Vec::new(),
            send_label: Vec::new(),
            recv_label: Vec::new(),
            send_count: 0,
            recv_count: 0,
            previous_send_count: 0,
            local_ratchet_private: Vec::new(),
            local_ratchet_public: Vec::new(),
            remote_ratchet_public: None,
            combined_digest: Vec::new(),
            local_digest: Vec::new(),
            remote_digest: None,
            skipped_message_keys: Vec::new(),
            max_skip: MAX_SKIP_DEFAULT,
        }
    }

    /// Position of the cache entry with the smallest index, if any.
    fn find_min_index_pos(&self) -> (r: Option<usize>)
        ensures
            match r {
                Some(p) => p < self.skipped_message_keys@.len() && forall|j: int|
                    0 <= j < self.skipped_message_keys@.len()
                        ==> self.skipped_message_keys@[p as int].index
                        <= #[trigger] self.skipped_message_keys@[j].index,
                None => self.skipped_message_keys@.len() == 0,
            },
    {
        if self.skipped_message_keys.len() == 0 {
            return None;
        }
        let mut best: usize = 0;
        let mut i: usize = 1;
        while i < self.skipped_message_keys.len()
            invariant
                best < i <= self.skipped_message_keys@.len(),
                forall|j: int|
                    0 <= j < i ==> self.skipped_message_keys@[best as int].index
                        <= #[trigger] self.skipped_message_keys@[j].index,
            decreases self.skipped_message_keys@.len() - i,
        {
            if self.skipped_message_keys[i].index < self.skipped_message_keys[best].index {
                best = i;
            }
            i = i + 1;
        }
        Some(best)
    }

    /// Position of the cache entry for `idx`, if present.
    fn find_pos(&self, idx: u64) -> (r: Option<usize>)
        ensures
            match r {
                Some(p) => p < self.skipped_message_keys@.len()
                    && self.skipped_message_keys@[p as int].index == idx,
                None => !skipped_has(self.skipped_message_keys@, idx),
            },
    {
        let mut i: usize = 0;
        while i < self.skipped_message_keys.len()
            invariant
                i <= self.skipped_message_keys@.len(),
                forall|j: int| 0 <= j < i ==> #[trigger] self.skipped_message_keys@[j].index != idx,
            decreases self.skipped_message_keys@.len() - i,
        {
            if self.skipped_message_keys[i].index == idx {
                return Some(i);
            }
            i = i + 1;
        }
        None
    }

    /// Store a skipped message key. When the cache is at capacity the
    /// entry with the smallest index is evicted (its secrets wiped); an
    /// entry already cached under the same index is replaced. Afterwards
    /// the cache holds exactly the given (key, nonce) under `idx`, and
    /// every entry is either the new one or one carried over.
    pub fn store_skipped_key(&mut self, idx: u64, key: Vec<u8>, nonce: Vec<u8>)
        requires
            old(self).wf_cache(),
            key@.len() == 32,
            nonce@.len() == 12,
        ensures
            final(self).wf_cache(),
            skipped_has(final(self).skipped_message_keys@, idx),
            skipped_lookup(final(self).skipped_message_keys@, idx) == (key@, nonce@),
            old(self).skipped_message_keys@.len() < old(self).max_skip && !skipped_has(
                old(self).skipped_message_keys@,
                idx,
            ) ==> final(self).skipped_message_keys@ =~= old(self).skipped_message_keys@.push(
                (SkippedKey { index: idx, key, nonce }),
            ),
            old(self).skipped_message_keys@.len() < old(self).max_skip && skipped_has(
                old(self).skipped_message_keys@,
                idx,
            ) ==> final(self).skipped_message_keys@ =~= old(self).skipped_message_keys@.remove(
                skipped_index_of(old(self).skipped_message_keys@, idx),
            ).push((SkippedKey { index: idx, key, nonce })),
            old(self).skipped_message_keys@.len() >= old(self).max_skip && old(
                self,
            ).skipped_message_keys@.len() > 0 && !skipped_has(old(self).skipped_message_keys@, idx)
                ==> exists|p: int|
                0 <= p < old(self).skipped_message_keys@.len() && (forall|j: int|
                    0 <= j < old(self).skipped_message_keys@.len() ==> old(
                        self,
                    ).skipped_message_keys@[p].index <= #[trigger] old(
                        self,
                    ).skipped_message_keys@[j].index) && final(self).skipped_message_keys@ =~= old(
                    self,
                ).skipped_message_keys@.remove(p).push((SkippedKey { index: idx, key, nonce })),
            forall|i: int|
                0 <= i < final(self).skipped_message_keys@.len() ==> {
                    ||| #[trigger] final(self).skipped_message_keys@[i].index == idx
                    ||| skipped_entry_in(
                        old(self).skipped_message_keys@,
                        final(self).skipped_message_keys@[i],
                    )
                },
            final(self).root_key == old(self).root_key,
            final(self).send_chain_key == old(self).send_chain_key,
            final(self).recv_chain_key == old(self).recv_chain_key,
            final(self).send_label == old(self).send_label,
            final(self).recv_label == old(self).recv_label,
            final(self).send_count == old(self).send_count,
            final(self).recv_count == old(self).recv_count,
            final(self).previous_send_count == old(self).previous_send_count,
            final(self).local_ratchet_private == old(self).local_ratchet_private,
            final(self).local_ratchet_public == old(self).local_ratchet_public,
            final(self).remote_ratchet_public == old(self).remote_ratchet_public,
            final(self).combined_digest == old(self).combined_digest,
            final(self).local_digest == old(self).local_digest,
            final(self).remote_digest == old(self).remote_digest,
            final(self).max_skip == old(self).max_skip,
    {
        let ghost s0 = self.skipped_message_keys@;
        let ghost mut evicted_at: int = -1;
        let ghost mut replaced_at: int = -1;
        if self.skipped_message_keys.len() >= self.max_skip {
            match self.find_min_index_pos() {
                Some(p) => {
                    proof {
                        lemma_skipped_remove(self.skipped_message_keys@, p as int);
                        evicted_at = p as int;
                    }
                    let mut evicted = self.skipped_message_keys.remove(p);
                    wipe_vec(&mut evicted.key);
                    wipe_vec(&mut evicted.nonce);
                },
                None => {},
            }
        }
        let ghost s1 = self.skipped_message_keys@;
        assert(skipped_unique(s1));
        assert(forall|i: int| 0 <= i < s1.len() ==> skipped_entry_in(s0, #[trigger] s1[i]));
        assert(s1.len() <= cache_bound(self.max_skip) - 1 || s1.len() == 0);
        match self.find_pos(idx) {
            Some(p) => {
                proof {
                    lemma_skipped_remove(self.skipped_message_keys@, p as int);
                    let s = self.skipped_message_keys@.remove(p as int);
                    assert forall|i: int| 0 <= i < s.len() implies #[trigger] s[i].index
                        != idx by {
                        let io: int = if i < p as int {
                            i
                        } else {
                            i + 1
                        };
                        assert(s[i] == s1[io]);
                    }
                }
                proof {
                    replaced_at = p as int;
                }
                let mut replaced = self.skipped_message_keys.remove(p);
                wipe_vec(&mut replaced.key);
                wipe_vec(&mut replaced.nonce);
            },
            None => {},
        }
        let ghost s2 = self.skipped_message_keys@;
        assert(skipped_unique(s2));
        assert(forall|i: int| 0 <= i < s2.len() ==> #[trigger] s2[i].index != idx);
        assert forall|i: int| 0 <= i < s2.len() implies skipped_entry_in(s0, #[trigger] s2[i]) by {
            if s2 != s1 {
                assert(skipped_entry_in(s1, s2[i]));
                lemma_entry_in_trans(s0, s1, s2[i]);
            }
        }
        self.skipped_message_keys.push(SkippedKey { index: idx, key, nonce });
        proof {
            let s = self.skipped_message_keys@;
            assert(s[s.len() - 1].index == idx);
            assert(skipped_has(s, idx));
            assert forall|i: int, j: int|
                0 <= i < s.len() && 0 <= j < s.len() && i != j implies s[i].index
                != s[j].index by {
                if i < s.len() - 1 && j < s.len() - 1 {
                    assert(s[i] == s2[i]);
                    assert(s[j] == s2[j]);
                }
            }
            assert forall|i: int| 0 <= i < s.len() && s[i].index == idx implies i == s.len()
                - 1 by {
                if i < s.len() - 1 {
                    assert(s2[i].index == idx);
                }
            }
            assert(skipped_index_of(s, idx) == s.len() - 1);
            assert forall|i: int|
                0 <= i < s.len() && s[i].index != idx implies skipped_entry_in(
                s0,
                #[trigger] s[i],
            ) by {
                assert(s[i] == s2[i]);
            }
            if s0.len() < old(self).max_skip && skipped_has(s0, idx) {
                assert(evicted_at == -1 && s1 == s0);
                assert(replaced_at >= 0);
                assert(0 <= replaced_at < s0.len() && s0[replaced_at].index == idx);
                assert forall|i: int| 0 <= i < s0.len() && s0[i].index == idx implies i
                    == replaced_at by {}
                assert(skipped_index_of(s0, idx) == replaced_at);
                assert(s2 == s0.remove(replaced_at));
                assert(s =~= s0.remove(skipped_index_of(s0, idx)).push(
                    (SkippedKey { index: idx, key, nonce }),
                ));
            }
            if s0.len() >= old(self).max_skip && s0.len() > 0 && !skipped_has(s0, idx) {
                assert(evicted_at >= 0);
                assert(s1 == s0.remove(evicted_at));
                assert(replaced_at == -1 && s2 == s1);
                assert(s =~= s0.remove(evicted_at).push((SkippedKey { index: idx, key, nonce })));
            }
        }
    }

    /// Look up the cached key for `idx` without removing it. Returns a
    /// copy of the stored (key, nonce) exactly when an entry for `idx`
    /// is present.
    pub fn peek_skipped_key(&self, idx: u64) -> (r: Option<(Vec<u8>, Vec<u8>)>)
        requires
            self.wf_cache(),
        ensures
            match r {
                Some(kn) => skipped_has(self.skipped_message_keys@, idx) && (kn.0@, kn.1@)
                    == skipped_lookup(self.skipped_message_keys@, idx) && kn.0@.len() == 32
                    && kn.1@.len() == 12,
                None => !skipped_has(self.skipped_message_keys@, idx),
            },
    {
        match self.find_pos(idx) {
            Some(p) => {
                let e = &self.skipped_message_keys[p];
                proof {
                    let s = self.skipped_message_keys@;
                    assert(skipped_has(s, idx));
                    assert forall|i: int| 0 <= i < s.len() && s[i].index == idx implies i
                        == p as int by {}
                    assert(skipped_index_of(s, idx) == p as int);
                }
                Some((clone_bytes(&e.key), clone_bytes(&e.nonce)))
            },
            None => None,
        }
    }

    /// Recover and remove the cached key for `idx`. Returns the stored
    /// (key, nonce) exactly when an entry for `idx` is present; the cache
    /// loses that entry and nothing else, and no other field changes.
    pub fn recover_skipped_key(&mut self, idx: u64) -> (r: Option<(Vec<u8>, Vec<u8>)>)
        requires
            old(self).wf_cache(),
        ensures
            final(self).wf_cache(),
            match r {
                Some(kn) => {
                    &&& skipped_has(old(self).skipped_message_keys@, idx)
                    &&& (kn.0@, kn.1@) == skipped_lookup(old(self).skipped_message_keys@, idx)
                    &&& final(self).skipped_message_keys@ == old(self).skipped_message_keys@.remove(
                        skipped_index_of(old(self).skipped_message_keys@, idx),
                    )
                },
                None => {
                    &&& !skipped_has(old(self).skipped_message_keys@, idx)
                    &&& *final(self) == *old(self)
                },
            },
            !skipped_has(final(self).skipped_message_keys@, idx),
            final(self).root_key == old(self).root_key,
            final(self).send_chain_key == old(self).send_chain_key,
            final(self).recv_chain_key == old(self).recv_chain_key,
            final(self).send_label == old(self).send_label,
            final(self).recv_label == old(self).recv_label,
            final(self).send_count == old(self).send_count,
            final(self).recv_count == old(self).recv_count,
            final(self).previous_send_count == old(self).previous_send_count,
            final(self).local_ratchet_private == old(self).local_ratchet_private,
            final(self).local_ratchet_public == old(self).local_ratchet_public,
            final(self).remote_ratchet_public == old(self).remote_ratchet_public,
            final(self).combined_digest == old(self).combined_digest,
            final(self).local_digest == old(self).local_digest,
            final(self).remote_digest == old(self).remote_digest,
            final(self).max_skip == old(self).max_skip,
    {
        match self.find_pos(idx) {
            Some(p) => {
                let ghost before = self.skipped_message_keys@;
                let entry = self.skipped_message_keys.remove(p);
                proof {
                    assert(skipped_has(before, idx));
                    assert forall|i: int| 0 <= i < before.len() && before[i].index == idx implies i
                        == p as int by {}
                    assert(skipped_index_of(before, idx) == p as int);
                    assert forall|i: int|
                        0 <= i < self.skipped_message_keys@.len() implies #[trigger] self.skipped_message_keys@[i].index
                        != idx by {
                        if i < p as int {
                            assert(self.skipped_message_keys@[i] == before[i]);
                        } else {
                            assert(self.skipped_message_keys@[i] == before[i + 1]);
                        }
                    }
                }
                Some((entry.key, entry.nonce))
            },
            None => None,
        }
    }
}

/// Handshake prekey data: a KEM public key published ahead of time,
/// with a timestamp, optional metadata and an optional signature.
pub struct PrekeyBundle {
    /// Protocol version.
    pub version: u8,
    /// KEM public key.
    pub kem_public_key: Vec<u8>,
    /// Unix seconds when the bundle was issued.
    pub timestamp: u64,
    /// Optional caller metadata.
    pub metadata: Option<Vec<u8>>,
    /// Optional signature over the bundle.
    pub signature: Option<Vec<u8>>,
}

} // verus!
