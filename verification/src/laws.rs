use vstd::prelude::*;

use crate::error::PQFSRError;
use crate::kem::{kem_decap_of, kem_pub_of};
use crate::ratchet::{cache_has_derived, cache_roomy, lemma_chain_at_snoc, next_chain_spec};
use crate::ratchet::{label_a2b_spec, label_b2a_spec, zeros32};
use crate::ratchet::{ad_bind_spec, chain_at, chain_seed_spec, decrypt_base_chain,
    decrypt_base_from, decrypt_cached_ok, decrypt_chain_key, decrypt_chain_ok, decrypt_err_spec,
    decrypt_mk, decrypt_new_root, decrypt_nn, encrypt_flow_ok, encrypt_pulse_ok, mix_root_spec,
    msg_key_spec, msg_nonce_spec, pulse_root_ok, semantic_tag_spec, Packet};
use crate::session::seen_at;
use crate::session::{combined_digest_spec, handshake_root_ok, lemma_combined_digest_comm,
    session_state_ok, HandshakeReplayCache, HandshakeRequest, HandshakeResponse,
    PendingHandshake};
use crate::state::{opt_view, skipped_has, skipped_lookup, RatchetState};
use crate::strategy::sat_sub64;

verus! {

/// A receiver in step with a sender on the symmetric chain: the same
/// combined digest, the receive chain equal to the sender's send chain
/// at the same position, and no stale cache entry for that position.
pub open spec fn paired_flow(a: RatchetState, b: RatchetState) -> bool {
    &&& b.combined_digest@ == a.combined_digest@
    &&& b.recv_chain_key@ == a.send_chain_key@
    &&& b.recv_count == a.send_count
    &&& !skipped_has(b.skipped_message_keys@, a.send_count)
}

/// Round trip on the symmetric chain: a flow packet a sender in state
/// `a0` sealed over `m` cannot be rejected by a paired receiver in
/// state `b0` under the same associated data, and whatever it
/// decrypts to is exactly `m`.
pub proof fn lemma_paired_flow_delivery(
    a0: RatchetState,
    a1: RatchetState,
    b0: RatchetState,
    p: Packet,
    m: Seq<u8>,
    ad: Seq<u8>,
)
    requires
        encrypt_flow_ok(a0, a1, p, m, ad),
        paired_flow(a0, b0),
    ensures
        forall|e: PQFSRError| !decrypt_err_spec(b0, p, ad, e),
        forall|b1: RatchetState, pt: Seq<u8>| !decrypt_cached_ok(b0, b1, p, ad, pt),
        forall|b1: RatchetState, pt: Seq<u8>|
            decrypt_chain_ok(b0, b1, p, ad, pt) ==> pt == m && b1.recv_count == a1.send_count,
{
    let cd = a0.combined_digest@;
    assert(p.semantic_tag@ == semantic_tag_spec(b0.combined_digest@, p.count));
    assert(p.kem_ciphertext@.len() == 0);
    assert(decrypt_base_chain(b0, p) == b0.recv_chain_key@);
    assert(decrypt_base_from(b0, p) == b0.recv_count);
    assert(chain_at(b0.recv_chain_key@, b0.recv_count, p.count, cd) == b0.recv_chain_key@);
    assert(decrypt_chain_key(b0, p) == a0.send_chain_key@);
    assert(decrypt_mk(b0, p) == msg_key_spec(a0.send_chain_key@, a0.send_count, cd));
    assert(decrypt_nn(b0, p) == msg_nonce_spec(a0.send_chain_key@, a0.send_count, cd));
    assert forall|e: PQFSRError| !decrypt_err_spec(b0, p, ad, e) by {}
    assert forall|b1: RatchetState, pt: Seq<u8>|
        decrypt_chain_ok(b0, b1, p, ad, pt) implies pt == m && b1.recv_count == a1.send_count by {}
}

/// A receiver positioned to take a pulse from a sender: the same
/// combined digest and root, the receive label matching the sender's
/// send label, the sender aiming its encapsulation at this receiver's
/// ratchet key, and no stale cache entry for position 0.
pub open spec fn paired_pulse(a: RatchetState, b: RatchetState) -> bool {
    &&& b.combined_digest@ == a.combined_digest@
    &&& b.root_key@ == a.root_key@
    &&& b.recv_label@ == a.send_label@
    &&& opt_view(a.remote_ratchet_public) == Some(kem_pub_of(b.local_ratchet_private@))
    &&& b.local_ratchet_private@.len() == crate::kem::KEM_SECRET_LEN
    &&& !skipped_has(b.skipped_message_keys@, 0)
}

/// Round trip across a KEM pulse: a pulse packet a sender in state
/// `a0` sealed over `m` cannot be rejected by a pulse-paired receiver
/// in state `b0`, whatever it decrypts to is exactly `m`, and both
/// sides leave the exchange on the same root key — the
/// post-compromise-security step of the ratchet.
pub proof fn lemma_paired_pulse_delivery(
    a0: RatchetState,
    a1: RatchetState,
    b0: RatchetState,
    p: Packet,
    m: Seq<u8>,
    ad: Seq<u8>,
)
    requires
        encrypt_pulse_ok(a0, a1, p, m, ad),
        paired_pulse(a0, b0),
    ensures
        forall|e: PQFSRError| !decrypt_err_spec(b0, p, ad, e),
        forall|b1: RatchetState, pt: Seq<u8>| !decrypt_cached_ok(b0, b1, p, ad, pt),
        forall|b1: RatchetState, pt: Seq<u8>|
            decrypt_chain_ok(b0, b1, p, ad, pt) ==> pt == m && b1.root_key@ == a1.root_key@,
{
    let cd = a0.combined_digest@;
    assert(p.count == 0);
    assert(p.semantic_tag@ == semantic_tag_spec(b0.combined_digest@, p.count));
    assert(p.kem_ciphertext@.len() != 0);
    let rp = a0.remote_ratchet_public.unwrap()@;
    assert(kem_pub_of(b0.local_ratchet_private@) == rp);
    assert(pulse_root_ok(a0.root_key@, rp, p.kem_ciphertext@, cd, a1.root_key@));
    assert(a1.root_key@ == mix_root_spec(
        a0.root_key@,
        crate::kem::kem_decap_of(p.kem_ciphertext@, b0.local_ratchet_private@),
        cd,
    ));
    assert(decrypt_new_root(b0, p) == a1.root_key@);
    let chain0 = chain_seed_spec(a1.root_key@, cd, a0.send_label@);
    assert(decrypt_base_chain(b0, p) == chain0);
    assert(decrypt_base_from(b0, p) == 0);
    assert(chain_at(chain0, 0, 0, cd) == chain0);
    assert(decrypt_chain_key(b0, p) == chain0);
    assert(decrypt_mk(b0, p) == msg_key_spec(chain0, 0, cd));
    assert(decrypt_nn(b0, p) == msg_nonce_spec(chain0, 0, cd));
    assert forall|e: PQFSRError| !decrypt_err_spec(b0, p, ad, e) by {}
    assert forall|b1: RatchetState, pt: Seq<u8>|
        decrypt_chain_ok(b0, b1, p, ad, pt) implies pt == m && b1.root_key@ == a1.root_key@ by {}
}

/// Out-of-order recovery: a packet whose message key was derived into
/// the receiver's skipped cache — as the engine caches it when later
/// packets arrive first — cannot be rejected, and whatever it
/// decrypts to is exactly the message the sender sealed at that
/// position.
pub proof fn lemma_cached_delivery(
    a0: RatchetState,
    a1: RatchetState,
    b0: RatchetState,
    p: Packet,
    m: Seq<u8>,
    ad: Seq<u8>,
)
    requires
        encrypt_flow_ok(a0, a1, p, m, ad),
        b0.combined_digest@ == a0.combined_digest@,
        skipped_has(b0.skipped_message_keys@, p.count),
        skipped_lookup(b0.skipped_message_keys@, p.count) == (
            msg_key_spec(a0.send_chain_key@, a0.send_count, a0.combined_digest@),
            msg_nonce_spec(a0.send_chain_key@, a0.send_count, a0.combined_digest@),
        ),
    ensures
        forall|e: PQFSRError| !decrypt_err_spec(b0, p, ad, e),
        forall|b1: RatchetState, pt: Seq<u8>| !decrypt_chain_ok(b0, b1, p, ad, pt),
        forall|b1: RatchetState, pt: Seq<u8>| decrypt_cached_ok(b0, b1, p, ad, pt) ==> pt == m,
{
    let cd = a0.combined_digest@;
    assert(p.semantic_tag@ == semantic_tag_spec(b0.combined_digest@, p.count));
    let kn = skipped_lookup(b0.skipped_message_keys@, p.count);
    assert(kn.0 == msg_key_spec(a0.send_chain_key@, a0.send_count, cd));
    assert(kn.1 == msg_nonce_spec(a0.send_chain_key@, a0.send_count, cd));
    assert(crate::crypto::aead_dec_of(
        kn.0,
        kn.1,
        p.ciphertext@,
        ad_bind_spec(ad, p.semantic_tag@, p.count, p.pn),
    ) == Some(m));
    assert forall|e: PQFSRError| !decrypt_err_spec(b0, p, ad, e) by {}
}

/// Handshake replay is rejected: once a cache holds an identifier,
/// first seen at `t1`, any later check of the same identifier at a
/// time `t2` within the cache's TTL finds it already seen — and the
/// replay check then fails with `HandshakeReplay`, never accepting.
pub proof fn lemma_handshake_replay_rejected(
    c: HandshakeReplayCache,
    id: Seq<u8>,
    t1: u64,
    t2: u64,
)
    requires
        exists|i: int|
            0 <= i < c.entries@.len() && c.entries@[i].0@ == id && (#[trigger] c.entries@[i].1).first_seen
                == t1,
        sat_sub64(t2, t1) <= c.ttl_seconds,
    ensures
        seen_at(c, id, t2),
{
    let i = choose|i: int|
        0 <= i < c.entries@.len() && c.entries@[i].0@ == id && (#[trigger] c.entries@[i].1).first_seen
            == t1;
    assert(0 <= i < c.entries@.len() && c.entries@[i].0@ == id && crate::session::entry_live(
        c.entries@[i].1,
        t2,
        c.ttl_seconds,
    ));
}

/// Out-of-order delivery within the window, on two consecutive
/// messages: a receiver paired at position `c` that takes the second
/// packet first cannot reject it and recovers exactly the second
/// message; the passed-over position's key lands in its cache; and the
/// first packet, presented afterwards, cannot be rejected either and
/// recovers exactly the first message — the same set of plaintexts as
/// in-order delivery.
pub proof fn lemma_out_of_order_pair(
    a0: RatchetState,
    a1: RatchetState,
    a2: RatchetState,
    b0: RatchetState,
    b1: RatchetState,
    p0: Packet,
    p1: Packet,
    m0: Seq<u8>,
    m1: Seq<u8>,
    ad: Seq<u8>,
    pt1: Seq<u8>,
)
    requires
        encrypt_flow_ok(a0, a1, p0, m0, ad),
        encrypt_flow_ok(a1, a2, p1, m1, ad),
        paired_flow(a0, b0),
        !skipped_has(b0.skipped_message_keys@, p1.count),
        b0.skipped_message_keys@.len() + 1 <= b0.max_skip,
        a0.send_count < u64::MAX,
        decrypt_chain_ok(b0, b1, p1, ad, pt1),
    ensures
        pt1 == m1,
        forall|e: PQFSRError| !decrypt_err_spec(b1, p0, ad, e),
        forall|b2: RatchetState, pt0: Seq<u8>| decrypt_cached_ok(b1, b2, p0, ad, pt0) ==> pt0 == m0,
        forall|b2: RatchetState, pt0: Seq<u8>| !decrypt_chain_ok(b1, b2, p0, ad, pt0),
{
    let cd = a0.combined_digest@;
    let c = a0.send_count;
    assert(p0.count == c);
    assert(p1.count == c + 1);
    assert(a1.send_chain_key@ == next_chain_spec(a0.send_chain_key@, c, cd));

    // The receiver keys the second packet one step ahead of its chain.
    assert(p1.kem_ciphertext@.len() == 0);
    assert(decrypt_base_chain(b0, p1) == b0.recv_chain_key@);
    assert(decrypt_base_from(b0, p1) == c);
    lemma_chain_at_snoc(b0.recv_chain_key@, c, c, cd);
    assert(chain_at(b0.recv_chain_key@, c, c, cd) == b0.recv_chain_key@);
    assert(decrypt_chain_key(b0, p1) == a1.send_chain_key@);
    assert(decrypt_mk(b0, p1) == msg_key_spec(a1.send_chain_key@, (c + 1) as u64, cd));
    assert(decrypt_nn(b0, p1) == msg_nonce_spec(a1.send_chain_key@, (c + 1) as u64, cd));
    assert(pt1 == m1);

    // The passed-over position's material is cached.
    assert(cache_roomy(b0, p1.count));
    assert(cache_has_derived(
        b1.skipped_message_keys@,
        b0.recv_chain_key@,
        c,
        c,
        cd,
    ));
    assert(skipped_lookup(b1.skipped_message_keys@, c) == (
        msg_key_spec(a0.send_chain_key@, c, cd),
        msg_nonce_spec(a0.send_chain_key@, c, cd),
    ));
    assert(b1.combined_digest@ == cd);

    lemma_cached_delivery(a0, a1, b1, p0, m0, ad);
}

/// A completed handshake pairs the two sessions. From the contracts of
/// request creation, acceptance and finalization: the two bootstrapped
/// states agree on the combined digest and the root key; each side's
/// send chain is the other side's receive chain; and the initiator is
/// positioned to pulse at the responder's ratchet key. Every message
/// round trip after the handshake follows through
/// [`lemma_paired_flow_delivery`], [`lemma_paired_pulse_delivery`] and
/// [`lemma_out_of_order_pair`].
pub proof fn lemma_handshake_pairs_sessions(
    req: HandshakeRequest,
    resp: HandshakeResponse,
    pending: PendingHandshake,
    st_a: RatchetState,
    st_b: RatchetState,
    ld_a: Seq<u8>,
    ld_b: Seq<u8>,
    ma: usize,
    mb: usize,
)
    requires
        // What the initiator's request establishes.
        req.kem_public@ == kem_pub_of(pending.kem_private@),
        req.semantic_digest@ == ld_a,
        // What acceptance establishes on the responder.
        session_state_ok(
            st_b,
            combined_digest_spec(ld_b, req.semantic_digest@),
            ld_b,
            req.semantic_digest@,
            false,
            mb,
        ),
        handshake_root_ok(
            resp.kem_ciphertext@,
            req.kem_public@,
            combined_digest_spec(ld_b, req.semantic_digest@),
            st_b.root_key@,
        ),
        opt_view(st_b.remote_ratchet_public) == Some(req.ratchet_public@),
        st_b.local_ratchet_public@ == kem_pub_of(st_b.local_ratchet_private@),
        st_b.local_ratchet_private@.len() == crate::kem::KEM_SECRET_LEN,
        resp.ratchet_public@ == st_b.local_ratchet_public@,
        resp.semantic_digest@ == ld_b,
        // What finalization establishes on the initiator.
        session_state_ok(
            st_a,
            combined_digest_spec(ld_a, resp.semantic_digest@),
            ld_a,
            resp.semantic_digest@,
            true,
            ma,
        ),
        st_a.root_key@ == mix_root_spec(
            zeros32(),
            kem_decap_of(resp.kem_ciphertext@, pending.kem_private@),
            combined_digest_spec(ld_a, resp.semantic_digest@),
        ),
        opt_view(st_a.remote_ratchet_public) == Some(resp.ratchet_public@),
    ensures
        st_a.root_key@ == st_b.root_key@,
        st_a.combined_digest@ == st_b.combined_digest@,
        paired_flow(st_a, st_b),
        paired_flow(st_b, st_a),
        paired_pulse(st_a, st_b),
{
    lemma_combined_digest_comm(ld_a, ld_b);
    let cd = combined_digest_spec(ld_a, ld_b);
    assert(st_a.combined_digest@ == cd);
    assert(st_b.combined_digest@ == cd);
    // The responder's root, instantiated at the initiator's one-shot
    // secret key, is the initiator's root.
    assert(st_b.root_key@ == mix_root_spec(
        zeros32(),
        kem_decap_of(resp.kem_ciphertext@, pending.kem_private@),
        cd,
    ));
    assert(st_a.root_key@ == st_b.root_key@);
    // Chains: the initiator sends on the label the responder receives
    // on, seeded from the same root and digest.
    assert(st_a.send_chain_key@ == chain_seed_spec(st_a.root_key@, cd, label_a2b_spec()));
    assert(st_b.recv_chain_key@ == chain_seed_spec(st_b.root_key@, cd, label_a2b_spec()));
    assert(st_b.send_chain_key@ == chain_seed_spec(st_b.root_key@, cd, label_b2a_spec()));
    assert(st_a.recv_chain_key@ == chain_seed_spec(st_a.root_key@, cd, label_b2a_spec()));
}

} // verus!
