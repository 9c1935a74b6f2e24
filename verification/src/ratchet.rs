use vstd::prelude::*;

use crate::crypto::{aead_dec_of, aead_enc_of, aead_decrypt, aead_encrypt, constant_time_eq, hkdf,
    hkdf_spec, sha256, sha256_of};
use crate::error::PQFSRError;
use crate::kem::{kem_decap_of, kem_decapsulate, kem_encapsulate, kem_keypair, kem_pub_of,
    KEM_CIPHERTEXT_LEN, KEM_PUBLIC_LEN, KEM_SECRET_LEN};
use crate::state::{cache_view, clone_bytes, opt_view, skipped_entry_in, skipped_has,
    skipped_index_of, skipped_lookup, skipped_unique, RatchetState, SkippedKey};
use crate::strategy::{sat_add64, OrganicStrategy, RatchetMode};
use crate::zeroutil::wipe_vec;
use crate::{be64, be64_spec};

verus! {

/// Direction label of the initiator-to-responder chain, `"CHAIN|A2B"`.
pub open spec fn label_a2b_spec() -> Seq<u8> {
    seq![67u8, 72u8, 65u8, 73u8, 78u8, 124u8, 65u8, 50u8, 66u8]
}

/// Direction label of the responder-to-initiator chain, `"CHAIN|B2A"`.
pub open spec fn label_b2a_spec() -> Seq<u8> {
    seq![67u8, 72u8, 65u8, 73u8, 78u8, 124u8, 66u8, 50u8, 65u8]
}

/// HKDF info for message keys, `"PQ-FSR msg"`.
pub open spec fn info_msg_spec() -> Seq<u8> {
    seq![80u8, 81u8, 45u8, 70u8, 83u8, 82u8, 32u8, 109u8, 115u8, 103u8]
}

/// HKDF info for chain advance, `"PQ-FSR chain"`.
pub open spec fn info_chain_spec() -> Seq<u8> {
    seq![80u8, 81u8, 45u8, 70u8, 83u8, 82u8, 32u8, 99u8, 104u8, 97u8, 105u8, 110u8]
}

/// HKDF info for nonces, `"PQ-FSR nonce"`.
pub open spec fn info_nonce_spec() -> Seq<u8> {
    seq![80u8, 81u8, 45u8, 70u8, 83u8, 82u8, 32u8, 110u8, 111u8, 110u8, 99u8, 101u8]
}

/// Direction tag bound into every semantic tag, `"SEND"`.
pub open spec fn send_tag_spec() -> Seq<u8> {
    seq![83u8, 69u8, 78u8, 68u8]
}

/// 32 zero bytes, the root-key placeholder before the first mix.
pub open spec fn zeros32() -> Seq<u8> {
    Seq::new(32, |i: int| 0u8)
}

/// The direction label `"CHAIN|A2B"` as bytes.
pub fn label_a2b() -> (r: Vec<u8>)
    ensures
        r@ == label_a2b_spec(),
{
    let v: Vec<u8> = vec![67u8, 72u8, 65u8, 73u8, 78u8, 124u8, 65u8, 50u8, 66u8];
    proof {
        assert(v@ =~= label_a2b_spec());
    }
    v
}

/// The direction label `"CHAIN|B2A"` as bytes.
pub fn label_b2a() -> (r: Vec<u8>)
    ensures
        r@ == label_b2a_spec(),
{
    let v: Vec<u8> = vec![67u8, 72u8, 65u8, 73u8, 78u8, 124u8, 66u8, 50u8, 65u8];
    proof {
        assert(v@ =~= label_b2a_spec());
    }
    v
}

fn info_msg() -> (r: Vec<u8>)
    ensures
        r@ == info_msg_spec(),
{
    let v: Vec<u8> = vec![80u8, 81u8, 45u8, 70u8, 83u8, 82u8, 32u8, 109u8, 115u8, 103u8];
    proof {
        assert(v@ =~= info_msg_spec());
    }
    v
}

fn info_chain() -> (r: Vec<u8>)
    ensures
        r@ == info_chain_spec(),
{
    let v: Vec<u8> = vec![
        80u8,
        81u8,
        45u8,
        70u8,
        83u8,
        82u8,
        32u8,
        99u8,
        104u8,
        97u8,
        105u8,
        110u8,
    ];
    proof {
        assert(v@ =~= info_chain_spec());
    }
    v
}

fn info_nonce() -> (r: Vec<u8>)
    ensures
        r@ == info_nonce_spec(),
{
    let v: Vec<u8> = vec![
        80u8,
        81u8,
        45u8,
        70u8,
        83u8,
        82u8,
        32u8,
        110u8,
        111u8,
        110u8,
        99u8,
        101u8,
    ];
    proof {
        assert(v@ =~= info_nonce_spec());
    }
    v
}

fn send_tag_bytes() -> (r: Vec<u8>)
    ensures
        r@ == send_tag_spec(),
{
    let v: Vec<u8> = vec![83u8, 69u8, 78u8, 68u8];
    proof {
        assert(v@ =~= send_tag_spec());
    }
    v
}

/// The root that mixing a KEM shared secret into the previous root under
/// a semantic digest produces: `SHA-256(prev ‖ ss ‖ sd)`.
pub open spec fn mix_root_spec(prev: Seq<u8>, ss: Seq<u8>, sd: Seq<u8>) -> Seq<u8> {
    sha256_of(prev + ss + sd)
}

/// The chain seed derived from a root for one direction label:
/// `HKDF(root, sd, label, 32)`.
pub open spec fn chain_seed_spec(root: Seq<u8>, sd: Seq<u8>, label: Seq<u8>) -> Seq<u8> {
    hkdf_spec(root, sd, label, 32)
}

/// The message key at one chain position.
pub open spec fn msg_key_spec(chain: Seq<u8>, counter: u64, sd: Seq<u8>) -> Seq<u8> {
    hkdf_spec(chain + be64_spec(counter), sd, info_msg_spec(), 32)
}

/// The successor chain key at one chain position.
pub open spec fn next_chain_spec(chain: Seq<u8>, counter: u64, sd: Seq<u8>) -> Seq<u8> {
    hkdf_spec(chain + be64_spec(counter), sd, info_chain_spec(), 32)
}

/// The nonce at one chain position.
pub open spec fn msg_nonce_spec(chain: Seq<u8>, counter: u64, sd: Seq<u8>) -> Seq<u8> {
    hkdf_spec(chain + be64_spec(counter), sd, info_nonce_spec(), 12)
}

/// The 16-byte semantic tag: `SHA-256(cd ‖ BE64(i) ‖ "SEND")[0..16]`.
pub open spec fn semantic_tag_spec(cd: Seq<u8>, counter: u64) -> Seq<u8> {
    sha256_of(cd + be64_spec(counter) + send_tag_spec()).subrange(0, 16)
}

/// The associated data the AEAD binds:
/// `caller_ad ‖ tag ‖ BE64(count) ‖ BE64(pn)`.
pub open spec fn ad_bind_spec(ad: Seq<u8>, tag: Seq<u8>, count: u64, pn: u64) -> Seq<u8> {
    ad + tag + be64_spec(count) + be64_spec(pn)
}

/// The receive chain key after advancing from position `from` to
/// position `to`, deriving the successor at each position in between.
pub open spec fn chain_at(chain: Seq<u8>, from: u64, to: u64, sd: Seq<u8>) -> Seq<u8>
    decreases to - from,
{
    if from >= to {
        chain
    } else {
        chain_at(next_chain_spec(chain, from, sd), (from + 1) as u64, to, sd)
    }
}

/// Advancing one more position derives the successor of the chain so
/// far: `chain_at` unfolded from the back.
pub proof fn lemma_chain_at_snoc(chain: Seq<u8>, from: u64, i: u64, sd: Seq<u8>)
    requires
        from <= i < u64::MAX,
    ensures
        chain_at(chain, from, (i + 1) as u64, sd) == next_chain_spec(
            chain_at(chain, from, i, sd),
            i,
            sd,
        ),
    decreases i - from,
{
    let stepped = next_chain_spec(chain, from, sd);
    if from < i {
        lemma_chain_at_snoc(stepped, (from + 1) as u64, i, sd);
        assert(chain_at(chain, from, (i + 1) as u64, sd) == chain_at(
            stepped,
            (from + 1) as u64,
            (i + 1) as u64,
            sd,
        ));
        assert(chain_at(chain, from, i, sd) == chain_at(stepped, (from + 1) as u64, i, sd));
    } else {
        assert(chain_at(chain, from, (i + 1) as u64, sd) == chain_at(
            stepped,
            (from + 1) as u64,
            (i + 1) as u64,
            sd,
        ));
        assert(chain_at(stepped, (from + 1) as u64, (i + 1) as u64, sd) == stepped);
        assert(chain_at(chain, from, i, sd) == chain);
    }
}

/// Mix a KEM shared secret into the root key; an absent previous root
/// stands for 32 zero bytes.
pub fn mix_root(previous_root: Option<&Vec<u8>>, shared_secret: &[u8], semantic_digest: &[u8]) -> (r:
    Vec<u8>)
    ensures
        r@ == mix_root_spec(
            match previous_root {
                Some(p) => p@,
                None => zeros32(),
            },
            shared_secret@,
            semantic_digest@,
        ),
        r@.len() == 32,
{
    let mut base: Vec<u8> = Vec::new();
    match previous_root {
        Some(p) => base.extend_from_slice(p.as_slice()),
        None => {
            let zeros: [u8; 32] = [0u8; 32];
            base.extend_from_slice(zeros.as_slice());
            proof {
                assert(base@ =~= zeros32());
            }
        },
    }
    base.extend_from_slice(shared_secret);
    base.extend_from_slice(semantic_digest);
    proof {
        assert(base@ =~= match previous_root {
            Some(p) => p@,
            None => zeros32(),
        } + shared_secret@ + semantic_digest@);
    }
    sha256(base.as_slice())
}

/// Derive one direction's chain seed from the root.
pub fn derive_chain_seed(root_key: &[u8], semantic_digest: &[u8], label: &[u8]) -> (r: Vec<u8>)
    ensures
        r@ == chain_seed_spec(root_key@, semantic_digest@, label@),
        r@.len() == 32,
{
    hkdf(root_key, semantic_digest, label, 32)
}

/// Derive the message key, the successor chain key and the nonce at one
/// chain position.
pub fn derive_message_material(chain_key: &[u8], counter: u64, semantic_digest: &[u8]) -> (r: (
    Vec<u8>,
    Vec<u8>,
    Vec<u8>,
))
    ensures
        r.0@ == msg_key_spec(chain_key@, counter, semantic_digest@),
        r.1@ == next_chain_spec(chain_key@, counter, semantic_digest@),
        r.2@ == msg_nonce_spec(chain_key@, counter, semantic_digest@),
        r.0@.len() == 32,
        r.1@.len() == 32,
        r.2@.len() == 12,
{
    let mut input_km: Vec<u8> = Vec::new();
    input_km.extend_from_slice(chain_key);
    let counter_bytes = be64(counter);
    input_km.extend_from_slice(counter_bytes.as_slice());
    proof {
        assert(input_km@ =~= chain_key@ + be64_spec(counter));
    }
    let message_key = hkdf(input_km.as_slice(), semantic_digest, info_msg().as_slice(), 32);
    let next_chain = hkdf(input_km.as_slice(), semantic_digest, info_chain().as_slice(), 32);
    let nonce = hkdf(input_km.as_slice(), semantic_digest, info_nonce().as_slice(), 12);
    (message_key, next_chain, nonce)
}

/// Compute the 16-byte semantic tag binding the combined digest and a
/// message index; it depends on those two values alone.
pub fn compute_semantic_tag(combined_digest: &[u8], counter: u64) -> (r: Vec<u8>)
    ensures
        r@ == semantic_tag_spec(combined_digest@, counter),
        r@.len() == 16,
{
    let mut payload: Vec<u8> = Vec::new();
    payload.extend_from_slice(combined_digest);
    let counter_bytes = be64(counter);
    payload.extend_from_slice(counter_bytes.as_slice());
    let tag = send_tag_bytes();
    payload.extend_from_slice(tag.as_slice());
    proof {
        assert(payload@ =~= combined_digest@ + be64_spec(counter) + send_tag_spec());
    }
    let digest = sha256(payload.as_slice());
    let mut out: Vec<u8> = Vec::new();
    let mut i: usize = 0;
    while i < 16
        invariant
            i <= 16,
            digest@.len() == 32,
            out@ =~= digest@.subrange(0, i as int),
        decreases 16 - i,
    {
        out.push(digest[i]);
        proof {
            assert(out@ =~= digest@.subrange(0, i + 1 as int));
        }
        i = i + 1;
    }
    proof {
        assert(out@ =~= digest@.subrange(0, 16));
    }
    out
}

/// Build the bound associated data `ad ‖ tag ‖ BE64(count) ‖ BE64(pn)`.
pub fn build_ad_bind(ad: &[u8], tag: &[u8], count: u64, pn: u64) -> (r: Vec<u8>)
    ensures
        r@ == ad_bind_spec(ad@, tag@, count, pn),
        r@.len() == ad@.len() + tag@.len() + 16,
{
    let mut out: Vec<u8> = Vec::new();
    out.extend_from_slice(ad);
    out.extend_from_slice(tag);
    let count_bytes = be64(count);
    out.extend_from_slice(count_bytes.as_slice());
    let pn_bytes = be64(pn);
    out.extend_from_slice(pn_bytes.as_slice());
    proof {
        assert(out@ =~= ad_bind_spec(ad@, tag@, count, pn));
    }
    out
}

/// A cache entry correctly derived from the receive chain: its key and
/// nonce are the message material at its index, reached by advancing
/// the chain from position `from`.
pub open spec fn cache_entry_derived(e: SkippedKey, base: Seq<u8>, from: u64, sd: Seq<u8>) -> bool {
    &&& from <= e.index
    &&& e.key@ == msg_key_spec(chain_at(base, from, e.index, sd), e.index, sd)
    &&& e.nonce@ == msg_nonce_spec(chain_at(base, from, e.index, sd), e.index, sd)
}

/// Room for every position about to be passed over: the cache can take
/// them all without evicting, and none of them is already cached.
pub open spec fn cache_roomy(st: RatchetState, to: u64) -> bool {
    &&& st.skipped_message_keys@.len() + (to - st.recv_count) <= st.max_skip
    &&& forall|k: u64|
        st.recv_count <= k < to ==> !#[trigger] skipped_has(st.skipped_message_keys@, k)
}

/// The cache holds exactly the derived message material for position
/// `k` of the chain advanced from `from`.
pub open spec fn cache_has_derived(
    cache: Seq<SkippedKey>,
    base: Seq<u8>,
    from: u64,
    k: u64,
    sd: Seq<u8>,
) -> bool {
    &&& skipped_has(cache, k)
    &&& skipped_lookup(cache, k) == (
        msg_key_spec(chain_at(base, from, k, sd), k, sd),
        msg_nonce_spec(chain_at(base, from, k, sd), k, sd),
    )
}

/// Advance the receive chain up to position `to`, caching the message
/// material of every position passed over. Afterwards every cache entry
/// either was already cached or is correctly derived material of a
/// passed-over position; no other field changes.
fn skip_chain_to(state: &mut RatchetState, to: u64)
    requires
        old(state).wf_cache(),
        old(state).recv_count <= to,
    ensures
        final(state).wf_cache(),
        final(state).recv_count == to,
        final(state).recv_chain_key@ == chain_at(
            old(state).recv_chain_key@,
            old(state).recv_count,
            to,
            old(state).combined_digest@,
        ),
        forall|i: int|
            0 <= i < final(state).skipped_message_keys@.len() ==> skipped_entry_in(
                old(state).skipped_message_keys@,
                #[trigger] final(state).skipped_message_keys@[i],
            ) || (old(state).recv_count <= final(state).skipped_message_keys@[i].index < to
                && cache_entry_derived(
                final(state).skipped_message_keys@[i],
                old(state).recv_chain_key@,
                old(state).recv_count,
                old(state).combined_digest@,
            )),
        final(state).root_key == old(state).root_key,
        final(state).send_chain_key == old(state).send_chain_key,
        final(state).send_label == old(state).send_label,
        final(state).recv_label == old(state).recv_label,
        final(state).send_count == old(state).send_count,
        final(state).previous_send_count == old(state).previous_send_count,
        final(state).local_ratchet_private == old(state).local_ratchet_private,
        final(state).local_ratchet_public == old(state).local_ratchet_public,
        final(state).remote_ratchet_public == old(state).remote_ratchet_public,
        final(state).combined_digest == old(state).combined_digest,
        final(state).local_digest == old(state).local_digest,
        final(state).remote_digest == old(state).remote_digest,
        final(state).max_skip == old(state).max_skip,
        final(state).recv_chain_key@.len() == 32 || final(state).recv_chain_key@ == old(
            state,
        ).recv_chain_key@,
        cache_roomy(*old(state), to) ==> forall|k: u64|
            old(state).recv_count <= k < to ==> cache_has_derived(
                final(state).skipped_message_keys@,
                old(state).recv_chain_key@,
                old(state).recv_count,
                k,
                old(state).combined_digest@,
            ),
{
    let ghost c0 = old(state).recv_chain_key@;
    let ghost from0 = old(state).recv_count;
    let ghost cache0 = old(state).skipped_message_keys@;
    while state.recv_count < to
        invariant
            state.wf_cache(),
            from0 <= state.recv_count <= to,
            state.recv_chain_key@ == chain_at(c0, from0, state.recv_count, state.combined_digest@),
            forall|i: int|
                0 <= i < state.skipped_message_keys@.len() ==> skipped_entry_in(
                    cache0,
                    #[trigger] state.skipped_message_keys@[i],
                ) || (from0 <= state.skipped_message_keys@[i].index < state.recv_count
                    && cache_entry_derived(
                    state.skipped_message_keys@[i],
                    c0,
                    from0,
                    state.combined_digest@,
                )),
            state.root_key == old(state).root_key,
            state.send_chain_key == old(state).send_chain_key,
            state.send_label == old(state).send_label,
            state.recv_label == old(state).recv_label,
            state.send_count == old(state).send_count,
            state.previous_send_count == old(state).previous_send_count,
            state.local_ratchet_private == old(state).local_ratchet_private,
            state.local_ratchet_public == old(state).local_ratchet_public,
            state.remote_ratchet_public == old(state).remote_ratchet_public,
            state.combined_digest == old(state).combined_digest,
            state.local_digest == old(state).local_digest,
            state.remote_digest == old(state).remote_digest,
            state.max_skip == old(state).max_skip,
            state.recv_chain_key@.len() == 32 || state.recv_chain_key@ == c0,
            from0 == old(state).recv_count,
            cache0 == old(state).skipped_message_keys@,
            c0 == old(state).recv_chain_key@,
            cache_roomy(*old(state), to) ==> {
                &&& state.skipped_message_keys@.len() == cache0.len() + (state.recv_count - from0)
                &&& forall|k: u64|
                    #[trigger] skipped_has(state.skipped_message_keys@, k) <==> (skipped_has(
                        cache0,
                        k,
                    ) || from0 <= k < state.recv_count)
                &&& forall|k: u64|
                    from0 <= k < state.recv_count ==> cache_has_derived(
                        state.skipped_message_keys@,
                        c0,
                        from0,
                        k,
                        state.combined_digest@,
                    )
            },
        decreases to - state.recv_count,
    {
        let idx = state.recv_count;
        let ghost cache_pre = state.skipped_message_keys@;
        let (msg_key, next_chain, skipped_nonce) = derive_message_material(
            state.recv_chain_key.as_slice(),
            idx,
            state.combined_digest.as_slice(),
        );
        wipe_vec(&mut state.recv_chain_key);
        state.recv_chain_key = next_chain;
        let ghost mkv = msg_key@;
        let ghost nnv = skipped_nonce@;
        state.store_skipped_key(idx, msg_key, skipped_nonce);
        proof {
            lemma_chain_at_snoc(c0, from0, idx, state.combined_digest@);
            let cache_post = state.skipped_message_keys@;
            assert(mkv == msg_key_spec(chain_at(c0, from0, idx, state.combined_digest@), idx, state.combined_digest@));
            assert(nnv == msg_nonce_spec(chain_at(c0, from0, idx, state.combined_digest@), idx, state.combined_digest@));
            assert forall|i: int|
                0 <= i < cache_post.len() implies skipped_entry_in(
                cache0,
                #[trigger] cache_post[i],
            ) || (from0 <= cache_post[i].index < idx + 1 && cache_entry_derived(
                cache_post[i],
                c0,
                from0,
                state.combined_digest@,
            )) by {
                let e = cache_post[i];
                if e.index == idx {
                    let p = skipped_index_of(cache_post, idx);
                    assert(0 <= p < cache_post.len() && cache_post[p].index == idx);
                    assert(cache_post[p] == e);
                    assert(e.key@ == mkv && e.nonce@ == nnv);
                } else {
                    assert(skipped_entry_in(cache_pre, e));
                    let j = choose|j: int|
                        0 <= j < cache_pre.len() && cache_pre[j].index == e.index
                            && cache_pre[j].key@ == e.key@ && cache_pre[j].nonce@ == e.nonce@;
                    if skipped_entry_in(cache0, cache_pre[j]) {
                        let k = choose|k: int|
                            0 <= k < cache0.len() && cache0[k].index == cache_pre[j].index
                                && cache0[k].key@ == cache_pre[j].key@ && cache0[k].nonce@
                                == cache_pre[j].nonce@;
                        assert(0 <= k < cache0.len() && cache0[k].index == e.index && cache0[k].key@
                            == e.key@ && cache0[k].nonce@ == e.nonce@);
                    }
                }
            }
            if cache_roomy(*old(state), to) {
                let cd = state.combined_digest@;
                assert(skipped_unique(cache_pre));
                assert(old(state).skipped_message_keys@.len() + (to - old(state).recv_count)
                    <= old(state).max_skip);
                assert(!skipped_has(old(state).skipped_message_keys@, idx));
                assert(!skipped_has(cache0, idx));
                assert(!skipped_has(cache_pre, idx));
                assert(cache_pre.len() < state.max_skip);
                assert forall|k: u64|
                    #[trigger] skipped_has(cache_post, k) <==> (skipped_has(cache0, k) || from0 <= k
                        < idx + 1) by {
                    if skipped_has(cache_post, k) {
                        let p = choose|p: int|
                            0 <= p < cache_post.len() && cache_post[p].index == k;
                        if p < cache_post.len() - 1 {
                            assert(cache_post[p] == cache_pre[p]);
                            assert(skipped_has(cache_pre, k));
                        } else {
                            assert(cache_post[p].index == idx);
                        }
                    }
                    if skipped_has(cache0, k) || from0 <= k < idx + 1 {
                        if skipped_has(cache_pre, k) {
                            let p = choose|p: int|
                                0 <= p < cache_pre.len() && cache_pre[p].index == k;
                            assert(cache_post[p] == cache_pre[p]);
                            assert(skipped_has(cache_post, k));
                        } else {
                            assert(k == idx);
                            assert(cache_post[cache_post.len() - 1].index == idx);
                            assert(skipped_has(cache_post, idx));
                        }
                    }
                }
                assert forall|k: u64|
                    from0 <= k < idx + 1 implies cache_has_derived(
                    cache_post,
                    c0,
                    from0,
                    k,
                    cd,
                ) by {
                    if k < idx {
                        assert(cache_has_derived(cache_pre, c0, from0, k, cd));
                        let pp = skipped_index_of(cache_pre, k);
                        assert(0 <= pp < cache_pre.len() && cache_pre[pp].index == k);
                        assert(cache_post[pp] == cache_pre[pp]);
                        assert forall|j: int|
                            0 <= j < cache_post.len() && cache_post[j].index == k implies j
                            == pp by {
                            if j < cache_post.len() - 1 {
                                assert(cache_post[j] == cache_pre[j]);
                            } else {
                                assert(cache_post[j].index == idx);
                            }
                        }
                        assert(skipped_has(cache_post, k));
                        assert(skipped_index_of(cache_post, k) == pp);
                        assert(skipped_lookup(cache_post, k) == skipped_lookup(cache_pre, k));
                    } else {
                        assert(skipped_lookup(cache_post, idx) == (mkv, nnv));
                    }
                }
                assert(cache_post.len() == cache_pre.len() + 1);
            }
        }
        state.recv_count = idx + 1;
    }
}

/// What holds of a post-pulse root: decapsulating the packet's KEM
/// ciphertext with any secret key whose public counterpart was the
/// encapsulation target, and mixing the result into the old root,
/// yields the new root.
pub open spec fn pulse_root_ok(
    old_root: Seq<u8>,
    remote_pub: Seq<u8>,
    kem_ct: Seq<u8>,
    sd: Seq<u8>,
    new_root: Seq<u8>,
) -> bool {
    forall|sk: Seq<u8>|
        kem_pub_of(sk) == remote_pub ==> new_root == mix_root_spec(
            old_root,
            #[trigger] kem_decap_of(kem_ct, sk),
            sd,
        )
}

/// One wire unit: header fields, KEM material, semantic tag and AEAD
/// ciphertext. The nonce lives in memory only; it is never put on the
/// wire.
#[derive(Clone, Debug)]
pub struct Packet {
    pub version: u8,
    pub count: u64,
    pub pn: u64,
    pub ratchet_pub: Vec<u8>,
    pub kem_ciphertext: Vec<u8>,
    pub semantic_tag: Vec<u8>,
    pub ciphertext: Vec<u8>,
    pub nonce: Option<Vec<u8>>,
}

/// What a symmetric-flow encryption leaves behind: the packet seals the
/// plaintext under the message key at the current send-chain position,
/// binding the semantic tag and the counters into the associated data;
/// the send chain advances one step and the send count by one; nothing
/// else changes.
pub open spec fn encrypt_flow_ok(
    old_st: RatchetState,
    st: RatchetState,
    p: Packet,
    pt: Seq<u8>,
    ad: Seq<u8>,
) -> bool {
    let cd = old_st.combined_digest@;
    let mk = msg_key_spec(old_st.send_chain_key@, old_st.send_count, cd);
    let nn = msg_nonce_spec(old_st.send_chain_key@, old_st.send_count, cd);
    let tag = semantic_tag_spec(cd, old_st.send_count);
    let adb = ad_bind_spec(ad, tag, old_st.send_count, old_st.previous_send_count);
    &&& p.version == 1
    &&& p.count == old_st.send_count
    &&& p.pn == old_st.previous_send_count
    &&& p.kem_ciphertext@.len() == 0
    &&& p.ratchet_pub@ == old_st.local_ratchet_public@
    &&& p.semantic_tag@ == tag
    &&& p.ciphertext@ == aead_enc_of(mk, nn, pt, adb)
    &&& p.ciphertext@.len() == pt.len() + 16
    &&& aead_dec_of(mk, nn, p.ciphertext@, adb) == Some(pt)
    &&& p.nonce matches Some(n) && n@ == nn
    &&& st.root_key == old_st.root_key
    &&& st.send_chain_key@ == next_chain_spec(old_st.send_chain_key@, old_st.send_count, cd)
    &&& st.recv_chain_key == old_st.recv_chain_key
    &&& st.send_label == old_st.send_label
    &&& st.recv_label == old_st.recv_label
    &&& st.send_count == old_st.send_count + 1
    &&& st.recv_count == old_st.recv_count
    &&& st.previous_send_count == old_st.previous_send_count
    &&& st.local_ratchet_private == old_st.local_ratchet_private
    &&& st.local_ratchet_public == old_st.local_ratchet_public
    &&& st.remote_ratchet_public == old_st.remote_ratchet_public
    &&& st.combined_digest == old_st.combined_digest
    &&& st.local_digest == old_st.local_digest
    &&& st.remote_digest == old_st.remote_digest
    &&& st.skipped_message_keys == old_st.skipped_message_keys
    &&& st.max_skip == old_st.max_skip
}

/// What a pulse encryption leaves behind: a fresh KEM encapsulation
/// against the peer's ratchet key advances the root; both chains are
/// re-seeded; the packet carries the KEM ciphertext, the new local
/// public key, count 0 and the previous epoch's send count; the message
/// is sealed under position 0 of the new send chain; a fresh local
/// keypair replaces the old one.
pub open spec fn encrypt_pulse_ok(
    old_st: RatchetState,
    st: RatchetState,
    p: Packet,
    pt: Seq<u8>,
    ad: Seq<u8>,
) -> bool {
    let cd = old_st.combined_digest@;
    let chain0 = chain_seed_spec(st.root_key@, cd, old_st.send_label@);
    let mk = msg_key_spec(chain0, 0, cd);
    let nn = msg_nonce_spec(chain0, 0, cd);
    let tag = semantic_tag_spec(cd, 0);
    let adb = ad_bind_spec(ad, tag, 0, old_st.send_count);
    &&& p.version == 1
    &&& p.count == 0
    &&& p.pn == old_st.send_count
    &&& p.kem_ciphertext@.len() == KEM_CIPHERTEXT_LEN
    &&& old_st.remote_ratchet_public matches Some(rp) && pulse_root_ok(
        old_st.root_key@,
        rp@,
        p.kem_ciphertext@,
        cd,
        st.root_key@,
    )
    &&& st.root_key@.len() == 32
    &&& p.ratchet_pub@ == st.local_ratchet_public@
    &&& p.semantic_tag@ == tag
    &&& p.ciphertext@ == aead_enc_of(mk, nn, pt, adb)
    &&& p.ciphertext@.len() == pt.len() + 16
    &&& aead_dec_of(mk, nn, p.ciphertext@, adb) == Some(pt)
    &&& p.nonce matches Some(n) && n@ == nn
    &&& st.send_chain_key@ == next_chain_spec(chain0, 0, cd)
    &&& st.recv_chain_key@ == chain_seed_spec(st.root_key@, cd, old_st.recv_label@)
    &&& st.send_label == old_st.send_label
    &&& st.recv_label == old_st.recv_label
    &&& st.send_count == 1
    &&& st.recv_count == old_st.recv_count
    &&& st.previous_send_count == old_st.send_count
    &&& st.local_ratchet_public@ == kem_pub_of(st.local_ratchet_private@)
    &&& st.local_ratchet_public@.len() == KEM_PUBLIC_LEN
    &&& st.local_ratchet_private@.len() == KEM_SECRET_LEN
    &&& st.remote_ratchet_public == old_st.remote_ratchet_public
    &&& st.combined_digest == old_st.combined_digest
    &&& st.local_digest == old_st.local_digest
    &&& st.remote_digest == old_st.remote_digest
    &&& st.skipped_message_keys == old_st.skipped_message_keys
    &&& st.max_skip == old_st.max_skip
}

/// The root that processing a pulse packet installs: the packet's KEM
/// ciphertext decapsulated with the local ratchet secret, mixed into
/// the current root.
pub open spec fn decrypt_new_root(st: RatchetState, p: Packet) -> Seq<u8> {
    mix_root_spec(
        st.root_key@,
        kem_decap_of(p.kem_ciphertext@, st.local_ratchet_private@),
        st.combined_digest@,
    )
}

/// The receive chain a packet's message is keyed on: after a pulse the
/// chain re-seeded from the new root, otherwise the current receive
/// chain.
pub open spec fn decrypt_base_chain(st: RatchetState, p: Packet) -> Seq<u8> {
    if p.kem_ciphertext@.len() != 0 {
        chain_seed_spec(decrypt_new_root(st, p), st.combined_digest@, st.recv_label@)
    } else {
        st.recv_chain_key@
    }
}

/// The position that chain starts from: 0 after a pulse, else the
/// current receive count.
pub open spec fn decrypt_base_from(st: RatchetState, p: Packet) -> u64 {
    if p.kem_ciphertext@.len() != 0 {
        0
    } else {
        st.recv_count
    }
}

/// The chain value at the packet's position.
pub open spec fn decrypt_chain_key(st: RatchetState, p: Packet) -> Seq<u8> {
    chain_at(decrypt_base_chain(st, p), decrypt_base_from(st, p), p.count, st.combined_digest@)
}

/// The message key the packet is decrypted under.
pub open spec fn decrypt_mk(st: RatchetState, p: Packet) -> Seq<u8> {
    msg_key_spec(decrypt_chain_key(st, p), p.count, st.combined_digest@)
}

/// The nonce the packet is decrypted under.
pub open spec fn decrypt_nn(st: RatchetState, p: Packet) -> Seq<u8> {
    msg_nonce_spec(decrypt_chain_key(st, p), p.count, st.combined_digest@)
}

/// A successful decryption out of the skipped-key cache: the plaintext
/// is what the cached key and nonce recover, the entry leaves the
/// cache, and nothing else changes.
pub open spec fn decrypt_cached_ok(
    old_st: RatchetState,
    st: RatchetState,
    p: Packet,
    ad: Seq<u8>,
    pt: Seq<u8>,
) -> bool {
    let kn = skipped_lookup(old_st.skipped_message_keys@, p.count);
    &&& skipped_has(old_st.skipped_message_keys@, p.count)
    &&& (p.nonce matches Some(n) ==> n@ == kn.1)
    &&& aead_dec_of(kn.0, kn.1, p.ciphertext@, ad_bind_spec(ad, p.semantic_tag@, p.count, p.pn))
        == Some(pt)
    &&& cache_view(st.skipped_message_keys@) == cache_view(
        old_st.skipped_message_keys@.remove(
            skipped_index_of(old_st.skipped_message_keys@, p.count),
        ),
    )
    &&& st.root_key == old_st.root_key
    &&& st.send_chain_key == old_st.send_chain_key
    &&& st.recv_chain_key == old_st.recv_chain_key
    &&& st.send_label == old_st.send_label
    &&& st.recv_label == old_st.recv_label
    &&& st.send_count == old_st.send_count
    &&& st.recv_count == old_st.recv_count
    &&& st.previous_send_count == old_st.previous_send_count
    &&& st.local_ratchet_private == old_st.local_ratchet_private
    &&& st.local_ratchet_public == old_st.local_ratchet_public
    &&& st.remote_ratchet_public == old_st.remote_ratchet_public
    &&& st.combined_digest == old_st.combined_digest
    &&& st.local_digest == old_st.local_digest
    &&& st.remote_digest == old_st.remote_digest
    &&& st.max_skip == old_st.max_skip
}

/// Where an entry of the cache may come from after a chain decryption:
/// it was already cached; or it is passed-over material of the old
/// epoch's receive chain; or, for a pulse packet, passed-over material
/// of the new chain.
pub open spec fn decrypt_cache_entry_ok(old_st: RatchetState, p: Packet, e: SkippedKey) -> bool {
    let cd = old_st.combined_digest@;
    let is_pulse = p.kem_ciphertext@.len() != 0;
    ||| skipped_entry_in(old_st.skipped_message_keys@, e)
    ||| (old_st.recv_count <= e.index < (if is_pulse {
        p.pn
    } else {
        p.count
    }) && cache_entry_derived(e, old_st.recv_chain_key@, old_st.recv_count, cd))
    ||| (is_pulse && e.index < p.count && cache_entry_derived(
        e,
        decrypt_base_chain(old_st, p),
        0,
        cd,
    ))
}

/// A successful decryption on the receive chain: material for the
/// positions passed over goes to the cache, the plaintext is what the
/// derived key and nonce recover, the chain ends one step past the
/// packet, and after a pulse the new root, chains and peer key are
/// installed.
pub open spec fn decrypt_chain_ok(
    old_st: RatchetState,
    st: RatchetState,
    p: Packet,
    ad: Seq<u8>,
    pt: Seq<u8>,
) -> bool {
    let cd = old_st.combined_digest@;
    let is_pulse = p.kem_ciphertext@.len() != 0;
    let mk = decrypt_mk(old_st, p);
    let nn = decrypt_nn(old_st, p);
    &&& !skipped_has(old_st.skipped_message_keys@, p.count)
    &&& p.count >= decrypt_base_from(old_st, p)
    &&& (p.nonce matches Some(n) ==> n@ == nn)
    &&& aead_dec_of(mk, nn, p.ciphertext@, ad_bind_spec(ad, p.semantic_tag@, p.count, p.pn))
        == Some(pt)
    &&& st.recv_count == p.count + 1
    &&& st.recv_chain_key@ == next_chain_spec(decrypt_chain_key(old_st, p), p.count, cd)
    &&& (is_pulse ==> st.root_key@ == decrypt_new_root(old_st, p) && st.send_chain_key@
        == chain_seed_spec(st.root_key@, cd, old_st.send_label@) && opt_view(
        st.remote_ratchet_public,
    ) == Some(p.ratchet_pub@))
    &&& (!is_pulse ==> st.root_key == old_st.root_key && st.send_chain_key
        == old_st.send_chain_key && st.remote_ratchet_public == old_st.remote_ratchet_public)
    &&& st.send_label == old_st.send_label
    &&& st.recv_label == old_st.recv_label
    &&& st.send_count == old_st.send_count
    &&& st.previous_send_count == old_st.previous_send_count
    &&& st.local_ratchet_private == old_st.local_ratchet_private
    &&& st.local_ratchet_public == old_st.local_ratchet_public
    &&& st.combined_digest == old_st.combined_digest
    &&& st.local_digest == old_st.local_digest
    &&& st.remote_digest == old_st.remote_digest
    &&& st.max_skip == old_st.max_skip
    &&& forall|i: int|
        0 <= i < st.skipped_message_keys@.len() ==> decrypt_cache_entry_ok(
            old_st,
            p,
            #[trigger] st.skipped_message_keys@[i],
        )
    &&& (!is_pulse && cache_roomy(old_st, p.count) ==> forall|k: u64|
        old_st.recv_count <= k < p.count ==> cache_has_derived(
            st.skipped_message_keys@,
            old_st.recv_chain_key@,
            old_st.recv_count,
            k,
            cd,
        ))
}

/// On which packets decryption fails with each error, the state left
/// untouched: a tag not matching the expected semantic tag; a packet
/// nonce disagreeing with the cached or derived nonce; a cached key
/// failing to authenticate, or an index below the receive count,
/// meaning the message was already processed; ill-formed KEM material
/// on a pulse; or the AEAD rejecting under the derived key.
pub open spec fn decrypt_err_spec(
    old_st: RatchetState,
    p: Packet,
    ad: Seq<u8>,
    e: PQFSRError,
) -> bool {
    let cd = old_st.combined_digest@;
    let tag_ok = p.semantic_tag@ == semantic_tag_spec(cd, p.count);
    let cached = skipped_has(old_st.skipped_message_keys@, p.count);
    let kn = skipped_lookup(old_st.skipped_message_keys@, p.count);
    let is_pulse = p.kem_ciphertext@.len() != 0;
    let adb = ad_bind_spec(ad, p.semantic_tag@, p.count, p.pn);
    let kem_wf = !is_pulse || (p.kem_ciphertext@.len() == KEM_CIPHERTEXT_LEN
        && old_st.local_ratchet_private@.len() == KEM_SECRET_LEN);
    if e == PQFSRError::SemanticTagMismatch {
        !tag_ok
    } else if e == PQFSRError::NonceMismatch {
        tag_ok && ((cached && (p.nonce matches Some(n) && n@ != kn.1)) || (!cached && kem_wf
            && p.count >= decrypt_base_from(old_st, p) && (p.nonce matches Some(n) && n@
            != decrypt_nn(old_st, p))))
    } else if e == PQFSRError::MessageAlreadyProcessed {
        tag_ok && ((cached && (p.nonce matches Some(n) ==> n@ == kn.1) && aead_dec_of(
            kn.0,
            kn.1,
            p.ciphertext@,
            adb,
        ) is None) || (!cached && !is_pulse && p.count < old_st.recv_count))
    } else if e == PQFSRError::InvalidKeyFormat {
        tag_ok && !cached && !kem_wf
    } else if e == PQFSRError::DecryptionFailed {
        tag_ok && !cached && kem_wf && p.count >= decrypt_base_from(old_st, p) && (p.nonce matches
        Some(n) ==> n@ == decrypt_nn(old_st, p)) && aead_dec_of(
            decrypt_mk(old_st, p),
            decrypt_nn(old_st, p),
            p.ciphertext@,
            adb,
        ) is None
    } else {
        false
    }
}

/// The core forward-secret ratchet engine: bootstraps state, encrypts
/// with an adaptive KEM pulse, and decrypts with out-of-order recovery.
pub struct ForwardRatchet {
    /// The adaptive pulse strategy.
    pub strategy: OrganicStrategy,
    /// Skipped-key cache capacity given to bootstrapped states.
    pub max_skip: usize,
}

impl ForwardRatchet {
    /// Create an engine with the default balanced strategy.
    pub fn new(max_skip: usize) -> (r: ForwardRatchet)
        ensures
            r.max_skip == max_skip,
            r.strategy.mode == RatchetMode::BalancedFlow,
            r.strategy.metrics.consecutive_sends == 0,
            r.strategy.metrics.msgs_since_last_kem == 0,
            r.strategy.metrics.bytes_sent_since_last_kem == 0,
            r.strategy.max_entropy_decay_msgs == 50,
            r.strategy.max_entropy_decay_time == 300,
            r.strategy.max_entropy_decay_bytes == 1048576,
    {
        ForwardRatchet { strategy: OrganicStrategy::new(RatchetMode::BalancedFlow), max_skip }
    }

    /// Create an engine with a custom strategy.
    pub fn with_strategy(strategy: OrganicStrategy, max_skip: usize) -> (r: ForwardRatchet)
        ensures
            r.strategy == strategy,
            r.max_skip == max_skip,
    {
        ForwardRatchet { strategy, max_skip }
    }

    /// Generate a KEM keypair in byte form (public, secret).
    pub fn generate_kem_key_pair(&self) -> (r: (Vec<u8>, Vec<u8>))
        ensures
            r.0@.len() == KEM_PUBLIC_LEN,
            r.1@.len() == KEM_SECRET_LEN,
            r.0@ == kem_pub_of(r.1@),
    {
        kem_keypair()
    }

    /// Bootstrap a fresh ratchet state from a shared secret and the
    /// semantic digests. The root is the first mix of the shared secret;
    /// both chains are seeded from it under the direction labels, the
    /// initiator sending on `"CHAIN|A2B"`; counters start at zero; the
    /// given keypair is installed, or a fresh one generated.
    pub fn bootstrap(
        &self,
        shared_secret: &[u8],
        combined_digest: &[u8],
        local_digest: &[u8],
        remote_digest: Option<&Vec<u8>>,
        is_initiator: bool,
        local_key_pair: Option<(Vec<u8>, Vec<u8>)>,
    ) -> (r: RatchetState)
        ensures
            r.root_key@ == mix_root_spec(zeros32(), shared_secret@, combined_digest@),
            r.send_label@ == if is_initiator {
                label_a2b_spec()
            } else {
                label_b2a_spec()
            },
            r.recv_label@ == if is_initiator {
                label_b2a_spec()
            } else {
                label_a2b_spec()
            },
            r.send_chain_key@ == chain_seed_spec(r.root_key@, combined_digest@, r.send_label@),
            r.recv_chain_key@ == chain_seed_spec(r.root_key@, combined_digest@, r.recv_label@),
            r.send_count == 0,
            r.recv_count == 0,
            r.previous_send_count == 0,
            match local_key_pair {
                Some(kp) => r.local_ratchet_public@ == kp.0@ && r.local_ratchet_private@ == kp.1@,
                None => r.local_ratchet_public@ == kem_pub_of(r.local_ratchet_private@)
                    && r.local_ratchet_public@.len() == KEM_PUBLIC_LEN
                    && r.local_ratchet_private@.len() == KEM_SECRET_LEN,
            },
            r.remote_ratchet_public is None,
            r.combined_digest@ == combined_digest@,
            r.local_digest@ == local_digest@,
            match remote_digest {
                Some(d) => r.remote_digest matches Some(v) && v@ == d@,
                None => r.remote_digest is None,
            },
            r.skipped_message_keys@.len() == 0,
            r.max_skip == self.max_skip,
            r.wf_cache(),
            r.root_key@.len() == 32,
            r.send_chain_key@.len() == 32,
            r.recv_chain_key@.len() == 32,
    {
        let root = mix_root(None, shared_secret, combined_digest);
        let (send_label, recv_label) = if is_initiator {
            (label_a2b(), label_b2a())
        } else {
            (label_b2a(), label_a2b())
        };
        let send_chain = derive_chain_seed(root.as_slice(), combined_digest, send_label.as_slice());
        let recv_chain = derive_chain_seed(root.as_slice(), combined_digest, recv_label.as_slice());
        let (local_public, local_private) = match local_key_pair {
            Some(kp) => kp,
            None => self.generate_kem_key_pair(),
        };
        let mut combined: Vec<u8> = Vec::new();
        combined.extend_from_slice(combined_digest);
        let mut local: Vec<u8> = Vec::new();
        local.extend_from_slice(local_digest);
        let remote: Option<Vec<u8>> = match remote_digest {
            Some(d) => {
                let mut v: Vec<u8> = Vec::new();
                v.extend_from_slice(d.as_slice());
                Some(v)
            },
            None => None,
        };
        RatchetState {
            root_key: root,
            send_chain_key: send_chain,
            recv_chain_key: recv_chain,
            send_label,
            recv_label,
            send_count: 0,
            recv_count: 0,
            previous_send_count: 0,
            local_ratchet_private: local_private,
            local_ratchet_public: local_public,
            remote_ratchet_public: None,
            combined_digest: combined,
            local_digest: local,
            remote_digest: remote,
            skipped_message_keys: Vec::new(),
            max_skip: self.max_skip,
        }
    }

    /// Encrypt one message. The strategy decides whether this message
    /// carries a KEM pulse; a burst (consecutive sends) never pulses,
    /// while MaximumSecurity, a reached decay threshold or a message
    /// larger than 1024 bytes forces one. Succeeds whenever the peer
    /// ratchet key is present and well-formed; fails with
    /// `InvalidSessionState` when it is absent and `InvalidKeyFormat`
    /// when it has the wrong length, leaving the state untouched.
    pub fn encrypt(
        &mut self,
        state: &mut RatchetState,
        plaintext: &[u8],
        associated_data: &[u8],
    ) -> (r: Result<Packet, PQFSRError>)
        requires
            old(state).wf_cache(),
            old(state).send_count < u64::MAX,
            plaintext@.len() <= 0xFFFF_FFFF,
            associated_data@.len() <= 0xFFFF_FF00,
        ensures
            final(state).wf_cache(),
            match r {
                Ok(p) => {
                    &&& (p.kem_ciphertext@.len() == 0 ==> encrypt_flow_ok(
                        *old(state),
                        *final(state),
                        p,
                        plaintext@,
                        associated_data@,
                    ))
                    &&& (p.kem_ciphertext@.len() != 0 ==> encrypt_pulse_ok(
                        *old(state),
                        *final(state),
                        p,
                        plaintext@,
                        associated_data@,
                    ))
                    &&& (old(self).strategy.metrics.consecutive_sends > 0 ==> p.kem_ciphertext@.len()
                        == 0)
                    &&& (old(self).strategy.metrics.consecutive_sends == 0 && (old(self).strategy.mode == RatchetMode::MaximumSecurity || old(self).strategy.metrics.msgs_since_last_kem >= old(self).strategy.max_entropy_decay_msgs || old(self).strategy.metrics.bytes_sent_since_last_kem >= old(self).strategy.max_entropy_decay_bytes || plaintext@.len() > 1024)
                        ==> p.kem_ciphertext@.len() != 0)
                },
                Err(e) => {
                    &&& *final(state) == *old(state)
                    &&& *final(self) == *old(self)
                    &&& (e == PQFSRError::InvalidSessionState && old(state).remote_ratchet_public
                        is None || e == PQFSRError::InvalidKeyFormat && (old(
                        state,
                    ).remote_ratchet_public matches Some(rp) && rp@.len() != KEM_PUBLIC_LEN))
                },
            },
            old(state).remote_ratchet_public matches Some(rp) && rp@.len() == KEM_PUBLIC_LEN
                ==> r is Ok,
            r is Ok ==> old(state).remote_ratchet_public is Some,
            final(self).max_skip == old(self).max_skip,
            final(self).strategy.mode == old(self).strategy.mode,
            final(self).strategy.max_entropy_decay_msgs == old(self).strategy.max_entropy_decay_msgs,
            final(self).strategy.max_entropy_decay_time == old(self).strategy.max_entropy_decay_time,
            final(self).strategy.max_entropy_decay_bytes == old(self).strategy.max_entropy_decay_bytes,
            match r {
                Ok(p) => {
                    &&& final(self).strategy.metrics.consecutive_sends == sat_add64(
                        old(self).strategy.metrics.consecutive_sends,
                        1,
                    )
                    &&& (p.kem_ciphertext@.len() != 0
                        ==> final(self).strategy.metrics.msgs_since_last_kem == 0 && final(self).strategy.metrics.bytes_sent_since_last_kem == 0)
                    &&& (p.kem_ciphertext@.len() == 0
                        ==> final(self).strategy.metrics.msgs_since_last_kem == sat_add64(
                        old(self).strategy.metrics.msgs_since_last_kem,
                        1,
                    ) && final(self).strategy.metrics.bytes_sent_since_last_kem == sat_add64(
                        old(self).strategy.metrics.bytes_sent_since_last_kem,
                        plaintext@.len() as u64,
                    ) && final(self).strategy.metrics.time_last_kem == old(self).strategy.metrics.time_last_kem)
                },
                Err(_) => *final(self) == *old(self),
            },
    {
        if state.remote_ratchet_public.is_none() {
            return Err(PQFSRError::InvalidSessionState);
        }
        let do_pulse = self.strategy.should_trigger_quantum_pulse(plaintext.len());

        let mut kem_ciphertext: Vec<u8> = Vec::new();
        let pn: u64;

        if do_pulse {
            let remote_ok = match &state.remote_ratchet_public {
                Some(rp) => rp.len() == KEM_PUBLIC_LEN,
                None => false,
            };
            if !remote_ok {
                return Err(PQFSRError::InvalidKeyFormat);
            }
            let (ct, shared_secret) = match &state.remote_ratchet_public {
                Some(rp) => kem_encapsulate(rp.as_slice()),
                None => {
                    return Err(PQFSRError::InvalidSessionState);
                },
            };

            let new_root = mix_root(
                Some(&state.root_key),
                shared_secret.as_slice(),
                state.combined_digest.as_slice(),
            );
            wipe_vec(&mut state.root_key);
            state.root_key = new_root;

            let new_send_chain = derive_chain_seed(
                state.root_key.as_slice(),
                state.combined_digest.as_slice(),
                state.send_label.as_slice(),
            );
            wipe_vec(&mut state.send_chain_key);
            state.send_chain_key = new_send_chain;
            let new_recv_chain = derive_chain_seed(
                state.root_key.as_slice(),
                state.combined_digest.as_slice(),
                state.recv_label.as_slice(),
            );
            wipe_vec(&mut state.recv_chain_key);
            state.recv_chain_key = new_recv_chain;

            let (new_public, new_private) = kem_keypair();
            wipe_vec(&mut state.local_ratchet_private);
            state.local_ratchet_private = new_private;
            state.local_ratchet_public = new_public;

            state.previous_send_count = state.send_count;
            state.send_count = 0;
            pn = state.previous_send_count;

            kem_ciphertext = ct;
            self.strategy.record_pulse();
        } else {
            self.strategy.record_flow(plaintext.len());
            pn = state.previous_send_count;
        }

        let (message_key, next_chain, nonce) = derive_message_material(
            state.send_chain_key.as_slice(),
            state.send_count,
            state.combined_digest.as_slice(),
        );
        wipe_vec(&mut state.send_chain_key);
        state.send_chain_key = next_chain;

        let semantic_tag = compute_semantic_tag(state.combined_digest.as_slice(), state.send_count);

        let ad_bind = build_ad_bind(
            associated_data,
            semantic_tag.as_slice(),
            state.send_count,
            pn,
        );

        let ciphertext = aead_encrypt(
            message_key.as_slice(),
            nonce.as_slice(),
            plaintext,
            ad_bind.as_slice(),
        );
        let mut used_key = message_key;
        wipe_vec(&mut used_key);

        let count = state.send_count;
        state.send_count = state.send_count + 1;

        let mut ratchet_pub: Vec<u8> = Vec::new();
        ratchet_pub.extend_from_slice(state.local_ratchet_public.as_slice());
        proof {
            assert(ratchet_pub@ =~= state.local_ratchet_public@);
        }

        Ok(
            Packet {
                version: 1,
                count,
                pn,
                ratchet_pub,
                kem_ciphertext,
                semantic_tag,
                ciphertext,
                nonce: Some(nonce),
            },
        )
    }

    /// Decrypt one packet. A packet whose semantic tag does not bind
    /// this session's combined digest and the packet's index is
    /// rejected. A packet whose index is cached is decrypted out of the
    /// cache, which only then loses the entry. A pulse packet first
    /// caches the rest of the old epoch's chain, then advances the root
    /// through its KEM ciphertext. Skipped positions of the current
    /// chain are cached before the packet's own position is keyed. On
    /// any failure the state is exactly as it was before the call.
    pub fn decrypt(
        &mut self,
        state: &mut RatchetState,
        packet: &Packet,
        associated_data: &[u8],
    ) -> (r: Result<Vec<u8>, PQFSRError>)
        requires
            old(state).wf_cache(),
            packet.count < u64::MAX,
            associated_data@.len() <= 0xFFFF_FF00,
        ensures
            final(state).wf_cache(),
            match r {
                Ok(pt) => {
                    &&& packet.semantic_tag@ == semantic_tag_spec(
                        old(state).combined_digest@,
                        packet.count,
                    )
                    &&& (decrypt_cached_ok(
                        *old(state),
                        *final(state),
                        *packet,
                        associated_data@,
                        pt@,
                    ) || decrypt_chain_ok(
                        *old(state),
                        *final(state),
                        *packet,
                        associated_data@,
                        pt@,
                    ))
                    &&& final(self).strategy.metrics.consecutive_sends == 0
                    &&& final(self).strategy.mode == old(self).strategy.mode
                    &&& final(self).max_skip == old(self).max_skip
                },
                Err(e) => {
                    &&& final(state).views_eq(*old(state))
                    &&& *final(self) == *old(self)
                    &&& decrypt_err_spec(*old(state), *packet, associated_data@, e)
                },
            },
    {
        let message_index = packet.count;
        let expected = compute_semantic_tag(state.combined_digest.as_slice(), message_index);
        if !constant_time_eq(expected.as_slice(), packet.semantic_tag.as_slice()) {
            return Err(PQFSRError::SemanticTagMismatch);
        }
        match state.peek_skipped_key(message_index) {
            Some((cached_key, cached_nonce)) => {
                match &packet.nonce {
                    Some(pn_) => {
                        if !constant_time_eq(cached_nonce.as_slice(), pn_.as_slice()) {
                            return Err(PQFSRError::NonceMismatch);
                        }
                    },
                    None => {},
                }
                let ad_bind = build_ad_bind(
                    associated_data,
                    packet.semantic_tag.as_slice(),
                    message_index,
                    packet.pn,
                );
                match aead_decrypt(
                    cached_key.as_slice(),
                    cached_nonce.as_slice(),
                    packet.ciphertext.as_slice(),
                    ad_bind.as_slice(),
                ) {
                    Ok(plaintext) => {
                        match state.recover_skipped_key(message_index) {
                            Some((mut k, mut n)) => {
                                wipe_vec(&mut k);
                                wipe_vec(&mut n);
                            },
                            None => {},
                        }
                        self.strategy.record_reception();
                        Ok(plaintext)
                    },
                    Err(_) => Err(PQFSRError::MessageAlreadyProcessed),
                }
            },
            None => {
                let is_pulse = packet.kem_ciphertext.len() > 0;
                if is_pulse && (packet.kem_ciphertext.len() != KEM_CIPHERTEXT_LEN
                    || state.local_ratchet_private.len() != KEM_SECRET_LEN) {
                    return Err(PQFSRError::InvalidKeyFormat);
                }
                let snap = state.snapshot();
                if is_pulse {
                    if state.recv_count < packet.pn {
                        skip_chain_to(state, packet.pn);
                    }
                    let shared_secret = kem_decapsulate(
                        packet.kem_ciphertext.as_slice(),
                        state.local_ratchet_private.as_slice(),
                    );
                    let new_root = mix_root(
                        Some(&state.root_key),
                        shared_secret.as_slice(),
                        state.combined_digest.as_slice(),
                    );
                    wipe_vec(&mut state.root_key);
                    state.root_key = new_root;
                    state.remote_ratchet_public = Some(clone_bytes(&packet.ratchet_pub));
                    let new_send = derive_chain_seed(
                        state.root_key.as_slice(),
                        state.combined_digest.as_slice(),
                        state.send_label.as_slice(),
                    );
                    wipe_vec(&mut state.send_chain_key);
                    state.send_chain_key = new_send;
                    let new_recv = derive_chain_seed(
                        state.root_key.as_slice(),
                        state.combined_digest.as_slice(),
                        state.recv_label.as_slice(),
                    );
                    wipe_vec(&mut state.recv_chain_key);
                    state.recv_chain_key = new_recv;
                    state.recv_count = 0;
                }
                if message_index < state.recv_count {
                    *state = snap;
                    return Err(PQFSRError::MessageAlreadyProcessed);
                }
                let ghost mid_cache = state.skipped_message_keys@;
                let ghost mid_chain = state.recv_chain_key@;
                let ghost mid_from = state.recv_count;
                skip_chain_to(state, message_index);
                let (message_key, next_chain, derived_nonce) = derive_message_material(
                    state.recv_chain_key.as_slice(),
                    state.recv_count,
                    state.combined_digest.as_slice(),
                );
                wipe_vec(&mut state.recv_chain_key);
                state.recv_chain_key = next_chain;
                proof {
                    assert(mid_chain == decrypt_base_chain(*old(state), *packet));
                    assert(mid_from == decrypt_base_from(*old(state), *packet));
                    assert(message_key@ == decrypt_mk(*old(state), *packet));
                    assert(derived_nonce@ == decrypt_nn(*old(state), *packet));
                }
                match &packet.nonce {
                    Some(pn_) => {
                        if !constant_time_eq(derived_nonce.as_slice(), pn_.as_slice()) {
                            *state = snap;
                            return Err(PQFSRError::NonceMismatch);
                        }
                    },
                    None => {},
                }
                let ad_bind = build_ad_bind(
                    associated_data,
                    packet.semantic_tag.as_slice(),
                    message_index,
                    packet.pn,
                );
                match aead_decrypt(
                    message_key.as_slice(),
                    derived_nonce.as_slice(),
                    packet.ciphertext.as_slice(),
                    ad_bind.as_slice(),
                ) {
                    Ok(plaintext) => {
                        state.recv_count = message_index + 1;
                        self.strategy.record_reception();
                        proof {
                            let st = *state;
                            let ost = *old(state);
                            if !is_pulse && cache_roomy(ost, packet.count) {
                                assert forall|k: u64|
                                    ost.recv_count <= k < packet.count implies cache_has_derived(
                                    st.skipped_message_keys@,
                                    ost.recv_chain_key@,
                                    ost.recv_count,
                                    k,
                                    ost.combined_digest@,
                                ) by {
                                    assert(cache_has_derived(
                                        st.skipped_message_keys@,
                                        mid_chain,
                                        mid_from,
                                        k,
                                        ost.combined_digest@,
                                    ));
                                }
                            }
                            assert forall|i: int|
                                0 <= i < st.skipped_message_keys@.len() implies decrypt_cache_entry_ok(
                                ost,
                                *packet,
                                #[trigger] st.skipped_message_keys@[i],
                            ) by {
                                let e = st.skipped_message_keys@[i];
                                if skipped_entry_in(mid_cache, e) {
                                    let j = choose|j: int|
                                        0 <= j < mid_cache.len() && mid_cache[j].index == e.index
                                            && mid_cache[j].key@ == e.key@ && mid_cache[j].nonce@
                                            == e.nonce@;
                                    assert(skipped_entry_in(ost.skipped_message_keys@, mid_cache[j])
                                        || (ost.recv_count <= mid_cache[j].index < packet.pn
                                        && cache_entry_derived(
                                        mid_cache[j],
                                        ost.recv_chain_key@,
                                        ost.recv_count,
                                        ost.combined_digest@,
                                    )));
                                    if skipped_entry_in(ost.skipped_message_keys@, mid_cache[j]) {
                                        let k = choose|k: int|
                                            0 <= k < ost.skipped_message_keys@.len()
                                                && ost.skipped_message_keys@[k].index
                                                == mid_cache[j].index
                                                && ost.skipped_message_keys@[k].key@
                                                == mid_cache[j].key@
                                                && ost.skipped_message_keys@[k].nonce@
                                                == mid_cache[j].nonce@;
                                        assert(0 <= k < ost.skipped_message_keys@.len()
                                            && ost.skipped_message_keys@[k].index == e.index
                                            && ost.skipped_message_keys@[k].key@ == e.key@
                                            && ost.skipped_message_keys@[k].nonce@ == e.nonce@);
                                    }
                                }
                            }
                        }
                        Ok(plaintext)
                    },
                    Err(_) => {
                        *state = snap;
                        Err(PQFSRError::DecryptionFailed)
                    },
                }
            },
        }
    }
}

} // verus!
